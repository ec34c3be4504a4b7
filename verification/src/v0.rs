//! Version 0.
//!
//! | Component | Offset | Size | Description
//! | :-------- | :----- | :--- | :----------
//! | Version   | 0      |  1   | ID version number; always zero
//! | Size      | 1      |  6   | Big-endian content size
//! | Hash      | 7      | 32   | Content hash

use vstd::prelude::*;
use core::cmp::Ordering;
use core::mem::MaybeUninit;
use vstd::std_specs::cmp::{PartialEqSpec, PartialOrdSpec};
use vstd::std_specs::maybe_uninit::MaybeUninitAdditionalSpecFns;
use crate::base64::{encoded, encoded_text};
use crate::bytes::{copy_in, copy_out, same_bytes, zeros};
use crate::digest::{blake3_digest, blake3_hash};
use crate::order::{compare_bytes, lex_order};
use crate::order::{lemma_encoded_preserves_order, lemma_lex_less_concat};
use crate::order::lemma_lex_less_irreflexive;
use crate::v0::raw::{bytes_of_all, lemma_raw_view_injective, RawOcidV0};

pub mod raw;

verus! {

/// Number of bytes of a version 0 identifier.
pub const LEN: usize = 39;

/// Number of characters of the Base64 text of a version 0 identifier.
pub const BASE64_LEN: usize = 52;

/// The number that six size bytes spell, most significant byte first.
pub open spec fn size_value(size: Seq<u8>) -> int
    recommends
        size.len() == 6,
{
    size[0] * 0x100_0000_0000 + size[1] * 0x1_0000_0000 + size[2] * 0x100_0000 + size[3] * 0x1_0000
        + size[4] * 0x100 + size[5]
}

/// The six bytes that spell `n`, most significant byte first.
pub open spec fn size_bytes(n: int) -> Seq<u8>
    recommends
        0 <= n < 0x1_0000_0000_0000,
{
    seq![
        (n / 0x100_0000_0000 % 256) as u8,
        (n / 0x1_0000_0000 % 256) as u8,
        (n / 0x100_0000 % 256) as u8,
        (n / 0x1_0000 % 256) as u8,
        (n / 0x100 % 256) as u8,
        (n % 256) as u8,
    ]
}

proof fn lemma_value_digits(s0: u8, s1: u8, s2: u8, s3: u8, s4: u8, s5: u8, v: u64)
    by (bit_vector)
    requires
        v == (s0 as u64) * 0x100_0000_0000 + (s1 as u64) * 0x1_0000_0000 + (s2 as u64)
            * 0x100_0000 + (s3 as u64) * 0x1_0000 + (s4 as u64) * 0x100 + (s5 as u64),
    ensures
        v < 0x1_0000_0000_0000,
        v / 0x100_0000_0000 % 256 == s0,
        v / 0x1_0000_0000 % 256 == s1,
        v / 0x100_0000 % 256 == s2,
        v / 0x1_0000 % 256 == s3,
        v / 0x100 % 256 == s4,
        v % 256 == s5,
{
}

proof fn lemma_digits_value(n: u64)
    by (bit_vector)
    requires
        n < 0x1_0000_0000_0000,
    ensures
        (n / 0x100_0000_0000 % 256) * 0x100_0000_0000 + (n / 0x1_0000_0000 % 256) * 0x1_0000_0000
            + (n / 0x100_0000 % 256) * 0x100_0000 + (n / 0x1_0000 % 256) * 0x1_0000 + (n / 0x100
            % 256) * 0x100 + n % 256 == n,
{
}

/// Six bytes spell a number below `2^48`, and the six bytes of that number
/// are the same bytes again.
pub proof fn lemma_size_bytes_of_value(size: Seq<u8>)
    requires
        size.len() == 6,
    ensures
        0 <= size_value(size) < 0x1_0000_0000_0000,
        size_bytes(size_value(size)) == size,
{
    let v = size_value(size);
    assert(0 <= v <= u64::MAX);
    lemma_value_digits(size[0], size[1], size[2], size[3], size[4], size[5], v as u64);
    assert(size_bytes(v) =~= size);
}

/// The six bytes of a number below `2^48` spell that number.
pub proof fn lemma_size_value_of_bytes(n: int)
    requires
        0 <= n < 0x1_0000_0000_0000,
    ensures
        size_bytes(n).len() == 6,
        size_value(size_bytes(n)) == n,
{
    lemma_digits_value(n as u64);
}

proof fn lemma_size_shifts(n: u64)
    by (bit_vector)
    requires
        n < 0x1_0000_0000_0000,
    ensures
        (n >> 40) & 0xFF == n / 0x100_0000_0000 % 256,
        (n >> 32) & 0xFF == n / 0x1_0000_0000 % 256,
        (n >> 24) & 0xFF == n / 0x100_0000 % 256,
        (n >> 16) & 0xFF == n / 0x1_0000 % 256,
        (n >> 8) & 0xFF == n / 0x100 % 256,
        n & 0xFF == n % 256,
{
}

/// The big-endian bytes of `size`, if it fits in six of them.
pub fn size_from_u64(size: u64) -> (out: Option<[u8; 6]>)
    ensures
        out is Some <==> size < 0x1_0000_0000_0000,
        out is Some ==> out.unwrap()@ == size_bytes(size as int),
{
    if size >= 0x1_0000_0000_0000 {
        None
    } else {
        proof {
            lemma_size_shifts(size);
        }
        let out: [u8; 6] = [
            ((size >> 40) & 0xFF) as u8,
            ((size >> 32) & 0xFF) as u8,
            ((size >> 24) & 0xFF) as u8,
            ((size >> 16) & 0xFF) as u8,
            ((size >> 8) & 0xFF) as u8,
            (size & 0xFF) as u8,
        ];
        assert(out@ =~= size_bytes(size as int));
        Some(out)
    }
}

/// Shifting out the two lowest bytes of an eight-byte big-endian word
/// leaves the number that its six highest bytes spell.
proof fn lemma_window_value(
    s0: u8,
    s1: u8,
    s2: u8,
    s3: u8,
    s4: u8,
    s5: u8,
    h0: u8,
    h1: u8,
    w: u64,
)
    by (bit_vector)
    requires
        w == (s0 as u64) << 56 | (s1 as u64) << 48 | (s2 as u64) << 40 | (s3 as u64) << 32 | (
        s4 as u64) << 24 | (s5 as u64) << 16 | (h0 as u64) << 8 | (h1 as u64),
    ensures
        w >> 16 == (s0 as u64) * 0x100_0000_0000 + (s1 as u64) * 0x1_0000_0000 + (s2 as u64)
            * 0x100_0000 + (s3 as u64) * 0x1_0000 + (s4 as u64) * 0x100 + (s5 as u64),
{
}

/// `parsed` is what parsing the 39 bytes `bytes` gives: the identifier with
/// those bytes where the first of them, the version, is 0, and nothing
/// otherwise.
pub open spec fn is_parse_of(parsed: Option<OcidV0>, bytes: Seq<u8>) -> bool {
    &&& parsed is Some <==> bytes[0] == 0
    &&& parsed is Some ==> parsed.unwrap()@ == bytes
}

/// The body `body` with the six bytes `size` in place of its first six.
pub open spec fn refilled(body: Seq<u8>, size: Seq<u8>) -> Seq<u8> {
    size + body.subrange(6, 38)
}

/// Content identifier, version 0: the size of some content and its hash.
///
/// Identifiers order by size first and by hash second, both read as
/// big-endian numbers, and so do their bytes and their Base64 text.
#[derive(Clone, Copy, Debug, Eq, Ord, Hash)]
pub struct OcidV0(RawOcidV0);

impl PartialEq for OcidV0 {
    /// Two identifiers are equal when their sizes and their hashes are.
    fn eq(&self, other: &Self) -> (same: bool) {
        same_bytes(&self.0.size, &other.0.size) && same_bytes(&self.0.hash, &other.0.hash)
    }
}

impl vstd::std_specs::cmp::PartialEqSpecImpl for OcidV0 {
    open spec fn obeys_eq_spec() -> bool {
        true
    }

    open spec fn eq_spec(&self, other: &Self) -> bool {
        self.raw().size@ == other.raw().size@ && self.raw().hash@ == other.raw().hash@
    }
}

impl PartialOrd for OcidV0 {
    /// Identifiers order as their bodies do, byte by byte: by size first,
    /// by hash second.
    fn partial_cmp(&self, other: &Self) -> (o: Option<Ordering>) {
        Some(compare_bytes(&self.body(), &other.body()))
    }
}

impl vstd::std_specs::cmp::PartialOrdSpecImpl for OcidV0 {
    open spec fn obeys_partial_cmp_spec() -> bool {
        true
    }

    open spec fn partial_cmp_spec(&self, other: &Self) -> Option<Ordering> {
        Some(lex_order(self.body_bytes(), other.body_bytes()))
    }
}

impl View for OcidV0 {
    type V = Seq<u8>;

    /// The 39 bytes of the identifier: version, size, hash.
    open spec fn view(&self) -> Seq<u8> {
        self.raw()@
    }
}

impl OcidV0 {
    /// The raw parts of the identifier.
    pub closed spec fn raw(self) -> RawOcidV0 {
        self.0
    }

    /// The version is the one that this layout reserves.
    pub open spec fn is_valid(self) -> bool {
        self.raw().version == 0
    }

    /// The 38 bytes after the version: size, then hash.
    pub open spec fn body_bytes(self) -> Seq<u8> {
        self.raw().size@ + self.raw().hash@
    }

    #[verifier::type_invariant]
    spec fn well_formed(self) -> bool {
        self.is_valid()
    }

    /// Creates an ID from `size` and `hash`.
    pub fn from_parts(size: [u8; 6], hash: [u8; 32]) -> (id: OcidV0)
        ensures
            id.raw() == (RawOcidV0 { version: 0, size, hash }),
    {
        OcidV0(RawOcidV0 { version: 0, size, hash })
    }

    /// Creates the ID of content that is `len` bytes long and has the hash
    /// `hash`, unless `len` does not fit in the six bytes of a size.
    pub fn from_len_and_hash(len: u64, hash: [u8; 32]) -> (id: Option<OcidV0>)
        ensures
            id is Some <==> len < 0x1_0000_0000_0000,
            id is Some ==> id.unwrap().raw().version == 0,
            id is Some ==> id.unwrap().raw().size@ == size_bytes(len as int),
            id is Some ==> id.unwrap().raw().hash == hash,
    {
        match size_from_u64(len) {
            Some(size) => Some(Self::from_parts(size, hash)),
            None => None,
        }
    }

    /// Generates an ID by hashing `content` with `digest`.
    ///
    /// There is none for content whose length does not fit in the six bytes
    /// of a size; such content is not hashed.
    pub fn from_digest<F>(content: &[u8], digest: F) -> (id: Option<OcidV0>) where
        F: FnOnce(&[u8]) -> [u8; 32],

        requires
            content@.len() < 0x1_0000_0000_0000 ==> call_requires(digest, (content,)),
        ensures
            id is Some <==> content@.len() < 0x1_0000_0000_0000,
            id is Some ==> id.unwrap().raw().version == 0,
            id is Some ==> id.unwrap().raw().size@ == size_bytes(content@.len() as int),
            id is Some ==> call_ensures(digest, (content,), id.unwrap().raw().hash),
    {
        let len: u64 = content.len() as u64;
        if len >= 0x1_0000_0000_0000 {
            None
        } else {
            Self::from_len_and_hash(len, digest(content))
        }
    }

    /// Generates an ID by hashing `content` using BLAKE3.
    ///
    /// There is none for content whose length does not fit in the six bytes
    /// of a size.
    pub fn new(content: &[u8]) -> (id: Option<OcidV0>)
        ensures
            id is Some <==> content@.len() < 0x1_0000_0000_0000,
            id is Some ==> id.unwrap().raw().version == 0,
            id is Some ==> id.unwrap().raw().size@ == size_bytes(content@.len() as int),
            id is Some ==> id.unwrap().raw().hash@ == blake3_digest(content@),
    {
        Self::from_digest(content, blake3_hash)
    }

    /// Creates an ID from its body: the bytes of the size, then those of
    /// the hash.
    pub fn from_body(body: [u8; 38]) -> (id: OcidV0)
        ensures
            id.raw().version == 0,
            id.body_bytes() == body@,
    {
        let id = Self::from_parts(copy_out(body.as_slice(), 0), copy_out(body.as_slice(), 6));
        assert(id.body_bytes() =~= body@);
        id
    }

    /// Returns the ID with `size` in place of its own size.
    pub fn with_size(self, size: [u8; 6]) -> (id: OcidV0)
        ensures
            id.raw() == (RawOcidV0 { version: 0, size, hash: self.raw().hash }),
    {
        Self::from_parts(size, self.0.hash)
    }

    /// Generates a random ID with the bytes that `fill` writes.
    ///
    /// `fill` is handed a buffer of 38 zero bytes for the body of the ID.
    /// If the generated ID has a size of zero, it is handed six more zero
    /// bytes, once, for another size: what it then writes is the size,
    /// zero or not.
    pub fn rand<F>(mut fill: F) -> (id: OcidV0) where F: FnMut(&mut [u8])
        requires
            forall|dest: &mut [u8]|
                dest@ == zeros(38) || dest@ == zeros(6) ==> call_requires(fill, (dest,)),
        ensures
            id.is_valid(),
            exists|first: &mut [u8]|
                {
                    &&& first@ == zeros(38)
                    &&& #[trigger] call_ensures(fill, (first,), ())
                    &&& if final(first)@.subrange(0, 6) != zeros(6) {
                        id.body_bytes() == final(first)@
                    } else {
                        exists|second: &mut [u8]|
                            {
                                &&& second@ == zeros(6)
                                &&& #[trigger] call_ensures(fill, (second,), ())
                                &&& id.body_bytes() == refilled(final(first)@, final(second)@)
                            }
                    }
                },
    {
        let mut body: [u8; 38] = [0; 38];
        assert(body@ =~= zeros(38));
        fill(&mut body);
        let id = Self::from_body(body);
        assert(id.raw().size@ =~= body@.subrange(0, 6));
        // Don't loop since `fill` could just emit zeros indefinitely. Calling
        // once more has a high probability of emitting a non-zero value.
        if id.is_empty() {
            let mut size: [u8; 6] = [0; 6];
            assert(size@ =~= zeros(6));
            fill(&mut size);
            let id = id.with_size(size);
            assert(id.body_bytes() =~= refilled(body@, size@));
            id
        } else {
            id
        }
    }

    /// Attempts to generate a random ID with the bytes that `fill` writes,
    /// returning the error of `fill` upon failure.
    ///
    /// `fill` is handed a buffer of 38 zero bytes for the body of the ID.
    /// If the generated ID has a size of zero, it is handed six more zero
    /// bytes, once, for another size: what it then writes is the size,
    /// zero or not.
    pub fn try_rand<F, E>(mut fill: F) -> (out: Result<OcidV0, E>) where
        F: FnMut(&mut [u8]) -> Result<(), E>,

        requires
            forall|dest: &mut [u8]|
                dest@ == zeros(38) || dest@ == zeros(6) ==> call_requires(fill, (dest,)),
        ensures
            out matches Ok(id) ==> id.is_valid(),
            exists|first: &mut [u8], drawn: Result<(), E>|
                {
                    &&& first@ == zeros(38)
                    &&& #[trigger] call_ensures(fill, (first,), drawn)
                    &&& match drawn {
                        Err(error) => out == Err::<OcidV0, E>(error),
                        Ok(_) => if final(first)@.subrange(0, 6) != zeros(6) {
                            out matches Ok(id) && id.body_bytes() == final(first)@
                        } else {
                            exists|second: &mut [u8], redrawn: Result<(), E>|
                                {
                                    &&& second@ == zeros(6)
                                    &&& #[trigger] call_ensures(fill, (second,), redrawn)
                                    &&& match redrawn {
                                        Err(error) => out == Err::<OcidV0, E>(error),
                                        Ok(_) => out matches Ok(id) && id.body_bytes()
                                            == refilled(final(first)@, final(second)@),
                                    }
                                }
                        },
                    }
                },
    {
        let mut body: [u8; 38] = [0; 38];
        assert(body@ =~= zeros(38));
        match fill(&mut body) {
            Err(error) => Err(error),
            Ok(()) => {
                let id = Self::from_body(body);
                assert(id.raw().size@ =~= body@.subrange(0, 6));
                // Don't loop since `fill` could just emit zeros indefinitely.
                // Calling once more has a high probability of emitting a
                // non-zero value.
                if id.is_empty() {
                    let mut size: [u8; 6] = [0; 6];
                    assert(size@ =~= zeros(6));
                    match fill(&mut size) {
                        Err(error) => Err(error),
                        Ok(()) => {
                            let id = id.with_size(size);
                            assert(id.body_bytes() =~= refilled(body@, size@));
                            Ok(id)
                        },
                    }
                } else {
                    Ok(id)
                }
            },
        }
    }

    /// Creates an ID from the raw internals, unless their version is not 0.
    pub fn from_raw(raw: RawOcidV0) -> (id: Option<OcidV0>)
        ensures
            id is Some <==> raw.version == 0,
            id is Some ==> id.unwrap().raw() == raw,
    {
        if raw.version == 0 {
            Some(OcidV0(raw))
        } else {
            None
        }
    }

    /// Creates an ID from raw internals whose version is 0.
    pub fn from_raw_unchecked(raw: RawOcidV0) -> (id: OcidV0)
        requires
            raw.version == 0,
        ensures
            id.raw() == raw,
    {
        OcidV0(raw)
    }

    /// Creates an ID that represents an empty file.
    pub fn empty() -> (id: OcidV0)
        ensures
            id.raw().version == 0,
            id.raw().size@ == zeros(6),
            id.raw().hash@ == zeros(32),
    {
        let id = Self::from_parts([0; 6], [0; 32]);
        assert(id.raw().size@ =~= zeros(6));
        assert(id.raw().hash@ =~= zeros(32));
        id
    }

    /// Returns the ID version, which is 0.
    pub fn version(&self) -> (version: u8)
        ensures
            version == self.raw().version,
            version == 0,
    {
        proof {
            use_type_invariant(self);
        }
        self.0.version
    }

    /// Returns the size of the source content as big-endian integer bytes.
    pub fn size(&self) -> (size: &[u8; 6])
        ensures
            *size == self.raw().size,
    {
        &self.0.size
    }

    /// Returns the hash of the content.
    pub fn hash(&self) -> (hash: &[u8; 32])
        ensures
            *hash == self.raw().hash,
    {
        &self.0.hash
    }

    /// Returns the size of the source content as a native integer.
    ///
    /// The six size bytes and the two bytes that follow them are read as one
    /// big-endian word, from which the two extra bytes are then shifted out.
    pub fn size_u64(&self) -> (n: u64)
        ensures
            n == size_value(self.raw().size@),
    {
        let s = &self.0.size;
        let h = &self.0.hash;
        let w: u64 = (s[0] as u64) << 56 | (s[1] as u64) << 48 | (s[2] as u64) << 40 | (
        s[3] as u64) << 32 | (s[4] as u64) << 24 | (s[5] as u64) << 16 | (h[0] as u64) << 8 | (
        h[1] as u64);
        proof {
            lemma_window_value(s[0], s[1], s[2], s[3], s[4], s[5], h[0], h[1], w);
        }
        w >> 16
    }

    /// Returns whether the content has a size of 0.
    ///
    /// While it is valid for an ID to have a size of 0, it is generally
    /// indicative of a programming error.
    pub fn is_empty(&self) -> (empty: bool)
        ensures
            empty <==> self.raw().size@ == zeros(6),
            empty <==> size_value(self.raw().size@) == 0,
            empty <==> forall|i: int| 0 <= i < 6 ==> self.raw().size@[i] == 0,
    {
        let zero: [u8; 6] = [0; 6];
        proof {
            assert(zero@ =~= zeros(6));
            if forall|i: int| 0 <= i < 6 ==> self.raw().size@[i] == 0 {
                assert(self.raw().size@ =~= zeros(6));
            }
            lemma_size_bytes_of_value(self.raw().size@);
            lemma_size_bytes_of_value(zeros(6));
        }
        same_bytes(&self.0.size, &zero)
    }

    /// Creates an ID from the raw bytes, unless their first byte, the
    /// version, is not 0.
    pub fn from_bytes(bytes: [u8; LEN]) -> (id: Option<OcidV0>)
        ensures
            is_parse_of(id, bytes@),
    {
        Self::from_raw(RawOcidV0::from_bytes(bytes))
    }

    /// Creates an ID from the raw bytes behind a reference, unless their
    /// first byte, the version, is not 0.
    pub fn from_bytes_ref(bytes: &[u8; LEN]) -> (id: Option<OcidV0>)
        ensures
            is_parse_of(id, bytes@),
    {
        Self::from_bytes(*bytes)
    }

    /// Creates an ID from raw bytes whose first byte is 0.
    pub fn from_bytes_unchecked(bytes: [u8; LEN]) -> (id: OcidV0)
        requires
            bytes@[0] == 0,
        ensures
            id@ == bytes@,
    {
        Self::from_raw_unchecked(RawOcidV0::from_bytes(bytes))
    }

    /// Creates an ID from raw bytes behind a reference whose first byte is 0.
    pub fn from_bytes_ref_unchecked(bytes: &[u8; LEN]) -> (id: OcidV0)
        requires
            bytes@[0] == 0,
        ensures
            id@ == bytes@,
    {
        Self::from_bytes_unchecked(*bytes)
    }

    /// Reads an ID from the front of `bytes`, and returns it with the bytes
    /// that follow it.
    ///
    /// There is none where `bytes` is shorter than an ID, or does not start
    /// with version 0.
    pub fn from_slice(bytes: &[u8]) -> (out: Option<(OcidV0, &[u8])>)
        ensures
            out is Some <==> bytes@.len() >= LEN && bytes@[0] == 0,
            out is Some ==> out.unwrap().0@ == bytes@.subrange(0, LEN as int),
            out is Some ==> out.unwrap().1@ == bytes@.subrange(LEN as int, bytes@.len() as int),
    {
        if bytes.len() >= LEN {
            let head: [u8; LEN] = copy_out(bytes, 0);
            let tail = vstd::slice::slice_subrange(bytes, LEN, bytes.len());
            match Self::from_bytes_ref(&head) {
                Some(id) => Some((id, tail)),
                None => None,
            }
        } else {
            None
        }
    }

    /// Returns the ID as its bytes.
    pub fn into_bytes(self) -> (bytes: [u8; LEN])
        ensures
            bytes@ == self@,
            bytes@[0] == 0,
    {
        self.into_raw().into_bytes()
    }

    /// Returns the bytes of the ID.
    pub fn as_bytes(&self) -> (bytes: [u8; LEN])
        ensures
            bytes@ == self@,
            bytes@[0] == 0,
    {
        self.as_raw().as_bytes()
    }

    /// Returns the body of the ID, i.e. everything after the version number.
    pub fn body(&self) -> (body: [u8; 38])
        ensures
            body@ == self.body_bytes(),
    {
        let mut body: [u8; 38] = [0; 38];
        copy_in(&mut body, 0, &self.0.size);
        copy_in(&mut body, 6, &self.0.hash);
        assert(body@ =~= self.body_bytes());
        body
    }

    /// Returns the result of calling `f` on the Base64 encoding of the ID.
    ///
    /// The text passed into `f` lives on the stack, for the time of the
    /// call.
    pub fn with_base64<F, T>(&self, f: F) -> (out: T) where F: FnOnce(&str) -> T
        requires
            forall|text: &str| text@ == encoded_text(self@) ==> call_requires(f, (text,)),
        ensures
            exists|text: &str| text@ == encoded_text(self@) && call_ensures(f, (text,), out),
    {
        self.0.with_base64(f)
    }

    /// Writes the Base64 encoding of the ID to `buf`, returning it as text.
    pub fn encode_base64<'b>(&self, buf: &'b mut [u8; BASE64_LEN]) -> (text: &'b str)
        ensures
            final(buf)@ == encoded(self@),
            text@ == encoded_text(self@),
    {
        self.0.encode_base64(buf)
    }

    /// Writes the Base64 encoding of the ID to `buf`, which need not hold
    /// anything yet and holds nothing but the encoding afterwards.
    pub fn encode_base64_uninit(&self, buf: &mut [MaybeUninit<u8>; BASE64_LEN])
        ensures
            forall|j: int|
                0 <= j < 52 ==> (#[trigger] final(buf)@[j]).as_option() == Some(encoded(self@)[j]),
    {
        self.0.encode_base64_uninit(buf)
    }

    /// Returns the raw IDs of all of `ids`.
    pub fn as_raw_slice(ids: &[Self]) -> (raws: Vec<RawOcidV0>)
        ensures
            raws@ == ids@.map_values(|id: OcidV0| id.raw()),
    {
        let mut raws: Vec<RawOcidV0> = Vec::new();
        let mut n: usize = 0;
        while n < ids.len()
            invariant
                n <= ids.len(),
                raws@.len() == n,
                forall|i: int| 0 <= i < n ==> raws@[i] == ids@[i].raw(),
            decreases ids.len() - n,
        {
            raws.push(ids[n].into_raw());
            n += 1;
        }
        assert(raws@ =~= ids@.map_values(|id: OcidV0| id.raw()));
        raws
    }

    /// Returns the bytes of all of `ids`, one identifier after the other.
    pub fn as_bytes_slice(ids: &[Self]) -> (bytes: Vec<u8>)
        ensures
            bytes@ == bytes_of_all(ids@.map_values(|id: OcidV0| id.raw())),
    {
        let raws = Self::as_raw_slice(ids);
        RawOcidV0::slice_as_bytes(raws.as_slice())
    }

    /// Returns the Base64 encoding of the ID as a string of its own: the
    /// form in which an ID is shown.
    pub fn to_base64_text(&self) -> (text: String)
        ensures
            text@ == encoded_text(self@),
    {
        self.0.to_base64_text()
    }

    /// Converts `self` into a raw ID.
    pub fn into_raw(self) -> (raw: RawOcidV0)
        ensures
            raw == self.raw(),
            raw.version == 0,
    {
        proof {
            use_type_invariant(self);
        }
        self.0
    }

    /// Returns a shared reference to the raw ID.
    pub fn as_raw(&self) -> (raw: &RawOcidV0)
        ensures
            *raw == self.raw(),
            raw.version == 0,
    {
        proof {
            use_type_invariant(self);
        }
        &self.0
    }
}

/// The bytes of an identifier are its version, then its body.
pub proof fn lemma_bytes_split(id: OcidV0)
    ensures
        id@ == seq![id.raw().version] + id.body_bytes(),
        id@.len() == 39,
        id.body_bytes().len() == 38,
        id@[0] == id.raw().version,
        id@.subrange(1, 7) == id.raw().size@,
        id@.subrange(7, 39) == id.raw().hash@,
        id@.subrange(1, 39) == id.body_bytes(),
{
    assert(id@ =~= seq![id.raw().version] + id.body_bytes());
    assert(id@.subrange(1, 7) =~= id.raw().size@);
    assert(id@.subrange(7, 39) =~= id.raw().hash@);
    assert(id@.subrange(1, 39) =~= id.body_bytes());
}

/// Identifiers with the same bytes are the same identifier, and valid
/// identifiers are equal exactly when their bytes are.
pub proof fn lemma_equal_is_same_bytes(a: OcidV0, b: OcidV0)
    ensures
        a@ == b@ <==> a == b,
        a.is_valid() && b.is_valid() ==> (a.eq_spec(&b) <==> a@ == b@),
{
    lemma_raw_view_injective(a.raw(), b.raw());
    lemma_bytes_split(a);
    lemma_bytes_split(b);
    if a.is_valid() && b.is_valid() && a.eq_spec(&b) {
        assert(a@ =~= b@);
    }
}

/// Round trip: the bytes of a valid identifier parse, and parse to that
/// identifier.
pub proof fn lemma_bytes_round_trip(id: OcidV0, parsed: Option<OcidV0>)
    requires
        id.is_valid(),
        is_parse_of(parsed, id@),
    ensures
        parsed == Some(id),
        parsed.unwrap().eq_spec(&id),
{
    lemma_bytes_split(id);
    lemma_equal_is_same_bytes(parsed.unwrap(), id);
}

/// Parsing rejects every record whose version is not 0.
pub proof fn lemma_parse_rejects_version(parsed: Option<OcidV0>, bytes: Seq<u8>)
    requires
        is_parse_of(parsed, bytes),
        bytes[0] != 0,
    ensures
        parsed is None,
{
}

/// Order equivalence: valid identifiers compare as their bytes do, and as
/// their Base64 texts do.
pub proof fn lemma_order_is_text_order(a: OcidV0, b: OcidV0)
    requires
        a.is_valid(),
        b.is_valid(),
    ensures
        a.partial_cmp_spec(&b) == Some(lex_order(a@, b@)),
        a.partial_cmp_spec(&b) == Some(lex_order(encoded(a@), encoded(b@))),
        a.eq_spec(&b) <==> encoded(a@) == encoded(b@),
{
    lemma_bytes_split(a);
    lemma_bytes_split(b);
    lemma_lex_less_irreflexive(seq![0u8]);
    lemma_lex_less_concat(seq![0u8], a.body_bytes(), seq![0u8], b.body_bytes());
    lemma_encoded_preserves_order(a@, b@);
    lemma_equal_is_same_bytes(a, b);
}

} // verus!
