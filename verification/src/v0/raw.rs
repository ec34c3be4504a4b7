//! The raw parts of a version 0 identifier.

use vstd::prelude::*;
use core::mem::MaybeUninit;
use vstd::std_specs::maybe_uninit::MaybeUninitAdditionalSpecFns;
use crate::base64::{encode_base8_39, encode_groups, encoded, encoded_text};
use crate::bytes::{copy_in, copy_out, zeros};
use crate::v0::OcidV0;

verus! {

/// The raw parts of an [`OcidV0`](super::OcidV0).
#[derive(Clone, Copy, Debug, PartialEq, Eq, PartialOrd, Ord, Hash)]
pub struct RawOcidV0 {
    /// The ID version.
    ///
    /// This must always be zero.
    pub version: u8,
    /// The content size.
    pub size: [u8; 6],
    /// The hash of the content.
    pub hash: [u8; 32],
}

impl View for RawOcidV0 {
    type V = Seq<u8>;

    /// The 39 bytes of the identifier: version, size, hash.
    open spec fn view(&self) -> Seq<u8> {
        seq![self.version] + self.size@ + self.hash@
    }
}

impl Default for RawOcidV0 {
    /// The raw parts of the ID of an empty file: all bytes are zero.
    fn default() -> (raw: RawOcidV0)
        ensures
            raw@ == zeros(39),
    {
        let raw = RawOcidV0 { version: 0, size: [0; 6], hash: [0; 32] };
        assert(raw@ =~= zeros(39));
        raw
    }
}

impl From<OcidV0> for RawOcidV0 {
    fn from(id: OcidV0) -> (raw: RawOcidV0) {
        id.into_raw()
    }
}

impl vstd::std_specs::convert::FromSpecImpl<OcidV0> for RawOcidV0 {
    open spec fn obeys_from_spec() -> bool {
        true
    }

    open spec fn from_spec(id: OcidV0) -> RawOcidV0 {
        id.raw()
    }
}

/// Raw parts with the same bytes are the same raw parts.
pub proof fn lemma_raw_view_injective(a: RawOcidV0, b: RawOcidV0)
    ensures
        a@ == b@ <==> a == b,
{
    if a@ == b@ {
        assert(a.version == a@[0]);
        assert(b.version == b@[0]);
        assert(a.size@ =~= a@.subrange(1, 7));
        assert(b.size@ =~= b@.subrange(1, 7));
        assert(a.hash@ =~= a@.subrange(7, 39));
        assert(b.hash@ =~= b@.subrange(7, 39));
        assert(a.size =~= b.size);
        assert(a.hash =~= b.hash);
    }
}

/// The bytes of all of `ids`, one identifier after the other.
pub open spec fn bytes_of_all(ids: Seq<RawOcidV0>) -> Seq<u8> {
    Seq::new(ids.len() * 39, |i: int| ids[i / 39]@[i % 39])
}

impl RawOcidV0 {
    /// Returns the bytes of all of `ids`, one identifier after the other.
    pub fn slice_as_bytes(ids: &[Self]) -> (bytes: Vec<u8>)
        ensures
            bytes@ == bytes_of_all(ids@),
    {
        let mut bytes: Vec<u8> = Vec::new();
        let mut n: usize = 0;
        while n < ids.len()
            invariant
                n <= ids.len(),
                bytes@.len() == n * 39,
                forall|i: int| 0 <= i < n * 39 ==> bytes@[i] == ids@[i / 39]@[i % 39],
            decreases ids.len() - n,
        {
            let one = ids[n].as_bytes();
            let mut k: usize = 0;
            while k < 39
                invariant
                    k <= 39,
                    n < ids.len(),
                    one@ == ids@[n as int]@,
                    bytes@.len() == n * 39 + k,
                    forall|i: int| 0 <= i < n * 39 + k ==> bytes@[i] == ids@[i / 39]@[i % 39],
                decreases 39 - k,
            {
                bytes.push(one[k]);
                k += 1;
            }
            n += 1;
        }
        assert(bytes@ =~= bytes_of_all(ids@));
        bytes
    }

    /// Creates an ID from the raw bytes.
    pub fn from_bytes(bytes: [u8; 39]) -> (raw: RawOcidV0)
        ensures
            raw@ == bytes@,
    {
        let raw = RawOcidV0 {
            version: bytes[0],
            size: copy_out(bytes.as_slice(), 1),
            hash: copy_out(bytes.as_slice(), 7),
        };
        assert(raw@ =~= bytes@);
        raw
    }

    /// Returns the bytes of the ID.
    pub fn as_bytes(&self) -> (bytes: [u8; 39])
        ensures
            bytes@ == self@,
    {
        self.into_bytes()
    }

    /// Returns the ID as its bytes.
    pub fn into_bytes(self) -> (bytes: [u8; 39])
        ensures
            bytes@ == self@,
    {
        let mut bytes: [u8; 39] = [0; 39];
        bytes[0] = self.version;
        copy_in(&mut bytes, 1, &self.size);
        copy_in(&mut bytes, 7, &self.hash);
        assert(bytes@ =~= self@);
        bytes
    }

    /// Returns the result of calling `f` on the Base64 encoding of the ID.
    ///
    /// The text passed into `f` lives on the stack, for the time of the
    /// call.
    pub fn with_base64<F, T>(&self, f: F) -> (out: T) where F: FnOnce(&str) -> T
        requires
            forall|text: &str| text@ == encoded_text(self@) ==> call_requires(f, (text,)),
        ensures
            exists|text: &str| text@ == encoded_text(self@) && call_ensures(f, (text,), out),
    {
        let mut buf: [u8; 52] = [0; 52];
        let text = self.encode_base64(&mut buf);
        f(text)
    }

    /// Writes the Base64 encoding of the ID to `buf`, returning it as text.
    pub fn encode_base64<'b>(&self, buf: &'b mut [u8; 52]) -> (text: &'b str)
        ensures
            final(buf)@ == encoded(self@),
            text@ == encoded_text(self@),
    {
        let bytes = self.as_bytes();
        encode_base8_39(&bytes, buf)
    }

    /// Returns the Base64 encoding of the ID as a string of its own.
    pub fn to_base64_text(&self) -> (text: String)
        ensures
            text@ == encoded_text(self@),
    {
        let mut buf: [u8; 52] = [0; 52];
        self.encode_base64(&mut buf).to_owned()
    }

    /// Writes the Base64 encoding of the ID to `buf`, which need not hold
    /// anything yet and holds nothing but the encoding afterwards.
    pub fn encode_base64_uninit(&self, buf: &mut [MaybeUninit<u8>; 52])
        ensures
            forall|j: int|
                0 <= j < 52 ==> (#[trigger] final(buf)@[j]).as_option() == Some(encoded(self@)[j]),
    {
        let bytes = self.as_bytes();
        let mut text: [u8; 52] = [0; 52];
        encode_groups(&bytes, &mut text);
        let mut i: usize = 0;
        while i < 52
            invariant
                i <= 52,
                text@ == encoded(self@),
                forall|j: int| 0 <= j < i ==> (#[trigger] buf@[j]).as_option() == Some(text@[j]),
            decreases 52 - i,
        {
            buf[i] = MaybeUninit::new(text[i]);
            i += 1;
        }
    }
}

} // verus!
