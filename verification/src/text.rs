//! Byte strings of ASCII codes seen as text.

use vstd::prelude::*;
use vstd::string::StringSliceAdditionalSpecFns;
use vstd::utf8::{decode_utf8, encode_utf8, valid_utf8};
use vstd::utf8::{decode_first_scalar, pop_first_scalar, valid_first_scalar};
use vstd::utf8::encode_utf8_decode_utf8;

verus! {

/// Every byte is an ASCII code.
pub open spec fn is_ascii_bytes(bytes: Seq<u8>) -> bool {
    forall|i: int| 0 <= i < bytes.len() ==> bytes[i] < 128
}

/// The characters whose codes are the bytes given.
pub open spec fn ascii_chars(bytes: Seq<u8>) -> Seq<char> {
    Seq::new(bytes.len(), |i: int| bytes[i] as char)
}

proof fn lemma_ascii_scalar(b: u8)
    by (bit_vector)
    requires
        b < 128,
    ensures
        (b & 0x7F) as u32 == b as u32,
{
}

/// ASCII codes are valid UTF-8, and decode to the characters with those
/// codes.
pub proof fn lemma_ascii_decode(bytes: Seq<u8>)
    requires
        is_ascii_bytes(bytes),
    ensures
        valid_utf8(bytes),
        decode_utf8(bytes) == ascii_chars(bytes),
    decreases bytes.len(),
{
    if bytes.len() == 0 {
        assert(decode_utf8(bytes) =~= ascii_chars(bytes));
    } else {
        let rest = bytes.subrange(1, bytes.len() as int);
        lemma_ascii_decode(rest);
        lemma_ascii_scalar(bytes[0]);
        assert(valid_first_scalar(bytes));
        assert(pop_first_scalar(bytes) == rest);
        assert(decode_first_scalar(bytes) == bytes[0] as u32);
        assert(decode_utf8(bytes) =~= ascii_chars(bytes));
    }
}

/// Text whose UTF-8 form is a string of ASCII codes holds the characters
/// with those codes.
pub proof fn lemma_ascii_text(chars: Seq<char>, bytes: Seq<u8>)
    requires
        encode_utf8(chars) == bytes,
        is_ascii_bytes(bytes),
    ensures
        chars == ascii_chars(bytes),
{
    encode_utf8_decode_utf8(chars);
    lemma_ascii_decode(bytes);
}

/// Borrows `bytes` as text.
///
/// Calls `core::str::from_utf8`, and turns its error into `None`. The bytes
/// are accepted exactly when they are well-formed UTF-8, and the text
/// returned is then made of those bytes.
#[verifier::external_body]
pub(crate) fn str_from_utf8<'a>(bytes: &'a [u8]) -> (text: Option<&'a str>)
    ensures
        text is Some <==> valid_utf8(bytes@),
        text is Some ==> text.unwrap().spec_bytes() == bytes@,
{
    core::str::from_utf8(bytes).ok()
}

/// Borrows a string of ASCII codes as the text that it spells.
pub(crate) fn ascii_str<'a>(bytes: &'a [u8]) -> (text: &'a str)
    requires
        is_ascii_bytes(bytes@),
    ensures
        text@ == ascii_chars(bytes@),
{
    proof {
        lemma_ascii_decode(bytes@);
    }
    match str_from_utf8(bytes) {
        Some(text) => {
            proof {
                lemma_ascii_text(text@, bytes@);
            }
            text
        },
        None => vstd::pervasive::unreached(),
    }
}

} // verus!
