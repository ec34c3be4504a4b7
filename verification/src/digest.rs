//! The hash that identifiers are made of.

use vstd::prelude::*;

verus! {

/// The BLAKE3 hash of `input`: 32 bytes.
pub uninterp spec fn blake3_digest(input: Seq<u8>) -> Seq<u8>;

/// Hashes `content` with BLAKE3.
///
/// Calls `blake3::hash`, which computes the default 32-byte output of the
/// hash function from the input alone, without a key, and converts the
/// `blake3::Hash` it returns into its bytes. The contract gives that result
/// its name and claims nothing else of it.
#[verifier::external_body]
pub(crate) fn blake3_hash(content: &[u8]) -> (hash: [u8; 32])
    ensures
        hash@ == blake3_digest(content@),
{
    blake3::hash(content).into()
}

} // verus!
