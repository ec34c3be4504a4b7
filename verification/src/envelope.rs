//! The identifier of any version.

use vstd::prelude::*;
use crate::base64::encoded_text;
use crate::v0::{size_value, OcidV0};
use crate::v0::raw::RawOcidV0;

verus! {

/// Content identifier of any version.
#[derive(Clone, Copy, Debug)]
#[non_exhaustive]
pub enum Ocid {
    /// Version 0; analogous to an [`OcidV0`].
    V0 {
        /// The content size.
        size: [u8; 6],
        /// The hash of the content.
        hash: [u8; 32],
    },
}

impl View for Ocid {
    type V = Seq<u8>;

    /// The bytes of the identifier: its version, then what the version
    /// lays down.
    open spec fn view(&self) -> Seq<u8> {
        match *self {
            Ocid::V0 { size, hash } => seq![0u8] + size@ + hash@,
        }
    }
}

impl From<RawOcidV0> for Ocid {
    /// Takes over the size and the hash, whatever the version given.
    fn from(v0: RawOcidV0) -> (id: Ocid) {
        Ocid::V0 { size: v0.size, hash: v0.hash }
    }
}

impl vstd::std_specs::convert::FromSpecImpl<RawOcidV0> for Ocid {
    open spec fn obeys_from_spec() -> bool {
        true
    }

    open spec fn from_spec(v0: RawOcidV0) -> Ocid {
        Ocid::V0 { size: v0.size, hash: v0.hash }
    }
}

impl From<OcidV0> for Ocid {
    fn from(v0: OcidV0) -> (id: Ocid) {
        Ocid::from(v0.into_raw())
    }
}

impl vstd::std_specs::convert::FromSpecImpl<OcidV0> for Ocid {
    open spec fn obeys_from_spec() -> bool {
        true
    }

    open spec fn from_spec(v0: OcidV0) -> Ocid {
        Ocid::V0 { size: v0.raw().size, hash: v0.raw().hash }
    }
}

proof fn lemma_padded_value(s0: u8, s1: u8, s2: u8, s3: u8, s4: u8, s5: u8, w: u64)
    by (bit_vector)
    requires
        w == (s0 as u64) << 40 | (s1 as u64) << 32 | (s2 as u64) << 24 | (s3 as u64) << 16 | (
        s4 as u64) << 8 | (s5 as u64),
    ensures
        w == (s0 as u64) * 0x100_0000_0000 + (s1 as u64) * 0x1_0000_0000 + (s2 as u64)
            * 0x100_0000 + (s3 as u64) * 0x1_0000 + (s4 as u64) * 0x100 + (s5 as u64),
{
}

impl Ocid {
    /// Returns the concrete identifier that `self` stands for.
    pub fn to_v0(&self) -> (id: OcidV0)
        ensures
            id@ == self@,
    {
        match *self {
            Ocid::V0 { size, hash } => OcidV0::from_parts(size, hash),
        }
    }

    /// Returns the size of the source content as a native integer: the size
    /// bytes, padded on the left with zero bytes to the width of the
    /// integer, read big-endian.
    pub fn size_u64(&self) -> (n: u64)
        ensures
            n == size_value(self@.subrange(1, 7)),
    {
        match *self {
            Ocid::V0 { size, hash } => {
                let w: u64 = (size[0] as u64) << 40 | (size[1] as u64) << 32 | (size[2] as u64)
                    << 24 | (size[3] as u64) << 16 | (size[4] as u64) << 8 | (size[5] as u64);
                proof {
                    lemma_padded_value(size[0], size[1], size[2], size[3], size[4], size[5], w);
                    assert(self@.subrange(1, 7) =~= size@);
                }
                w
            },
        }
    }

    /// Returns the result of calling `f` on the Base64 encoding of the ID.
    ///
    /// The text passed into `f` lives on the stack, for the time of the
    /// call.
    pub fn with_base64<F, T>(&self, f: F) -> (out: T) where F: FnOnce(&str) -> T
        requires
            forall|text: &str| text@ == encoded_text(self@) ==> call_requires(f, (text,)),
        ensures
            exists|text: &str| text@ == encoded_text(self@) && call_ensures(f, (text,), out),
    {
        match *self {
            Ocid::V0 { size, hash } => OcidV0::from_parts(size, hash).with_base64(f),
        }
    }

    /// Returns the Base64 encoding of the ID as a string of its own: the
    /// form in which an ID is shown.
    pub fn to_base64_text(&self) -> (text: String)
        ensures
            text@ == encoded_text(self@),
    {
        match *self {
            Ocid::V0 { size, hash } => OcidV0::from_parts(size, hash).to_base64_text(),
        }
    }
}

} // verus!
