//! Copies between byte arrays, and their comparison.

use vstd::prelude::*;

verus! {

/// `n` zero bytes.
pub open spec fn zeros(n: nat) -> Seq<u8> {
    Seq::new(n, |i: int| 0u8)
}

/// The `K` bytes of `src` that start at `at`.
pub(crate) fn copy_out<const K: usize>(src: &[u8], at: usize) -> (out: [u8; K])
    requires
        at + K <= src.len(),
    ensures
        out@ == src@.subrange(at as int, at + K),
{
    let mut out: [u8; K] = [0; K];
    let mut i: usize = 0;
    while i < K
        invariant
            i <= K,
            at + K <= src.len(),
            forall|j: int| 0 <= j < i ==> out@[j] == src@[at + j],
        decreases K - i,
    {
        out[i] = src[at + i];
        i += 1;
    }
    assert(out@ =~= src@.subrange(at as int, at + K));
    out
}

/// Overwrites the `K` bytes of `dst` that start at `at` with `src`.
pub(crate) fn copy_in<const N: usize, const K: usize>(dst: &mut [u8; N], at: usize, src: &[u8; K])
    requires
        at + K <= N,
    ensures
        final(dst)@ == old(dst)@.subrange(0, at as int) + src@ + old(dst)@.subrange(
            at + K,
            N as int,
        ),
{
    let ghost before = dst@;
    let mut i: usize = 0;
    while i < K
        invariant
            i <= K,
            at + K <= N,
            forall|j: int| 0 <= j < at ==> dst@[j] == before[j],
            forall|j: int| 0 <= j < i ==> dst@[at + j] == src@[j],
            forall|j: int| at + i <= j < N ==> dst@[j] == before[j],
        decreases K - i,
    {
        dst[at + i] = src[i];
        i += 1;
    }
    assert(dst@ =~= before.subrange(0, at as int) + src@ + before.subrange(at + K, N as int));
}

/// Whether two arrays hold the same bytes.
pub fn same_bytes<const N: usize>(a: &[u8; N], b: &[u8; N]) -> (same: bool)
    ensures
        same == (a@ == b@),
{
    let mut i: usize = 0;
    while i < N
        invariant
            i <= N,
            forall|j: int| 0 <= j < i ==> a@[j] == b@[j],
        decreases N - i,
    {
        if a[i] != b[i] {
            return false;
        }
        i += 1;
    }
    assert(a@ =~= b@);
    true
}

} // verus!
