//! Lexicographic order on byte strings, and why the Base64 text of two inputs
//! of one length sorts as the inputs do.

use vstd::prelude::*;
use core::cmp::Ordering;
use crate::base64::{digit, encoded, encoded_len, group_value, sextet};
use crate::base64::{lemma_alphabet_increasing, lemma_sextet_range};

verus! {

/// `a` and `b` agree on their first `k` bytes, and at position `k` either `a`
/// has ended while `b` goes on, or `a` holds the smaller byte.
pub open spec fn less_at(a: Seq<u8>, b: Seq<u8>, k: int) -> bool {
    &&& 0 <= k <= a.len()
    &&& k < b.len()
    &&& forall|i: int| 0 <= i < k ==> a[i] == b[i]
    &&& (k < a.len() ==> a[k] < b[k])
}

/// `a` comes strictly before `b` in lexicographic order.
pub open spec fn lex_less(a: Seq<u8>, b: Seq<u8>) -> bool {
    exists|k: int| less_at(a, b, k)
}

/// No byte string comes before itself.
pub proof fn lemma_lex_less_irreflexive(a: Seq<u8>)
    ensures
        !lex_less(a, a),
{
}

/// Of two byte strings at most one comes before the other.
pub proof fn lemma_lex_less_asymmetric(a: Seq<u8>, b: Seq<u8>)
    ensures
        !(lex_less(a, b) && lex_less(b, a)),
{
    if lex_less(a, b) && lex_less(b, a) {
        let k1 = choose|k: int| less_at(a, b, k);
        let k2 = choose|k: int| less_at(b, a, k);
        if k1 < k2 {
            assert(b[k1] == a[k1]);
        } else if k2 < k1 {
            assert(a[k2] == b[k2]);
        }
    }
}

/// The length of the longest common prefix of `a` and `b` within their first
/// `n` bytes.
proof fn lemma_common_prefix(a: Seq<u8>, b: Seq<u8>, n: int) -> (k: int)
    requires
        0 <= n <= a.len(),
        n <= b.len(),
    ensures
        0 <= k <= n,
        forall|i: int| 0 <= i < k ==> a[i] == b[i],
        k < n ==> a[k] != b[k],
    decreases n,
{
    if n == 0 {
        0
    } else {
        let k = lemma_common_prefix(a, b, n - 1);
        if k < n - 1 {
            k
        } else if a[n - 1] == b[n - 1] {
            n
        } else {
            n - 1
        }
    }
}

/// Two byte strings are equal, or one of them comes before the other.
pub proof fn lemma_lex_less_total(a: Seq<u8>, b: Seq<u8>)
    ensures
        lex_less(a, b) || a == b || lex_less(b, a),
{
    let m = if a.len() <= b.len() {
        a.len()
    } else {
        b.len()
    };
    let k = lemma_common_prefix(a, b, m as int);
    if k < m {
        if a[k] < b[k] {
            assert(less_at(a, b, k));
        } else {
            assert(less_at(b, a, k));
        }
    } else if a.len() < b.len() {
        assert(less_at(a, b, k));
    } else if b.len() < a.len() {
        assert(less_at(b, a, k));
    } else {
        assert(a =~= b);
    }
}

/// Concatenations with first parts of one length order by the first parts,
/// and by the second parts where the first are equal.
pub proof fn lemma_lex_less_concat(
    head_a: Seq<u8>,
    tail_a: Seq<u8>,
    head_b: Seq<u8>,
    tail_b: Seq<u8>,
)
    requires
        head_a.len() == head_b.len(),
    ensures
        lex_less(head_a + tail_a, head_b + tail_b) <==> lex_less(head_a, head_b) || (head_a
            == head_b && lex_less(tail_a, tail_b)),
        head_a + tail_a == head_b + tail_b <==> head_a == head_b && tail_a == tail_b,
{
    let n = head_a.len();
    let a = head_a + tail_a;
    let b = head_b + tail_b;
    if lex_less(head_a, head_b) {
        let k = choose|k: int| less_at(head_a, head_b, k);
        assert(less_at(a, b, k));
    }
    if lex_less(head_b, head_a) {
        let k = choose|k: int| less_at(head_b, head_a, k);
        assert(less_at(b, a, k));
    }
    if head_a == head_b && lex_less(tail_a, tail_b) {
        let k = choose|k: int| less_at(tail_a, tail_b, k);
        assert(less_at(a, b, n + k)) by {
            assert forall|i: int| 0 <= i < n + k implies a[i] == b[i] by {
                if i >= n {
                    assert(tail_a[i - n] == tail_b[i - n]);
                }
            }
        }
    }
    if head_a == head_b && lex_less(tail_b, tail_a) {
        let k = choose|k: int| less_at(tail_b, tail_a, k);
        assert(less_at(b, a, n + k)) by {
            assert forall|i: int| 0 <= i < n + k implies b[i] == a[i] by {
                if i >= n {
                    assert(tail_b[i - n] == tail_a[i - n]);
                }
            }
        }
    }
    if a == b {
        assert(head_a =~= a.subrange(0, n as int));
        assert(head_b =~= b.subrange(0, n as int));
        assert(tail_a =~= a.subrange(n as int, a.len() as int));
        assert(tail_b =~= b.subrange(n as int, b.len() as int));
    }
    lemma_lex_less_total(head_a, head_b);
    lemma_lex_less_total(tail_a, tail_b);
    lemma_lex_less_asymmetric(a, b);
    lemma_lex_less_irreflexive(a);
}

/// The first position at which `a` and `b` differ, or `N` if there is none.
pub fn first_difference<const N: usize>(a: &[u8; N], b: &[u8; N]) -> (k: usize)
    ensures
        k <= N,
        forall|j: int| 0 <= j < k ==> a@[j] == b@[j],
        k < N ==> a@[k as int] != b@[k as int],
        k == N ==> a@ == b@,
        k < N && a@[k as int] < b@[k as int] ==> lex_less(a@, b@),
        k < N && a@[k as int] > b@[k as int] ==> lex_less(b@, a@),
{
    let mut i: usize = 0;
    while i < N
        invariant
            i <= N,
            forall|j: int| 0 <= j < i ==> a@[j] == b@[j],
        decreases N - i,
    {
        if a[i] != b[i] {
            proof {
                if a@[i as int] < b@[i as int] {
                    assert(less_at(a@, b@, i as int));
                } else {
                    assert(less_at(b@, a@, i as int));
                }
            }
            return i;
        }
        i += 1;
    }
    assert(a@ =~= b@);
    i
}

/// How `a` stands to `b` in lexicographic order.
pub open spec fn lex_order(a: Seq<u8>, b: Seq<u8>) -> Ordering {
    if lex_less(a, b) {
        Ordering::Less
    } else if a == b {
        Ordering::Equal
    } else {
        Ordering::Greater
    }
}

/// Compares two arrays of one length byte by byte.
pub fn compare_bytes<const N: usize>(a: &[u8; N], b: &[u8; N]) -> (o: Ordering)
    ensures
        o == lex_order(a@, b@),
{
    let k = first_difference(a, b);
    proof {
        lemma_lex_less_asymmetric(a@, b@);
        lemma_lex_less_irreflexive(a@);
    }
    if k == N {
        Ordering::Equal
    } else if a[k] < b[k] {
        Ordering::Less
    } else {
        Ordering::Greater
    }
}

/// Of two numbers below `2^24`, the smaller has the smaller digit at the
/// first of the four base-64 digits in which they differ.
proof fn lemma_digits_order(ta: int, tb: int) -> (r: int)
    requires
        0 <= ta < tb < 16777216,
    ensures
        0 <= r < 4,
        digit(ta, r) < digit(tb, r),
        forall|q: int| 0 <= q < r ==> digit(ta, q) == digit(tb, q),
{
    if ta / 262144 != tb / 262144 {
        0
    } else if (ta / 4096) % 64 != (tb / 4096) % 64 {
        assert(ta / 4096 <= tb / 4096);
        1
    } else if (ta / 64) % 64 != (tb / 64) % 64 {
        assert(ta / 64 <= tb / 64);
        2
    } else {
        3
    }
}

/// Two groups of three bytes that agree before position `p` and differ at
/// it spell numbers that differ the same way.
proof fn lemma_group_order(a: Seq<u8>, b: Seq<u8>, m: int, k: int)
    requires
        0 <= 3 * m <= k < 3 * m + 3 <= a.len(),
        a.len() == b.len(),
        forall|i: int| 0 <= i < k ==> a[i] == b[i],
        a[k] < b[k],
    ensures
        0 <= group_value(a, m) < group_value(b, m) < 16777216,
{
    if k == 3 * m {
    } else if k == 3 * m + 1 {
        assert(a[3 * m] == b[3 * m]);
    } else {
        assert(a[3 * m] == b[3 * m]);
        assert(a[3 * m + 1] == b[3 * m + 1]);
    }
}

/// Where two inputs first differ, their texts first differ in the same
/// direction.
proof fn lemma_encoded_less(a: Seq<u8>, b: Seq<u8>)
    requires
        a.len() == b.len(),
        a.len() % 3 == 0,
        lex_less(a, b),
    ensures
        lex_less(encoded(a), encoded(b)),
{
    let k = choose|k: int| less_at(a, b, k);
    let m = k / 3;
    lemma_group_order(a, b, m, k);
    let r = lemma_digits_order(group_value(a, m), group_value(b, m));
    let j = 4 * m + r;
    let ea = encoded(a);
    let eb = encoded(b);
    assert(j / 4 == m && j % 4 == r);
    assert(0 <= j < encoded_len(a.len() as int));
    lemma_sextet_range(a, j);
    lemma_sextet_range(b, j);
    lemma_alphabet_increasing();
    assert(ea[j] < eb[j]);
    assert forall|i: int| 0 <= i < j implies ea[i] == eb[i] by {
        let q = i / 4;
        if q < m {
            assert(a[3 * q] == b[3 * q]);
            assert(a[3 * q + 1] == b[3 * q + 1]);
            assert(a[3 * q + 2] == b[3 * q + 2]);
        } else {
            assert(q == m && 0 <= i % 4 < r);
        }
        assert(sextet(a, i) == sextet(b, i));
    }
    assert(less_at(ea, eb, j));
}

/// Base64 text keeps the order of what it encodes: for two inputs of one
/// length, a multiple of three, the texts compare as the inputs do, and are
/// equal only where the inputs are.
pub proof fn lemma_encoded_preserves_order(a: Seq<u8>, b: Seq<u8>)
    requires
        a.len() == b.len(),
        a.len() % 3 == 0,
    ensures
        lex_less(a, b) <==> lex_less(encoded(a), encoded(b)),
        a == b <==> encoded(a) == encoded(b),
{
    lemma_lex_less_total(a, b);
    lemma_lex_less_asymmetric(encoded(a), encoded(b));
    lemma_lex_less_irreflexive(encoded(a));
    if lex_less(a, b) {
        lemma_encoded_less(a, b);
    }
    if lex_less(b, a) {
        lemma_encoded_less(b, a);
    }
}

} // verus!
