//! Distance between two byte buffers.

use vstd::prelude::*;

verus! {

/// Sum of the absolute per-byte differences over the first `n` positions of
/// two byte sequences.
pub open spec fn byte_diff_sum(b1: Seq<u8>, b2: Seq<u8>, n: int) -> nat
    recommends
        n <= b1.len(),
        n <= b2.len(),
    decreases n,
{
    if n <= 0 {
        0
    } else {
        byte_diff_sum(b1, b2, n - 1) + if b1[n - 1] >= b2[n - 1] {
            (b1[n - 1] - b2[n - 1]) as nat
        } else {
            (b2[n - 1] - b1[n - 1]) as nat
        }
    }
}

/// The distance between two buffers: the absolute difference of their lengths,
/// plus the sum of the absolute per-byte differences over their common prefix.
pub open spec fn spec_compare(b1: Seq<u8>, b2: Seq<u8>) -> nat {
    let len_diff: nat = if b1.len() >= b2.len() {
        (b1.len() - b2.len()) as nat
    } else {
        (b2.len() - b1.len()) as nat
    };
    let common: int = if b1.len() <= b2.len() {
        b1.len() as int
    } else {
        b2.len() as int
    };
    len_diff + byte_diff_sum(b1, b2, common)
}

/// A zero partial sum means the compared prefixes agree byte for byte.
proof fn lemma_byte_diff_sum_zero(b1: Seq<u8>, b2: Seq<u8>, n: int)
    requires
        n <= b1.len(),
        n <= b2.len(),
    ensures
        byte_diff_sum(b1, b2, n) == 0 <==> (forall|i: int| 0 <= i < n ==> b1[i] == b2[i]),
    decreases n,
{
    if n > 0 {
        lemma_byte_diff_sum_zero(b1, b2, n - 1);
    }
}

/// The distance is zero exactly when the buffers are identical in length and
/// content.
pub proof fn lemma_compare_zero_iff_equal(b1: Seq<u8>, b2: Seq<u8>)
    ensures
        spec_compare(b1, b2) == 0 <==> b1 =~= b2,
{
    let common: int = if b1.len() <= b2.len() {
        b1.len() as int
    } else {
        b2.len() as int
    };
    lemma_byte_diff_sum_zero(b1, b2, common);
}

/// Compare two buffers and return their absolute difference: the difference
/// in length plus the per-byte distance over the common prefix. The result is
/// 0 exactly when the buffers are identical in size and content.
pub fn compare_buffers(b1: &Vec<u8>, b2: &Vec<u8>) -> (diff: usize)
    requires
        spec_compare(b1@, b2@) <= usize::MAX,
    ensures
        diff == spec_compare(b1@, b2@),
        diff == 0 <==> b1@ =~= b2@,
{
    let mut diff: usize = if b1.len() > b2.len() {
        b1.len() - b2.len()
    } else {
        b2.len() - b1.len()
    };

    let size = if b1.len() < b2.len() {
        b1.len()
    } else {
        b2.len()
    };

    let ghost len_diff: nat = diff as nat;
    let mut i: usize = 0;
    while i < size
        invariant
            i <= size,
            size == if b1@.len() <= b2@.len() {
                b1@.len()
            } else {
                b2@.len()
            },
            diff == len_diff + byte_diff_sum(b1@, b2@, i as int),
            spec_compare(b1@, b2@) <= usize::MAX,
            len_diff == if b1@.len() >= b2@.len() {
                (b1@.len() - b2@.len()) as nat
            } else {
                (b2@.len() - b1@.len()) as nat
            },
        decreases size - i,
    {
        proof {
            lemma_byte_diff_sum_monotonic(b1@, b2@, i + 1, size as int);
        }
        if b1[i] > b2[i] {
            diff = diff + (b1[i] - b2[i]) as usize;
        } else {
            diff = diff + (b2[i] - b1[i]) as usize;
        }
        i = i + 1;
    }

    proof {
        lemma_compare_zero_iff_equal(b1@, b2@);
    }
    diff
}

/// Partial per-byte distances grow with the length of the compared prefix.
proof fn lemma_byte_diff_sum_monotonic(b1: Seq<u8>, b2: Seq<u8>, n: int, m: int)
    requires
        n <= m,
        m <= b1.len(),
        m <= b2.len(),
    ensures
        byte_diff_sum(b1, b2, n) <= byte_diff_sum(b1, b2, m),
    decreases m - n,
{
    if n < m {
        lemma_byte_diff_sum_monotonic(b1, b2, n, m - 1);
    }
}

} // verus!
