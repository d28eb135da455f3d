//! Sums, dot products and maxima over prefixes of sequences, with the
//! arithmetic facts about them that the forward and backward passes need.
//! Everything is stated over mathematical integers; the executable loops in
//! the other modules carry these prefix functions as their invariants.

use vstd::prelude::*;
use crate::fx::{div_trunc, lemma_abs_mul_le, lemma_div_sum_le};

verus! {

/// A sequence of machine integers, read as mathematical integers.
pub open spec fn to_ints(s: Seq<i64>) -> Seq<int> {
    s.map_values(|x: i64| x as int)
}

/// Sum of the first `n` entries.
pub open spec fn sum_pre(s: Seq<int>, n: int) -> int
    decreases n,
{
    if n <= 0 {
        0
    } else {
        sum_pre(s, n - 1) + s[n - 1]
    }
}

/// Sum of the whole sequence.
pub open spec fn total(s: Seq<int>) -> int {
    sum_pre(s, s.len() as int)
}

/// Dot product of the first `n` entries of two sequences.
pub open spec fn dot_pre(a: Seq<int>, b: Seq<int>, n: int) -> int
    decreases n,
{
    if n <= 0 {
        0
    } else {
        dot_pre(a, b, n - 1) + a[n - 1] * b[n - 1]
    }
}

/// Largest of the first `n` entries (`n >= 1`).
pub open spec fn max_pre(s: Seq<int>, n: int) -> int
    decreases n,
{
    if n <= 1 {
        s[0]
    } else if s[n - 1] > max_pre(s, n - 1) {
        s[n - 1]
    } else {
        max_pre(s, n - 1)
    }
}

/// Index of the first occurrence of the largest of the first `n` entries.
pub open spec fn argmax_pre(s: Seq<int>, n: int) -> int
    decreases n,
{
    if n <= 1 {
        0
    } else if s[n - 1] > max_pre(s, n - 1) {
        n - 1
    } else {
        argmax_pre(s, n - 1)
    }
}

/// The maximum of a prefix bounds every entry of it, and is attained at the
/// argmax index.
pub proof fn lemma_max_props(s: Seq<int>, n: int)
    requires
        1 <= n <= s.len(),
    ensures
        forall|i: int| 0 <= i < n ==> #[trigger] s[i] <= max_pre(s, n),
        0 <= argmax_pre(s, n) < n,
        s[argmax_pre(s, n)] == max_pre(s, n),
    decreases n,
{
    if n > 1 {
        lemma_max_props(s, n - 1);
    }
}

/// A prefix of non-negative entries has a non-negative sum.
pub proof fn lemma_sum_nonneg(s: Seq<int>, n: int)
    requires
        0 <= n <= s.len(),
        forall|i: int| 0 <= i < n ==> #[trigger] s[i] >= 0,
    ensures
        sum_pre(s, n) >= 0,
    decreases n,
{
    if n > 0 {
        lemma_sum_nonneg(s, n - 1);
    }
}

/// In a prefix of non-negative entries, each entry is at most the sum.
pub proof fn lemma_sum_element_le(s: Seq<int>, n: int, k: int)
    requires
        0 <= k < n <= s.len(),
        forall|i: int| 0 <= i < n ==> #[trigger] s[i] >= 0,
    ensures
        s[k] <= sum_pre(s, n),
    decreases n,
{
    if k == n - 1 {
        lemma_sum_nonneg(s, n - 1);
    } else {
        lemma_sum_element_le(s, n - 1, k);
    }
}

/// Replacing one entry inside the prefix changes the sum by the difference.
pub proof fn lemma_sum_update(s: Seq<int>, n: int, k: int, v: int)
    requires
        0 <= k < n <= s.len(),
    ensures
        sum_pre(s.update(k, v), n) == sum_pre(s, n) - s[k] + v,
    decreases n,
{
    if k == n - 1 {
        lemma_sum_eq(s.update(k, v), s, n - 1);
    } else {
        lemma_sum_update(s, n - 1, k, v);
    }
}

/// Two sequences that agree on a prefix have the same prefix sum.
pub proof fn lemma_sum_eq(a: Seq<int>, b: Seq<int>, n: int)
    requires
        0 <= n <= a.len(),
        n <= b.len(),
        forall|i: int| 0 <= i < n ==> #[trigger] a[i] == b[i],
    ensures
        sum_pre(a, n) == sum_pre(b, n),
    decreases n,
{
    if n > 0 {
        lemma_sum_eq(a, b, n - 1);
    }
}

/// Summing entrywise floor quotients never exceeds the floor quotient of the
/// sum.
pub proof fn lemma_sum_div_le(s: Seq<int>, q: Seq<int>, n: int, d: int)
    requires
        d > 0,
        0 <= n <= s.len(),
        n <= q.len(),
        forall|i: int| 0 <= i < n ==> #[trigger] s[i] >= 0,
        forall|i: int| 0 <= i < n ==> #[trigger] q[i] == s[i] / d,
    ensures
        sum_pre(q, n) <= sum_pre(s, n) / d,
    decreases n,
{
    if n > 0 {
        lemma_sum_div_le(s, q, n - 1, d);
        lemma_sum_nonneg(s, n - 1);
        lemma_div_sum_le(sum_pre(s, n - 1), s[n - 1], d);
    } else {
        vstd::arithmetic::div_mod::lemma_div_of0(d);
    }
}

/// Scaling every entry by a common factor scales the sum.
pub proof fn lemma_sum_scale(s: Seq<int>, q: Seq<int>, n: int, c: int)
    requires
        0 <= n <= s.len(),
        n <= q.len(),
        forall|i: int| 0 <= i < n ==> #[trigger] q[i] == s[i] * c,
    ensures
        sum_pre(q, n) == sum_pre(s, n) * c,
    decreases n,
{
    if n > 0 {
        lemma_sum_scale(s, q, n - 1, c);
        assert((sum_pre(s, n - 1) + s[n - 1]) * c == sum_pre(s, n - 1) * c + s[n - 1] * c)
            by (nonlinear_arith);
    } else {
        assert(sum_pre(s, 0) * c == 0) by (nonlinear_arith)
            requires sum_pre(s, 0) == 0;
    }
}

} // verus!
