//! The numerically stable softmax, in fixed point. The largest logit is
//! subtracted before exponentiating, the exponentials are normalized by
//! their sum, and the rounding shortfall is given to the first maximal
//! entry, so the result always sums to exactly `ONE`. The two laws of the
//! distribution are proved here: every output lies in `[0, ONE]` and sums to
//! `ONE`, and shifting every logit by a common constant leaves the output
//! unchanged.

use vstd::prelude::*;
use vstd::pervasive::VecAdditionalExecFns;
use crate::fx::{DIM_MAX, ONE};
use crate::scalar::{exp_neg, exp_neg_spec, lemma_exp_neg_bounds};
use crate::sums::{
    argmax_pre, lemma_max_props, lemma_sum_div_le, lemma_sum_element_le, lemma_sum_eq,
    lemma_sum_nonneg, lemma_sum_scale, lemma_sum_update, max_pre, sum_pre, to_ints, total,
};

verus! {

/// Largest magnitude a logit handed to the softmax may take; keeps the
/// shifted differences inside the machine range.
pub const LOGIT_LIM: i64 = 2305843009213693952;

/// The shifted exponentials of a logit vector: `exp` of each logit minus the
/// maximum.
pub open spec fn smax_exps(v: Seq<int>) -> Seq<int> {
    Seq::new(v.len(), |i: int| exp_neg_spec(v[i] - max_pre(v, v.len() as int)))
}

/// The normalized quotients before rounding correction: each exponential,
/// scaled by `ONE` and floor-divided by the sum of all of them.
pub open spec fn smax_base(v: Seq<int>) -> Seq<int> {
    Seq::new(v.len(), |i: int| smax_exps(v)[i] * ONE / total(smax_exps(v)))
}

/// The fixed-point softmax: the normalized quotients, with the rounding
/// shortfall added to the first maximal entry so the total is exactly `ONE`.
pub open spec fn softmax_spec(v: Seq<int>) -> Seq<int> {
    let am = argmax_pre(v, v.len() as int);
    smax_base(v).update(am, smax_base(v)[am] + (ONE - total(smax_base(v))))
}

/// `v` with a common constant added to every entry.
pub open spec fn shift_of(v: Seq<int>, c: int) -> Seq<int> {
    Seq::new(v.len(), |i: int| v[i] + c)
}

/// The softmax output is a probability distribution: every entry lies in
/// `[0, ONE]` and the entries sum to exactly `ONE`. The intermediate facts
/// the executable pass needs are exposed alongside.
pub proof fn lemma_softmax_props(v: Seq<int>)
    requires
        v.len() >= 1,
    ensures
        softmax_spec(v).len() == v.len(),
        forall|i: int| 0 <= i < v.len() ==> 0 <= #[trigger] softmax_spec(v)[i] <= ONE,
        total(softmax_spec(v)) == ONE,
        forall|i: int| 0 <= i < v.len() ==> 0 <= #[trigger] smax_exps(v)[i] <= ONE,
        forall|i: int| 0 <= i < v.len() ==> 0 <= #[trigger] smax_base(v)[i] <= ONE,
        total(smax_exps(v)) >= ONE,
        0 <= total(smax_base(v)) <= ONE,
        smax_exps(v)[argmax_pre(v, v.len() as int)] == ONE,
{
    let n = v.len() as int;
    let m = max_pre(v, n);
    let am = argmax_pre(v, n);
    let es = smax_exps(v);
    lemma_max_props(v, n);
    assert forall|i: int| 0 <= i < n implies 0 <= #[trigger] es[i] <= ONE by {
        lemma_exp_neg_bounds(v[i] - m);
    }
    lemma_exp_neg_bounds(0);
    assert(es[am] == ONE);
    let s = total(es);
    lemma_sum_element_le(es, n, am);
    assert(s >= ONE);
    let base = smax_base(v);
    let scaled = Seq::new(v.len(), |i: int| es[i] * ONE);
    assert forall|i: int| 0 <= i < n implies 0 <= #[trigger] base[i] <= ONE by {
        vstd::arithmetic::mul::lemma_mul_nonnegative(es[i], ONE as int);
        vstd::arithmetic::div_mod::lemma_div_pos_is_pos(es[i] * ONE, s);
        lemma_sum_element_le(es, n, i);
        vstd::arithmetic::mul::lemma_mul_inequality(es[i], s, ONE as int);
        vstd::arithmetic::div_mod::lemma_div_is_ordered(es[i] * ONE, s * ONE, s);
        vstd::arithmetic::div_mod::lemma_div_multiples_vanish(ONE as int, s);
    }
    assert forall|i: int| 0 <= i < n implies #[trigger] scaled[i] >= 0 by {
        vstd::arithmetic::mul::lemma_mul_nonnegative(es[i], ONE as int);
    }
    lemma_sum_nonneg(base, n);
    lemma_sum_div_le(scaled, base, n, s);
    lemma_sum_scale(es, scaled, n, ONE as int);
    vstd::arithmetic::div_mod::lemma_div_multiples_vanish(ONE as int, s);
    assert(sum_pre(scaled, n) == s * ONE);
    assert(total(base) <= ONE);
    lemma_sum_element_le(base, n, am);
    lemma_sum_update(base, n, am, base[am] + (ONE - total(base)));
}

/// Shift invariance: adding one constant to every logit leaves the softmax
/// output unchanged. The subtraction of the maximum cancels the shift
/// exactly, so this holds with no tolerance.
pub proof fn lemma_softmax_shift(v: Seq<int>, c: int)
    requires
        v.len() >= 1,
    ensures
        softmax_spec(shift_of(v, c)) == softmax_spec(v),
{
    let n = v.len() as int;
    let w = shift_of(v, c);
    lemma_max_shift(v, c, n);
    assert(smax_exps(w) =~= smax_exps(v));
    assert(smax_base(w) =~= smax_base(v));
    assert(softmax_spec(w) =~= softmax_spec(v));
}

/// Shifting every entry shifts the running maximum and leaves the argmax
/// index unchanged.
pub proof fn lemma_max_shift(v: Seq<int>, c: int, n: int)
    requires
        1 <= n <= v.len(),
    ensures
        max_pre(shift_of(v, c), n) == max_pre(v, n) + c,
        argmax_pre(shift_of(v, c), n) == argmax_pre(v, n),
    decreases n,
{
    if n > 1 {
        lemma_max_shift(v, c, n - 1);
    }
}

/// Executable stable softmax over fixed-point logits.
pub fn softmax(v: &Vec<i64>) -> (r: Vec<i64>)
    requires
        1 <= v@.len() <= DIM_MAX,
        forall|i: int| 0 <= i < v@.len() ==> -LOGIT_LIM <= #[trigger] v@[i] <= LOGIT_LIM,
    ensures
        r@.len() == v@.len(),
        forall|i: int|
            0 <= i < r@.len() ==> #[trigger] r@[i] == softmax_spec(to_ints(v@))[i],
        forall|i: int| 0 <= i < r@.len() ==> 0 <= #[trigger] r@[i] <= ONE,
        total(to_ints(r@)) == ONE,
{
    let ghost w = to_ints(v@);
    proof {
        assert forall|k: int| 0 <= k < w.len() implies #[trigger] w[k] == v@[k] by {}
        lemma_softmax_props(w);
        lemma_max_props(w, w.len() as int);
    }
    let n = v.len();
    let mut m: i64 = v[0];
    let mut am: usize = 0;
    let mut i: usize = 1;
    while i < n
        invariant
            1 <= i <= n,
            n == w.len(),
            w == to_ints(v@),
            v@.len() == n,
            forall|k: int| 0 <= k < n ==> #[trigger] w[k] == v@[k],
            forall|k: int| 0 <= k < n ==> -LOGIT_LIM <= #[trigger] v@[k] <= LOGIT_LIM,
            m == max_pre(w, i as int),
            am == argmax_pre(w, i as int),
            am < i,
            -LOGIT_LIM <= m <= LOGIT_LIM,
        decreases n - i,
    {
        if v[i] > m {
            m = v[i];
            am = i;
        }
        i = i + 1;
    }
    proof {
        lemma_max_props(w, n as int);
    }
    let mut es: Vec<i64> = Vec::new();
    i = 0;
    while i < n
        invariant
            0 <= i <= n,
            n == w.len(),
            w == to_ints(v@),
            v@.len() == n,
            forall|k: int| 0 <= k < n ==> #[trigger] w[k] == v@[k],
            forall|k: int| 0 <= k < n ==> -LOGIT_LIM <= #[trigger] v@[k] <= LOGIT_LIM,
            forall|k: int| 0 <= k < n ==> #[trigger] w[k] <= m,
            m == max_pre(w, n as int),
            -LOGIT_LIM <= m <= LOGIT_LIM,
            am == argmax_pre(w, n as int),
            am < n,
            es@.len() == i,
            forall|k: int| 0 <= k < i ==> #[trigger] es@[k] == smax_exps(w)[k],
            forall|k: int| 0 <= k < i ==> 0 <= #[trigger] es@[k] <= ONE,
        decreases n - i,
    {
        proof {
            assert(w[i as int] == v@[i as int] && w[i as int] <= m);
        }
        let d: i64 = v[i] - m;
        proof {
            lemma_exp_neg_bounds(d as int);
        }
        es.push(exp_neg(d));
        i = i + 1;
    }
    let mut s_acc: i64 = 0;
    i = 0;
    while i < n
        invariant
            0 <= i <= n,
            1 <= n <= DIM_MAX,
            n == w.len(),
            es@.len() == n,
            forall|k: int| 0 <= k < n ==> #[trigger] es@[k] == smax_exps(w)[k],
            forall|k: int| 0 <= k < n ==> 0 <= #[trigger] es@[k] <= ONE,
            forall|k: int| 0 <= k < n ==> 0 <= #[trigger] smax_exps(w)[k] <= ONE,
            s_acc == sum_pre(smax_exps(w), i as int),
            0 <= s_acc <= i * (ONE as int),
        decreases n - i,
    {
        proof {
            assert((i + 1) * (ONE as int) == i * (ONE as int) + ONE) by (nonlinear_arith);
            assert(i * (ONE as int) <= 1024 * (ONE as int)) by (nonlinear_arith)
                requires 0 <= i <= 1024;
        }
        s_acc = s_acc + es[i];
        i = i + 1;
    }
    proof {
        assert(s_acc == total(smax_exps(w)));
        assert(s_acc >= ONE);
    }
    let mut r: Vec<i64> = Vec::new();
    let mut bsum: i64 = 0;
    i = 0;
    while i < n
        invariant
            0 <= i <= n,
            1 <= n <= DIM_MAX,
            n == w.len(),
            es@.len() == n,
            forall|k: int| 0 <= k < n ==> #[trigger] es@[k] == smax_exps(w)[k],
            forall|k: int| 0 <= k < n ==> 0 <= #[trigger] es@[k] <= ONE,
            forall|k: int| 0 <= k < n ==> 0 <= #[trigger] smax_exps(w)[k] <= ONE,
            s_acc == total(smax_exps(w)),
            s_acc >= ONE,
            r@.len() == i,
            forall|k: int| 0 <= k < i ==> #[trigger] r@[k] == smax_base(w)[k],
            forall|k: int| 0 <= k < i ==> 0 <= #[trigger] r@[k] <= ONE,
            bsum == sum_pre(smax_base(w), i as int),
            0 <= bsum <= i * (ONE as int),
        decreases n - i,
    {
        let num: i64 = es[i] * ONE;
        let b: i64 = crate::fx::udiv(num, s_acc);
        proof {
            lemma_sum_element_le(smax_exps(w), n as int, i as int);
            vstd::arithmetic::mul::lemma_mul_inequality(
                es@[i as int] as int,
                s_acc as int,
                ONE as int,
            );
            vstd::arithmetic::div_mod::lemma_div_is_ordered(
                num as int,
                (s_acc as int) * (ONE as int),
                s_acc as int,
            );
            vstd::arithmetic::div_mod::lemma_div_multiples_vanish(ONE as int, s_acc as int);
            assert(b <= ONE);
            assert(b == smax_base(w)[i as int]);
            assert((i + 1) * (ONE as int) == i * (ONE as int) + ONE) by (nonlinear_arith);
            assert(i * (ONE as int) <= 1024 * (ONE as int)) by (nonlinear_arith)
                requires 0 <= i <= 1024;
        }
        r.push(b);
        bsum = bsum + b;
        i = i + 1;
    }
    proof {
        assert(bsum == total(smax_base(w)));
        lemma_softmax_props(w);
    }
    let d: i64 = ONE - bsum;
    let pam: i64 = r[am];
    proof {
        assert(pam + d == softmax_spec(w)[am as int]);
    }
    r.set(am, pam + d);
    proof {
        assert(to_ints(r@) =~= smax_base(w).update(
            am as int,
            smax_base(w)[am as int] + (ONE - total(smax_base(w))),
        ));
        assert forall|i2: int| 0 <= i2 < r@.len() implies #[trigger] r@[i2] == softmax_spec(w)[i2] by {}
        lemma_sum_eq(to_ints(r@), softmax_spec(w), n as int);
    }
    r
}

} // verus!
