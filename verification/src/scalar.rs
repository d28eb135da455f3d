//! The two nonlinear scalar functions of the engine, in fixed point: a
//! decaying exponential for the softmax and the hyperbolic tangent for the
//! hidden layer. Both are defined by an explicit integer algorithm (a short
//! Taylor polynomial followed by repeated squaring), so their values are
//! pinned exactly by the specification, and both are proved to stay inside
//! the unit range.

use vstd::prelude::*;
use crate::fx::{ONE, div_trunc, lemma_abs_mul_le, udiv};

verus! {

/// Arguments below `-EXP_CUT` (16 in real terms) flush the exponential to
/// zero; at this scale the true value already rounds to zero there.
pub const EXP_CUT: i64 = 1048576;

/// The tanh saturates at arguments past `TANH_CLIP` (8 in real terms).
pub const TANH_CLIP: i64 = 524288;

/// Cubic Taylor polynomial for `exp(-s / ONE)`, on `0 <= s <= ONE / 2`.
pub open spec fn taylor_spec(s: int) -> int {
    ONE - s + (s * s / (ONE as int)) / 2 - ((s * s / (ONE as int)) * s / (ONE as int)) / 6
}

/// `n`-fold fixed-point squaring of `x`.
pub open spec fn pow_sq(x: int, n: nat) -> int
    decreases n,
{
    if n == 0 {
        x
    } else {
        pow_sq(x * x / (ONE as int), (n - 1) as nat)
    }
}

/// Fixed-point `exp(u / ONE)` for non-positive `u`: the Taylor polynomial at
/// `u / 32`, squared five times.
pub open spec fn exp_neg_spec(u: int) -> int {
    if u <= -(EXP_CUT as int) {
        0
    } else {
        pow_sq(taylor_spec((-u) / 32), 5)
    }
}

/// Fixed-point tanh for a non-negative argument, through
/// `(1 - e) / (1 + e)` with `e = exp(-2x)`.
pub open spec fn tanh_pos_spec(x: int) -> int {
    let c = if x > TANH_CLIP { TANH_CLIP as int } else { x };
    let e = exp_neg_spec(-2 * c);
    ((ONE - e) * ONE) / (ONE + e)
}

/// Fixed-point tanh, extended to negative arguments as an odd function.
pub open spec fn tanh_spec(x: int) -> int {
    if x >= 0 {
        tanh_pos_spec(x)
    } else {
        -tanh_pos_spec(-x)
    }
}

/// The Taylor polynomial stays inside the unit interval on its domain, and
/// is exactly one at zero.
pub proof fn lemma_taylor_bounds(s: int)
    requires
        0 <= s <= 32768,
    ensures
        0 <= taylor_spec(s) <= ONE,
        s == 0 ==> taylor_spec(s) == ONE,
{
    let q1 = s * s / (ONE as int);
    let q2 = q1 / 2;
    let q3 = q1 * s / (ONE as int) / 6;
    assert(s * s <= s * ONE) by (nonlinear_arith)
        requires 0 <= s <= 32768;
    assert(s * s >= 0) by (nonlinear_arith);
    vstd::arithmetic::div_mod::lemma_div_pos_is_pos(s * s, ONE as int);
    vstd::arithmetic::div_mod::lemma_div_is_ordered(s * s, s * ONE, ONE as int);
    vstd::arithmetic::div_mod::lemma_div_multiples_vanish(s, ONE as int);
    assert(s * ONE == ONE * s) by (nonlinear_arith);
    assert(q1 <= s);
    vstd::arithmetic::div_mod::lemma_div_pos_is_pos(q1, 2);
    vstd::arithmetic::div_mod::lemma_div_nonincreasing(q1, 2);
    assert(q1 * s <= s * s) by (nonlinear_arith)
        requires 0 <= q1 <= s;
    assert(q1 * s >= 0) by (nonlinear_arith)
        requires q1 >= 0, s >= 0;
    vstd::arithmetic::div_mod::lemma_div_pos_is_pos(q1 * s, ONE as int);
    vstd::arithmetic::div_mod::lemma_div_is_ordered(q1 * s, s * s, ONE as int);
    vstd::arithmetic::div_mod::lemma_div_pos_is_pos(q1 * s / (ONE as int), 6);
    vstd::arithmetic::div_mod::lemma_div_nonincreasing(q1 * s / (ONE as int), 6);
    assert(q3 <= q1);
    if s == 0 {
        assert(taylor_spec(0) == ONE);
    }
}

/// Fixed-point squaring keeps the unit interval and fixes both endpoints.
pub proof fn lemma_sq_scale_bounds(x: int)
    requires
        0 <= x <= ONE,
    ensures
        0 <= x * x / (ONE as int) <= ONE,
        x == ONE ==> x * x / (ONE as int) == ONE,
{
    assert(x * x >= 0) by (nonlinear_arith)
        requires x >= 0;
    assert(x * x <= ONE * x) by (nonlinear_arith)
        requires 0 <= x <= ONE;
    vstd::arithmetic::div_mod::lemma_div_pos_is_pos(x * x, ONE as int);
    vstd::arithmetic::div_mod::lemma_div_is_ordered(x * x, ONE * x, ONE as int);
    vstd::arithmetic::div_mod::lemma_div_multiples_vanish(x, ONE as int);
}

/// One more squaring peels off the outside of `pow_sq`.
pub proof fn lemma_pow_sq_step(x: int, n: nat)
    ensures
        pow_sq(x, n + 1) == pow_sq(x, n) * pow_sq(x, n) / (ONE as int),
    decreases n,
{
    if n > 0 {
        lemma_pow_sq_step(x * x / (ONE as int), (n - 1) as nat);
    } else {
        assert(pow_sq(x, 1) == x * x / (ONE as int)) by {
            reveal_with_fuel(pow_sq, 2);
        }
    }
}

/// Repeated squaring keeps the unit interval and fixes one.
pub proof fn lemma_pow_sq_bounds(x: int, n: nat)
    requires
        0 <= x <= ONE,
    ensures
        0 <= pow_sq(x, n) <= ONE,
        x == ONE ==> pow_sq(x, n) == ONE,
    decreases n,
{
    if n > 0 {
        lemma_sq_scale_bounds(x);
        lemma_pow_sq_bounds(x * x / (ONE as int), (n - 1) as nat);
    }
}

/// The fixed-point exponential of a non-positive argument lies in the unit
/// interval, and is exactly one at zero.
pub proof fn lemma_exp_neg_bounds(u: int)
    requires
        u <= 0,
    ensures
        0 <= exp_neg_spec(u) <= ONE,
        u == 0 ==> exp_neg_spec(u) == ONE,
{
    if u > -(EXP_CUT as int) {
        let s = (-u) / 32;
        vstd::arithmetic::div_mod::lemma_div_pos_is_pos(-u, 32);
        vstd::arithmetic::div_mod::lemma_div_is_ordered(-u, EXP_CUT as int, 32);
        lemma_taylor_bounds(s);
        lemma_pow_sq_bounds(taylor_spec(s), 5);
        if u == 0 {
            vstd::arithmetic::div_mod::lemma_div_of0(32);
        }
    }
}

/// Unit-range bounds for the non-negative branch of the tanh.
pub proof fn lemma_tanh_pos_bounds(x: int)
    requires
        x >= 0,
    ensures
        0 <= tanh_pos_spec(x) <= ONE,
        x == 0 ==> tanh_pos_spec(x) == 0,
{
    let c = if x > TANH_CLIP { TANH_CLIP as int } else { x };
    let e = exp_neg_spec(-2 * c);
    lemma_exp_neg_bounds(-2 * c);
    assert(0 <= e <= ONE);
    let num = (ONE - e) * ONE;
    let den = ONE + e;
    vstd::arithmetic::mul::lemma_mul_nonnegative(ONE - e, ONE as int);
    vstd::arithmetic::div_mod::lemma_div_pos_is_pos(num, den);
    vstd::arithmetic::mul::lemma_mul_inequality(ONE - e, den, ONE as int);
    vstd::arithmetic::mul::lemma_mul_is_commutative(den, ONE as int);
    vstd::arithmetic::div_mod::lemma_div_is_ordered(num, den * ONE, den);
    vstd::arithmetic::div_mod::lemma_div_multiples_vanish(ONE as int, den);
    if x == 0 {
        assert(e == ONE);
        vstd::arithmetic::mul::lemma_mul_by_zero_is_zero(ONE as int);
        vstd::arithmetic::div_mod::lemma_div_of0(den);
    }
}

/// Executable fixed-point exponential of a non-positive argument.
pub fn exp_neg(u: i64) -> (r: i64)
    requires
        u <= 0,
    ensures
        r == exp_neg_spec(u as int),
        0 <= r <= ONE,
        u == 0 ==> r == ONE,
{
    proof {
        lemma_exp_neg_bounds(u as int);
    }
    if u <= -EXP_CUT {
        return 0;
    }
    let t: i64 = -u;
    let s: i64 = udiv(t, 32);
    proof {
        vstd::arithmetic::div_mod::lemma_div_is_ordered(t as int, EXP_CUT as int, 32);
        lemma_taylor_bounds(s as int);
    }
    proof {
        lemma_abs_mul_le(s as int, s as int, 32768, 32768);
        vstd::arithmetic::mul::lemma_mul_nonnegative(s as int, s as int);
    }
    let q1: i64 = udiv(s * s, ONE);
    let q2: i64 = udiv(q1, 2);
    proof {
        lemma_abs_mul_le(q1 as int, s as int, 1073741824, 32768);
        vstd::arithmetic::mul::lemma_mul_nonnegative(q1 as int, s as int);
    }
    let q3: i64 = udiv(udiv(q1 * s, ONE), 6);
    let t0: i64 = ONE - s + q2 - q3;
    assert(t0 == taylor_spec(s as int));
    let mut r: i64 = t0;
    let mut i: usize = 0;
    while i < 5
        invariant
            0 <= i <= 5,
            0 <= t0 <= ONE,
            0 <= r <= ONE,
            r == pow_sq(t0 as int, i as nat),
            exp_neg_spec(u as int) == pow_sq(t0 as int, 5),
        decreases 5 - i,
    {
        proof {
            lemma_pow_sq_step(t0 as int, i as nat);
            lemma_abs_mul_le(r as int, r as int, ONE as int, ONE as int);
            vstd::arithmetic::mul::lemma_mul_nonnegative(r as int, r as int);
            lemma_sq_scale_bounds(r as int);
        }
        r = udiv(r * r, ONE);
        i = i + 1;
    }
    r
}

/// Executable fixed-point tanh of a non-negative argument.
fn tanh_pos(x: i64) -> (r: i64)
    requires
        x >= 0,
    ensures
        r == tanh_pos_spec(x as int),
        0 <= r <= ONE,
{
    proof {
        lemma_tanh_pos_bounds(x as int);
    }
    let c: i64 = if x > TANH_CLIP { TANH_CLIP } else { x };
    let e: i64 = exp_neg(-2 * c);
    proof {
        lemma_abs_mul_le((ONE - e) as int, ONE as int, ONE as int, ONE as int);
    }
    let num: i64 = (ONE - e) * ONE;
    proof {
        vstd::arithmetic::mul::lemma_mul_nonnegative((ONE - e) as int, ONE as int);
    }
    udiv(num, ONE + e)
}

/// Executable fixed-point tanh.
pub fn tanh_fx(x: i64) -> (r: i64)
    requires
        x > i64::MIN,
    ensures
        r == tanh_spec(x as int),
        -ONE <= r <= ONE,
{
    if x >= 0 {
        tanh_pos(x)
    } else {
        let p = tanh_pos(-x);
        -p
    }
}

} // verus!
