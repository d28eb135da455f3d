//! The fixed-point scalar model: the integer `v` stands for the real number
//! `v / ONE`. Division is truncation toward zero, as the hardware does it;
//! the helpers here give that operation an exact specification and prove the
//! bounds the rest of the engine needs.

use vstd::prelude::*;

verus! {

/// Fixed-point scale: `ONE` stands for the real number 1.
pub const ONE: i64 = 65536;

/// `ONE * ONE`, the divisor that takes a product of two scaled values back
/// to scale.
pub const ONE_SQ: i64 = 4294967296;

/// Largest magnitude a stored parameter may take. Gradient updates saturate
/// here, so every weight and bias stays inside `[-WLIM, WLIM]` and no
/// intermediate product can overflow.
pub const WLIM: i64 = 1099511627776;

/// Upper bound on each of the four network dimensions.
pub const DIM_MAX: usize = 1024;

/// Division truncated toward zero (the meaning of `/` on machine integers),
/// written over mathematical integers. `b` must be positive for this to be
/// meaningful; all uses divide by a positive constant or a proven-positive
/// sum.
pub open spec fn div_trunc(a: int, b: int) -> int {
    if a >= 0 {
        a / b
    } else {
        -((-a) / b)
    }
}

/// Saturation of a value into `[-WLIM, WLIM]`.
pub open spec fn clamp_w_spec(x: int) -> int {
    if x > WLIM {
        WLIM as int
    } else if x < -(WLIM as int) {
        -(WLIM as int)
    } else {
        x
    }
}

/// Truncating division shrinks magnitudes: a bound on the dividend divides
/// through to a bound on the quotient.
pub proof fn lemma_div_trunc_abs(a: int, b: int, m: int)
    requires
        b > 0,
        0 <= m,
        -m <= a <= m,
    ensures
        -(m / b) <= div_trunc(a, b) <= m / b,
        -m <= div_trunc(a, b) <= m,
{
    vstd::arithmetic::div_mod::lemma_div_pos_is_pos(m, b);
    vstd::arithmetic::div_mod::lemma_div_nonincreasing(m, b);
    if a >= 0 {
        vstd::arithmetic::div_mod::lemma_div_pos_is_pos(a, b);
        vstd::arithmetic::div_mod::lemma_div_is_ordered(a, m, b);
    } else {
        vstd::arithmetic::div_mod::lemma_div_pos_is_pos(-a, b);
        vstd::arithmetic::div_mod::lemma_div_is_ordered(-a, m, b);
    }
}

/// Floor division distributes over addition of non-negative terms, up to
/// rounding: the sum of the quotients never exceeds the quotient of the sum.
pub proof fn lemma_div_sum_le(a: int, b: int, d: int)
    requires
        d > 0,
        a >= 0,
        b >= 0,
    ensures
        a / d + b / d <= (a + b) / d,
{
    vstd::arithmetic::div_mod::lemma_fundamental_div_mod(a, d);
    vstd::arithmetic::div_mod::lemma_fundamental_div_mod(b, d);
    vstd::arithmetic::div_mod::lemma_fundamental_div_mod(a + b, d);
    let qa = a / d;
    let qb = b / d;
    let q = (a + b) / d;
    assert(d * q + ((a + b) % d) == d * qa + a % d + (d * qb + b % d));
    assert(d * (qa + qb) == d * qa + d * qb) by (nonlinear_arith);
    assert(a % d >= 0 && b % d >= 0 && (a + b) % d < d);
    assert(d * q - d * (qa + qb) == a % d + b % d - (a + b) % d);
    assert(d * q - d * (qa + qb) > -d);
    assert(d * (q - (qa + qb)) == d * q - d * (qa + qb)) by (nonlinear_arith);
    if q - (qa + qb) < 0 {
        assert(d * (q - (qa + qb)) <= -d) by (nonlinear_arith)
            requires d > 0, q - (qa + qb) <= -1;
    }
}

/// The product of two bounded factors is bounded by the product of the
/// bounds.
pub proof fn lemma_abs_mul_le(a: int, b: int, ab: int, bb: int)
    requires
        -ab <= a <= ab,
        -bb <= b <= bb,
    ensures
        -(ab * bb) <= a * b <= ab * bb,
{
    assert(-(ab * bb) <= a * b <= ab * bb) by (nonlinear_arith)
        requires -ab <= a <= ab, -bb <= b <= bb;
}

/// Truncating division of an `i128` by a positive divisor, performed on
/// magnitudes so that the quotient's meaning is `div_trunc` exactly.
pub fn idiv(x: i128, d: i128) -> (r: i128)
    requires
        d > 0,
        x > i128::MIN,
    ensures
        r == div_trunc(x as int, d as int),
        -x <= r <= x || x <= r <= -x,
{
    proof {
        if x >= 0 {
            lemma_div_trunc_abs(x as int, d as int, x as int);
        } else {
            lemma_div_trunc_abs(x as int, d as int, -(x as int));
        }
    }
    if x >= 0 {
        let q: u128 = (x as u128) / (d as u128);
        q as i128
    } else {
        let q: u128 = ((-x) as u128) / (d as u128);
        -(q as i128)
    }
}

/// Floor division of a non-negative `i64` by a positive one.
pub fn udiv(a: i64, d: i64) -> (r: i64)
    requires
        a >= 0,
        d > 0,
    ensures
        r == a as int / d as int,
        0 <= r <= a,
{
    proof {
        vstd::arithmetic::div_mod::lemma_div_pos_is_pos(a as int, d as int);
        vstd::arithmetic::div_mod::lemma_div_nonincreasing(a as int, d as int);
    }
    let q: u64 = (a as u64) / (d as u64);
    q as i64
}

/// Saturation of a value into `[-WLIM, WLIM]`.
pub fn clamp_w(x: i64) -> (r: i64)
    ensures
        r == clamp_w_spec(x as int),
        -WLIM <= r <= WLIM,
{
    if x > WLIM {
        WLIM
    } else if x < -WLIM {
        -WLIM
    } else {
        x
    }
}

} // verus!
