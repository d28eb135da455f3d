//! The linear layers and their gradients, in fixed point. A weight matrix
//! is a vector of rows; an affine map takes the dot product of the input
//! with each column, scales it back down, and adds the bias. The gradient
//! helpers compute the two backward-pass vectors and the saturating SGD
//! updates of the parameters, each pinned exactly by its contract.

use vstd::prelude::*;
use crate::fx::{
    DIM_MAX, ONE, ONE_SQ, WLIM, clamp_w, clamp_w_spec, div_trunc, idiv, lemma_abs_mul_le,
    lemma_div_trunc_abs, udiv,
};
use crate::scalar::{tanh_fx, tanh_spec};
use crate::softmax::LOGIT_LIM;
use crate::sums::{dot_pre, to_ints};

verus! {

/// Largest magnitude of a hidden-layer gradient entry: a dot product of at
/// most `DIM_MAX` weights against unit-range factors, scaled down.
pub const GRAD_LIM: i64 = 1125899906842624;

/// Most rows a weight matrix may have: a flattened history of `DIM_MAX`
/// vectors of `DIM_MAX` entries.
pub const ROWS_MAX: usize = 1048576;

/// A weight matrix of the given shape with every entry bounded by `lim`.
pub open spec fn mat_wf(w: Seq<Vec<i64>>, rows: int, cols: int, lim: int) -> bool {
    &&& w.len() == rows
    &&& forall|k: int| 0 <= k < rows ==> (#[trigger] w[k])@.len() == cols
    &&& forall|k: int, j: int|
        0 <= k < rows && 0 <= j < cols ==> -lim <= #[trigger] w[k]@[j] <= lim
}

/// Every entry of `v` bounded by `lim` in magnitude.
pub open spec fn vec_bounded(v: Seq<i64>, lim: int) -> bool {
    forall|i: int| 0 <= i < v.len() ==> -lim <= #[trigger] v[i] <= lim
}

/// Column `j` of a weight matrix, as mathematical integers.
pub open spec fn col_of(w: Seq<Vec<i64>>, j: int) -> Seq<int> {
    Seq::new(w.len(), |k: int| w[k]@[j] as int)
}

/// Entry `j` of the affine map: the input dotted with column `j`, scaled
/// back down, plus the bias.
pub open spec fn affine_one(x: Seq<i64>, w: Seq<Vec<i64>>, b: Seq<i64>, j: int) -> int {
    div_trunc(dot_pre(to_ints(x), col_of(w, j), x.len() as int), ONE as int) + b[j]
}

/// The softmax and cross-entropy gradient at the output: the predicted
/// distribution minus the one-hot label.
pub open spec fn dp_of(probs: Seq<i64>, label: int) -> Seq<int> {
    Seq::new(probs.len(), |j: int| probs[j] - if j == label { ONE as int } else { 0 })
}

/// Entry `i` of the hidden-layer gradient: row `i` of the output weights
/// dotted with the output gradient, scaled down, times the tanh derivative
/// `1 - hidden[i]^2`, scaled down again.
pub open spec fn dh_term(w2: Seq<Vec<i64>>, dp: Seq<int>, hidden: Seq<i64>, i: int) -> int {
    div_trunc(
        div_trunc(dot_pre(to_ints(w2[i]@), dp, dp.len() as int), ONE as int)
            * (ONE - div_trunc(hidden[i] * hidden[i], ONE as int)),
        ONE as int,
    )
}

/// One saturating SGD step of a weight: the old value minus
/// `lr * a * b / ONE^2`, clamped into `[-WLIM, WLIM]`.
pub open spec fn step_w_spec(w: int, lr: int, a: int, b: int) -> int {
    clamp_w_spec(w - div_trunc(lr * a * b, ONE_SQ as int))
}

/// One saturating SGD step of a bias: the old value minus `lr * d / ONE`,
/// clamped into `[-WLIM, WLIM]`.
pub open spec fn step_b_spec(b: int, lr: int, d: int) -> int {
    clamp_w_spec(b - div_trunc(lr * d, ONE as int))
}

/// Executable affine map `x * w + b` over the columns of `w`.
pub fn affine(x: &Vec<i64>, w: &Vec<Vec<i64>>, b: &Vec<i64>) -> (r: Vec<i64>)
    requires
        x@.len() == w@.len(),
        x@.len() <= ROWS_MAX,
        1 <= b@.len() <= DIM_MAX,
        mat_wf(w@, x@.len() as int, b@.len() as int, WLIM as int),
        vec_bounded(x@, ONE as int),
        vec_bounded(b@, WLIM as int),
    ensures
        r@.len() == b@.len(),
        forall|j: int| 0 <= j < r@.len() ==> #[trigger] r@[j] == affine_one(x@, w@, b@, j),
        vec_bounded(r@, LOGIT_LIM as int),
{
    let rows = x.len();
    let cols = b.len();
    let mut r: Vec<i64> = Vec::new();
    let mut j: usize = 0;
    while j < cols
        invariant
            0 <= j <= cols,
            rows == x@.len(),
            cols == b@.len(),
            rows <= ROWS_MAX,
            1 <= cols <= DIM_MAX,
            mat_wf(w@, rows as int, cols as int, WLIM as int),
            vec_bounded(x@, ONE as int),
            vec_bounded(b@, WLIM as int),
            r@.len() == j,
            forall|j2: int| 0 <= j2 < j ==> #[trigger] r@[j2] == affine_one(x@, w@, b@, j2),
            forall|j2: int| 0 <= j2 < j ==> -LOGIT_LIM <= #[trigger] r@[j2] <= LOGIT_LIM,
        decreases cols - j,
    {
        let mut acc: i128 = 0;
        let mut k: usize = 0;
        while k < rows
            invariant
                0 <= k <= rows,
                0 <= j < cols,
                rows == x@.len(),
                cols == b@.len(),
                rows <= ROWS_MAX,
                mat_wf(w@, rows as int, cols as int, WLIM as int),
                vec_bounded(x@, ONE as int),
                acc == dot_pre(to_ints(x@), col_of(w@, j as int), k as int),
                -(k * ((ONE as int) * (WLIM as int))) <= acc
                    <= k * ((ONE as int) * (WLIM as int)),
            decreases rows - k,
        {
            let row: &Vec<i64> = &w[k];
            proof {
                assert(to_ints(x@)[k as int] == x@[k as int]);
                assert(col_of(w@, j as int)[k as int] == w@[k as int]@[j as int]);
                lemma_abs_mul_le(
                    x@[k as int] as int,
                    w@[k as int]@[j as int] as int,
                    ONE as int,
                    WLIM as int,
                );
                assert((k + 1) * ((ONE as int) * (WLIM as int)) == k * ((ONE as int) * (
                WLIM as int)) + (ONE as int) * (WLIM as int)) by (nonlinear_arith);
                assert(k * ((ONE as int) * (WLIM as int)) <= 1048576 * ((ONE as int) * (
                WLIM as int))) by (nonlinear_arith)
                    requires 0 <= k <= 1048576;
            }
            acc = acc + (x[k] as i128) * (row[j] as i128);
            k = k + 1;
        }
        proof {
            assert(rows * ((ONE as int) * (WLIM as int)) <= 1048576 * ((ONE as int) * (
            WLIM as int))) by (nonlinear_arith)
                requires 0 <= rows <= 1048576;
            lemma_div_trunc_abs(
                acc as int,
                ONE as int,
                1048576 * ((ONE as int) * (WLIM as int)),
            );
            assert(1048576 * ((ONE as int) * (WLIM as int)) == (ONE as int) * (1048576 * (
            WLIM as int))) by (nonlinear_arith);
            vstd::arithmetic::div_mod::lemma_div_multiples_vanish(
                1048576 * (WLIM as int),
                ONE as int,
            );
        }
        let sc: i128 = idiv(acc, 65536);
        let lj: i64 = (sc as i64) + b[j];
        r.push(lj);
        j = j + 1;
    }
    r
}

/// Executable elementwise tanh.
pub fn tanh_vec(v: &Vec<i64>) -> (r: Vec<i64>)
    requires
        vec_bounded(v@, LOGIT_LIM as int),
    ensures
        r@.len() == v@.len(),
        forall|j: int| 0 <= j < r@.len() ==> #[trigger] r@[j] == tanh_spec(v@[j] as int),
        vec_bounded(r@, ONE as int),
{
    let n = v.len();
    let mut r: Vec<i64> = Vec::new();
    let mut j: usize = 0;
    while j < n
        invariant
            0 <= j <= n,
            n == v@.len(),
            vec_bounded(v@, LOGIT_LIM as int),
            r@.len() == j,
            forall|j2: int| 0 <= j2 < j ==> #[trigger] r@[j2] == tanh_spec(v@[j2] as int),
            forall|j2: int| 0 <= j2 < j ==> -ONE <= #[trigger] r@[j2] <= ONE,
        decreases n - j,
    {
        r.push(tanh_fx(v[j]));
        j = j + 1;
    }
    r
}

/// Executable output gradient: the cached distribution minus the one-hot
/// label.
pub fn grad_out(probs: &Vec<i64>, label: usize) -> (r: Vec<i64>)
    requires
        label < probs@.len(),
        forall|i: int| 0 <= i < probs@.len() ==> 0 <= #[trigger] probs@[i] <= ONE,
    ensures
        r@.len() == probs@.len(),
        forall|j: int| 0 <= j < r@.len() ==> #[trigger] r@[j] == dp_of(probs@, label as int)[j],
        vec_bounded(r@, ONE as int),
{
    let n = probs.len();
    let mut r: Vec<i64> = Vec::new();
    let mut j: usize = 0;
    while j < n
        invariant
            0 <= j <= n,
            n == probs@.len(),
            label < n,
            forall|i: int| 0 <= i < n ==> 0 <= #[trigger] probs@[i] <= ONE,
            r@.len() == j,
            forall|j2: int|
                0 <= j2 < j ==> #[trigger] r@[j2] == dp_of(probs@, label as int)[j2],
            forall|j2: int| 0 <= j2 < j ==> -ONE <= #[trigger] r@[j2] <= ONE,
        decreases n - j,
    {
        if j == label {
            r.push(probs[j] - ONE);
        } else {
            r.push(probs[j]);
        }
        j = j + 1;
    }
    r
}

/// Executable hidden-layer gradient, through the tanh derivative.
pub fn grad_hidden(w2: &Vec<Vec<i64>>, dp: &Vec<i64>, hidden: &Vec<i64>) -> (r: Vec<i64>)
    requires
        1 <= dp@.len() <= DIM_MAX,
        hidden@.len() <= DIM_MAX,
        mat_wf(w2@, hidden@.len() as int, dp@.len() as int, WLIM as int),
        vec_bounded(dp@, ONE as int),
        vec_bounded(hidden@, ONE as int),
    ensures
        r@.len() == hidden@.len(),
        forall|i: int|
            0 <= i < r@.len() ==> #[trigger] r@[i] == dh_term(w2@, to_ints(dp@), hidden@, i),
        vec_bounded(r@, GRAD_LIM as int),
{
    let n = hidden.len();
    let cols = dp.len();
    let mut r: Vec<i64> = Vec::new();
    let mut i: usize = 0;
    while i < n
        invariant
            0 <= i <= n,
            n == hidden@.len(),
            cols == dp@.len(),
            1 <= cols <= DIM_MAX,
            n <= DIM_MAX,
            mat_wf(w2@, n as int, cols as int, WLIM as int),
            vec_bounded(dp@, ONE as int),
            vec_bounded(hidden@, ONE as int),
            r@.len() == i,
            forall|i2: int|
                0 <= i2 < i ==> #[trigger] r@[i2] == dh_term(w2@, to_ints(dp@), hidden@, i2),
            forall|i2: int| 0 <= i2 < i ==> -GRAD_LIM <= #[trigger] r@[i2] <= GRAD_LIM,
        decreases n - i,
    {
        let row: &Vec<i64> = &w2[i];
        let mut acc: i128 = 0;
        let mut j: usize = 0;
        while j < cols
            invariant
                0 <= j <= cols,
                0 <= i < n,
                n == hidden@.len(),
                cols == dp@.len(),
                cols <= DIM_MAX,
                mat_wf(w2@, n as int, cols as int, WLIM as int),
                vec_bounded(dp@, ONE as int),
                row@ == w2@[i as int]@,
                acc == dot_pre(to_ints(w2@[i as int]@), to_ints(dp@), j as int),
                -(j * ((ONE as int) * (WLIM as int))) <= acc
                    <= j * ((ONE as int) * (WLIM as int)),
            decreases cols - j,
        {
            proof {
                assert(to_ints(w2@[i as int]@)[j as int] == w2@[i as int]@[j as int]);
                assert(to_ints(dp@)[j as int] == dp@[j as int]);
                lemma_abs_mul_le(
                    w2@[i as int]@[j as int] as int,
                    dp@[j as int] as int,
                    WLIM as int,
                    ONE as int,
                );
                assert((ONE as int) * (WLIM as int) == (WLIM as int) * (ONE as int))
                    by (nonlinear_arith);
                assert((j + 1) * ((ONE as int) * (WLIM as int)) == j * ((ONE as int) * (
                WLIM as int)) + (ONE as int) * (WLIM as int)) by (nonlinear_arith);
                assert(j * ((ONE as int) * (WLIM as int)) <= 1024 * ((ONE as int) * (
                WLIM as int))) by (nonlinear_arith)
                    requires 0 <= j <= 1024;
            }
            acc = acc + (row[j] as i128) * (dp[j] as i128);
            j = j + 1;
        }
        proof {
            assert(cols * ((ONE as int) * (WLIM as int)) <= 1024 * ((ONE as int) * (
            WLIM as int))) by (nonlinear_arith)
                requires 0 <= cols <= 1024;
            lemma_div_trunc_abs(acc as int, ONE as int, 1024 * ((ONE as int) * (WLIM as int)));
            assert(1024 * ((ONE as int) * (WLIM as int)) == (ONE as int) * (1024 * (
            WLIM as int))) by (nonlinear_arith);
            vstd::arithmetic::div_mod::lemma_div_multiples_vanish(
                1024 * (WLIM as int),
                ONE as int,
            );
        }
        let g128: i128 = idiv(acc, 65536);
        let g: i64 = g128 as i64;
        let h: i64 = hidden[i];
        proof {
            lemma_abs_mul_le(h as int, h as int, ONE as int, ONE as int);
            assert(h as int * h as int >= 0) by (nonlinear_arith);
            vstd::arithmetic::div_mod::lemma_div_pos_is_pos(h as int * h as int, ONE as int);
            vstd::arithmetic::div_mod::lemma_div_is_ordered(
                h as int * h as int,
                (ONE as int) * (ONE as int),
                ONE as int,
            );
            vstd::arithmetic::div_mod::lemma_div_multiples_vanish(ONE as int, ONE as int);
        }
        let hh: i64 = udiv(h * h, ONE);
        let t: i64 = ONE - hh;
        proof {
            lemma_abs_mul_le(g as int, t as int, GRAD_LIM as int, ONE as int);
            lemma_div_trunc_abs(
                g as int * t as int,
                ONE as int,
                (GRAD_LIM as int) * (ONE as int),
            );
            assert((GRAD_LIM as int) * (ONE as int) == (ONE as int) * (GRAD_LIM as int))
                by (nonlinear_arith);
            vstd::arithmetic::div_mod::lemma_div_multiples_vanish(GRAD_LIM as int, ONE as int);
        }
        let d128: i128 = idiv((g as i128) * (t as i128), 65536);
        let d: i64 = d128 as i64;
        r.push(d);
        i = i + 1;
    }
    r
}

/// One saturating SGD step applied to a whole weight matrix:
/// `w[k][j] - lr * xs[k] * ds[j] / ONE^2`, clamped.
pub fn step_mat(w: &Vec<Vec<i64>>, xs: &Vec<i64>, ds: &Vec<i64>, lr: i64) -> (r: Vec<Vec<i64>>)
    requires
        0 < lr <= ONE,
        xs@.len() == w@.len(),
        mat_wf(w@, xs@.len() as int, ds@.len() as int, WLIM as int),
        vec_bounded(xs@, ONE as int),
        vec_bounded(ds@, GRAD_LIM as int),
    ensures
        mat_wf(r@, xs@.len() as int, ds@.len() as int, WLIM as int),
        forall|k: int, j: int|
            0 <= k < r@.len() && 0 <= j < ds@.len() ==> #[trigger] r@[k]@[j] == step_w_spec(
                w@[k]@[j] as int,
                lr as int,
                xs@[k] as int,
                ds@[j] as int,
            ),
    {
    let rows = xs.len();
    let cols = ds.len();
    let mut r: Vec<Vec<i64>> = Vec::new();
    let mut k: usize = 0;
    while k < rows
        invariant
            0 <= k <= rows,
            rows == xs@.len(),
            cols == ds@.len(),
            0 < lr <= ONE,
            mat_wf(w@, rows as int, cols as int, WLIM as int),
            vec_bounded(xs@, ONE as int),
            vec_bounded(ds@, GRAD_LIM as int),
            r@.len() == k,
            forall|k2: int| 0 <= k2 < k ==> (#[trigger] r@[k2])@.len() == cols,
            forall|k2: int, j: int|
                0 <= k2 < k && 0 <= j < cols ==> #[trigger] r@[k2]@[j] == step_w_spec(
                    w@[k2]@[j] as int,
                    lr as int,
                    xs@[k2] as int,
                    ds@[j] as int,
                ),
            forall|k2: int, j: int|
                0 <= k2 < k && 0 <= j < cols ==> -WLIM <= #[trigger] r@[k2]@[j] <= WLIM,
        decreases rows - k,
    {
        let wrow: &Vec<i64> = &w[k];
        let xk: i64 = xs[k];
        let mut nrow: Vec<i64> = Vec::new();
        let mut j: usize = 0;
        while j < cols
            invariant
                0 <= j <= cols,
                0 <= k < rows,
                rows == xs@.len(),
                cols == ds@.len(),
                0 < lr <= ONE,
                mat_wf(w@, rows as int, cols as int, WLIM as int),
                vec_bounded(ds@, GRAD_LIM as int),
                wrow@ == w@[k as int]@,
                xk == xs@[k as int],
                -ONE <= xk <= ONE,
                nrow@.len() == j,
                forall|j2: int|
                    0 <= j2 < j ==> #[trigger] nrow@[j2] == step_w_spec(
                        w@[k as int]@[j2] as int,
                        lr as int,
                        xs@[k as int] as int,
                        ds@[j2] as int,
                    ),
                forall|j2: int| 0 <= j2 < j ==> -WLIM <= #[trigger] nrow@[j2] <= WLIM,
            decreases cols - j,
        {
            proof {
                lemma_abs_mul_le(lr as int, xk as int, ONE as int, ONE as int);
                lemma_abs_mul_le(
                    (lr as int) * (xk as int),
                    ds@[j as int] as int,
                    (ONE as int) * (ONE as int),
                    GRAD_LIM as int,
                );
                assert(((ONE as int) * (ONE as int)) * (GRAD_LIM as int) == (ONE_SQ as int) * (
                GRAD_LIM as int)) by (nonlinear_arith);
                lemma_div_trunc_abs(
                    (lr as int) * (xk as int) * (ds@[j as int] as int),
                    ONE_SQ as int,
                    (ONE_SQ as int) * (GRAD_LIM as int),
                );
                vstd::arithmetic::div_mod::lemma_div_multiples_vanish(
                    GRAD_LIM as int,
                    ONE_SQ as int,
                );
            }
            let p: i128 = (lr as i128) * (xk as i128) * (ds[j] as i128);
            let d128: i128 = idiv(p, 4294967296);
            let d: i64 = d128 as i64;
            nrow.push(clamp_w(wrow[j] - d));
            j = j + 1;
        }
        r.push(nrow);
        k = k + 1;
    }
    r
}

/// One saturating SGD step applied to a bias vector:
/// `b[j] - lr * ds[j] / ONE`, clamped.
pub fn step_vec(b: &Vec<i64>, ds: &Vec<i64>, lr: i64) -> (r: Vec<i64>)
    requires
        0 < lr <= ONE,
        b@.len() == ds@.len(),
        vec_bounded(b@, WLIM as int),
        vec_bounded(ds@, GRAD_LIM as int),
    ensures
        r@.len() == b@.len(),
        forall|j: int|
            0 <= j < r@.len() ==> #[trigger] r@[j] == step_b_spec(
                b@[j] as int,
                lr as int,
                ds@[j] as int,
            ),
        vec_bounded(r@, WLIM as int),
{
    let n = b.len();
    let mut r: Vec<i64> = Vec::new();
    let mut j: usize = 0;
    while j < n
        invariant
            0 <= j <= n,
            n == b@.len(),
            n == ds@.len(),
            0 < lr <= ONE,
            vec_bounded(b@, WLIM as int),
            vec_bounded(ds@, GRAD_LIM as int),
            r@.len() == j,
            forall|j2: int|
                0 <= j2 < j ==> #[trigger] r@[j2] == step_b_spec(
                    b@[j2] as int,
                    lr as int,
                    ds@[j2] as int,
                ),
            forall|j2: int| 0 <= j2 < j ==> -WLIM <= #[trigger] r@[j2] <= WLIM,
        decreases n - j,
    {
        proof {
            lemma_abs_mul_le(lr as int, ds@[j as int] as int, ONE as int, GRAD_LIM as int);
            lemma_div_trunc_abs(
                (lr as int) * (ds@[j as int] as int),
                ONE as int,
                (ONE as int) * (GRAD_LIM as int),
            );
            vstd::arithmetic::div_mod::lemma_div_multiples_vanish(GRAD_LIM as int, ONE as int);
        }
        let p: i128 = (lr as i128) * (ds[j] as i128);
        let d128: i128 = idiv(p, 65536);
        let d: i64 = d128 as i64;
        r.push(clamp_w(b[j] - d));
        j = j + 1;
    }
    r
}

} // verus!
