//! The network itself: a sliding history window, two affine layers with a
//! tanh between them and a softmax after them, and an online gradient-descent
//! update. `forward` and `backward` are pinned exactly: the contract gives
//! the new state as a function of the old one, so two networks in the same
//! state driven by the same calls stay identical.

use vstd::prelude::*;
use crate::NetError;
use crate::fx::{DIM_MAX, ONE, WLIM, div_trunc, udiv};
use crate::history::HistoryBuffer;
use crate::layers::{
    affine, affine_one, col_of, dh_term, dp_of, grad_hidden, grad_out, mat_wf, step_b_spec,
    step_mat, step_vec, step_w_spec, tanh_vec, vec_bounded, GRAD_LIM,
};
use crate::rng::{rand_in, rng_from_seed};
use crate::scalar::tanh_spec;
use crate::softmax::{softmax, softmax_spec};
use crate::sums::{dot_pre, sum_pre, to_ints, total};

verus! {

/// Bound on the magnitude of a freshly drawn weight: 0.1 in real terms.
pub const WINIT: i64 = 6554;

/// The weight matrices and bias vectors of the two layers. Owned by the
/// network and mutated only by `backward`.
pub struct Params {
    /// First-layer weights: one row per flattened history entry, one column
    /// per hidden unit.
    pub w1: Vec<Vec<i64>>,
    /// First-layer bias, one entry per hidden unit.
    pub b1: Vec<i64>,
    /// Second-layer weights: one row per hidden unit, one column per output
    /// class.
    pub w2: Vec<Vec<i64>>,
    /// Second-layer bias, one entry per output class.
    pub b2: Vec<i64>,
}

/// A trainable sequence classifier over a rolling input window.
pub struct RPSNetwork {
    /// Length of each input vector.
    pub input_size: usize,
    /// Number of input vectors the history window holds.
    pub history_size: usize,
    /// Number of hidden units.
    pub hidden_size: usize,
    /// Number of output classes.
    pub output_size: usize,
    /// The rolling input window.
    pub history: HistoryBuffer,
    /// The trainable parameters.
    pub params: Params,
    /// Hidden activations cached by the most recent forward pass.
    pub hidden: Vec<i64>,
    /// Output distribution cached by the most recent forward pass.
    pub probs: Vec<i64>,
    /// Whether a forward pass has filled the cache since construction.
    pub has_cache: bool,
}

/// The initial output distribution: uniform up to rounding, with the
/// rounding remainder on the first class so the total is exactly `ONE`.
pub open spec fn uniform_probs(k: int) -> Seq<int> {
    Seq::new(k as nat, |i: int| (ONE as int) / k + if i == 0 { (ONE as int) % k } else { 0 })
}

/// The flattened history after one push of `input`.
pub open spec fn next_history(n: RPSNetwork, input: Seq<i64>) -> Seq<i64> {
    crate::history::pushed(n.history.data@, n.input_size as int, input)
}

/// The hidden activations after one forward pass with `input`.
pub open spec fn next_hidden(n: RPSNetwork, input: Seq<i64>) -> Seq<int> {
    Seq::new(
        n.params.b1@.len(),
        |j: int| tanh_spec(affine_one(next_history(n, input), n.params.w1@, n.params.b1@, j)),
    )
}

/// The output-layer logits for given hidden activations.
pub open spec fn out_logits_i(hidden: Seq<int>, w2: Seq<Vec<i64>>, b2: Seq<i64>) -> Seq<int> {
    Seq::new(
        b2.len(),
        |j: int|
            div_trunc(dot_pre(hidden, col_of(w2, j), hidden.len() as int), ONE as int) + b2[j],
    )
}

/// The output distribution after one forward pass with `input`.
pub open spec fn next_probs(n: RPSNetwork, input: Seq<i64>) -> Seq<int> {
    softmax_spec(out_logits_i(next_hidden(n, input), n.params.w2@, n.params.b2@))
}

impl RPSNetwork {
    /// The shape and range invariant of the network: every tensor has the
    /// shape fixed at construction, parameters stay inside `[-WLIM, WLIM]`,
    /// activations inside the unit range, and the cached distribution sums
    /// to exactly `ONE`.
    pub open spec fn wf(self) -> bool {
        &&& 1 <= self.input_size <= DIM_MAX
        &&& 1 <= self.history_size <= DIM_MAX
        &&& 1 <= self.hidden_size <= DIM_MAX
        &&& 1 <= self.output_size <= DIM_MAX
        &&& self.history.wf()
        &&& self.history.input_size == self.input_size
        &&& self.history.history_size == self.history_size
        &&& mat_wf(
            self.params.w1@,
            self.input_size * self.history_size,
            self.hidden_size as int,
            WLIM as int,
        )
        &&& self.params.b1@.len() == self.hidden_size
        &&& vec_bounded(self.params.b1@, WLIM as int)
        &&& mat_wf(self.params.w2@, self.hidden_size as int, self.output_size as int, WLIM as int)
        &&& self.params.b2@.len() == self.output_size
        &&& vec_bounded(self.params.b2@, WLIM as int)
        &&& self.hidden@.len() == self.hidden_size
        &&& vec_bounded(self.hidden@, ONE as int)
        &&& self.probs@.len() == self.output_size
        &&& forall|i: int| 0 <= i < self.probs@.len() ==> 0 <= #[trigger] self.probs@[i] <= ONE
        &&& total(to_ints(self.probs@)) == ONE
    }

    /// A fresh network: zeroed history and biases, weights drawn uniformly
    /// from `[-WINIT, WINIT)` by a generator seeded with `seed`, and a
    /// uniform output distribution.
    pub fn new(
        input_size: usize,
        history_size: usize,
        hidden_size: usize,
        output_size: usize,
        seed: u64,
    ) -> (r: Self)
        requires
            1 <= input_size <= DIM_MAX,
            1 <= history_size <= DIM_MAX,
            1 <= hidden_size <= DIM_MAX,
            1 <= output_size <= DIM_MAX,
        ensures
            r.wf(),
            r.input_size == input_size,
            r.history_size == history_size,
            r.hidden_size == hidden_size,
            r.output_size == output_size,
            !r.has_cache,
            r.history.data@.len() == input_size * history_size,
            forall|i: int| 0 <= i < r.history.data@.len() ==> #[trigger] r.history.data@[i] == 0,
            mat_wf(r.params.w1@, input_size * history_size, hidden_size as int, WINIT as int),
            mat_wf(r.params.w2@, hidden_size as int, output_size as int, WINIT as int),
            r.params.b1@.len() == hidden_size,
            forall|j: int| 0 <= j < r.params.b1@.len() ==> #[trigger] r.params.b1@[j] == 0,
            r.params.b2@.len() == output_size,
            forall|j: int| 0 <= j < r.params.b2@.len() ==> #[trigger] r.params.b2@[j] == 0,
            r.hidden@.len() == hidden_size,
            forall|j: int| 0 <= j < r.hidden@.len() ==> #[trigger] r.hidden@[j] == 0,
            r.probs@.len() == output_size,
            forall|i: int|
                0 <= i < r.probs@.len() ==> #[trigger] r.probs@[i] == uniform_probs(
                    output_size as int,
                )[i],
    {
        proof {
            assert(input_size * history_size <= 1048576) by (nonlinear_arith)
                requires 1 <= input_size <= 1024, 1 <= history_size <= 1024;
            assert(input_size * 1 <= input_size * history_size) by (nonlinear_arith)
                requires 1 <= history_size, 0 <= input_size;
        }
        let rows: usize = input_size * history_size;
        let mut rng = rng_from_seed(seed);
        let history = HistoryBuffer::new(input_size, history_size);
        let w1 = rand_mat(&mut rng, rows, hidden_size);
        let b1 = zero_vec(hidden_size);
        let w2 = rand_mat(&mut rng, hidden_size, output_size);
        let b2 = zero_vec(output_size);
        let hidden = zero_vec(hidden_size);
        let probs = uniform_vec(output_size);
        proof {
            lemma_uniform_props(output_size as int);
            lemma_uniform_prefix(output_size as int, output_size as int);
        }
        let r = RPSNetwork {
            input_size,
            history_size,
            hidden_size,
            output_size,
            history,
            params: Params { w1, b1, w2, b2 },
            hidden,
            probs,
            has_cache: false,
        };
        proof {
            crate::sums::lemma_sum_eq(
                to_ints(r.probs@),
                uniform_probs(output_size as int),
                output_size as int,
            );
        }
        r
    }

    /// One forward pass: push `input` into the history, then compute the
    /// hidden activations and the output distribution and cache both. An
    /// input of the wrong length is rejected and the network is untouched.
    pub fn forward(&mut self, input: &Vec<i64>) -> (r: Result<(), NetError>)
        requires
            old(self).wf(),
            vec_bounded(input@, ONE as int),
        ensures
            final(self).wf(),
            final(self).input_size == old(self).input_size,
            final(self).history_size == old(self).history_size,
            final(self).hidden_size == old(self).hidden_size,
            final(self).output_size == old(self).output_size,
            input@.len() != old(self).input_size ==> r == Err::<(), NetError>(
                NetError::InvalidDimension,
            ) && *final(self) == *old(self),
            input@.len() == old(self).input_size ==> {
                &&& r == Ok::<(), NetError>(())
                &&& final(self).history.data@ == next_history(*old(self), input@)
                &&& to_ints(final(self).hidden@) == next_hidden(*old(self), input@)
                &&& to_ints(final(self).probs@) == next_probs(*old(self), input@)
                &&& final(self).params == old(self).params
                &&& final(self).has_cache
            },
    {
        let ghost pre = *self;
        match self.history.push(input) {
            Err(e) => {
                return Err(e);
            },
            Ok(()) => {},
        }
        proof {
            assert(self.input_size * self.history_size <= 1048576) by (nonlinear_arith)
                requires 1 <= self.input_size <= 1024, 1 <= self.history_size <= 1024;
        }
        let l1 = affine(&self.history.data, &self.params.w1, &self.params.b1);
        let hid = tanh_vec(&l1);
        self.hidden = hid;
        let l2 = affine(&self.hidden, &self.params.w2, &self.params.b2);
        let pr = softmax(&l2);
        self.probs = pr;
        self.has_cache = true;
        proof {
            assert(self.history.data@ == next_history(pre, input@));
            assert forall|j: int| 0 <= j < self.hidden@.len() implies #[trigger] to_ints(
                self.hidden@,
            )[j] == next_hidden(pre, input@)[j] by {
                assert(self.hidden@[j] == tanh_spec(l1@[j] as int));
                assert(l1@[j] == affine_one(self.history.data@, pre.params.w1@, pre.params.b1@, j));
            }
            assert(to_ints(self.hidden@) =~= next_hidden(pre, input@));
            assert forall|j: int| 0 <= j < l2@.len() implies #[trigger] to_ints(l2@)[j]
                == out_logits_i(next_hidden(pre, input@), pre.params.w2@, pre.params.b2@)[j] by {
                assert(l2@[j] == affine_one(self.hidden@, pre.params.w2@, pre.params.b2@, j));
            }
            assert(to_ints(l2@) =~= out_logits_i(
                next_hidden(pre, input@),
                pre.params.w2@,
                pre.params.b2@,
            ));
            crate::softmax::lemma_softmax_props(to_ints(l2@));
            assert(next_probs(pre, input@) == softmax_spec(to_ints(l2@)));
            assert(next_probs(pre, input@).len() == l2@.len());
            assert forall|i: int| 0 <= i < self.probs@.len() implies #[trigger] to_ints(
                self.probs@,
            )[i] == next_probs(pre, input@)[i] by {
                assert(self.probs@[i] == softmax_spec(to_ints(l2@))[i]);
            }
            assert(to_ints(self.probs@) =~= next_probs(pre, input@));
        }
        Ok(())
    }

    /// One backward pass: from the cached forward snapshot and the true
    /// label, compute the output and hidden gradients and apply one
    /// saturating SGD step to every parameter. A label out of range is
    /// rejected with `OutOfRange`; a call before any forward pass with
    /// `ContractViolation`; either way the network is untouched.
    pub fn backward(&mut self, label: usize, lr: i64) -> (r: Result<(), NetError>)
        requires
            old(self).wf(),
            0 < lr <= ONE,
        ensures
            final(self).wf(),
            final(self).input_size == old(self).input_size,
            final(self).history_size == old(self).history_size,
            final(self).hidden_size == old(self).hidden_size,
            final(self).output_size == old(self).output_size,
            label >= old(self).output_size ==> r == Err::<(), NetError>(NetError::OutOfRange)
                && *final(self) == *old(self),
            label < old(self).output_size && !old(self).has_cache ==> r == Err::<(), NetError>(
                NetError::ContractViolation,
            ) && *final(self) == *old(self),
            label < old(self).output_size && old(self).has_cache ==> {
                &&& r == Ok::<(), NetError>(())
                &&& final(self).history == old(self).history
                &&& final(self).hidden@ == old(self).hidden@
                &&& final(self).probs@ == old(self).probs@
                &&& final(self).has_cache == old(self).has_cache
                &&& forall|i: int, j: int|
                    0 <= i < old(self).hidden_size && 0 <= j < old(self).output_size
                        ==> #[trigger] final(self).params.w2@[i]@[j] == step_w_spec(
                        old(self).params.w2@[i]@[j] as int,
                        lr as int,
                        old(self).hidden@[i] as int,
                        dp_of(old(self).probs@, label as int)[j],
                    )
                &&& forall|k: int, j: int|
                    0 <= k < old(self).input_size * old(self).history_size && 0 <= j < old(
                        self,
                    ).hidden_size ==> #[trigger] final(self).params.w1@[k]@[j] == step_w_spec(
                        old(self).params.w1@[k]@[j] as int,
                        lr as int,
                        old(self).history.data@[k] as int,
                        dh_term(
                            old(self).params.w2@,
                            dp_of(old(self).probs@, label as int),
                            old(self).hidden@,
                            j,
                        ),
                    )
                &&& forall|j: int|
                    0 <= j < old(self).hidden_size ==> #[trigger] final(self).params.b1@[j]
                        == step_b_spec(
                        old(self).params.b1@[j] as int,
                        lr as int,
                        dh_term(
                            old(self).params.w2@,
                            dp_of(old(self).probs@, label as int),
                            old(self).hidden@,
                            j,
                        ),
                    )
                &&& forall|j: int|
                    0 <= j < old(self).output_size ==> #[trigger] final(self).params.b2@[j]
                        == step_b_spec(
                        old(self).params.b2@[j] as int,
                        lr as int,
                        dp_of(old(self).probs@, label as int)[j],
                    )
            },
    {
        if label >= self.output_size {
            return Err(NetError::OutOfRange);
        }
        if !self.has_cache {
            return Err(NetError::ContractViolation);
        }
        let ghost pre = *self;
        let dp = grad_out(&self.probs, label);
        proof {
            assert(to_ints(dp@) =~= dp_of(pre.probs@, label as int));
            assert forall|i: int| 0 <= i < dp@.len() implies -GRAD_LIM <= #[trigger] dp@[i]
                <= GRAD_LIM by {}
        }
        let dh = grad_hidden(&self.params.w2, &dp, &self.hidden);
        let nw2 = step_mat(&self.params.w2, &self.hidden, &dp, lr);
        let nw1 = step_mat(&self.params.w1, &self.history.data, &dh, lr);
        let nb1 = step_vec(&self.params.b1, &dh, lr);
        let nb2 = step_vec(&self.params.b2, &dp, lr);
        self.params.w2 = nw2;
        self.params.w1 = nw1;
        self.params.b1 = nb1;
        self.params.b2 = nb2;
        proof {
            assert forall|j: int| 0 <= j < pre.hidden_size implies #[trigger] dh@[j] == dh_term(
                pre.params.w2@,
                dp_of(pre.probs@, label as int),
                pre.hidden@,
                j,
            ) by {
                assert(dh@[j] == dh_term(pre.params.w2@, to_ints(dp@), pre.hidden@, j));
            }
        }
        Ok(())
    }

    /// The output distribution cached by the most recent forward pass (the
    /// uniform initial distribution before any).
    pub fn probs(&self) -> (r: Vec<i64>)
        requires
            self.wf(),
        ensures
            r@ == self.probs@,
    {
        let n = self.probs.len();
        let mut r: Vec<i64> = Vec::new();
        let mut i: usize = 0;
        while i < n
            invariant
                0 <= i <= n,
                n == self.probs@.len(),
                r@.len() == i,
                forall|k: int| 0 <= k < i ==> #[trigger] r@[k] == self.probs@[k],
            decreases n - i,
        {
            r.push(self.probs[i]);
            i = i + 1;
        }
        proof {
            assert(r@ =~= self.probs@);
        }
        r
    }
}

/// Determinism of a forward step: two networks in equal states, fed the
/// same input, agree on the next history, hidden activations and output
/// distribution. Together with the seeded construction this pins a whole
/// run: equal seeds give equal initial states, and every later state is a
/// function of the one before it.
pub proof fn lemma_forward_deterministic(n1: RPSNetwork, n2: RPSNetwork, input: Seq<i64>)
    requires
        n1 == n2,
    ensures
        next_history(n1, input) == next_history(n2, input),
        next_hidden(n1, input) == next_hidden(n2, input),
        next_probs(n1, input) == next_probs(n2, input),
{
}

/// The provable direction of one update step at the output biases: the
/// gradient `probs - onehot(label)` is non-positive at the true label and
/// non-negative elsewhere, so a backward step never lowers the bias of the
/// true class and never raises the bias of any other. (How far the whole
/// distribution moves after many steps depends on the weights and is not
/// claimed here.)
pub proof fn lemma_bias_step_direction(b: int, lr: int, probs: Seq<i64>, label: int, j: int)
    requires
        0 < lr <= ONE,
        0 <= j < probs.len(),
        0 <= label < probs.len(),
        forall|i: int| 0 <= i < probs.len() ==> 0 <= #[trigger] probs[i] <= ONE,
        -WLIM <= b <= WLIM,
    ensures
        j == label ==> step_b_spec(b, lr, dp_of(probs, label)[j]) >= b,
        j != label ==> step_b_spec(b, lr, dp_of(probs, label)[j]) <= b,
{
    let dp = dp_of(probs, label)[j];
    if j == label {
        assert(dp <= 0);
        assert(lr * dp <= 0) by (nonlinear_arith)
            requires lr > 0, dp <= 0;
        vstd::arithmetic::div_mod::lemma_div_pos_is_pos(-(lr * dp), ONE as int);
        assert(div_trunc(lr * dp, ONE as int) <= 0);
    } else {
        assert(dp >= 0);
        assert(lr * dp >= 0) by (nonlinear_arith)
            requires lr > 0, dp >= 0;
        vstd::arithmetic::div_mod::lemma_div_pos_is_pos(lr * dp, ONE as int);
        assert(div_trunc(lr * dp, ONE as int) >= 0);
    }
}

/// The prefix sums of the uniform initial distribution.
proof fn lemma_uniform_prefix(k: int, n: int)
    requires
        1 <= k,
        0 <= n <= k,
    ensures
        sum_pre(uniform_probs(k), n) == n * ((ONE as int) / k) + if n >= 1 {
            (ONE as int) % k
        } else {
            0
        },
    decreases n,
{
    if n > 0 {
        lemma_uniform_prefix(k, n - 1);
        assert((n - 1) * ((ONE as int) / k) + (ONE as int) / k == n * ((ONE as int) / k))
            by (nonlinear_arith);
    }
}

/// The uniform initial distribution is a distribution: entries in
/// `[0, ONE]`, total exactly `ONE`.
proof fn lemma_uniform_props(k: int)
    requires
        1 <= k <= DIM_MAX,
    ensures
        uniform_probs(k).len() == k,
        forall|i: int| 0 <= i < k ==> 0 <= #[trigger] uniform_probs(k)[i] <= ONE,
        total(uniform_probs(k)) == ONE,
{
    let q = (ONE as int) / k;
    let rem = (ONE as int) % k;
    vstd::arithmetic::div_mod::lemma_fundamental_div_mod(ONE as int, k);
    vstd::arithmetic::div_mod::lemma_mod_division_less_than_divisor(ONE as int, k);
    vstd::arithmetic::div_mod::lemma_div_pos_is_pos(ONE as int, k);
    vstd::arithmetic::div_mod::lemma_div_nonincreasing(ONE as int, k);
    assert((k - 1) * q >= 0) by (nonlinear_arith)
        requires k >= 1, q >= 0;
    assert(k * q == (k - 1) * q + q) by (nonlinear_arith);
    lemma_uniform_prefix(k, k);
}

/// A zero-filled vector of the given length.
fn zero_vec(n: usize) -> (r: Vec<i64>)
    ensures
        r@.len() == n,
        forall|i: int| 0 <= i < n ==> #[trigger] r@[i] == 0,
{
    let mut r: Vec<i64> = Vec::new();
    let mut i: usize = 0;
    while i < n
        invariant
            0 <= i <= n,
            r@.len() == i,
            forall|k: int| 0 <= k < i ==> #[trigger] r@[k] == 0,
        decreases n - i,
    {
        r.push(0);
        i = i + 1;
    }
    r
}

/// A matrix of freshly drawn weights, uniform in `[-WINIT, WINIT)`.
fn rand_mat(rng: &mut rand::rngs::StdRng, rows: usize, cols: usize) -> (r: Vec<Vec<i64>>)
    ensures
        mat_wf(r@, rows as int, cols as int, WINIT as int),
{
    let mut r: Vec<Vec<i64>> = Vec::new();
    let mut k: usize = 0;
    while k < rows
        invariant
            0 <= k <= rows,
            r@.len() == k,
            forall|k2: int| 0 <= k2 < k ==> (#[trigger] r@[k2])@.len() == cols,
            forall|k2: int, j: int|
                0 <= k2 < k && 0 <= j < cols ==> -WINIT <= #[trigger] r@[k2]@[j] <= WINIT,
        decreases rows - k,
    {
        let mut row: Vec<i64> = Vec::new();
        let mut j: usize = 0;
        while j < cols
            invariant
                0 <= j <= cols,
                row@.len() == j,
                forall|j2: int| 0 <= j2 < j ==> -WINIT <= #[trigger] row@[j2] <= WINIT,
            decreases cols - j,
        {
            row.push(rand_in(rng, -WINIT, WINIT));
            j = j + 1;
        }
        r.push(row);
        k = k + 1;
    }
    r
}

/// The uniform initial distribution, as a vector.
fn uniform_vec(k: usize) -> (r: Vec<i64>)
    requires
        1 <= k <= DIM_MAX,
    ensures
        r@.len() == k,
        forall|i: int| 0 <= i < k ==> #[trigger] r@[i] == uniform_probs(k as int)[i],
{
    let ki: i64 = k as i64;
    let q: i64 = udiv(ONE, ki);
    proof {
        vstd::arithmetic::div_mod::lemma_fundamental_div_mod(ONE as int, ki as int);
        vstd::arithmetic::div_mod::lemma_mod_division_less_than_divisor(ONE as int, ki as int);
    }
    let rem: i64 = ONE - q * ki;
    let mut r: Vec<i64> = Vec::new();
    let mut i: usize = 0;
    while i < k
        invariant
            0 <= i <= k,
            1 <= k <= DIM_MAX,
            ki == k as i64,
            q == (ONE as int) / (ki as int),
            rem == (ONE as int) % (ki as int),
            r@.len() == i,
            forall|i2: int| 0 <= i2 < i ==> #[trigger] r@[i2] == uniform_probs(k as int)[i2],
        decreases k - i,
    {
        if i == 0 {
            r.push(q + rem);
        } else {
            r.push(q);
        }
        i = i + 1;
    }
    r
}

} // verus!
