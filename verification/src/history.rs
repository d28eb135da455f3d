//! The sliding history window: the most recent `history_size` input vectors,
//! flattened oldest-to-newest into one buffer of `input_size * history_size`
//! entries. A push shifts everything left by one input vector and writes the
//! new one at the tail, so the contract is exactly a sequence `skip` plus an
//! append.

use vstd::prelude::*;
use crate::NetError;
use crate::fx::{DIM_MAX, ONE};
use crate::layers::vec_bounded;

verus! {

/// Fixed-capacity FIFO over input vectors, flattened into one contiguous
/// buffer.
pub struct HistoryBuffer {
    /// Length of each input vector.
    pub input_size: usize,
    /// Number of input vectors the window holds.
    pub history_size: usize,
    /// The flattened window, oldest vector first.
    pub data: Vec<i64>,
}

impl HistoryBuffer {
    /// The shape and range invariant of the window.
    pub open spec fn wf(self) -> bool {
        &&& 1 <= self.input_size <= DIM_MAX
        &&& 1 <= self.history_size <= DIM_MAX
        &&& self.data@.len() == self.input_size * self.history_size
        &&& vec_bounded(self.data@, ONE as int)
    }

    /// A zero-filled window of the given shape.
    pub fn new(input_size: usize, history_size: usize) -> (r: Self)
        requires
            1 <= input_size <= DIM_MAX,
            1 <= history_size <= DIM_MAX,
        ensures
            r.wf(),
            r.input_size == input_size,
            r.history_size == history_size,
            forall|i: int| 0 <= i < r.data@.len() ==> #[trigger] r.data@[i] == 0,
    {
        proof {
            assert(input_size * history_size <= 1048576) by (nonlinear_arith)
                requires 1 <= input_size <= 1024, 1 <= history_size <= 1024;
        }
        let n: usize = input_size * history_size;
        let mut data: Vec<i64> = Vec::new();
        let mut i: usize = 0;
        while i < n
            invariant
                0 <= i <= n,
                data@.len() == i,
                forall|k: int| 0 <= k < i ==> #[trigger] data@[k] == 0,
            decreases n - i,
        {
            data.push(0);
            i = i + 1;
        }
        HistoryBuffer { input_size, history_size, data }
    }

    /// Push one input vector: every older vector moves one slot toward the
    /// front, the oldest falls off, and the new one fills the tail. An input
    /// of the wrong length is rejected and the window is left untouched.
    pub fn push(&mut self, input: &Vec<i64>) -> (r: Result<(), NetError>)
        requires
            old(self).wf(),
            vec_bounded(input@, ONE as int),
        ensures
            final(self).wf(),
            final(self).input_size == old(self).input_size,
            final(self).history_size == old(self).history_size,
            input@.len() != old(self).input_size ==> r == Err::<(), NetError>(
                NetError::InvalidDimension,
            ) && *final(self) == *old(self),
            input@.len() == old(self).input_size ==> r == Ok::<(), NetError>(())
                && final(self).data@ == pushed(
                old(self).data@,
                old(self).input_size as int,
                input@,
            ),
    {
        if input.len() != self.input_size {
            return Err(NetError::InvalidDimension);
        }
        let isz = self.input_size;
        let n = self.data.len();
        proof {
            assert(isz * 1 <= isz * self.history_size) by (nonlinear_arith)
                requires 1 <= self.history_size, 0 <= isz;
        }
        let keep: usize = n - isz;
        let mut nd: Vec<i64> = Vec::new();
        let mut i: usize = 0;
        while i < keep
            invariant
                0 <= i <= keep,
                keep == n - isz,
                isz <= n,
                n == self.data@.len(),
                nd@.len() == i,
                forall|k: int| 0 <= k < i ==> #[trigger] nd@[k] == self.data@[k + isz],
            decreases keep - i,
        {
            nd.push(self.data[i + isz]);
            i = i + 1;
        }
        let mut j: usize = 0;
        while j < isz
            invariant
                0 <= j <= isz,
                keep == n - isz,
                isz <= n,
                isz == input@.len(),
                n == self.data@.len(),
                nd@.len() == keep + j,
                forall|k: int| 0 <= k < keep ==> #[trigger] nd@[k] == self.data@[k + isz],
                forall|k: int| keep <= k < keep + j ==> #[trigger] nd@[k] == input@[k - keep],
            decreases isz - j,
        {
            nd.push(input[j]);
            j = j + 1;
        }
        proof {
            assert(nd@ =~= self.data@.skip(isz as int) + input@);
        }
        self.data = nd;
        Ok(())
    }
}

/// The effect of one push on the flattened window, at the specification
/// level: drop the oldest input vector, append the new one.
pub open spec fn pushed(data: Seq<i64>, isz: int, x: Seq<i64>) -> Seq<i64> {
    data.skip(isz) + x
}

/// The effect of a whole sequence of pushes, oldest first.
pub open spec fn pushed_all(data: Seq<i64>, isz: int, xs: Seq<Seq<i64>>) -> Seq<i64>
    decreases xs.len(),
{
    if xs.len() == 0 {
        data
    } else {
        pushed_all(pushed(data, isz, xs[0]), isz, xs.skip(1))
    }
}

/// The concatenation of a sequence of input vectors, oldest first.
pub open spec fn flat_of(xs: Seq<Seq<i64>>) -> Seq<i64>
    decreases xs.len(),
{
    if xs.len() == 0 {
        Seq::empty()
    } else {
        xs[0] + flat_of(xs.skip(1))
    }
}

/// The FIFO law of the window: pushing the vectors of `xs` in order leaves
/// the survivors of the old contents in front, followed by all of `xs`
/// flattened. Each push of the buffer realizes one `pushed` step, so this
/// describes any run of pushes.
pub proof fn lemma_pushes_compose(data: Seq<i64>, isz: int, xs: Seq<Seq<i64>>)
    requires
        0 <= isz,
        xs.len() * isz <= data.len(),
        forall|i: int| 0 <= i < xs.len() ==> (#[trigger] xs[i]).len() == isz,
    ensures
        pushed_all(data, isz, xs) == data.skip(xs.len() * isz) + flat_of(xs),
    decreases xs.len(),
{
    let n = xs.len() as int;
    if n == 0 {
        assert(pushed_all(data, isz, xs) =~= data.skip(0) + flat_of(xs));
    } else {
        let data1 = pushed(data, isz, xs[0]);
        let xs1 = xs.skip(1);
        assert((n - 1) * isz == n * isz - isz) by (nonlinear_arith);
        assert(xs1.len() * isz <= data1.len());
        assert forall|i: int| 0 <= i < xs1.len() implies (#[trigger] xs1[i]).len() == isz by {
            assert(xs1[i] == xs[i + 1]);
        }
        lemma_pushes_compose(data1, isz, xs1);
        assert(data1.skip((n - 1) * isz) =~= data.skip(n * isz) + xs[0]);
        assert(data.skip(n * isz) + xs[0] + flat_of(xs1) =~= data.skip(n * isz) + flat_of(xs));
    }
}

/// After exactly `history_size` pushes, the window holds exactly the pushed
/// inputs, oldest first: everything that was there before has been evicted.
pub proof fn lemma_full_round_fills_window(data: Seq<i64>, isz: int, xs: Seq<Seq<i64>>)
    requires
        0 <= isz,
        data.len() == xs.len() * isz,
        forall|i: int| 0 <= i < xs.len() ==> (#[trigger] xs[i]).len() == isz,
    ensures
        pushed_all(data, isz, xs) == flat_of(xs),
{
    lemma_pushes_compose(data, isz, xs);
    assert(data.skip(xs.len() * isz) + flat_of(xs) =~= flat_of(xs));
}

} // verus!
