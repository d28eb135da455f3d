//! A small trainable sequence classifier. A rolling window of the most
//! recent input vectors feeds a two-layer network (linear, tanh, linear,
//! softmax), and the parameters are updated online, one labeled example at a
//! time, by single-sample gradient descent.
//!
//! All arithmetic is fixed-point: the integer `v` stands for the real number
//! `v / ONE`. Every operation of the engine is specified exactly over that
//! integer model, so the forward pass, the backward pass and the history
//! buffer are deterministic functions pinned down by their contracts.

use vstd::prelude::*;

pub mod fx;
pub mod history;
pub mod layers;
pub mod network;
pub mod rng;
pub mod scalar;
pub mod softmax;
pub mod sums;

verus! {

/// The ways a caller can misuse the network.
#[derive(Clone, Copy, Debug, PartialEq, Eq, Structural)]
pub enum NetError {
    /// An input vector whose length is not `input_size`.
    InvalidDimension,
    /// A label at or past `output_size`.
    OutOfRange,
    /// A backward call with no forward call before it.
    ContractViolation,
}

} // verus!
