//! Trusted bindings to the rand crate, used once, at construction, to draw
//! the initial weights. The generator is seeded explicitly so that a host
//! can reproduce a network exactly; nothing is assumed of a drawn value
//! beyond its range.

use vstd::prelude::*;

verus! {

#[verifier::external_type_specification]
#[verifier::external_body]
pub struct ExStdRng(rand::rngs::StdRng);

/// Relies on `rand::rngs::StdRng::seed_from_u64` (via `SeedableRng`): builds
/// a generator deterministically from a 64-bit seed; it never panics.
#[verifier::external_body]
pub(crate) fn rng_from_seed(seed: u64) -> rand::rngs::StdRng {
    rand::SeedableRng::seed_from_u64(seed)
}

/// Relies on `rand::Rng::gen_range`: returns a value drawn uniformly from
/// `[lo, hi)`, and panics only on an empty range, which the precondition
/// rules out. Nothing is assumed of the value beyond its range.
#[verifier::external_body]
pub(crate) fn rand_in(rng: &mut rand::rngs::StdRng, lo: i64, hi: i64) -> (r: i64)
    requires
        lo < hi,
    ensures
        lo <= r < hi,
{
    rand::Rng::gen_range(rng, lo..hi)
}

} // verus!
