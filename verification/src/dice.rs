//! The random source that carving draws from.

use rand::rngs::StdRng;
use rand::{RngExt, SeedableRng};
use vstd::prelude::*;

verus! {

/// The standard generator of `rand`, `rand::rngs::StdRng`. It is opaque to
/// proofs: nothing is known of the numbers it will hand out.
#[verifier::external_type_specification]
#[verifier::external_body]
pub struct ExStdRng(StdRng);

/// Calls `SeedableRng::seed_from_u64` of `rand` for its standard generator.
/// Nothing is claimed of the generator that comes back.
#[verifier::external_body]
pub(crate) fn seeded_rng(seed: u64) -> (rng: StdRng) {
    StdRng::seed_from_u64(seed)
}

/// Calls `RngExt::random_range` of `rand` on the range `0..bound`, which
/// draws without bias when `rand` is built with its `unbiased` feature.
/// Claims only that the draw lies below `bound`; an empty range, on which the
/// call panics, is left out.
#[verifier::external_body]
pub(crate) fn draw_below(rng: &mut StdRng, bound: u8) -> (k: u8)
    requires
        bound >= 1,
    ensures
        k < bound,
{
    rng.random_range(0..bound)
}

} // verus!
