//! The random source of the engine: a seedable generator from `rand`, and the
//! one draw the engine makes of it, a fair six-sided die.

use vstd::prelude::*;
use rand::rngs::StdRng;
use rand::{Rng, SeedableRng};

verus! {

#[verifier::external_type_specification]
#[verifier::external_body]
pub struct ExStdRng(StdRng);

/// Relies on `rand::SeedableRng::seed_from_u64` for `StdRng`: a generator whose
/// whole output is fixed by the seed. Nothing is stated of that output.
#[verifier::external_body]
pub(crate) fn seeded_rng(seed: u64) -> (r: StdRng) {
    StdRng::seed_from_u64(seed)
}

/// Relies on `rand::Rng::gen_range` over `1..=6`: a value of the inclusive range,
/// drawn uniformly; the range is not empty, so the call does not panic.
#[verifier::external_body]
pub(crate) fn roll_die(rng: &mut StdRng) -> (r: u32)
    ensures
        1 <= r <= 6,
{
    rng.gen_range(1..=6)
}

} // verus!
