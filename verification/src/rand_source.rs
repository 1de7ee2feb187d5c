//! A source of draws backed by the `rand` crate's standard generator.

use vstd::prelude::*;
use crate::fixed::UNIT;
use crate::rng::RandomSource;

verus! {

#[verifier::external_type_specification]
#[verifier::external_body]
pub struct ExStdRng(rand::rngs::StdRng);

/// A seedable source backed by `rand`'s `StdRng`.
///
/// Each draw is uniform in `[0, UNIT)`, but the values are not pinned
/// down by any contract: `StdRng`'s documentation declares its output
/// non-portable, so the library claims nothing that ties a draw to the
/// seed. The source therefore reports `replay() == false`, and a run
/// driven by it keeps its invariants for every possible draw.
pub struct StdRandom {
    /// The underlying generator.
    pub rng: rand::rngs::StdRng,
}

/// Relies on `rand::SeedableRng::seed_from_u64`: builds a `StdRng` from
/// a word-sized seed.
#[verifier::external_body]
fn std_rng_from_seed(seed: u64) -> rand::rngs::StdRng {
    <rand::rngs::StdRng as rand::SeedableRng>::seed_from_u64(seed)
}

/// Relies on `rand::RngExt::random_range`: a draw from the non-empty
/// range `[0, UNIT)` lies in that range.
#[verifier::external_body]
fn std_rng_next(rng: &mut rand::rngs::StdRng) -> (r: i64)
    ensures
        0 <= r < UNIT,
{
    rand::RngExt::random_range(rng, 0i64..UNIT)
}

impl StdRandom {
    /// A source seeded from `seed`.
    pub fn from_seed(seed: u64) -> (r: StdRandom)
        ensures
            !r.replay(),
    {
        StdRandom { rng: std_rng_from_seed(seed) }
    }
}

impl RandomSource for StdRandom {
    open spec fn replay(&self) -> bool {
        false
    }

    open spec fn state(&self) -> int {
        0
    }

    open spec fn draw_at(s: int) -> i64 {
        0
    }

    open spec fn step_at(s: int) -> int {
        0
    }

    fn next_unit(&mut self) -> (r: i64)
        ensures
            0 <= r < UNIT,
            final(self).replay() == old(self).replay(),
            old(self).replay() ==> r == Self::draw_at(old(self).state())
                && final(self).state() == Self::step_at(old(self).state()),
    {
        std_rng_next(&mut self.rng)
    }
}

} // verus!
