//! Sources of uniform fixed-point draws in `[0, 1)`.

use vstd::prelude::*;
use crate::fixed::UNIT;

verus! {

/// A seedable source of uniform fixed-point draws in `[0, UNIT)`.
///
/// A source whose `replay()` holds is a replayable stream: every draw and
/// every state change is a function of the abstract state alone, so two
/// sources in equal states produce equal draws forever. A source backed by
/// generator whose output the library cannot pin down reports
/// `replay() == false` and promises only the range of each draw.
pub trait RandomSource: Sized {
    /// Whether draws are pinned down by the abstract state.
    spec fn replay(&self) -> bool;

    /// The abstract state the next draw is taken at.
    spec fn state(&self) -> int;

    /// The draw produced at abstract state `s`, for replayable sources.
    spec fn draw_at(s: int) -> i64;

    /// The abstract state following `s`, for replayable sources.
    spec fn step_at(s: int) -> int;

    /// Draws the next value, uniform in `[0, UNIT)`.
    fn next_unit(&mut self) -> (r: i64)
        ensures
            0 <= r < UNIT,
            final(self).replay() == old(self).replay(),
            old(self).replay() ==> r == Self::draw_at(old(self).state())
                && final(self).state() == Self::step_at(old(self).state()),
    ;
}

/// The state transition of the linear congruential generator: Knuth's
/// MMIX multiplier and increment, modulo two to the sixty-fourth.
pub open spec fn lcg_step(s: int) -> int {
    (s * 6364136223846793005 + 1442695040888963407) % 0x1_0000_0000_0000_0000
}

/// The draw the linear congruential generator makes at state `s`: the
/// upper bits of the successor state, reduced to `[0, UNIT)`.
pub open spec fn lcg_draw(s: int) -> i64 {
    (((lcg_step(s) / 0x2_0000_0000) % (UNIT as int)) as i64)
}

/// A linear congruential generator: a small, fully verified replayable
/// source. Two generators seeded alike draw identical streams.
pub struct Lcg {
    /// The current state.
    pub cur: u64,
}

impl Lcg {
    /// Seeds a generator.
    pub fn new(seed: u64) -> (r: Lcg)
        ensures
            r.replay(),
            r.state() == seed as int,
    {
        Lcg { cur: seed }
    }
}

impl RandomSource for Lcg {
    open spec fn replay(&self) -> bool {
        true
    }

    open spec fn state(&self) -> int {
        self.cur as int
    }

    open spec fn draw_at(s: int) -> i64 {
        lcg_draw(s)
    }

    open spec fn step_at(s: int) -> int {
        lcg_step(s)
    }

    fn next_unit(&mut self) -> (r: i64)
        ensures
            0 <= r < UNIT,
            final(self).replay() == old(self).replay(),
            old(self).replay() ==> r == Self::draw_at(old(self).state())
                && final(self).state() == Self::step_at(old(self).state()),
    {
        let ns: u64 = ((self.cur as u128 * 6364136223846793005u128 + 1442695040888963407u128)
            % 0x1_0000_0000_0000_0000_u128) as u64;
        self.cur = ns;
        let r64: u64 = (ns / 0x2_0000_0000) % 1_000_000;
        r64 as i64
    }
}

} // verus!
