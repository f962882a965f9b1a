//! A small, explicitly seeded pseudo-random number generator. The generator
//! takes one of these as a parameter instead of drawing from ambient process
//! state, so a run is reproducible from its seed. Nothing is claimed of the
//! drawn values beyond their range.

use vstd::prelude::*;

verus! {

/// Multiplier of the underlying linear congruential step.
pub const RNG_MULTIPLIER: u64 = 6364136223846793005;

/// Increment of the underlying linear congruential step.
pub const RNG_INCREMENT: u64 = 1442695040888963407;

/// A seedable pseudo-random number generator over 64-bit state.
pub struct Rng {
    state: u64,
}

impl Rng {
    /// A generator that will produce the sequence determined by `seed`.
    pub fn new(seed: u64) -> Rng {
        Rng { state: seed }
    }

    /// Advances the state once and returns it.
    fn next_u64(&mut self) -> u64 {
        self.state = self.state.wrapping_mul(RNG_MULTIPLIER).wrapping_add(RNG_INCREMENT);
        self.state
    }

    /// Draws a value from `[lo, hi]`, both ends included.
    pub fn range_inclusive(&mut self, lo: i32, hi: i32) -> (r: i32)
        requires
            lo <= hi,
        ensures
            lo <= r <= hi,
    {
        let span: u64 = ((hi as i64) - (lo as i64) + 1) as u64;
        let v: u64 = self.next_u64() % span;
        ((lo as i64) + (v as i64)) as i32
    }
}

} // verus!
