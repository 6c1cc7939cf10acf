//! A small deterministic pseudo-random generator for the Monte Carlo draws.
//!
//! A linear congruential step on 64 bits; a unit draw takes the top byte,
//! giving a value in `[0, SCALE)`. Fully specified, so every consumer of a
//! draw keeps an exact contract as a function of the generator state.

use vstd::prelude::*;

verus! {

/// The next generator state: a 64-bit linear congruential step.
#[verifier::opaque]
pub open spec fn spec_next(s: u64) -> u64 {
    vstd::wrapping::u64_specs::wrapping_add(
        vstd::wrapping::u64_specs::wrapping_mul(s, 6364136223846793005),
        1442695040888963407,
    )
}

pub struct Rng {
    pub state: u64,
}

impl Rng {
    pub fn new(seed: u64) -> (r: Rng)
        ensures
            r.state == seed,
    {
        Rng { state: seed }
    }

    /// One unit draw in `[0, SCALE)`: step the state, take its top byte.
    pub fn next_unit(&mut self) -> (r: i64)
        ensures
            final(self).state == spec_next(old(self).state),
            r == (final(self).state >> 56) as i64,
            r as int == (final(self).state >> 56) as int,
            0 <= r < crate::vec3::SCALE,
    {
        proof {
            reveal(spec_next);
        }
        self.state = self.state.wrapping_mul(6364136223846793005).wrapping_add(
            1442695040888963407,
        );
        let st = self.state;
        let top = st >> 56;
        proof {
            assert(st >> 56 < 256) by (bit_vector);
        }
        top as i64
    }
}

} // verus!
