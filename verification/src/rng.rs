//! A small deterministic pseudo-random source.
//!
//! The harness never relies on ambient entropy: every statistical test is
//! driven by an explicitly seeded generator so that runs are exactly
//! reproducible.  The generator is a 64-bit mix-and-increment design; its
//! whole behaviour is pinned down by the spec functions below.

use vstd::prelude::*;

verus! {

/// The state that follows `s`.
pub open spec fn spec_next_state(s: u64) -> u64 {
    s.wrapping_add(0x9E3779B97F4A7C15)
}

/// The value drawn from the state `s2` reached after stepping.
pub open spec fn spec_output(s2: u64) -> u64 {
    let z1 = (s2 ^ (s2 >> 30u64)).wrapping_mul(0xBF58476D1CE4E5B9);
    let z2 = (z1 ^ (z1 >> 27u64)).wrapping_mul(0x94D049BB133111EB);
    z2 ^ (z2 >> 31u64)
}

/// A deterministic, explicitly seeded pseudo-random generator.
pub struct Rng64 {
    pub state: u64,
}

impl Rng64 {
    /// Builds a generator from a caller-chosen seed.
    pub fn from_seed(seed: u64) -> (r: Rng64)
        ensures
            r.state == seed,
    {
        Rng64 { state: seed }
    }

    /// Steps the state and returns the mixed output word.
    pub fn next_u64(&mut self) -> (r: u64)
        ensures
            final(self).state == spec_next_state(old(self).state),
            r == spec_output(final(self).state),
    {
        let s2 = self.state.wrapping_add(0x9E3779B97F4A7C15);
        self.state = s2;
        let z1 = (s2 ^ (s2 >> 30u64)).wrapping_mul(0xBF58476D1CE4E5B9);
        let z2 = (z1 ^ (z1 >> 27u64)).wrapping_mul(0x94D049BB133111EB);
        z2 ^ (z2 >> 31u64)
    }

    /// Draws a value below `n`, by reduction of the next output word.
    pub fn next_below(&mut self, n: u64) -> (r: u64)
        requires
            n > 0,
        ensures
            final(self).state == spec_next_state(old(self).state),
            r == spec_output(final(self).state) % n,
            r < n,
    {
        let w = self.next_u64();
        w % n
    }
}

} // verus!
