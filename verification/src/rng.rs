//! Sources of random numbers.
//!
//! A chart may ask for a random choice, and so may a modifier of lanes. Both
//! take their numbers from a source that the caller hands in.

use vstd::prelude::*;

verus! {

/// A source of random numbers. What a source gives next is a matter of its
/// state alone, so that what was done with its numbers can be said over
/// the state it started from: `gen_range` gives the number that `upcoming`
/// names and leaves the source as `advanced` says.
pub trait Rng: Sized {
    /// The number from `low` up to, but not including, `high` that the
    /// source gives next.
    spec fn upcoming(&self, low: i64, high: i64) -> i64;

    /// The source after it has given a number from `low` up to `high`.
    spec fn advanced(&self, low: i64, high: i64) -> Self;

    /// A number from `low` up to, but not including, `high`.
    fn gen_range(&mut self, low: i64, high: i64) -> (r: i64)
        requires
            low < high,
        ensures
            low <= r < high,
            r == old(self).upcoming(low, high),
            *final(self) == old(self).advanced(low, high),
    ;
}

/// A linear congruential generator: a small source that gives the same
/// numbers whenever it starts from the same seed.
#[derive(Clone, Copy, Debug, PartialEq, Eq)]
pub struct Lcg {
    pub state: u64,
}

impl Lcg {
    /// A generator that starts from `seed`.
    pub fn new(seed: u64) -> (r: Lcg)
        ensures
            r.state == seed,
    {
        Lcg { state: seed }
    }

    /// The state that follows `state`.
    pub open spec fn next_state(state: u64) -> u64 {
        ((state as int * 6364136223846793005 + 1442695040888963407) % 0x1_0000_0000_0000_0000) as u64
    }

    /// The number from `low` up to `high` that the state `state` gives.
    pub open spec fn pick(state: u64, low: i64, high: i64) -> int {
        low + ((state / 0x1_0000) as int) % (high - low)
    }
}

impl Rng for Lcg {
    open spec fn upcoming(&self, low: i64, high: i64) -> i64 {
        Lcg::pick(Lcg::next_state(self.state), low, high) as i64
    }

    open spec fn advanced(&self, low: i64, high: i64) -> Lcg {
        Lcg { state: Lcg::next_state(self.state) }
    }

    fn gen_range(&mut self, low: i64, high: i64) -> (r: i64)
        ensures
            final(self).state == Lcg::next_state(old(self).state),
            r == Lcg::pick(final(self).state, low, high),
    {
        let wide: u128 = (self.state as u128) * 6364136223846793005u128 + 1442695040888963407u128;
        self.state = (wide % 0x1_0000_0000_0000_0000u128) as u64;
        let width: u128 = ((high as i128) - (low as i128)) as u128;
        let offset: u128 = ((self.state / 0x1_0000) as u128) % width;
        ((low as i128) + (offset as i128)) as i64
    }
}

} // verus!
