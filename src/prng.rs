//! The splitmix64 stream that drives every scheduling choice.

use vstd::prelude::*;

verus! {

/// Increment added to the state before each draw.
pub const GOLDEN_GAMMA: u64 = 0x9E3779B97F4A7C15;

/// State after one draw from `state`.
pub open spec fn advance(state: u64) -> u64 {
    state.wrapping_add(GOLDEN_GAMMA)
}

/// Output mixed from an already advanced state.
pub open spec fn mix(z0: u64) -> u64 {
    let z1 = (z0 ^ (z0 >> 30u64)).wrapping_mul(0xBF58476D1CE4E5B9u64);
    let z2 = (z1 ^ (z1 >> 27u64)).wrapping_mul(0x94D049BB133111EBu64);
    z2 ^ (z2 >> 31u64)
}

/// Value returned by the draw taken from `state`.
pub open spec fn draw(state: u64) -> u64 {
    mix(advance(state))
}

/// The splitmix64 generator.
#[derive(Clone, Copy, Debug)]
pub struct SplitMix64 {
    state: u64,
}

impl SplitMix64 {
    /// Current state of the stream.
    pub closed spec fn state_of(&self) -> u64 {
        self.state
    }

    pub fn seed_from_u64(seed: u64) -> (r: Self)
        ensures
            r.state_of() == seed,
    {
        SplitMix64 { state: seed }
    }

    pub fn next_u64(&mut self) -> (r: u64)
        ensures
            final(self).state_of() == advance(old(self).state_of()),
            r == draw(old(self).state_of()),
    {
        self.state = self.state.wrapping_add(GOLDEN_GAMMA);
        let mut z = self.state;
        z = (z ^ (z >> 30)).wrapping_mul(0xBF58476D1CE4E5B9);
        z = (z ^ (z >> 27)).wrapping_mul(0x94D049BB133111EB);
        z ^ (z >> 31)
    }

    pub fn next_bit(&mut self) -> (r: u64)
        ensures
            final(self).state_of() == advance(old(self).state_of()),
            r == draw(old(self).state_of()) & 1,
    {
        self.next_u64() & 1
    }

    pub fn gen_index(&mut self, len: usize) -> (r: usize)
        requires
            len > 0,
        ensures
            final(self).state_of() == advance(old(self).state_of()),
            r == draw(old(self).state_of()) % (len as u64),
            r < len,
    {
        let x = self.next_u64();
        (x % (len as u64)) as usize
    }
}

} // verus!
