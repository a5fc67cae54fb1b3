use vstd::prelude::*;
use vstd::wrapping::u64_specs;

verus! {

/// Increment of the splitmix64 sequence.
pub const GOLDEN_GAMMA: u64 = 0x9e37_79b9_7f4a_7c15;

/// The splitmix64 output function applied to a state.
pub open spec fn mix(z: u64) -> u64 {
    let a = u64_specs::wrapping_mul(z ^ (z >> 30u64), 0xbf58_476d_1ce4_e5b9u64);
    let b = u64_specs::wrapping_mul(a ^ (a >> 27u64), 0x94d0_49bb_1331_11ebu64);
    b ^ (b >> 31u64)
}

/// The state that follows `s`.
pub open spec fn step(s: u64) -> u64 {
    u64_specs::wrapping_add(s, GOLDEN_GAMMA)
}

/// An explicitly owned, seedable random source: the same seed gives the
/// same sequence of draws.
pub struct Rng {
    pub state: u64,
}

impl Rng {
    pub fn new(seed: u64) -> (r: Rng)
        ensures
            r.state == seed,
    {
        Rng { state: seed }
    }

    /// Advances the state and returns the next 64-bit draw.
    pub fn next_u64(&mut self) -> (r: u64)
        ensures
            final(self).state == step(old(self).state),
            r == mix(final(self).state),
    {
        self.state = self.state.wrapping_add(GOLDEN_GAMMA);
        let z = self.state;
        let a = (z ^ (z >> 30u64)).wrapping_mul(0xbf58_476d_1ce4_e5b9u64);
        let b = (a ^ (a >> 27u64)).wrapping_mul(0x94d0_49bb_1331_11ebu64);
        b ^ (b >> 31u64)
    }

    /// A draw in `[0, n)`.
    pub fn below(&mut self, n: u64) -> (r: u64)
        requires
            n > 0,
        ensures
            final(self).state == step(old(self).state),
            r == mix(final(self).state) % n,
            r < n,
    {
        let x = self.next_u64();
        x % n
    }

    /// A draw in `[lo, hi]`.
    pub fn between(&mut self, lo: i64, hi: i64) -> (r: i64)
        requires
            lo <= hi,
        ensures
            final(self).state == step(old(self).state),
            lo <= r <= hi,
            r == lo + (mix(final(self).state) as int) % (hi - lo + 1),
    {
        let span: u64 = (hi as i128 - lo as i128) as u64;
        let x = self.next_u64();
        if span == u64::MAX {
            assert((x as int) % (hi - lo + 1) == x as int);
            (lo as i128 + x as i128) as i64
        } else {
            let off = x % (span + 1);
            (lo as i128 + off as i128) as i64
        }
    }

    /// True with probability `percent` in a hundred.
    pub fn chance(&mut self, percent: u64) -> (r: bool)
        ensures
            final(self).state == step(old(self).state),
            r == (mix(final(self).state) % 100 < percent),
    {
        let x = self.next_u64();
        x % 100 < percent
    }
}

} // verus!
