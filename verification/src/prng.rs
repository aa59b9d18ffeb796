//! A small deterministic pseudo-random generator (xorshift), used to drive
//! sampling. Its step function is specified exactly, so rendering with a
//! fixed seed is a pure function of its inputs.

use vstd::prelude::*;

verus! {

/// The xorshift step: the next generator state after `s`.
pub open spec fn next_state(s: u64) -> u64 {
    let a = s ^ (s << 13);
    let b = a ^ (a >> 7);
    b ^ (b << 17)
}

/// Fallback state used in place of the one seed (zero) the xorshift step
/// cannot leave.
pub const SEED_FALLBACK: u64 = 0x9E3779B97F4A7C15;

/// A deterministic pseudo-random generator.
pub struct Prng {
    pub state: u64,
}

impl Prng {
    /// A generator seeded with `seed` (a zero seed is replaced by a fixed
    /// non-zero fallback, which the xorshift step could never leave).
    pub fn new(seed: u64) -> (r: Prng)
        ensures
            r.state == if seed == 0 {
                SEED_FALLBACK
            } else {
                seed
            },
    {
        Prng { state: if seed == 0 { SEED_FALLBACK } else { seed } }
    }

    /// Advance the generator and return the new state.
    pub fn next_u64(&mut self) -> (r: u64)
        ensures
            final(self).state == next_state(old(self).state),
            r == final(self).state,
    {
        let s0: u64 = self.state;
        let a: u64 = s0 ^ (s0 << 13);
        let b: u64 = a ^ (a >> 7);
        let c: u64 = b ^ (b << 17);
        self.state = c;
        c
    }

    /// A fixed-point draw in `[0, ONE)`.
    pub fn next_unit(&mut self) -> (r: i64)
        ensures
            final(self).state == next_state(old(self).state),
            r == next_state(old(self).state) % 65536,
            0 <= r < 65536,
    {
        let s: u64 = self.next_u64();
        (s % 65536) as i64
    }

    /// A fixed-point draw in `[-ONE, ONE]`.
    pub fn next_sym(&mut self) -> (r: i64)
        ensures
            final(self).state == next_state(old(self).state),
            r == next_state(old(self).state) % 131073 - 65536,
            -65536 <= r <= 65536,
    {
        let s: u64 = self.next_u64();
        (s % 131073) as i64 - 65536
    }
}

} // verus!
