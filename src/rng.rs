//! Deterministic xorshift32 random stream.
use vstd::prelude::*;

verus! {

/// Number of generator states, counting zero: draws are scaled by this, so
/// they never reach their bound.
pub const STATE_SPAN: u64 = 0x1_0000_0000;

/// One xorshift32 step.
pub open spec fn xorshift(s: u32) -> u32 {
    let a = s ^ (s << 13u32);
    let b = a ^ (a >> 17u32);
    b ^ (b << 5u32)
}

/// Initial state for `seed`: xorshift never leaves zero, so zero becomes one.
pub open spec fn seeded(seed: u32) -> u32 {
    if seed == 0 {
        1
    } else {
        seed
    }
}

/// A seeded xorshift32 generator.
#[derive(Clone, Copy)]
pub struct Rng {
    state: u32,
}

impl Rng {
    /// The generator's current state.
    pub closed spec fn state(&self) -> u32 {
        self.state
    }

    /// A generator seeded with `seed`; a zero seed is replaced by one, since
    /// xorshift never leaves zero.
    pub fn new(seed: u32) -> (r: Rng)
        ensures
            r.state() == seeded(seed),
    {
        Rng { state: if seed == 0 { 1 } else { seed } }
    }

    /// Advances the generator and returns its new state.
    pub fn next(&mut self) -> (r: u32)
        ensures
            r == xorshift(old(self).state()),
            final(self).state() == r,
    {
        let mut x = self.state;
        x = x ^ (x << 13u32);
        x = x ^ (x >> 17u32);
        x = x ^ (x << 5u32);
        self.state = x;
        x
    }

    /// Advances the generator and maps its new state onto `[0, bound)`:
    /// `state * bound / 2^32`, rounded down.
    pub fn next_scaled(&mut self, bound: u32) -> (r: u64)
        ensures
            final(self).state() == xorshift(old(self).state()),
            r == (final(self).state() as int) * (bound as int) / (STATE_SPAN as int),
            bound >= 1 ==> r < bound,
            r <= bound,
    {
        let v = self.next();
        proof {
            let vi = v as int;
            let b = bound as int;
            assert(vi * b <= (u32::MAX as int) * b) by (nonlinear_arith)
                requires
                    0 <= vi <= u32::MAX,
                    0 <= b,
            ;
            assert((u32::MAX as int) * b <= (u32::MAX as int) * (u32::MAX as int)) by (nonlinear_arith)
                requires
                    0 <= b <= u32::MAX,
            ;
            assert((vi * b) / (STATE_SPAN as int) <= b) by (nonlinear_arith)
                requires
                    0 <= vi < STATE_SPAN,
                    0 <= b,
            ;
            if b >= 1 {
                assert((vi * b) / (STATE_SPAN as int) < b) by (nonlinear_arith)
                    requires
                        0 <= vi < STATE_SPAN,
                        b >= 1,
                ;
            }
        }
        let p: u64 = (v as u64) * (bound as u64);
        p / STATE_SPAN
    }
}

} // verus!
