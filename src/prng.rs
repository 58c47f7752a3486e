use vstd::prelude::*;

use crate::tensor::Scalar;

verus! {

/// State used in place of a zero seed, which xorshift would never leave.
pub const DEFAULT_SEED: u32 = 0x6d2b_79f5;

/// One xorshift32 step with shifts 13, 17 and 5.
pub open spec fn xorshift_step(x: u32) -> u32 {
    let a = x ^ (x << 13u32);
    let b = a ^ (a >> 17u32);
    b ^ (b << 5u32)
}

/// Small deterministic xorshift32 generator for weight initialization (not cryptographic).
#[derive(Debug, Clone)]
pub struct XorShift32 {
    state: u32,
}

impl XorShift32 {
    /// The generator's current state.
    pub closed spec fn spec_state(&self) -> u32 {
        self.state
    }

    /// A generator seeded with `seed`, or with `DEFAULT_SEED` when `seed` is zero.
    pub fn new(seed: u32) -> (r: Self)
        ensures
            r.spec_state() == (if seed == 0 {
                DEFAULT_SEED
            } else {
                seed
            }),
    {
        let seed = if seed == 0 {
            DEFAULT_SEED
        } else {
            seed
        };
        XorShift32 { state: seed }
    }

    /// Advances the state by one xorshift step and returns the new state.
    pub fn next_u32(&mut self) -> (r: u32)
        ensures
            final(self).spec_state() == xorshift_step(old(self).spec_state()),
            r == final(self).spec_state(),
    {
        let mut x = self.state;
        x = x ^ (x << 13u32);
        x = x ^ (x >> 17u32);
        x = x ^ (x << 5u32);
        self.state = x;
        x
    }

    /// Uniform element of `[0, 1)`: the top 24 bits of the next state over `2^24`.
    pub fn next_f32<T: Scalar>(&mut self) -> (r: T)
        ensures
            final(self).spec_state() == xorshift_step(old(self).spec_state()),
            r == unit_of::<T>(final(self).spec_state()),
    {
        let v = self.next_u32() >> 8u32;
        T::from_count(v as usize).div(T::from_count(UNIT_DENOMINATOR))
    }

    /// Uniform element of `[low, high)`: `low + (high - low) * next_f32()`.
    pub fn gen_range_f32<T: Scalar>(&mut self, low: T, high: T) -> (r: T)
        ensures
            final(self).spec_state() == xorshift_step(old(self).spec_state()),
            r == in_range(low, high, unit_of::<T>(final(self).spec_state())),
    {
        let u: T = self.next_f32();
        low.add(high.sub(low).mul(u))
    }
}

/// The draw in `[0, 1)` that state `s` gives: its top 24 bits over `2^24`.
pub open spec fn unit_of<T: Scalar>(s: u32) -> T {
    T::spec_from_count((s >> 8u32) as usize).spec_div(T::spec_from_count(UNIT_DENOMINATOR))
}

/// `low + (high - low) * u`.
pub open spec fn in_range<T: Scalar>(low: T, high: T, u: T) -> T {
    low.spec_add(high.spec_sub(low).spec_mul(u))
}

/// The state after `k` xorshift steps from `s`.
pub open spec fn xorshift_iter(s: u32, k: nat) -> u32
    decreases k,
{
    if k == 0 {
        s
    } else {
        xorshift_step(xorshift_iter(s, (k - 1) as nat))
    }
}

/// `2^24`, the number of distinct values that `next_f32` draws from.
pub const UNIT_DENOMINATOR: usize = 0x100_0000;

} // verus!
