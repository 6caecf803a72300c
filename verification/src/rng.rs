//! The show's small deterministic generators.
//!
//! Hand-rolled rather than a dependency: the requirement is "not obviously
//! periodic" and "reproducible from one seed", not statistical quality.

use vstd::prelude::*;
use vstd::wrapping::u64_specs;

verus! {

/// One step of xorshift32.
pub open spec fn xorshift32(x: u32) -> u32 {
    let a = x ^ (x << 13u32);
    let b = a ^ (a >> 17u32);
    b ^ (b << 5u32)
}

/// One step of the xorshift64 state update.
pub open spec fn xorshift64(x: u64) -> u64 {
    let a = x ^ (x >> 12u64);
    let b = a ^ (a << 25u64);
    b ^ (b >> 27u64)
}

/// `a * b`, wrapping at 64 bits.
pub open spec fn mul_wrap64(a: u64, b: u64) -> u64 {
    u64_specs::wrapping_mul(a, b)
}

/// `a + b`, wrapping at 64 bits.
pub open spec fn add_wrap64(a: u64, b: u64) -> u64 {
    u64_specs::wrapping_add(a, b)
}

/// A xorshift32 generator.
#[derive(Debug, Clone, Copy)]
pub struct Xorshift32 {
    pub state: u32,
}

impl Xorshift32 {
    /// A generator starting from `state`.
    pub fn new(state: u32) -> (r: Xorshift32)
        ensures
            r.state == state,
    {
        Xorshift32 { state }
    }

    /// Advance and return the new state.
    pub fn next_u32(&mut self) -> (r: u32)
        ensures
            r == xorshift32(old(self).state),
            final(self).state == r,
    {
        let mut x = self.state;
        x = x ^ (x << 13u32);
        x = x ^ (x >> 17u32);
        x = x ^ (x << 5u32);
        self.state = x;
        x
    }

    /// Advance and return the top 24 bits: exactly the mantissa an `f32`
    /// holds, so `bits as f32 / 2^24` is uniform in `0.0..1.0`.
    pub fn next_unit_bits(&mut self) -> (r: u32)
        ensures
            r == xorshift32(old(self).state) >> 8u32,
            r < 0x100_0000,
            final(self).state == xorshift32(old(self).state),
    {
        let x = self.next_u32();
        assert(x >> 8u32 < 0x100_0000) by (bit_vector);
        x >> 8u32
    }
}

/// The seed mixer: a raw small seed gives a poor first few outputs, so it is
/// passed through one LCG step, and the low bit set so the state is never zero.
pub open spec fn mixed_seed(seed: u64) -> u64 {
    add_wrap64(mul_wrap64(seed, 6_364_136_223_846_793_005), 1_442_695_040_888_963_407) | 1u64
}

/// xorshift64*: fast, tiny, and reproducible from a single `u64`.
#[derive(Debug, Clone, Copy)]
pub struct Rng {
    pub state: u64,
}

impl Rng {
    /// A generator for `seed`.
    pub fn new(seed: u64) -> (r: Rng)
        ensures
            r.state == mixed_seed(seed),
            r.state != 0,
    {
        let m = seed.wrapping_mul(6_364_136_223_846_793_005);
        let a = m.wrapping_add(1_442_695_040_888_963_407);
        let state = a | 1;
        assert(a | 1u64 != 0) by (bit_vector);
        Rng { state }
    }

    /// Advance and return the next output.
    pub fn next_u64(&mut self) -> (r: u64)
        ensures
            final(self).state == xorshift64(old(self).state),
            r == mul_wrap64(xorshift64(old(self).state), 0x2545_F491_4F6C_DD1D),
    {
        let mut x = self.state;
        x = x ^ (x >> 12u64);
        x = x ^ (x << 25u64);
        x = x ^ (x >> 27u64);
        self.state = x;
        x.wrapping_mul(0x2545_F491_4F6C_DD1D)
    }

    /// The top 24 bits of the next output, for a uniform `f32` in `0.0..1.0`.
    pub fn next_unit_bits(&mut self) -> (r: u32)
        ensures
            final(self).state == xorshift64(old(self).state),
            r == mul_wrap64(xorshift64(old(self).state), 0x2545_F491_4F6C_DD1D) >> 40u64,
            r < 0x100_0000,
    {
        let x = self.next_u64();
        assert(x >> 40u64 < 0x100_0000) by (bit_vector);
        (x >> 40u64) as u32
    }
}

/// A non-zero xorshift64 state never becomes zero, so the generator never
/// sticks.
pub proof fn lemma_xorshift64_never_sticks(x: u64)
    requires
        x != 0,
    ensures
        xorshift64(x) != 0,
{
    let a = x ^ (x >> 12u64);
    let b = a ^ (a << 25u64);
    assert(x != 0 ==> x ^ (x >> 12u64) != 0) by (bit_vector);
    assert(a != 0 ==> a ^ (a << 25u64) != 0) by (bit_vector);
    assert(b != 0 ==> b ^ (b >> 27u64) != 0) by (bit_vector);
}

/// Likewise for xorshift32.
pub proof fn lemma_xorshift32_never_sticks(x: u32)
    requires
        x != 0,
    ensures
        xorshift32(x) != 0,
{
    let a = x ^ (x << 13u32);
    let b = a ^ (a >> 17u32);
    assert(x != 0 ==> x ^ (x << 13u32) != 0) by (bit_vector);
    assert(a != 0 ==> a ^ (a >> 17u32) != 0) by (bit_vector);
    assert(b != 0 ==> b ^ (b << 5u32) != 0) by (bit_vector);
}

} // verus!
