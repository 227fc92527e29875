use vstd::prelude::*;

verus! {

/// The seed of the left wind noise generator.
pub const SEED_L: u32 = 0x5EED_1234;

/// The seed of the right wind noise generator.
pub const SEED_R: u32 = 0xF005_7B1D;

/// One step of Marsaglia's 32-bit xorshift generator (shifts 13, 17, 5).
pub open spec fn spec_xorshift32(x: u32) -> u32 {
    let a = x ^ (x << 13u32);
    let b = a ^ (a >> 17u32);
    b ^ (b << 5u32)
}

/// Advances the noise generator state by one step.
pub fn xorshift32(x: u32) -> (r: u32)
    ensures
        r == spec_xorshift32(x),
{
    let mut x = x;
    x ^= x << 13u32;
    x ^= x >> 17u32;
    x ^= x << 5u32;
    x
}

/// The generator never falls into the zero state from another state: each of
/// its three xor-shift steps maps a nonzero word to a nonzero word.
pub proof fn lemma_xorshift32_nonzero(x: u32)
    requires
        x != 0,
    ensures
        spec_xorshift32(x) != 0,
{
    let a = x ^ (x << 13u32);
    let b = a ^ (a >> 17u32);
    let c = b ^ (b << 5u32);
    assert(x != 0 ==> x ^ (x << 13u32) != 0) by (bit_vector);
    assert(a != 0 ==> a ^ (a >> 17u32) != 0) by (bit_vector);
    assert(b != 0 ==> b ^ (b << 5u32) != 0) by (bit_vector);
}

} // verus!
