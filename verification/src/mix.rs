//! The stateless bit mixer and the derivation of odd increments.

use vstd::prelude::*;

verus! {

/// The odd constant closest to 2^64 divided by the golden ratio.
pub const GOLDEN_GAMMA: u64 = 0x9e3779b97f4a7c15;

/// Multiplier of the first mixing round.
pub const MIX_MULTIPLIER_1: u64 = 0xbf58476d1ce4e5b9;

/// Multiplier of the second mixing round.
pub const MIX_MULTIPLIER_2: u64 = 0x94d049bb133111eb;

/// `a + b` modulo 2^64.
pub open spec fn add_mod64(a: u64, b: u64) -> u64 {
    ((a + b) % 0x1_0000_0000_0000_0000) as u64
}

/// `a * b` modulo 2^64.
pub open spec fn mul_mod64(a: u64, b: u64) -> u64 {
    ((a * b) % 0x1_0000_0000_0000_0000) as u64
}

/// `z` with its own upper bits folded down by `shift` places.
pub open spec fn xor_shift(z: u64, shift: u64) -> u64 {
    z ^ (z >> shift)
}

/// The SplitMix64 finalizer: add the golden gamma, then two rounds of
/// xor-shift and multiply, then one last xor-shift.
#[verifier::opaque]
pub open spec fn mix64(z: u64) -> u64 {
    let a = add_mod64(z, GOLDEN_GAMMA);
    let b = mul_mod64(xor_shift(a, 30), MIX_MULTIPLIER_1);
    let c = mul_mod64(xor_shift(b, 27), MIX_MULTIPLIER_2);
    xor_shift(c, 31)
}

/// The increment derived from `z`: the mixed value with its low bit forced
/// on, times the golden gamma.
pub open spec fn gamma_of(z: u64) -> u64 {
    mul_mod64(mix64(z) | 1, GOLDEN_GAMMA)
}

/// Mixes the bits of `z`.
pub fn splitmix64_mix(z: u64) -> (r: u64)
    ensures
        r == mix64(z),
{
    proof {
        reveal(mix64);
    }
    let a: u64 = z.wrapping_add(GOLDEN_GAMMA);
    let b: u64 = (a ^ (a >> 30)).wrapping_mul(MIX_MULTIPLIER_1);
    let c: u64 = (b ^ (b >> 27)).wrapping_mul(MIX_MULTIPLIER_2);
    c ^ (c >> 31)
}

/// Derives an increment from `z`. The result is always odd.
pub fn mix_gamma(z: u64) -> (r: u64)
    ensures
        r == gamma_of(z),
        r % 2 == 1,
{
    let mixed: u64 = splitmix64_mix(z);
    proof {
        lemma_gamma_of_is_odd(z);
    }
    (mixed | 1).wrapping_mul(GOLDEN_GAMMA)
}

/// Every derived increment is odd: an odd number times the odd golden gamma
/// stays odd, and reduction modulo 2^64 keeps the low bit.
pub proof fn lemma_gamma_of_is_odd(z: u64)
    ensures
        gamma_of(z) % 2 == 1,
{
    let mixed: u64 = mix64(z);
    assert((mixed | 1) % 2 == 1) by (bit_vector);
}

} // verus!
