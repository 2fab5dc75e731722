//! Doubles in `[0, 1)`, handled as their binary64 bit patterns.
//!
//! A 64-bit output gives the double `(output / 2^11) / 2^53`. Its numerator
//! is below 2^53, so the quotient is a binary64 number without rounding, and
//! its bit pattern is found with integers alone.

use vstd::arithmetic::power2::{
    lemma2_to64, lemma2_to64_rest, lemma_pow2_adds, lemma_pow2_pos, lemma_pow2_strictly_increases,
    lemma_pow2_unfold, pow2,
};
use vstd::bits::lemma_u64_shl_is_mul;
use vstd::prelude::*;
use vstd::std_specs::bits::u64_leading_zeros;

verus! {

/// 2^52: the implicit leading bit of a binary64 significand, and the weight
/// of the exponent field in a bit pattern.
pub const TWO_POW_52: u64 = 0x10_0000_0000_0000;

/// The bit pattern of 1.0.
pub const ONE_BITS: u64 = 0x3FF0_0000_0000_0000;

/// The position of the highest set bit of `m`: the `k` with
/// `2^k <= m < 2^(k+1)`. Zero for `m == 0`.
pub open spec fn floor_log2(m: nat) -> nat
    decreases m,
{
    if m < 2 {
        0
    } else {
        1 + floor_log2(m / 2)
    }
}

/// The numerator of the double that an output gives: its upper 53 bits.
pub open spec fn unit_numerator(output: u64) -> u64 {
    output / 2048
}

/// The bit pattern of the binary64 number `m / 2^53`, for `m` below 2^53.
/// With `k` the position of the highest set bit of `m`, the number is
/// `(m * 2^(52-k)) * 2^(k-105)`: a significand in `[2^52, 2^53)` and the
/// biased exponent `k + 970`.
pub open spec fn unit_double_bits(m: u64) -> u64 {
    if m == 0 {
        0
    } else {
        let k = floor_log2(m as nat);
        ((970 + k) * TWO_POW_52 + (m * pow2((52 - k) as nat) - TWO_POW_52)) as u64
    }
}

/// Whether the sign bit of a binary64 bit pattern is set.
pub open spec fn binary64_sign(bits: u64) -> bool {
    bits >= 0x8000_0000_0000_0000
}

/// The biased exponent of a binary64 bit pattern.
pub open spec fn binary64_exponent(bits: u64) -> nat {
    (bits / TWO_POW_52 % 2048) as nat
}

/// The fraction field of a binary64 bit pattern.
pub open spec fn binary64_fraction(bits: u64) -> nat {
    (bits % TWO_POW_52) as nat
}

/// The magnitude of the finite binary64 number with the given bit pattern,
/// times 2^1074, which makes it an integer: the fraction itself for a
/// subnormal number, else the significand times `2^(exponent - 1)`.
pub open spec fn binary64_magnitude_scaled(bits: u64) -> nat {
    if binary64_exponent(bits) == 0 {
        binary64_fraction(bits)
    } else {
        (TWO_POW_52 as nat + binary64_fraction(bits)) * pow2(
            (binary64_exponent(bits) - 1) as nat,
        )
    }
}

/// The highest set bit of `m` brackets `m` between two powers of two.
pub proof fn lemma_floor_log2_bounds(m: nat)
    requires
        m > 0,
    ensures
        pow2(floor_log2(m)) <= m < pow2(floor_log2(m) + 1),
    decreases m,
{
    if m < 2 {
        lemma2_to64();
    } else {
        lemma_floor_log2_bounds(m / 2);
        lemma_pow2_unfold(floor_log2(m));
        lemma_pow2_unfold(floor_log2(m) + 1);
    }
}

/// A number below `2^n` has its highest set bit below position `n`.
pub proof fn lemma_floor_log2_below(m: nat, n: nat)
    requires
        0 < m < pow2(n),
    ensures
        floor_log2(m) < n,
{
    lemma_floor_log2_bounds(m);
    if floor_log2(m) > n {
        lemma_pow2_strictly_increases(n, floor_log2(m));
    }
}

/// The leading zeros of a 64-bit word and the position of its highest set
/// bit add up to 63.
proof fn lemma_leading_zeros_is_floor_log2(m: u64)
    requires
        m > 0,
    ensures
        u64_leading_zeros(m) == 63 - floor_log2(m as nat),
    decreases m,
{
    reveal(u64_leading_zeros);
    if m < 2 {
        assert(m / 2 == 0);
        assert(u64_leading_zeros(0) == 64);
    } else {
        lemma_leading_zeros_is_floor_log2(m / 2);
    }
}

/// Shifting the highest set bit of `m` to position 52 gives a significand
/// in `[2^52, 2^53)`.
proof fn lemma_significand_range(m: u64)
    requires
        0 < m < 0x20_0000_0000_0000,
    ensures
        floor_log2(m as nat) <= 52,
        TWO_POW_52 <= m * pow2((52 - floor_log2(m as nat)) as nat) < 2 * TWO_POW_52,
{
    let k = floor_log2(m as nat);
    lemma2_to64_rest();
    lemma_floor_log2_below(m as nat, 53);
    lemma_floor_log2_bounds(m as nat);
    let s = (52 - k) as nat;
    lemma_pow2_adds(k, s);
    lemma_pow2_adds(k + 1, s);
    lemma_pow2_pos(s);
    assert(pow2(k) * pow2(s) <= m * pow2(s) < pow2(k + 1) * pow2(s)) by (nonlinear_arith)
        requires
            pow2(k) <= m < pow2(k + 1),
            pow2(s) > 0,
    ;
}

/// The bit pattern of `m / 2^53` stands for exactly that number: it is
/// finite and not negative, and its magnitude times 2^1074 is `m * 2^1021`.
/// So the number is at least 0 and below 1, and its bit pattern is below
/// that of 1.0.
pub proof fn lemma_unit_double_value(m: u64)
    requires
        m < 0x20_0000_0000_0000,
    ensures
        !binary64_sign(unit_double_bits(m)),
        binary64_exponent(unit_double_bits(m)) < 1023,
        binary64_magnitude_scaled(unit_double_bits(m)) == m * pow2(1021),
        binary64_magnitude_scaled(unit_double_bits(m)) < pow2(1074),
        unit_double_bits(m) < ONE_BITS,
{
    lemma2_to64_rest();
    lemma_pow2_adds(53, 1021);
    lemma_pow2_pos(1021);
    assert(m * pow2(1021) < pow2(53) * pow2(1021)) by (nonlinear_arith)
        requires
            m < pow2(53),
            pow2(1021) > 0,
    ;
    if m == 0 {
        assert(0 * pow2(1021) == 0) by (nonlinear_arith);
    } else {
        let k = floor_log2(m as nat);
        let s = (52 - k) as nat;
        lemma_significand_range(m);
        let significand = m * pow2(s);
        let bits = unit_double_bits(m);
        assert(bits == (970 + k) * TWO_POW_52 + (significand - TWO_POW_52));
        assert(binary64_exponent(bits) == 970 + k);
        assert(binary64_fraction(bits) == significand - TWO_POW_52);
        lemma_pow2_adds(s, 969 + k);
        assert(m * pow2(s) * pow2(969 + k) == m * (pow2(s) * pow2(969 + k))) by (nonlinear_arith);
    }
}

/// The bit pattern of the double in `[0, 1)` that `output` gives: its upper
/// 53 bits over 2^53.
pub fn unit_double(output: u64) -> (bits: u64)
    ensures
        bits == unit_double_bits(unit_numerator(output)),
        bits < ONE_BITS,
{
    let m: u64 = output >> 11;
    assert(m == output / 2048 && m < 0x20_0000_0000_0000) by (bit_vector)
        requires
            m == output >> 11,
    ;
    proof {
        lemma_unit_double_value(m);
    }
    if m == 0 {
        return 0;
    }
    let zeros: u32 = m.leading_zeros();
    proof {
        lemma_leading_zeros_is_floor_log2(m);
        lemma_significand_range(m);
    }
    let shift: u64 = (zeros - 11) as u64;
    proof {
        lemma_u64_shl_is_mul(m, shift);
    }
    let significand: u64 = m << shift;
    let exponent: u64 = 1022 - shift;
    exponent * TWO_POW_52 + (significand - TWO_POW_52)
}

} // verus!
