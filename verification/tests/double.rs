use hedgehog_splitmix::double::{unit_double, ONE_BITS, TWO_POW_52};
use hedgehog_splitmix::splitmix64_mix;

fn double_by_float_arithmetic(output: u64) -> f64 {
    (output >> 11) as f64 * (1.0 / (1u64 << 53) as f64)
}

#[test]
fn double_constants() {
    assert_eq!(TWO_POW_52, 1u64 << 52);
    assert_eq!(ONE_BITS, 1.0f64.to_bits());
}

#[test]
fn double_of_zero_is_zero() {
    assert_eq!(unit_double(0), 0);
    assert_eq!(f64::from_bits(unit_double(0)), 0.0);
    // The low eleven bits do not count.
    assert_eq!(unit_double(0x7ff), 0);
}

#[test]
fn double_of_chosen_outputs() {
    // 1 / 2^53, the smallest step.
    assert_eq!(unit_double(1 << 11), 0x3ca0_0000_0000_0000);
    // One half.
    assert_eq!(unit_double(1 << 63), 0x3fe0_0000_0000_0000);
    assert_eq!(f64::from_bits(unit_double(1 << 63)), 0.5);
    // One quarter, three quarters.
    assert_eq!(f64::from_bits(unit_double(1 << 62)), 0.25);
    assert_eq!(f64::from_bits(unit_double(3 << 62)), 0.75);
    // The largest double below one.
    assert_eq!(unit_double(u64::MAX), 0x3fef_ffff_ffff_ffff);
    assert_eq!(f64::from_bits(unit_double(u64::MAX)), 1.0 - f64::EPSILON / 2.0);
}

#[test]
fn doubles_of_seed_42() {
    assert_eq!(unit_double(0x6f9b0689c9a6025a), 0x3fdbe6c1a2726980);
    assert_eq!(unit_double(0x417ab1d6f166babc), 0x3fd05eac75bc59ae);
    assert_eq!(unit_double(0xe9746255cbe8a1d9), 0x3fed2e8c4ab97d14);
    assert_eq!(f64::from_bits(unit_double(0x6f9b0689c9a6025a)), 0.4359592520137525);
}

#[test]
fn double_agrees_with_floating_point_arithmetic() {
    let mut x: u64 = 1;
    for _ in 0..100_000 {
        x = splitmix64_mix(x);
        assert_eq!(unit_double(x), double_by_float_arithmetic(x).to_bits());
    }
}

#[test]
fn double_agrees_with_floating_point_arithmetic_for_every_bit_length() {
    for shift in 0..64u32 {
        let top: u64 = 1u64 << shift;
        for output in [top, top | (top >> 1), top | 1, top | (top - 1), top.wrapping_sub(1)] {
            assert_eq!(unit_double(output), double_by_float_arithmetic(output).to_bits());
        }
    }
}

#[test]
fn doubles_lie_in_the_unit_interval() {
    let mut x: u64 = 2;
    for _ in 0..100_000 {
        x = splitmix64_mix(x);
        let value: f64 = f64::from_bits(unit_double(x));
        assert!(value >= 0.0);
        assert!(value < 1.0);
        assert!(unit_double(x) < ONE_BITS);
    }
}
