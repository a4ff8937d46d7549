//! Tests of the fixed-point decimal layer and the wide arithmetic under it.

use pool_manager::dec::{Dec, ONE};
use pool_manager::error::PoolError;
use pool_manager::wide::{mul_div_floor, mul_wide, isqrt_wide, div_wide};

#[test]
fn round_trip_precision_exact() {
    // a raw amount survives the trip to internal decimals and back
    for &(amount, prec) in &[
        (1u128, 0u8),
        (123_456u128, 6u8),
        (1_000_000_000u128, 6u8),
        (999_999_999_999u128, 12u8),
        (42u128, 18u8),
    ] {
        let d = Dec::with_precision(amount, prec).unwrap();
        assert_eq!(d.to_uint(prec), amount);
    }
}

#[test]
fn with_precision_scales_up() {
    let d = Dec::with_precision(1_000_000_000, 6).unwrap();
    assert_eq!(d.atomics, 1000 * ONE);
    let e = Dec::with_precision(5, 18).unwrap();
    assert_eq!(e.atomics, 5);
}

#[test]
fn with_precision_overflow_reported() {
    let r = Dec::with_precision(u128::MAX, 0);
    assert_eq!(r, Err(PoolError::ArithmeticOverflow));
}

#[test]
fn checked_add_and_overflow() {
    let a = Dec::raw(u128::MAX - 1);
    assert_eq!(a.checked_add(Dec::raw(1)).unwrap().atomics, u128::MAX);
    assert_eq!(a.checked_add(Dec::raw(2)), Err(PoolError::ArithmeticOverflow));
}

#[test]
fn checked_sub_underflow_reported() {
    let a = Dec::raw(5);
    assert_eq!(a.checked_sub(Dec::raw(7)), Err(PoolError::ArithmeticOverflow));
    assert_eq!(a.saturating_sub(Dec::raw(7)).atomics, 0);
    assert_eq!(a.saturating_sub(Dec::raw(2)).atomics, 3);
}

#[test]
fn checked_mul_floors() {
    // 1.5 * 2.0 == 3.0
    let a = Dec::raw(3 * ONE / 2);
    let b = Dec::raw(2 * ONE);
    assert_eq!(a.checked_mul(b).unwrap().atomics, 3 * ONE);
    // 1e-18 * 1e-18 floors to zero
    assert_eq!(Dec::raw(1).checked_mul(Dec::raw(1)).unwrap().atomics, 0);
}

#[test]
fn checked_div_floors() {
    let a = Dec::raw(ONE);
    let b = Dec::raw(3 * ONE);
    assert_eq!(a.checked_div(b).unwrap().atomics, 333_333_333_333_333_333);
}

#[test]
fn from_ratio_matches_division() {
    assert_eq!(Dec::from_ratio(1, 3).unwrap().atomics, 333_333_333_333_333_333);
    assert_eq!(Dec::from_ratio(1, 2).unwrap().atomics, ONE / 2);
}

#[test]
fn sqrt_exact_squares() {
    assert_eq!(Dec::raw(4 * ONE).sqrt().atomics, 2 * ONE);
    assert_eq!(Dec::raw(ONE).sqrt().atomics, ONE);
    assert_eq!(Dec::raw(0).sqrt().atomics, 0);
    // sqrt(2) to 18 digits, floored
    assert_eq!(Dec::raw(2 * ONE).sqrt().atomics, 1_414_213_562_373_095_048);
}

#[test]
fn mul_div_floor_wide_intermediate() {
    // the product alone would overflow 128 bits
    let a = u128::MAX;
    let b = 1_000_000_000_000_000_000u128;
    let d = 2_000_000_000_000_000_000u128;
    assert_eq!(mul_div_floor(a, b, d), Some(u128::MAX / 2));
    // a quotient above the range is refused
    assert_eq!(mul_div_floor(u128::MAX, 3, 2), None);
    assert_eq!(mul_div_floor(7, 5, 3), Some(11));
}

#[test]
fn mul_wide_and_div_wide_agree() {
    let (hi, lo) = mul_wide(u128::MAX, u128::MAX);
    assert_eq!(hi, u128::MAX - 1);
    assert_eq!(lo, 1);
    let (q, r) = div_wide(5, 17, 100);
    // 5 * 2^128 + 17 divided by 100
    assert_eq!(q, 17014118346046923173168730371588410572);
    assert_eq!(r, 97);
}

#[test]
fn isqrt_wide_bounds() {
    let (hi, lo) = mul_wide(123_456_789_123_456_789, 123_456_789_123_456_789);
    assert_eq!(isqrt_wide(hi, lo), 123_456_789_123_456_789);
    assert_eq!(isqrt_wide(0, 8), 2);
    assert_eq!(isqrt_wide(0, 9), 3);
}
