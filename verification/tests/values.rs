//! Value-level behaviour: fixed-point numbers, price conversion and
//! validation rules.

use invariant_core::decimal::Decimal;
use invariant_core::decimal::DENOMINATOR;
use invariant_core::errors::InvariantErrorCode;
use invariant_core::incentive::validate_incentive;
use invariant_core::incentive::IncentiveError;
use invariant_core::price::calculate_price_sqrt;
use invariant_core::price::get_tick_at_sqrt_price;
use invariant_core::util::check_tick;
use invariant_core::util::check_ticks;
use invariant_core::util::get_tick_from_price;

#[test]
fn decimal_constructors() {
    assert_eq!(Decimal::new(42).v, 42);
    assert_eq!(Decimal::from_integer(5), Decimal::new(5 * DENOMINATOR));
    // one tenth: one digit after the decimal point
    assert_eq!(Decimal::from_decimal(1, 1), Decimal::new(100_000_000_000));
    assert_eq!(Decimal::from_decimal(25, 2), Decimal::new(250_000_000_000));
    assert_eq!(Decimal::from_integer(7).to_u64(), 7);
}

#[test]
fn decimal_arithmetic() {
    let a = Decimal::from_integer(3);
    let b = Decimal::from_integer(2);
    assert_eq!(a.add(b), Decimal::from_integer(5));
    assert_eq!(a.sub(b), Decimal::from_integer(1));
    assert_eq!(a.div(b), Decimal::new(1_500_000_000_000));
    assert!(b.lt(&a));
    assert!(a.gt(&b));
}

#[test]
fn price_of_tick_zero_is_one() {
    assert_eq!(calculate_price_sqrt(0), Decimal::from_integer(1));
}

#[test]
fn price_is_strictly_increasing() {
    let below = calculate_price_sqrt(-1);
    let at = calculate_price_sqrt(0);
    let above = calculate_price_sqrt(1);
    assert!(below.lt(&at));
    assert!(at.lt(&above));
}

#[test]
fn price_tick_round_trip() {
    for t in [-221_818, -12_345, -1, 0, 1, 7, 4_000, 221_818] {
        assert_eq!(get_tick_at_sqrt_price(calculate_price_sqrt(t)), t);
    }
}

#[test]
fn inexact_price_lands_on_tick_below() {
    let between = calculate_price_sqrt(10).add(Decimal::new(1));
    assert_eq!(get_tick_at_sqrt_price(between), 10);
}

#[test]
fn get_tick_from_price_matches_conversion() {
    let price = calculate_price_sqrt(40);
    assert_eq!(get_tick_from_price(100, 10, price, true), 40);
}

#[test]
fn check_tick_accepts_aligned_in_range() {
    assert_eq!(check_tick(4, 2), Ok(()));
    assert_eq!(check_tick(0, 1), Ok(()));
    assert_eq!(check_tick(-44_363, 1), Ok(()));
    assert_eq!(check_tick(44_362, 1), Ok(()));
}

#[test]
fn check_tick_rejects_bad_input() {
    let err = Err(InvariantErrorCode::InvalidTickIndex);
    // misaligned
    assert_eq!(check_tick(5, 2), err);
    // zero spacing
    assert_eq!(check_tick(0, 0), err);
    // quantized index at or past the bitmap's bounds
    assert_eq!(check_tick(-44_364, 1), err);
    assert_eq!(check_tick(44_363, 1), err);
    // raw tick past the price bound
    assert_eq!(check_tick(221_820, 10), err);
}

#[test]
fn check_ticks_orders_bounds() {
    assert_eq!(check_ticks(-10, 10, 2), Ok(()));
    let err = Err(InvariantErrorCode::InvalidTickIndex);
    assert_eq!(check_ticks(10, 10, 2), err);
    assert_eq!(check_ticks(10, -10, 2), err);
    assert_eq!(check_ticks(-10, 11, 2), err);
}

#[test]
fn incentive_validation_rules() {
    let reward = Decimal::from_integer(100);
    let zero = Decimal::new(0);
    // a sound incentive passes
    assert_eq!(validate_incentive(reward, 1_000, 2_000, 1_000), Ok(()));
    // an empty reward is refused first
    assert_eq!(
        validate_incentive(zero, 1_000, 2_000, 1_000),
        Err(IncentiveError::ZeroAmount)
    );
    // starting more than an hour before now is refused
    assert_eq!(
        validate_incentive(reward, 1_000, 2_000, 5_000),
        Err(IncentiveError::StartInPast)
    );
    // ending more than a year past now is refused
    assert_eq!(
        validate_incentive(reward, 1_000, 40_000_000, 1_000),
        Err(IncentiveError::TooLongDuration)
    );
}
