//! Fixed-point scalar arithmetic.

use moleengine::fx::{isqrt_u128, Fx, FX_MAX, SCALE};

fn fx(units: i64) -> Fx {
    Fx::from_units(units)
}

#[test]
fn units_and_raw() {
    assert_eq!(fx(1).raw(), SCALE);
    assert_eq!(fx(-3).raw(), -3 * SCALE);
    assert_eq!(Fx::zero().raw(), 0);
    assert_eq!(Fx::one().raw(), SCALE);
    assert_eq!(Fx::from_raw(123_456).raw(), 123_456);
}

#[test]
fn addition_and_subtraction() {
    assert_eq!(fx(2).plus(fx(3)).raw(), 5 * SCALE);
    assert_eq!(fx(2).minus(fx(3)).raw(), -SCALE);
    assert_eq!(fx(2).neg().raw(), -2 * SCALE);
    assert_eq!(fx(-7).abs_val().raw(), 7 * SCALE);
}

#[test]
fn multiplication_rounds_toward_zero() {
    assert_eq!(fx(3).times(fx(4)).raw(), 12 * SCALE);
    // 1.5 * 1.5 = 2.25
    assert_eq!(
        Fx::from_raw(1_500_000).times(Fx::from_raw(1_500_000)).raw(),
        2_250_000
    );
    // (-1/1000000) * (1/2): product rounds toward zero, not down
    assert_eq!(Fx::from_raw(-1).times(Fx::from_raw(500_000)).raw(), 0);
}

#[test]
fn division_rounds_toward_zero() {
    assert_eq!(fx(7).over(fx(2)).raw(), 3_500_000);
    assert_eq!(fx(1).over(fx(3)).raw(), 333_333);
    assert_eq!(fx(-1).over(fx(3)).raw(), -333_333);
    assert_eq!(fx(7).divn(2).raw(), 3_500_000);
    assert_eq!(Fx::from_raw(-7).divn(2).raw(), -3);
}

#[test]
fn saturation_at_the_range_ends() {
    let big = Fx::from_raw(FX_MAX);
    assert_eq!(big.plus(big).raw(), FX_MAX);
    assert_eq!(big.neg().minus(big).raw(), -FX_MAX);
    assert_eq!(big.times(big).raw(), FX_MAX);
    assert_eq!(Fx::from_units(i64::MAX).raw(), FX_MAX);
}

#[test]
fn clamping() {
    assert_eq!(fx(5).clamp_to(fx(-1), fx(1)).raw(), SCALE);
    assert_eq!(fx(-5).clamp_to(fx(-1), fx(1)).raw(), -SCALE);
    assert_eq!(Fx::from_raw(42).clamp_to(fx(-1), fx(1)).raw(), 42);
}

#[test]
fn integer_square_roots() {
    assert_eq!(isqrt_u128(0), 0);
    assert_eq!(isqrt_u128(1), 1);
    assert_eq!(isqrt_u128(3), 1);
    assert_eq!(isqrt_u128(4), 2);
    assert_eq!(isqrt_u128(999_999), 999);
    assert_eq!(isqrt_u128(1_000_000), 1000);
    assert_eq!(isqrt_u128(u64::MAX as u128), 4_294_967_295);
}
