use dice_roll::eval::maths::{add, divide, mult, power, sub};
use dice_roll::eval::Error;

#[test]
fn add_gives_the_sum() {
    assert_eq!(add(2, 3), Ok(5));
    assert_eq!(add(-2, 2), Ok(0));
}

#[test]
fn add_wraps_round() {
    assert_eq!(add(i64::MAX, 1), Ok(i64::MIN));
    assert_eq!(add(i64::MIN, -1), Ok(i64::MAX));
}

#[test]
fn sub_gives_the_difference() {
    assert_eq!(sub(2, 3), Ok(-1));
    assert_eq!(sub(i64::MIN, 1), Ok(i64::MAX));
    assert_eq!(sub(0, i64::MIN), Ok(i64::MIN));
}

#[test]
fn mult_gives_the_product() {
    assert_eq!(mult(6, 7), Ok(42));
    assert_eq!(mult(-6, 7), Ok(-42));
    assert_eq!(mult(i64::MAX, 2), Ok(-2));
    assert_eq!(mult(i64::MIN, -1), Ok(i64::MIN));
}

#[test]
fn divide_rounds_toward_zero() {
    assert_eq!(divide(7, 2), Ok(3));
    assert_eq!(divide(-7, 2), Ok(-3));
    assert_eq!(divide(7, -2), Ok(-3));
    assert_eq!(divide(-7, -2), Ok(3));
    assert_eq!(divide(0, 5), Ok(0));
    assert_eq!(divide(5, 1), Ok(5));
}

#[test]
fn divide_by_zero_is_an_error() {
    assert_eq!(divide(5, 0), Err(Error::DivideByZero));
    assert_eq!(divide(0, 0), Err(Error::DivideByZero));
    assert_eq!(divide(i64::MIN, 0), Err(Error::DivideByZero));
}

#[test]
fn divide_wraps_the_one_quotient_out_of_range() {
    assert_eq!(divide(i64::MIN, -1), Ok(i64::MIN));
    assert_eq!(divide(i64::MIN, 1), Ok(i64::MIN));
    assert_eq!(divide(i64::MAX, -1), Ok(-i64::MAX));
}

#[test]
fn power_raises() {
    assert_eq!(power(2, 10), Ok(1024));
    assert_eq!(power(2, 8), Ok(256));
    assert_eq!(power(-3, 3), Ok(-27));
    assert_eq!(power(7, 0), Ok(1));
    assert_eq!(power(0, 0), Ok(1));
    assert_eq!(power(0, 5), Ok(0));
    assert_eq!(power(10, 18), Ok(1_000_000_000_000_000_000));
}

#[test]
fn power_of_a_negative_exponent_is_an_error() {
    assert_eq!(power(2, -1), Err(Error::NegativePowerNotImplemented));
    assert_eq!(power(0, i64::MIN), Err(Error::NegativePowerNotImplemented));
}

#[test]
fn power_wraps_round() {
    assert_eq!(power(2, 63), Ok(i64::MIN));
    assert_eq!(power(2, 64), Ok(0));
    assert_eq!(power(-2, 63), Ok(i64::MIN));
    assert_eq!(power(3, 41), Ok(3i64.wrapping_pow(41)));
    assert_eq!(power(-7, 1_000_003), Ok((-7i64).wrapping_pow(1_000_003)));
}

#[test]
fn power_takes_the_whole_exponent() {
    assert_eq!(power(0, 1 << 32), Ok(0));
    assert_eq!(power(0, i64::MAX), Ok(0));
    assert_eq!(power(1, i64::MAX), Ok(1));
    assert_eq!(power(-1, 1 << 32), Ok(1));
    assert_eq!(power(-1, (1 << 32) + 1), Ok(-1));
    assert_eq!(power(-1, i64::MAX), Ok(-1));
    assert_eq!(power(2, 1 << 32), Ok(0));
    assert_eq!(power(3, 1 << 32), Ok(3i64.wrapping_pow(u32::MAX).wrapping_mul(3)));
    assert_eq!(
        power(3, (1 << 32) + 2),
        Ok(3i64.wrapping_pow(u32::MAX).wrapping_mul(27))
    );
    assert_eq!(
        power(5, i64::MAX),
        Ok(5i64
            .wrapping_pow(u32::MAX)
            .wrapping_pow(1 << 31)
            .wrapping_mul(5i64.wrapping_pow(u32::MAX >> 1)))
    );
}
