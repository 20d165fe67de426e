use telegram_video_converter::binary64::{
    add_fraction, div_round_half_even, divide, nearest_integer, power_of_two, round_scaled,
    Rounded, EXACT_LIMIT, NORMAL_LIMIT,
};

/// The value of a mantissa and an exponent, in floating point.
fn as_float(value: Rounded) -> f64 {
    value.mantissa as f64 * 2f64.powi(value.exponent)
}

#[test]
fn limits_are_powers_of_two() {
    assert_eq!(EXACT_LIMIT, 1 << 53);
    assert_eq!(NORMAL_LIMIT, 1 << 52);
    assert_eq!(power_of_two(0), 1);
    assert_eq!(power_of_two(10), 1024);
    assert_eq!(power_of_two(127), 1 << 127);
}

#[test]
fn division_rounds_ties_to_even() {
    assert_eq!(div_round_half_even(0, 4), 0);
    assert_eq!(div_round_half_even(1, 4), 0);
    assert_eq!(div_round_half_even(2, 4), 0);
    assert_eq!(div_round_half_even(3, 4), 1);
    assert_eq!(div_round_half_even(6, 4), 2);
    assert_eq!(div_round_half_even(10, 4), 2);
    assert_eq!(div_round_half_even(14, 4), 4);
    assert_eq!(div_round_half_even(7, 1), 7);
    assert_eq!(div_round_half_even(u128::MAX, 1), u128::MAX);
    assert_eq!(div_round_half_even(u128::MAX, u128::MAX), 1);
    assert_eq!(div_round_half_even(u128::MAX - 1, u128::MAX), 1);
    assert_eq!(div_round_half_even(u128::MAX / 2, u128::MAX), 0);
}

#[test]
fn integers_below_the_limit_are_held_exactly() {
    for n in [0u64, 1, 2, 3, 1000, (1 << 52) - 1, 1 << 52, (1 << 53) - 1] {
        assert_eq!(nearest_integer(n), n as u128);
    }
}

#[test]
fn integers_above_the_limit_round_to_even() {
    assert_eq!(nearest_integer(1 << 53), 1 << 53);
    assert_eq!(nearest_integer((1 << 53) + 1), 1 << 53);
    assert_eq!(nearest_integer((1 << 53) + 2), (1 << 53) + 2);
    assert_eq!(nearest_integer((1 << 53) + 3), (1 << 53) + 4);
    assert_eq!(nearest_integer(u64::MAX), 1 << 64);
    for n in [(1u64 << 60) + 12345, u64::MAX - 1024, u64::MAX - 1023, (1 << 63) + 1025] {
        assert_eq!(nearest_integer(n), (n as f64) as u128);
    }
}

#[test]
fn quotients_agree_with_floating_point() {
    let mut state = 0x1234_5678_9ABC_DEF1u64;
    for round in 0..20_000u32 {
        state ^= state << 13;
        state ^= state >> 7;
        state ^= state << 17;
        let num = (state >> (round % 64)) as u128;
        let den = ((state.rotate_left(29) >> ((round / 64) % 64)) as u128).max(1);
        let value = divide(num, den);
        let expected = nearest_integer(num as u64) as f64 / nearest_integer(den as u64) as f64;
        if num < (1 << 53) && den < (1 << 53) {
            assert_eq!(as_float(value), expected, "{} / {}", num, den);
        }
        assert!(value.mantissa <= EXACT_LIMIT);
        assert!(num == 0 || value.mantissa >= NORMAL_LIMIT);
    }
    assert_eq!(as_float(divide(1, 3)), 1.0 / 3.0);
    assert_eq!(as_float(divide(2, 3)), 2.0 / 3.0);
    assert_eq!(as_float(divide(1, 10)), 0.1);
    assert_eq!(as_float(divide(0, 5)), 0.0);
}

#[test]
fn sums_agree_with_floating_point() {
    for whole in [0u64, 1, 2, 3, 1 << 30, (1 << 52) - 1, 1 << 52, (1 << 53) - 1, 1 << 53, 1 << 60] {
        for nanos in [0u128, 1, 5_000_000, 123_456_789, 500_000_000, 999_999_999] {
            let fraction = divide(nanos, 1_000_000_000);
            let sum = add_fraction(whole as u128, fraction);
            let expected = whole as f64 + nanos as f64 / 1e9;
            assert_eq!(as_float(sum), expected, "{} + {} / 1e9", whole, nanos);
        }
    }
}

#[test]
fn scaled_values_round_to_even() {
    let half = Rounded { mantissa: 1 << 52, exponent: -53 };
    assert_eq!(round_scaled(half, 1), 0);
    assert_eq!(round_scaled(half, 3), 2);
    assert_eq!(round_scaled(half, 5), 2);
    assert_eq!(round_scaled(half, 10), 5);
    let three = Rounded { mantissa: 3 << 51, exponent: -51 };
    assert_eq!(round_scaled(three, 100), 300);
    let big = Rounded { mantissa: 1 << 52, exponent: 3 };
    assert_eq!(round_scaled(big, 10), 10 << 55);
}
