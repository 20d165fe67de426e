use telegram_video_converter::text::{
    append_decimal, append_one_decimal, append_two_decimals, characters, decimal_string,
};

#[test]
fn decimal_digits_of_numbers() {
    assert_eq!(decimal_string(0), "0");
    assert_eq!(decimal_string(7), "7");
    assert_eq!(decimal_string(10), "10");
    assert_eq!(decimal_string(4096), "4096");
    assert_eq!(decimal_string(u64::MAX as u128), "18446744073709551615");
    assert_eq!(decimal_string(u128::MAX), "340282366920938463463374607431768211455");
    for n in 0..3000u128 {
        assert_eq!(decimal_string(n * 37), (n * 37).to_string());
    }
}

#[test]
fn decimal_digits_are_appended() {
    let mut text = String::from("n=");
    append_decimal(&mut text, 120);
    assert_eq!(text, "n=120");
}

#[test]
fn one_digit_after_the_point() {
    let mut text = String::new();
    append_one_decimal(&mut text, 0);
    text.push(' ');
    append_one_decimal(&mut text, 5);
    text.push(' ');
    append_one_decimal(&mut text, 1234);
    assert_eq!(text, "0.0 0.5 123.4");
}

#[test]
fn two_digits_after_the_point() {
    let mut text = String::new();
    append_two_decimals(&mut text, 0);
    text.push(' ');
    append_two_decimals(&mut text, 5);
    text.push(' ');
    append_two_decimals(&mut text, 50);
    text.push(' ');
    append_two_decimals(&mut text, 12345);
    assert_eq!(text, "0.00 0.05 0.50 123.45");
}

#[test]
fn characters_of_a_text() {
    assert_eq!(characters(""), Vec::<char>::new());
    assert_eq!(characters("a/é.✓"), vec!['a', '/', 'é', '.', '✓']);
}
