use calculator::radix::{char_to_digit, digit_to_char, parse_radix, render_radix};

#[test]
fn parses_digit_strings_in_each_radix() {
    assert_eq!(parse_radix("", 10), Some(0));
    assert_eq!(parse_radix("11011", 2), Some(27));
    assert_eq!(parse_radix("17034", 8), Some(7708));
    assert_eq!(parse_radix("170828829", 10), Some(170828829));
    assert_eq!(parse_radix("A2EA41D", 16), Some(170828829));
}

#[test]
fn parse_reports_overflow() {
    assert_eq!(parse_radix("7FFFFFFFFFFFFFFFFFFFFFFFFFFFFFFF", 16), Some(i128::MAX));
    assert_eq!(parse_radix("80000000000000000000000000000000", 16), None);
    assert_eq!(parse_radix("170141183460469231731687303715884105728", 10), None);
}

#[test]
fn renders_numbers_in_each_radix() {
    assert_eq!(render_radix(0, 16), "0");
    assert_eq!(render_radix(27, 2), "11011");
    assert_eq!(render_radix(7708, 8), "17034");
    assert_eq!(render_radix(170828829, 16), "A2EA41D");
    assert_eq!(render_radix(170828829, 10), "170828829");
}

#[test]
fn digit_characters_and_values() {
    assert_eq!(char_to_digit('0'), 0);
    assert_eq!(char_to_digit('B'), 11);
    assert_eq!(char_to_digit('b'), 16);
    assert_eq!(digit_to_char(15), 'F');
    assert_eq!(digit_to_char(7), '7');
}
