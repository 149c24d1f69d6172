use trove::text::decimal_string;
use trove::text::is_float_numeral;
use trove::text::parse_decimal;

#[test]
fn parse_decimal_values() {
    assert_eq!(parse_decimal(&String::from("0")), Some(0));
    assert_eq!(parse_decimal(&String::from("123")), Some(123));
    assert_eq!(parse_decimal(&String::from("007")), Some(7));
    assert_eq!(parse_decimal(&String::from("18446744073709551615")), Some(u64::MAX));
}

#[test]
fn parse_decimal_rejects() {
    assert_eq!(parse_decimal(&String::from("")), None);
    assert_eq!(parse_decimal(&String::from("12a")), None);
    assert_eq!(parse_decimal(&String::from("-1")), None);
    assert_eq!(parse_decimal(&String::from("18446744073709551616")), None);
}

#[test]
fn decimal_string_values() {
    assert_eq!(decimal_string(0), "0");
    assert_eq!(decimal_string(9876), "9876");
    assert_eq!(decimal_string(u64::MAX), "18446744073709551615");
}

#[test]
fn decimal_round_trip() {
    for n in [0u64, 1, 9, 10, 99, 100, 4096, 1234567890123, u64::MAX] {
        assert_eq!(parse_decimal(&decimal_string(n)), Some(n));
    }
}

#[test]
fn float_numeral_syntax() {
    let accepted = ["0", "12", "1.", ".5", "1.25", "1e5", "1E-5", "+3.0e+2", "-7", "inf", "-Infinity", "nan", "INF"];
    let refused = ["", "+", "-", ".", "e", "1e", "1e+", "1.2.3", "1 ", "0x10", "in", "infinit", "1,5", "--1", "1e5.0"];
    for text in accepted {
        assert!(is_float_numeral(&String::from(text)), "{}", text);
        assert!(text.parse::<f32>().is_ok(), "{}", text);
    }
    for text in refused {
        assert!(!is_float_numeral(&String::from(text)), "{}", text);
        assert!(text.parse::<f32>().is_err(), "{}", text);
    }
}
