use placeholder::config::{port, DEFAULT_PORT};
use placeholder::text::{format_unsigned, parse_unsigned};

#[test]
fn parse_unsigned_reads_up_to_the_limit() {
    assert_eq!(parse_unsigned("0", 0), Some(0));
    assert_eq!(parse_unsigned("1", 0), None);
    assert_eq!(parse_unsigned("65535", 65535), Some(65535));
    assert_eq!(parse_unsigned("65536", 65535), None);
    assert_eq!(parse_unsigned("18446744073709551615", u64::MAX), Some(u64::MAX));
    assert_eq!(parse_unsigned("18446744073709551616", u64::MAX), None);
    assert_eq!(parse_unsigned("000018446744073709551615", u64::MAX), Some(u64::MAX));
    assert_eq!(parse_unsigned("+42", 100), Some(42));
}

#[test]
fn parse_unsigned_turns_other_text_away() {
    for text in ["", "+", "-5", "+-5", "++5", "5+", "4 2", "4e2", "forty", "\u{ff11}"] {
        assert_eq!(parse_unsigned(text, u64::MAX), None);
    }
    // A number over the limit is turned away before the rest is looked at,
    // and so is one that ends in something else.
    assert_eq!(parse_unsigned("99x", 10), None);
    assert_eq!(parse_unsigned("9x", 10), None);
}

#[test]
fn parse_unsigned_agrees_with_the_standard_parser() {
    for text in ["0", "+0", "-0", "12345", "0012", "18446744073709551615", "18446744073709551616", "", "+", "1 "] {
        assert_eq!(parse_unsigned(text, u64::MAX), text.parse::<u64>().ok());
    }
}

#[test]
fn format_unsigned_writes_decimal() {
    assert_eq!(format_unsigned(0), "0");
    assert_eq!(format_unsigned(7), "7");
    assert_eq!(format_unsigned(10), "10");
    assert_eq!(format_unsigned(255), "255");
    assert_eq!(format_unsigned(1000), "1000");
    assert_eq!(format_unsigned(9_876_543_210), "9876543210");
    assert_eq!(format_unsigned(u64::MAX), "18446744073709551615");
}

#[test]
fn format_and_parse_undo_each_other() {
    for n in [0u64, 1, 9, 10, 99, 100, 4096, 65535, 1 << 40, u64::MAX] {
        assert_eq!(parse_unsigned(&format_unsigned(n), u64::MAX), Some(n));
        assert_eq!(format_unsigned(n), format!("{}", n));
    }
}

#[test]
fn port_defaults_to_8000() {
    assert_eq!(DEFAULT_PORT, 8000);
    assert_eq!(port(None), 8000);
    assert_eq!(port(Some("")), 8000);
    assert_eq!(port(Some("http")), 8000);
    assert_eq!(port(Some("65536")), 8000);
    assert_eq!(port(Some("-1")), 8000);
    assert_eq!(port(Some(" 80")), 8000);
}

#[test]
fn port_takes_a_number() {
    assert_eq!(port(Some("80")), 80);
    assert_eq!(port(Some("0")), 0);
    assert_eq!(port(Some("65535")), 65535);
    assert_eq!(port(Some("+8080")), 8080);
    assert_eq!(port(Some("0008001")), 8001);
}
