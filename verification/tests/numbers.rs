use quic_perf::decimal::{decimal, parse_unsigned, NumberError};
use quic_perf::text::{join, split};

#[test]
fn numbers_are_read_like_the_standard_library_reads_them() {
    let texts = [
        "0", "7", "42", "+42", "0042", "65535", "65536", "70000", "", "+", "-", "-1", "++1", "1+",
        " 1", "1 ", "12a", "a", "99999a", "6553a", "655360", "\u{663}", "4001", "+0",
        "00000000000000000000000001", "18446744073709551616",
    ];
    for text in texts {
        let expected = text.parse::<u16>().ok().map(|n| n as u64);
        assert_eq!(parse_unsigned(text, u16::MAX as u64).ok(), expected, "{text}");
        let expected = text.parse::<u64>().ok();
        assert_eq!(parse_unsigned(text, u64::MAX).ok(), expected, "{text}");
    }
}

#[test]
fn the_first_bad_character_decides_the_error() {
    assert_eq!(parse_unsigned("", 10), Err(NumberError::Empty));
    assert_eq!(parse_unsigned("+", 10), Err(NumberError::InvalidDigit));
    assert_eq!(parse_unsigned("-3", 10), Err(NumberError::InvalidDigit));
    assert_eq!(parse_unsigned("1x", 10), Err(NumberError::InvalidDigit));
    assert_eq!(parse_unsigned("11", 10), Err(NumberError::PosOverflow));
    assert_eq!(parse_unsigned("11x", 10), Err(NumberError::PosOverflow));
    assert_eq!(parse_unsigned("10x", 10), Err(NumberError::InvalidDigit));
    assert_eq!(parse_unsigned("10", 10), Ok(10));
}

#[test]
fn the_largest_number_is_read() {
    assert_eq!(parse_unsigned("18446744073709551615", u64::MAX), Ok(u64::MAX));
    assert_eq!(parse_unsigned("18446744073709551616", u64::MAX), Err(NumberError::PosOverflow));
}

#[test]
fn shortest_text_is_read_back() {
    for n in [0, 1, 9, 10, 11, 99, 100, 4001, 65535, 1_073_741_824, u64::MAX] {
        assert_eq!(decimal(n), n.to_string());
        assert_eq!(parse_unsigned(&decimal(n), u64::MAX), Ok(n));
    }
}

#[test]
fn plus_sign_is_ignored() {
    for n in [0, 5, 10, u64::MAX] {
        assert_eq!(parse_unsigned(&format!("+{n}"), u64::MAX), Ok(n));
    }
}

#[test]
fn text_is_cut_at_every_separator() {
    for text in ["", "/", "a", "/a", "a/", "//", "/ip4/1.2.3.4/udp/4001", "\u{e9}/\u{4e2d}\u{6587}/x"] {
        assert_eq!(split(text, '/'), text.split('/').collect::<Vec<&str>>());
    }
}

#[test]
fn texts_are_joined_with_a_separator() {
    assert_eq!(join(&vec![], ", "), "");
    assert_eq!(join(&vec!["a".to_string()], ", "), "a");
    let three = vec!["a".to_string(), String::new(), "c".to_string()];
    assert_eq!(join(&three, ", "), "a, , c");
}
