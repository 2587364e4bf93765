use deepseek_cli::text::{
    contains_str, is_whitespace, parse_i32, parse_u64, str_equal, str_lt, trim, u64_to_decimal,
};

#[test]
fn decimal_rendering() {
    assert_eq!(u64_to_decimal(0), "0");
    assert_eq!(u64_to_decimal(40002), "40002");
    assert_eq!(u64_to_decimal(u64::MAX), "18446744073709551615");
}

#[test]
fn decimal_parses_back() {
    for n in [0u64, 7, 10, 999, 1_000_000, u64::MAX] {
        assert_eq!(parse_u64(&u64_to_decimal(n)), Some(n));
    }
}

#[test]
fn parse_like_std() {
    for s in ["", "+", "-", "+5", "-5", "12a", "007", "18446744073709551615", "18446744073709551616", " 1"] {
        assert_eq!(parse_u64(s), s.parse::<u64>().ok(), "u64 {:?}", s);
    }
    for s in ["", "+", "-", "-0", "+12", "-2147483648", "2147483647", "2147483648", "-2147483649", "١٢"] {
        assert_eq!(parse_i32(s), s.parse::<i32>().ok(), "i32 {:?}", s);
    }
}

#[test]
fn trim_like_std() {
    for s in ["", "  ", " a b ", "\u{3000}x\u{2029}", "\tabc\n", "abc"] {
        assert_eq!(trim(s), s.trim());
        assert_eq!(trim(&trim(s)), trim(s));
    }
    for c in ['\u{85}', '\u{a0}', 'x', '\u{200b}', '\u{2007}'] {
        assert_eq!(is_whitespace(c), c.is_whitespace());
    }
}

#[test]
fn substring_and_order() {
    assert!(contains_str("request timed out", "timed out"));
    assert!(!contains_str("time out", "timeout"));
    assert!(contains_str("abc", ""));
    assert!(str_equal("扫码成功", "扫码成功"));
    assert!(!str_equal("a", "ab"));
    assert!(str_lt("2024-01-31", "2024-02-01"));
    assert!(!str_lt("b", "a"));
    assert!(!str_lt("a", "a"));
    assert!(str_lt("a", "ab"));
    assert_eq!(str_lt("é", "z"), "é" < "z");
}
