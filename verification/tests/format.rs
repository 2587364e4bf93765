use deepseek_cli::usage::{format_number, format_tokens};

#[test]
fn test_format_tokens() {
    assert_eq!(format_tokens(0), "0");
    assert_eq!(format_tokens(500), "500");
    assert_eq!(format_tokens(1_500), "1.5K");
    assert_eq!(format_tokens(1_234_567), "1.23M");
    assert_eq!(format_tokens(1_234_567_890), "1.23B");
}

#[test]
fn test_format_number() {
    assert_eq!(format_number(0), "0");
    assert_eq!(format_number(500), "500");
    assert_eq!(format_number(1_500), "1500");
    assert_eq!(format_number(2_782), "2782");
    assert_eq!(format_number(275_649_934), "275.65M");
}

/// The display rule written directly with floating-point division and
/// `{:.p}` formatting.
fn float_tokens(n: u64) -> String {
    if n >= 1_000_000_000 {
        format!("{:.2}B", n as f64 / 1_000_000_000.0)
    } else if n >= 1_000_000 {
        format!("{:.2}M", n as f64 / 1_000_000.0)
    } else if n >= 1_000 {
        format!("{:.1}K", n as f64 / 1_000.0)
    } else {
        n.to_string()
    }
}

fn float_number(n: u64) -> String {
    if n >= 1_000_000 {
        format!("{:.2}M", n as f64 / 1_000_000.0)
    } else {
        n.to_string()
    }
}

#[test]
fn format_ties_round_to_even() {
    assert_eq!(format_tokens(1_250), "1.2K");
    assert_eq!(format_tokens(1_750), "1.8K");
    assert_eq!(format_tokens(1_050), "1.1K");
    assert_eq!(format_tokens(1_005_000), "1.00M");
    assert_eq!(format_tokens(2_125_000), "2.12M");
    assert_eq!(format_number(2_125_000), "2.12M");
}

#[test]
fn format_tokens_agrees_with_float_division() {
    let mut n: u64 = 0;
    while n < 3_000_000 {
        assert_eq!(format_tokens(n), float_tokens(n), "n = {}", n);
        n += 1;
    }
    let mut k: u64 = 1;
    while k < 200_000 {
        let n = k.wrapping_mul(0x9E37_79B9_7F4A_7C15) % 100_000_000_000;
        assert_eq!(format_tokens(n), float_tokens(n), "n = {}", n);
        k += 1;
    }
    for n in [
        u64::MAX,
        u64::MAX - 1024,
        u64::MAX - 2048,
        1u64 << 53,
        (1u64 << 53) + 1,
        (1u64 << 54) + 2,
        (1u64 << 54) + 6,
        18_446_744_073_709_000_000,
        999_999_999,
        1_000_000_000,
        1_234_565_000,
    ] {
        assert_eq!(format_tokens(n), float_tokens(n), "n = {}", n);
    }
}

#[test]
fn format_number_agrees_with_float_division() {
    let mut k: u64 = 1;
    while k < 300_000 {
        let n = k.wrapping_mul(0x9E37_79B9_7F4A_7C15);
        assert_eq!(format_number(n), float_number(n), "n = {}", n);
        let m = n % 10_000_000_000;
        assert_eq!(format_number(m), float_number(m), "n = {}", m);
        k += 1;
    }
    let mut n: u64 = 999_000;
    while n < 3_000_000 {
        assert_eq!(format_number(n), float_number(n), "n = {}", n);
        n += 1;
    }
}
