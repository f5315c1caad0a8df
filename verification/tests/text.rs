use androiptv::text::{eq_ignore_ascii_case, parse_i64, parse_u16, trim_str};

#[test]
fn integers_parse_like_std() {
    for t in ["0", "-0", "+7", "-9223372036854775808", "9223372036854775807", "0012"] {
        assert_eq!(parse_i64(t), t.parse::<i64>().ok(), "{t}");
    }
    for t in ["", "+", "-", "9223372036854775808", "-9223372036854775809", "1.5", " 1", "1 ", "--1", "+-1"] {
        assert_eq!(parse_i64(t), None, "{t:?}");
        assert_eq!(t.parse::<i64>().ok(), None, "{t:?}");
    }
    for t in ["0", "65535", "+1", "08080"] {
        assert_eq!(parse_u16(t), t.parse::<u16>().ok(), "{t}");
    }
    for t in ["65536", "-1", "-0", "", "8o"] {
        assert_eq!(parse_u16(t), None, "{t:?}");
    }
}

#[test]
fn trimming_uses_unicode_whitespace() {
    assert_eq!(trim_str(" \t\r\n a b \u{00A0}\u{3000}"), "a b");
    assert_eq!(trim_str("\u{200B}x"), "\u{200B}x");
    assert_eq!(trim_str(""), "");
    assert_eq!(trim_str("   "), "");
}

#[test]
fn ascii_case_comparison() {
    assert!(eq_ignore_ascii_case("TrUe", "true"));
    assert!(!eq_ignore_ascii_case("trüe", "TRÜE"));
    assert!(!eq_ignore_ascii_case("true", "true "));
}
