use media_forge::text::{
    decimal_string, eq_ignore_ascii_case, join_strings, parse_unsigned, trim, zero_padded_string,
};

#[test]
fn decimal_and_zero_padding() {
    assert_eq!(decimal_string(0), "0");
    assert_eq!(decimal_string(1234567890), "1234567890");
    assert_eq!(zero_padded_string(7, 3), "007");
    assert_eq!(zero_padded_string(1234, 3), "1234");
}

#[test]
fn unsigned_parsing_matches_std() {
    for s in ["0", "42", "+42", "", "+", "-1", "4 2", "4294967295", "4294967296", "18446744073709551615", "18446744073709551616"] {
        assert_eq!(parse_unsigned(s, u32::MAX as u64), s.parse::<u32>().ok().map(|v| v as u64), "{s}");
        assert_eq!(parse_unsigned(s, u64::MAX), s.parse::<u64>().ok(), "{s}");
    }
}

#[test]
fn trim_matches_std() {
    for s in ["  DELETE \n", "\u{3000}x\u{2003}", "", "   ", "a b", "\u{85}z"] {
        assert_eq!(trim(s), s.trim());
    }
}

#[test]
fn ascii_case_insensitive_equality() {
    assert!(eq_ignore_ascii_case("CbZ", "cbz"));
    assert!(!eq_ignore_ascii_case("zip", "zipx"));
    assert!(!eq_ignore_ascii_case("Ä", "ä"));
}

#[test]
fn join_with_separator() {
    let parts = vec!["a".to_string(), "b".to_string(), "c".to_string()];
    assert_eq!(join_strings(&parts, ":"), "a:b:c");
    assert_eq!(join_strings(&Vec::new(), ":"), "");
}
