use svnguitool::text::{
    chars_of, i64_to_string, parse_i64_chars, parse_usize_chars, split_lines, trim,
    usize_to_string,
};

fn p(s: &str) -> Option<i64> {
    parse_i64_chars(&chars_of(s))
}

#[test]
fn trims_unicode_whitespace() {
    assert_eq!(trim("  a b \t\n"), "a b");
    assert_eq!(trim("\u{3000}x\u{a0}"), "x");
    assert_eq!(trim(" \r\n "), "");
    assert_eq!(trim(""), "");
}

#[test]
fn splits_lines_like_str_lines() {
    assert_eq!(split_lines("a\nb"), vec!["a", "b"]);
    assert_eq!(split_lines("a\nb\n"), vec!["a", "b"]);
    assert_eq!(split_lines("a\r\nb\r"), vec!["a", "b\r"]);
    assert_eq!(split_lines("\n"), vec![""]);
    assert!(split_lines("").is_empty());
    assert_eq!(split_lines("\n\nx"), vec!["", "", "x"]);
}

#[test]
fn parses_i64_like_from_str() {
    assert_eq!(p("42"), Some(42));
    assert_eq!(p("+7"), Some(7));
    assert_eq!(p("-0"), Some(0));
    assert_eq!(p("-9223372036854775808"), Some(i64::MIN));
    assert_eq!(p("9223372036854775807"), Some(i64::MAX));
    assert_eq!(p("9223372036854775808"), None);
    assert_eq!(p("-9223372036854775809"), None);
    assert_eq!(p("+"), None);
    assert_eq!(p("-"), None);
    assert_eq!(p(""), None);
    assert_eq!(p("1 2"), None);
    assert_eq!(p("١"), None);
    assert_eq!(p("99999999999999999999999x"), None);
}

#[test]
fn parses_usize_like_from_str() {
    assert_eq!(parse_usize_chars(&chars_of("300")), Some(300));
    assert_eq!(parse_usize_chars(&chars_of("+3")), Some(3));
    assert_eq!(parse_usize_chars(&chars_of("-3")), None);
    assert_eq!(parse_usize_chars(&chars_of("99999999999999999999999")), None);
}

#[test]
fn prints_decimal_numbers() {
    assert_eq!(i64_to_string(0), "0");
    assert_eq!(i64_to_string(-120), "-120");
    assert_eq!(i64_to_string(i64::MIN), i64::MIN.to_string());
    assert_eq!(i64_to_string(i64::MAX), i64::MAX.to_string());
    assert_eq!(usize_to_string(500), "500");
}
