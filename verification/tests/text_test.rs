use traffic_forward::text::{parse_u64, starts_with, same, split, split_fields, split_lines, trim};

#[test]
fn substrings() {
    assert!(starts_with("to:1.2.3.4:80", "to:1.2.3.4:"));
    assert!(!starts_with("to:1.2.3.45:80", "to:1.2.3.4:"));
    assert!(starts_with("abc", ""));
    assert!(!starts_with("", "a"));
    assert!(same("ab", "ab"));
    assert!(!same("ab", "abc"));
}

#[test]
fn decimal_numbers() {
    assert_eq!(parse_u64("0"), Some(0));
    assert_eq!(parse_u64("+42"), Some(42));
    assert_eq!(parse_u64("18446744073709551615"), Some(u64::MAX));
    assert_eq!(parse_u64("18446744073709551616"), None);
    assert_eq!(parse_u64(""), None);
    assert_eq!(parse_u64("+"), None);
    assert_eq!(parse_u64("-1"), None);
    assert_eq!(parse_u64(" 1"), None);
    assert_eq!(parse_u64("1a"), None);
    for s in ["7", "+7", "123456", "x", "99999999999999999999"] {
        assert_eq!(parse_u64(s), s.parse::<u64>().ok());
    }
}

#[test]
fn pieces_and_fields() {
    assert_eq!(split("a::b", ':'), vec!["a", "", "b"]);
    assert_eq!(split("", ':'), vec![""]);
    assert_eq!(split_fields("  1   2 x  "), vec!["1", "2", "x"]);
    assert!(split_fields("    ").is_empty());
    let s = " a  b\tc ";
    let expected: Vec<&str> = s.split(' ').filter(|p| !p.is_empty()).collect();
    assert_eq!(split_fields(s), expected);
}

#[test]
fn trimming() {
    assert_eq!(trim("  12\t\n"), "12");
    assert_eq!(trim("\u{3000}x y\u{a0}"), "x y");
    assert_eq!(trim(" \t "), "");
    for s in ["a", " a b ", "\u{2009}z\u{85}", ""] {
        assert_eq!(trim(s), s.trim());
    }
}

#[test]
fn lines() {
    assert_eq!(split_lines("a\nb\r\nc"), vec!["a", "b", "c"]);
    assert_eq!(split_lines("a\n"), vec!["a"]);
    assert_eq!(split_lines("\n"), vec![""]);
    assert!(split_lines("").is_empty());
    assert_eq!(split_lines("x\r"), vec!["x\r"]);
}
