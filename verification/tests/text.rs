use sakura_repl::text::{
    char_utf8_width, collapse_ws, contains_char, count_lines, ends_with, is_whitespace,
    parse_u32_str, push_decimal, push_decimal_signed, split_once_colon_space, trim_str,
};

#[test]
fn trimming() {
    assert_eq!(trim_str("  a b \n"), "a b");
    assert_eq!(trim_str("\t\r\n"), "");
    assert_eq!(trim_str("x"), "x");
    assert_eq!(trim_str("\u{3000}x\u{a0}"), "x");
}

#[test]
fn whitespace_matches_std() {
    for c in [' ', '\t', '\n', '\r', '\u{b}', '\u{c}', '\u{85}', '\u{a0}', '\u{2028}', '\u{3000}', 'a', '_', '\u{200b}'] {
        assert_eq!(is_whitespace(c), c.is_whitespace(), "{:?}", c);
    }
}

#[test]
fn collapsing_whitespace() {
    assert_eq!(collapse_ws("  (dcl \n\t GetHead)  "), "(dcl GetHead)");
    assert_eq!(collapse_ws(""), "");
    assert_eq!(collapse_ws("   "), "");
    assert_eq!(collapse_ws("a"), "a");
}

#[test]
fn counting_lines_like_std() {
    for s in ["", "a", "a\n", "a\nb", "a\n\nb\n", "\n", "a\r\nb"] {
        assert_eq!(count_lines(s), s.lines().count(), "{:?}", s);
    }
}

#[test]
fn parsing_counts() {
    assert_eq!(parse_u32_str("42"), Some(42));
    assert_eq!(parse_u32_str("+7"), Some(7));
    assert_eq!(parse_u32_str("4294967295"), Some(u32::MAX));
    assert_eq!(parse_u32_str("4294967296"), None);
    assert_eq!(parse_u32_str("-1"), None);
    assert_eq!(parse_u32_str(""), None);
    assert_eq!(parse_u32_str("+"), None);
    assert_eq!(parse_u32_str("1a"), None);
}

#[test]
fn decimals() {
    let mut s = String::new();
    push_decimal(&mut s, 0);
    s.push(' ');
    push_decimal(&mut s, 1234567890);
    s.push(' ');
    push_decimal_signed(&mut s, -42);
    s.push(' ');
    push_decimal_signed(&mut s, i64::MIN);
    assert_eq!(s, "0 1234567890 -42 -9223372036854775808");
}

#[test]
fn splitting_at_colon_space() {
    assert_eq!(
        split_once_colon_space("TypeError: bad: worse"),
        Some(("TypeError".to_string(), "bad: worse".to_string()))
    );
    assert_eq!(split_once_colon_space("no separator"), None);
    assert_eq!(split_once_colon_space("a:b"), None);
    assert_eq!(split_once_colon_space(": x"), Some((String::new(), "x".to_string())));
}

#[test]
fn small_helpers() {
    assert!(ends_with("x.sock", ".sock"));
    assert!(!ends_with("sock", ".sock"));
    assert!(contains_char("a/b", '/'));
    assert!(!contains_char("ab", '/'));
    for c in ['a', 'é', '中', '😀'] {
        assert_eq!(char_utf8_width(c), c.len_utf8());
    }
}
