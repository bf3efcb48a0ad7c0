use cargo_overlay_registry::text;
use cargo_overlay_registry::text::{
    chars_of, contains, ends_with, find, join, join_lines, parse_number, rfind,
    split_lines, split_words, starts_with, string_of, strip_leading, to_decimal, to_hex, trim,
    white_space,
};

fn strings(texts: &[&str]) -> Vec<String> {
    texts.iter().map(|s| s.to_string()).collect()
}

#[test]
fn white_space_is_that_of_unicode() {
    for n in 0..=0x10ffff {
        if let Some(c) = char::from_u32(n) {
            assert_eq!(white_space(c), c.is_whitespace());
        }
    }
}

#[test]
fn lines_are_split_at_line_ends() {
    for text in ["", "\n", "a", "a\n", "a\n\nb", "a\r\nb\r", "\r\n", "a\r\r\n"] {
        let wanted: Vec<&str> = text.lines().collect();
        assert_eq!(split_lines(text), wanted);
    }
}

#[test]
fn lines_read_back() {
    let lines = strings(&["one", "", "three"]);
    assert_eq!(join_lines(&lines), "one\n\nthree\n");
    assert_eq!(split_lines(&join_lines(&lines)), lines);
}

#[test]
fn words_are_split_at_white_space() {
    for text in ["", " ", "GET / HTTP/1.1\r\n", "\u{3000}a\tb  c", "abc"] {
        let wanted: Vec<&str> = text.split_whitespace().collect();
        assert_eq!(split_words(text), wanted);
    }
}

#[test]
fn texts_are_trimmed() {
    for text in ["", "  ", " a b ", "\u{85}x\u{a0}", "x"] {
        assert_eq!(string_of(trim(&chars_of(text))), text.trim());
    }
    assert_eq!(string_of(strip_leading(&chars_of("//a/b"), '/')), "a/b");
}

#[test]
fn texts_are_searched() {
    let text = chars_of("a:b:c");
    assert_eq!(find(&text, ':'), 1);
    assert_eq!(find(&text, 'x'), 5);
    assert_eq!(rfind(&text, ':'), Some(3));
    assert_eq!(rfind(&text, 'x'), None);
    assert!(starts_with(&text, &chars_of("a:")));
    assert!(!starts_with(&text, &chars_of("b")));
    assert!(ends_with(&text, &chars_of(":c")));
    assert!(!ends_with(&text, &chars_of("a:b:c:d")));
    assert!(contains(&text, &chars_of(":b:")));
    assert!(contains(&text, &[]));
    assert!(!contains(&text, &chars_of("ab")));
}

#[test]
fn numbers_read_back() {
    for n in [0, 7, 10, 443, 65535, u64::MAX] {
        assert_eq!(to_decimal(n), n.to_string());
        assert_eq!(parse_number(&chars_of(&to_decimal(n)), u64::MAX), Some(n));
    }
    for text in ["", "+", "-1", " 1", "1x", "18446744073709551616"] {
        assert_eq!(parse_number(&chars_of(text), u64::MAX), None);
    }
    assert_eq!(parse_number(&chars_of("+007"), 7), Some(7));
    assert_eq!(parse_number(&chars_of("8"), 7), None);
}

#[test]
fn parts_are_put_together() {
    assert_eq!(text::concat("a", "b"), "ab");
    assert_eq!(text::concat3("a", "", "c"), "ac");
    assert_eq!(join(&strings(&["a", "b"]), "; "), "a; b");
    assert_eq!(join(&[], "; "), "");
    assert_eq!(to_hex(&[0, 15, 16, 255]), "000f10ff");
}
