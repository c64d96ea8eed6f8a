use fundoc::text::{
    count_char, ends_with, find_sub, replace_all, rfind_sub, split_lines, starts_with, to_chars,
    to_string, trim_chars, trim_end_chars, trim_start_chars,
};

fn chars(s: &str) -> Vec<char> {
    s.chars().collect()
}

#[test]
fn strings_and_characters_convert_both_ways() {
    assert_eq!(to_chars("héllo"), chars("héllo"));
    assert_eq!(to_string(&chars("héllo")), "héllo");
    assert_eq!(to_chars(""), chars(""));
}

#[test]
fn trimming_goes_by_unicode_whitespace() {
    assert_eq!(trim_chars(&chars(" \t\r\n x y \u{3000}\u{a0}\u{85}")), chars("x y"));
    assert_eq!(trim_start_chars(&chars("\u{2003} x ")), chars("x "));
    assert_eq!(trim_end_chars(&chars(" x \u{2028}")), chars(" x"));
    assert_eq!(trim_chars(&chars("\u{200b}x")), chars("\u{200b}x"));
    assert_eq!(trim_chars(&chars("   ")), chars(""));
    for c in ['\u{9}', '\u{b}', '\u{c}', '\u{1680}', '\u{2000}', '\u{200a}', '\u{2029}', '\u{202f}', '\u{205f}'] {
        assert!(c.is_whitespace());
        assert_eq!(trim_chars(&vec![c, 'x', c]), chars("x"));
    }
    for c in ['\u{8}', '\u{e}', '\u{1f}', '\u{180e}', '\u{200b}', '\u{2060}', '\u{feff}'] {
        assert!(!c.is_whitespace());
        assert_eq!(trim_chars(&vec![c]), vec![c]);
    }
}

#[test]
fn lines_end_at_line_feeds() {
    let lines = |s: &str| split_lines(&chars(s));
    let expect = |s: &str| s.lines().map(chars).collect::<Vec<_>>();
    for text in ["", "a", "a\n", "a\r\nb\n\nc", "a\r", "\n", "\n\n", "\r\n", "a\rb\n", "a\n\r", "a\r\r\nb"] {
        assert_eq!(lines(text), expect(text));
    }
    assert_eq!(lines("a\r\nb\n\nc"), vec![chars("a"), chars("b"), chars(""), chars("c")]);
    assert_eq!(lines("a\r"), vec![chars("a\r")]);
}

#[test]
fn prefixes_and_suffixes_are_recognised() {
    assert!(starts_with(&chars("/** x"), &chars("/**")));
    assert!(!starts_with(&chars("/*"), &chars("/**")));
    assert!(starts_with(&chars("x"), &chars("")));
    assert!(ends_with(&chars("x */"), &chars("*/")));
    assert!(!ends_with(&chars("x *"), &chars("*/")));
}

#[test]
fn patterns_are_found_and_replaced() {
    assert_eq!(find_sub(&chars("abcabc"), &chars("bc")), Some(1));
    assert_eq!(rfind_sub(&chars("abcabc"), &chars("bc")), Some(4));
    assert_eq!(find_sub(&chars("abc"), &chars("x")), None);
    assert_eq!(rfind_sub(&chars("abc"), &chars("")), Some(3));
    assert_eq!(replace_all(&chars("a-b-c"), &chars("-"), &chars("+-")), chars("a+-b+-c"));
    assert_eq!(replace_all(&chars("aaaa"), &chars("aa"), &chars("a")), chars("aa"));
    assert_eq!(count_char(&chars("a\nb\nc\n"), '\n', 1, 6), 3);
    for (text, pattern, with) in [
        ("abc", "", "-"),
        ("", "", "-"),
        ("é", "", "xy"),
        ("abcabc", "bc", ""),
        ("aaa", "aa", "b"),
        ("{{ #p x }}", "}}", ""),
        ("ab", "abc", "x"),
    ] {
        assert_eq!(
            replace_all(&chars(text), &chars(pattern), &chars(with)),
            chars(&text.replace(pattern, with))
        );
    }
}
