use clear_codex::text::{
    chars_of, concat_str, contains_str, decimal_string, first_nonblank, str_eq, text_less,
    to_ascii_lowercase, white_space,
};

#[test]
fn first_nonblank_trims_like_lines_and_trim() {
    assert_eq!(first_nonblank("  a b \r\nc"), Some("a b".to_string()));
    assert_eq!(first_nonblank("\n\n\t x\n"), Some("x".to_string()));
    assert_eq!(first_nonblank("\u{3000}\u{a0}y\u{2028}"), Some("y".to_string()));
    assert_eq!(first_nonblank(" \r\n \n"), None);
    assert_eq!(first_nonblank(""), None);
    for s in ["a\r\nb", "  \n  z  ", "\u{85}q", "\r\r\n w"] {
        let expected = s.lines().map(str::trim).find(|l| !l.is_empty()).map(|l| l.to_string());
        assert_eq!(first_nonblank(s), expected, "{s:?}");
    }
}

#[test]
fn white_space_matches_std() {
    for c in ['\t', '\n', '\u{b}', '\u{c}', '\r', ' ', '\u{85}', '\u{a0}', '\u{1680}', '\u{2000}',
        '\u{200a}', '\u{2028}', '\u{2029}', '\u{202f}', '\u{205f}', '\u{3000}', 'a', '\u{200b}', '\u{180e}', '0']
    {
        assert_eq!(white_space(c), c.is_whitespace(), "{c:?}");
    }
}

#[test]
fn decimal_numerals() {
    assert_eq!(decimal_string(0), "0");
    assert_eq!(decimal_string(7), "7");
    assert_eq!(decimal_string(10), "10");
    assert_eq!(decimal_string(4096), "4096");
    assert_eq!(decimal_string(u64::MAX), u64::MAX.to_string());
}

#[test]
fn ordering_follows_str_cmp() {
    let words = ["", "a", "B", "b", "ab", "abc", "é", "z", "Z9", "中"];
    for a in words {
        for b in words {
            assert_eq!(text_less(a, b), a < b, "{a:?} < {b:?}");
        }
    }
}

#[test]
fn substring_search() {
    assert!(contains_str("hello world", "lo w"));
    assert!(contains_str("abc", ""));
    assert!(contains_str("abc", "abc"));
    assert!(!contains_str("abc", "abcd"));
    assert!(!contains_str("aab", "ba"));
}

#[test]
fn lowercase_and_equality() {
    assert_eq!(to_ascii_lowercase("CmD.ÉXE"), "cmd.Éxe");
    assert!(str_eq("abc", "abc"));
    assert!(!str_eq("abc", "abd"));
    assert!(!str_eq("ab", "abc"));
    assert_eq!(concat_str("ab", "cd"), "abcd");
    assert_eq!(chars_of("hé"), vec!['h', 'é']);
}
