use trm_omega::text::{
    chars_of, ends_with, has, joined, lines_of, lower_text, number, split_chars, starts_with,
    text_of, trimmed,
};

fn lines(s: &str) -> Vec<String> {
    lines_of(s).into_iter().map(|l| l.into_iter().collect()).collect()
}

#[test]
fn lines_end_at_line_feeds() {
    for s in ["", "a", "a\n", "a\nb", "a\r\nb\r", "\n", "\n\n", "a\r\n\r\nb\n"] {
        let expected: Vec<&str> = s.lines().collect();
        assert_eq!(lines(s), expected);
    }
}

#[test]
fn text_is_trimmed_of_unicode_space() {
    for s in ["", "  ", " a b ", "\u{3000}x\u{a0}\t", "a", "\u{200b}a\u{200b}"] {
        assert_eq!(trimmed(s), s.trim());
    }
}

#[test]
fn capitals_are_lowered_in_ascii_only() {
    assert_eq!(lower_text("AbZ\u{c9}1"), "AbZ\u{c9}1".to_ascii_lowercase());
}

#[test]
fn text_is_split_at_every_separator() {
    for s in ["", ",", "a,b", "a,,b,", "abc"] {
        let got: Vec<String> =
            split_chars(&chars_of(s), ',').into_iter().map(|p| p.into_iter().collect()).collect();
        let expected: Vec<&str> = s.split(',').collect();
        assert_eq!(got, expected);
    }
}

#[test]
fn parts_of_text_are_found() {
    assert!(has("release 12", "release") && has("abc", "") && has("aab", "ab"));
    assert!(!has("ab", "abc") && !has("axb", "ab"));
    assert!(starts_with("abc", "ab") && !starts_with("abc", "bc"));
    assert!(ends_with("abc", "bc") && !ends_with("abc", "ab") && !ends_with("c", "bc"));
}

#[test]
fn text_is_put_together() {
    assert_eq!(joined("ab", "\u{e9}c"), "ab\u{e9}c");
    assert_eq!(text_of(&chars_of("a\u{e9}bc"), 1, 3), "\u{e9}b");
    for n in [0usize, 9, 10, 99, 100, 12_345, usize::MAX] {
        assert_eq!(number(n), n.to_string());
    }
}
