use macbinbundler::text::{
    char_is_whitespace, split_lines, split_words, str_contains, str_equal, str_starts_with,
    to_chars, to_text, to_text_from,
};

fn chars(s: &str) -> Vec<char> {
    s.chars().collect()
}

fn lines_of(s: &str) -> Vec<String> {
    split_lines(&chars(s)).iter().map(|l| l.iter().collect()).collect()
}

fn words_of(s: &str) -> Vec<String> {
    split_words(&chars(s)).iter().map(|l| l.iter().collect()).collect()
}

#[test]
fn chars_and_text_round_trip() {
    assert_eq!(to_chars("päth/ü"), chars("päth/ü"));
    assert_eq!(to_text(&chars("päth/ü")), "päth/ü");
    assert_eq!(to_text_from(&chars("@rpath/libA.dylib"), 7), "libA.dylib");
    assert_eq!(to_text_from(&chars("abc"), 3), "");
}

#[test]
fn whitespace_is_unicode_white_space() {
    for c in [' ', '\t', '\n', '\r', '\u{0B}', '\u{0C}', '\u{85}', '\u{A0}', '\u{1680}',
        '\u{2000}', '\u{200A}', '\u{2028}', '\u{2029}', '\u{202F}', '\u{205F}', '\u{3000}'] {
        assert!(char_is_whitespace(c));
    }
    for c in ['a', '/', '@', '\u{200B}', '\u{1C}', '\u{0E}', '\u{08}', '\u{FEFF}'] {
        assert!(!char_is_whitespace(c));
    }
}

#[test]
fn whitespace_agrees_with_std_on_every_char() {
    let mut n: u32 = 0;
    while n <= 0x10FFFF {
        if let Some(c) = char::from_u32(n) {
            assert_eq!(char_is_whitespace(c), c.is_whitespace());
        }
        n += 1;
    }
}

#[test]
fn lines_end_at_line_feeds() {
    assert_eq!(lines_of(""), Vec::<String>::new());
    assert_eq!(lines_of("a"), vec!["a"]);
    assert_eq!(lines_of("a\n"), vec!["a"]);
    assert_eq!(lines_of("\n"), vec![""]);
    assert_eq!(lines_of("a\n\nb"), vec!["a", "", "b"]);
    assert_eq!(lines_of("a\n\n"), vec!["a", ""]);
}

#[test]
fn lines_drop_a_carriage_return_before_the_line_feed_only() {
    assert_eq!(lines_of("foo\nbar\n\r\nbaz\r"), vec!["foo", "bar", "", "baz\r"]);
    assert_eq!(lines_of("a\r\r\nb"), vec!["a\r", "b"]);
}

#[test]
fn lines_agree_with_std() {
    for s in ["", "x", "x\n", "\n\n", "a\r\nb\r\n", "a\rb\n", "\r", "\r\n", "p q\n r\n\n s"] {
        let expected: Vec<String> = s.lines().map(|l| l.to_string()).collect();
        assert_eq!(lines_of(s), expected);
    }
}

#[test]
fn words_are_runs_without_whitespace() {
    assert_eq!(words_of(""), Vec::<String>::new());
    assert_eq!(words_of("   \t "), Vec::<String>::new());
    assert_eq!(words_of("path @loader_path/libs (offset 12)"),
        vec!["path", "@loader_path/libs", "(offset", "12)"]);
    assert_eq!(words_of("  \tname\u{A0}x  "), vec!["name", "x"]);
}

#[test]
fn words_agree_with_std() {
    for s in ["", " a", "a ", " a  b\tc\n", "\u{3000}x\u{2003}y", "one"] {
        let expected: Vec<String> = s.split_whitespace().map(|l| l.to_string()).collect();
        assert_eq!(words_of(s), expected);
    }
}

#[test]
fn prefix_infix_and_equality() {
    assert!(str_starts_with("@rpath/lib", "@rpath"));
    assert!(str_starts_with("abc", ""));
    assert!(str_starts_with("abc", "abc"));
    assert!(!str_starts_with("ab", "abc"));
    assert!(!str_starts_with("xabc", "abc"));
    assert!(str_contains("cmd LC_RPATH", "LC_RPATH"));
    assert!(str_contains("abc", ""));
    assert!(str_contains("", ""));
    assert!(str_contains("aab", "ab"));
    assert!(!str_contains("LC_RPAT", "LC_RPATH"));
    assert!(!str_contains("", "a"));
    assert!(str_equal("abc", "abc"));
    assert!(!str_equal("abc", "abd"));
    assert!(!str_equal("abc", "ab"));
    assert!(str_equal("", ""));
}
