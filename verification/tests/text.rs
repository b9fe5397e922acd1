use annex_archiver::text::{
    append_decimal, char_is_whitespace, chars_of, contains_text, decimal_text, is_empty_text,
    join_texts, same_text, split_whitespace, starts_with, terminated_fields, trim_bounds, trimmed,
};

#[test]
fn whitespace_is_what_std_calls_whitespace() {
    for code in 0..0x11_0000u32 {
        if let Some(c) = char::from_u32(code) {
            assert_eq!(char_is_whitespace(c), c.is_whitespace(), "U+{:04X}", code);
        }
    }
}

#[test]
fn trimming_matches_std() {
    for s in ["", " ", "a", " a ", "\t\n a b \u{3000}", "\u{85}x\u{a0}", "a\0 "] {
        assert_eq!(trimmed(s), s.trim());
    }
}

#[test]
fn fields_match_std_split_terminator() {
    for s in ["", "a", "a\0", "a\0b", "a\0b\0", "\0", "\0\0", "a\0\0b", " a\0b \n", "\0a"] {
        let expected: Vec<String> = s.trim().split_terminator('\0').map(String::from).collect();
        assert_eq!(terminated_fields(s, '\0'), expected, "{:?}", s);
    }
}

#[test]
fn words_match_std_split_whitespace() {
    for s in ["", "a", " a", "a ", "a b", "a\n\nb\tc ", "\u{2003}x\u{2003}y"] {
        let expected: Vec<String> = s.split_whitespace().map(String::from).collect();
        assert_eq!(split_whitespace(s), expected, "{:?}", s);
    }
}

#[test]
fn decimal_matches_std() {
    for n in [0u128, 1, 9, 10, 11, 99, 100, 209, 1_000_000, u64::MAX as u128, u128::MAX] {
        assert_eq!(decimal_text(n), n.to_string());
    }
}

#[test]
fn prefix_test() {
    assert!(starts_with("abc", ""));
    assert!(starts_with("abc", "ab"));
    assert!(starts_with("abc", "abc"));
    assert!(!starts_with("abc", "abcd"));
    assert!(!starts_with("abc", "b"));
    assert!(starts_with("äbc", "ä"));
}

#[test]
fn characters_and_bounds() {
    let chars = chars_of(" h\u{e9}llo \n");
    assert_eq!(chars, vec![' ', 'h', '\u{e9}', 'l', 'l', 'o', ' ', '\n']);
    assert_eq!(trim_bounds(&chars), (1, 6));
    assert_eq!(trim_bounds(&chars_of("  ")), (2, 2));
    assert_eq!(trim_bounds(&Vec::new()), (0, 0));
}

#[test]
fn small_helpers() {
    assert!(is_empty_text(""));
    assert!(!is_empty_text(" "));
    assert!(same_text("ab", "ab"));
    assert!(!same_text("ab", "abc"));
    let mut text = String::from("n=");
    append_decimal(&mut text, 1_024);
    assert_eq!(text, "n=1024");
}

#[test]
fn joining() {
    let parts: Vec<String> = vec!["a".into(), "".into(), "c".into()];
    assert_eq!(join_texts(&parts, " - "), "a -  - c");
    assert_eq!(join_texts(&Vec::new(), ","), "");
    assert_eq!(join_texts(&vec!["x".to_string()], ","), "x");
    assert!(contains_text(&parts, &"c".to_string()));
    assert!(!contains_text(&parts, &"b".to_string()));
}
