use http_request::text::{
    char_is_whitespace, next_line, next_token, scan, string_of, to_chars, trim_range, CharClass,
};

#[test]
fn whitespace_is_what_the_standard_library_calls_whitespace() {
    for n in 0u32..=0x10FFFF {
        if let Some(c) = char::from_u32(n) {
            assert_eq!(char_is_whitespace(c), c.is_whitespace(), "U+{:04X}", n);
        }
    }
}

#[test]
fn classes_hold_their_characters() {
    assert!(CharClass::Whitespace.contains(' '));
    assert!(!CharClass::Whitespace.contains('a'));
    assert!(CharClass::NonWhitespace.contains('a'));
    assert!(!CharClass::NonWhitespace.contains('\t'));
    assert!(CharClass::Except(':').contains('a'));
    assert!(!CharClass::Except(':').contains(':'));
}

#[test]
fn scan_stops_at_the_first_character_outside_the_class() {
    let text = to_chars("  ab: c");
    assert_eq!(scan(&text, 0, 7, CharClass::Whitespace), 2);
    assert_eq!(scan(&text, 2, 7, CharClass::NonWhitespace), 5);
    assert_eq!(scan(&text, 0, 7, CharClass::Except(':')), 4);
    assert_eq!(scan(&text, 0, 3, CharClass::Except(':')), 3);
    assert_eq!(scan(&text, 5, 7, CharClass::Except(':')), 7);
    assert_eq!(scan(&text, 4, 4, CharClass::Whitespace), 4);
}

#[test]
fn next_line_finds_content_and_successor() {
    let text = to_chars("ab\r\ncd\n\r\nef\r");
    assert_eq!(next_line(&text, 0), (2, 4));
    assert_eq!(next_line(&text, 4), (6, 7));
    assert_eq!(next_line(&text, 7), (7, 9));
    assert_eq!(next_line(&text, 9), (12, 12));
    assert_eq!(next_line(&text, 3), (3, 4));
}

#[test]
fn next_token_finds_runs_of_non_whitespace() {
    let text = to_chars("  ab  c ");
    assert_eq!(next_token(&text, 0, 8), Some((2, 4)));
    assert_eq!(next_token(&text, 4, 8), Some((6, 7)));
    assert_eq!(next_token(&text, 7, 8), None);
    assert_eq!(next_token(&text, 3, 3), None);
    assert_eq!(next_token(&text, 0, 3), Some((2, 3)));
}

#[test]
fn trim_range_drops_whitespace_on_both_sides() {
    let text = to_chars(" \ta b \r ");
    assert_eq!(trim_range(&text, 0, 8), (2, 5));
    assert_eq!(trim_range(&text, 2, 5), (2, 5));
    assert_eq!(trim_range(&text, 5, 8), (8, 8));
    assert_eq!(trim_range(&text, 0, 2), (2, 2));
}

#[test]
fn to_chars_and_string_of_copy_characters() {
    let text = to_chars("h\u{e9}llo \u{1f600}!");
    assert_eq!(text, vec!['h', '\u{e9}', 'l', 'l', 'o', ' ', '\u{1f600}', '!']);
    assert_eq!(string_of(&text, 1, 7), "\u{e9}llo \u{1f600}");
    assert_eq!(string_of(&text, 3, 3), "");
    assert_eq!(string_of(&text, 0, 8), "h\u{e9}llo \u{1f600}!");
}
