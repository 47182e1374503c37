use pdf_search::chars::{is_numeric, is_whitespace, lowercase, string_of, to_chars};

fn every_char() -> impl Iterator<Item = char> {
    (0u32..=0x10FFFF).filter_map(char::from_u32)
}

#[test]
fn whitespace_is_what_the_standard_library_calls_whitespace() {
    for c in every_char() {
        assert_eq!(is_whitespace(c), c.is_whitespace());
    }
    assert_eq!(every_char().filter(|c| is_whitespace(*c)).count(), 25);
}

#[test]
fn numeric_is_what_the_standard_library_calls_numeric() {
    for c in every_char() {
        assert_eq!(is_numeric(c), c.is_numeric());
    }
    for c in '\u{0000}'..='\u{007F}' {
        assert_eq!(is_numeric(c), c.is_ascii_digit());
    }
    assert!(is_numeric('\u{00B2}') && is_numeric('\u{0663}') && is_numeric('\u{2167}'));
    assert!(!is_numeric('\u{00E9}') && !is_numeric('\u{3000}'));
}

#[test]
fn lowercase_is_the_lowercase_of_the_standard_library() {
    for c in every_char() {
        assert_eq!(lowercase(c), c.to_lowercase().collect::<Vec<char>>());
    }
    for c in '\u{0000}'..='\u{007F}' {
        assert_eq!(lowercase(c), vec![c.to_ascii_lowercase()]);
    }
    assert_eq!(lowercase('Q'), vec!['q']);
    assert_eq!(lowercase('\u{00C9}'), vec!['\u{00E9}']);
    assert_eq!(lowercase('\u{0130}'), vec!['i', '\u{0307}']);
    assert_eq!(lowercase('\u{03A3}'), vec!['\u{03C3}']);
}

#[test]
fn strings_and_characters_convert_into_each_other() {
    let chars = to_chars("a\u{00E9}\u{65E5}z");
    assert_eq!(chars, vec!['a', '\u{00E9}', '\u{65E5}', 'z']);
    assert_eq!(string_of(&chars, 0, 4), "a\u{00E9}\u{65E5}z");
    assert_eq!(string_of(&chars, 1, 3), "\u{00E9}\u{65E5}");
    assert_eq!(string_of(&chars, 2, 2), "");
    assert!(to_chars("").is_empty());
}
