use pdf_search::normalize::is_stripped_char;
use pdf_search::normalize_text;

#[test]
fn normalize_removes_whitespace_and_hyphens() {
    assert_eq!(normalize_text("multi-\nword term"), "multiwordterm");
    assert_eq!(normalize_text(" a\tb\nc\rd "), "abcd");
    assert_eq!(normalize_text("a\u{00A0}b\u{2007}c\u{202F}d"), "abcd");
    assert_eq!(normalize_text("a\u{2009}b"), "ab");
    assert_eq!(normalize_text("a-b\u{00AD}c\u{2010}d\u{2011}e"), "abcde");
}

#[test]
fn normalize_keeps_everything_else_in_order() {
    assert_eq!(normalize_text("Pdf_Search.v2!"), "Pdf_Search.v2!");
    assert_eq!(normalize_text("naïve café"), "naïvecafé");
    // An en dash, an em dash and an ideographic space are not on the list.
    assert_eq!(normalize_text("a\u{2013}b\u{2014}c\u{3000}d"), "a\u{2013}b\u{2014}c\u{3000}d");
    // Neither are the form feed and the hair space.
    assert_eq!(normalize_text("a\u{000C}b\u{200A}c"), "a\u{000C}b\u{200A}c");
}

#[test]
fn normalize_of_empty_and_of_separators_only() {
    assert_eq!(normalize_text(""), "");
    assert_eq!(normalize_text(" \t\n\r-\u{00AD}"), "");
}

#[test]
fn normalize_twice_is_normalize_once() {
    for text in ["", "infor-\nmation retrieval", "  a - b  ", "x\u{2011}y\u{00A0}z", "plain"] {
        let once = normalize_text(text);
        assert_eq!(normalize_text(&once), once);
    }
}

#[test]
fn stripped_characters_are_exactly_the_listed_twelve() {
    let listed = [
        ' ', '\t', '\n', '\r', '\u{00A0}', '\u{2007}', '\u{2009}', '\u{202F}', '-', '\u{00AD}',
        '\u{2010}', '\u{2011}',
    ];
    for c in listed {
        assert!(is_stripped_char(c));
    }
    for c in ['a', 'Z', '0', '_', '.', '\u{000B}', '\u{000C}', '\u{2008}', '\u{200A}', '\u{2012}'] {
        assert!(!is_stripped_char(c));
    }
}
