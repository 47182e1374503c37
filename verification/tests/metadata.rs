use pdf_search::metadata::{find_last, is_digit_char, reads_as_year};
use pdf_search::{
    attachment_filename, attachment_metadata, bibliographic_record, build_zotero_map,
    extract_year, join_creators, library_link, AttachmentRecord, MetadataIndex, ZoteroMetadata,
};

fn some(text: &str) -> Option<String> {
    Some(text.to_string())
}

fn record(key: &str, path: &str) -> AttachmentRecord {
    AttachmentRecord {
        attachment_id: 10,
        attachment_key: key.to_string(),
        path: path.to_string(),
        parent_id: None,
        parent_key: None,
        title: None,
        date: None,
        creators: Vec::new(),
        citation_key: None,
    }
}

#[test]
fn year_is_the_first_run_of_four_digits() {
    assert_eq!(extract_year(&some("2023-01-00 01/2023")), some("2023"));
    assert_eq!(extract_year(&some("2023")), some("2023"));
    assert_eq!(extract_year(&some("March 5, 1999")), some("1999"));
    assert_eq!(extract_year(&some("01/02/2004 and 1987")), some("2004"));
    assert_eq!(extract_year(&some("1000")), some("1000"));
    assert_eq!(extract_year(&some("9999")), some("9999"));
}

#[test]
fn year_is_absent_where_no_run_reads_as_one() {
    assert_eq!(extract_year(&None), None);
    assert_eq!(extract_year(&some("")), None);
    assert_eq!(extract_year(&some("n.d.")), None);
    assert_eq!(extract_year(&some("12345")), None);
    assert_eq!(extract_year(&some("999")), None);
    assert_eq!(extract_year(&some("0999")), None);
    assert_eq!(extract_year(&some("20 23")), None);
    assert_eq!(extract_year(&some("20231")), None);
}

#[test]
fn year_skips_runs_that_do_not_fit_and_takes_the_next() {
    assert_eq!(extract_year(&some("0123 456 20201 1984")), some("1984"));
    assert_eq!(extract_year(&some("12/31/98, reprinted 2001")), some("2001"));
}

#[test]
fn year_runs_are_bounded_by_other_numeric_characters_too() {
    // Superscript and Arabic-Indic digits are numeric: they lengthen a
    // run, and a run that holds one does not read as a year.
    assert_eq!(extract_year(&some("2023\u{00B2}")), None);
    assert_eq!(extract_year(&some("\u{0662}\u{0660}\u{0662}\u{0663}")), None);
    assert_eq!(extract_year(&some("\u{00B2}\u{00B2} 1850")), some("1850"));
}

#[test]
fn digits_and_years_are_recognised() {
    assert!(is_digit_char('0') && is_digit_char('5') && is_digit_char('9'));
    assert!(!is_digit_char('/') && !is_digit_char(':') && !is_digit_char('a'));
    assert!(!is_digit_char('\u{0663}'));
    assert!(reads_as_year("1000") && reads_as_year("2024") && reads_as_year("9999"));
    assert!(!reads_as_year("0999") && !reads_as_year("999") && !reads_as_year("10000"));
    assert!(!reads_as_year("20a4") && !reads_as_year("") && !reads_as_year("202\u{00B2}"));
}

#[test]
fn creators_are_joined_with_commas() {
    let creators = vec![
        (some("Ada"), some("Lovelace")),
        (None, some("Aristotle")),
        (some("Plato"), None),
        (None, None),
        (some("Alan"), some("Turing")),
    ];
    assert_eq!(join_creators(&creators), some("Ada Lovelace, Aristotle, Plato, Alan Turing"));
    assert_eq!(join_creators(&vec![(some("Ada"), some("Lovelace"))]), some("Ada Lovelace"));
}

#[test]
fn creators_without_names_give_no_author_list() {
    assert_eq!(join_creators(&Vec::new()), None);
    assert_eq!(join_creators(&vec![(None, None), (None, None)]), None);
}

#[test]
fn filename_is_what_follows_the_last_colon_or_slash() {
    assert_eq!(attachment_filename("storage:paper.pdf"), "paper.pdf");
    assert_eq!(attachment_filename("/home/me/papers/paper.pdf"), "paper.pdf");
    assert_eq!(attachment_filename("paper.pdf"), "paper.pdf");
    assert_eq!(attachment_filename("attachments:sub/dir/paper.pdf"), "sub/dir/paper.pdf");
    assert_eq!(attachment_filename("a:b:c.pdf"), "c.pdf");
    assert_eq!(attachment_filename("C:/docs/x.pdf"), "/docs/x.pdf");
    assert_eq!(attachment_filename("dir/"), "");
    assert_eq!(attachment_filename("storage:"), "");
    assert_eq!(attachment_filename(""), "");
}

#[test]
fn last_occurrence_of_a_character_is_found() {
    let chars: Vec<char> = "a/b/c".chars().collect();
    assert_eq!(find_last(&chars, '/'), Some(3));
    assert_eq!(find_last(&chars, 'a'), Some(0));
    assert_eq!(find_last(&chars, 'c'), Some(4));
    assert_eq!(find_last(&chars, ':'), None);
    assert_eq!(find_last(&Vec::new(), ':'), None);
}

#[test]
fn parent_record_is_picked_where_it_is_known() {
    assert_eq!(
        bibliographic_record(10, "ATTACH", Some(4), &some("PARENT")),
        (4, "PARENT".to_string())
    );
    assert_eq!(bibliographic_record(10, "ATTACH", None, &None), (10, "ATTACH".to_string()));
    assert_eq!(bibliographic_record(10, "ATTACH", Some(4), &None), (10, "ATTACH".to_string()));
    assert_eq!(
        bibliographic_record(10, "ATTACH", None, &some("PARENT")),
        (10, "ATTACH".to_string())
    );
}

#[test]
fn link_leads_to_the_record() {
    assert_eq!(library_link("ABCD1234"), "zotero://select/library/items/ABCD1234");
    assert_eq!(library_link(""), "zotero://select/library/items/");
}

#[test]
fn metadata_of_an_attachment_with_a_parent() {
    let rec = AttachmentRecord {
        parent_id: Some(4),
        parent_key: some("PARENT"),
        title: some("A Title"),
        date: some("2019-05-00 05/2019"),
        creators: vec![(some("Ann"), some("Smith")), (some("Bob"), some("Jones"))],
        citation_key: some("smith2019"),
        ..record("ATTACH", "storage:smith.pdf")
    };
    let m = attachment_metadata(&rec);
    assert_eq!(m.citekey, "smith2019");
    assert_eq!(m.title, some("A Title"));
    assert_eq!(m.year, some("2019"));
    assert_eq!(m.authors, some("Ann Smith, Bob Jones"));
    assert_eq!(m.zotero_link, "zotero://select/library/items/PARENT");
    assert_eq!(m.pdf_attachment_key, some("ATTACH"));
}

#[test]
fn metadata_of_a_standalone_attachment_falls_back_on_its_own_key() {
    let m = attachment_metadata(&record("ATTACH", "lonely.pdf"));
    assert_eq!(m.citekey, "ATTACH");
    assert_eq!(m.title, None);
    assert_eq!(m.year, None);
    assert_eq!(m.authors, None);
    assert_eq!(m.zotero_link, "zotero://select/library/items/ATTACH");
    assert_eq!(m.pdf_attachment_key, some("ATTACH"));
    let with_parent = AttachmentRecord {
        parent_id: Some(4),
        parent_key: some("PARENT"),
        ..record("ATTACH", "x.pdf")
    };
    assert_eq!(attachment_metadata(&with_parent).citekey, "PARENT");
}

#[test]
fn index_is_keyed_by_bare_file_name() {
    let records = vec![
        AttachmentRecord { title: some("One"), ..record("K1", "storage:one.pdf") },
        AttachmentRecord { title: some("Two"), ..record("K2", "/papers/two.pdf") },
    ];
    let index = build_zotero_map(&records);
    assert!(index.contains("one.pdf"));
    assert!(index.contains("two.pdf"));
    assert!(!index.contains("storage:one.pdf"));
    assert!(!index.contains("One.pdf"));
    assert_eq!(index.get("one.pdf").unwrap().title, some("One"));
    assert_eq!(index.get("two.pdf").unwrap().pdf_attachment_key, some("K2"));
    assert!(index.get("three.pdf").is_none());
    assert!(!build_zotero_map(&Vec::new()).contains("one.pdf"));
}

#[test]
fn of_two_attachments_with_one_file_name_the_later_stays() {
    let records = vec![
        AttachmentRecord { title: some("Old"), ..record("K1", "storage:same.pdf") },
        AttachmentRecord { title: some("Other"), ..record("K3", "storage:other.pdf") },
        AttachmentRecord { title: some("New"), ..record("K2", "dir/same.pdf") },
    ];
    let index = build_zotero_map(&records);
    let kept = index.get("same.pdf").unwrap();
    assert_eq!(kept.title, some("New"));
    assert_eq!(kept.citekey, "K2");
    assert_eq!(index.get("other.pdf").unwrap().title, some("Other"));
}

#[test]
fn index_insert_replaces_and_get_copies() {
    let mut index = MetadataIndex::new();
    assert!(index.get("a.pdf").is_none());
    let entry = |key: &str| ZoteroMetadata {
        citekey: key.to_string(),
        title: None,
        year: None,
        authors: None,
        zotero_link: library_link(key),
        pdf_attachment_key: None,
    };
    index.insert("a.pdf".to_string(), entry("first"));
    assert_eq!(index.get("a.pdf").unwrap().citekey, "first");
    index.insert("a.pdf".to_string(), entry("second"));
    assert_eq!(index.get("a.pdf").unwrap().citekey, "second");
    let copy = index.get("a.pdf").unwrap().clone();
    assert_eq!(copy.zotero_link, "zotero://select/library/items/second");
}
