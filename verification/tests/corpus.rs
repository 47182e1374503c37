use pdf_search::corpus::has_pdf_extension;
use pdf_search::{
    find_pdf_files, search_pdfs, Document, QueryItem, QueryType, SearchError, SearchParams,
    WalkedEntry,
};

fn query(text: &str, use_regex: bool, query_type: QueryType) -> QueryItem {
    QueryItem { query: text.to_string(), use_regex, query_type, color: String::new() }
}

fn params(queries: Vec<QueryItem>, context_words: usize) -> SearchParams {
    SearchParams { queries, directory: "/corpus".to_string(), context_words, zotero_path: None }
}

fn document(name: &str, pages: &[&str]) -> Document {
    let texts = pages.iter().map(|p| Some(p.to_string())).collect();
    Document::from_page_texts(format!("/corpus/{}", name), name.to_string(), texts)
}

fn entry(path: &str, file_name: &str, is_file: bool) -> WalkedEntry {
    WalkedEntry { path: path.to_string(), file_name: file_name.to_string(), is_file }
}

#[test]
fn two_documents_one_filter_one_parallel() {
    let documents = vec![document("doc1.pdf", &["alpha beta"]), document("doc2.pdf", &["beta"])];
    let queries =
        vec![query("alpha", false, QueryType::Filter), query("beta", false, QueryType::Parallel)];
    let found = search_pdfs(&params(queries, 1), &documents, None).unwrap();
    assert_eq!(found.len(), 1);
    assert_eq!(found[0].file_name, "doc1.pdf");
    assert_eq!(found[0].file_path, "/corpus/doc1.pdf");
    assert_eq!(found[0].page_number, 1);
    assert_eq!(found[0].context_before, "alpha");
    assert_eq!(found[0].matched_text, "beta");
    assert_eq!(found[0].context_after, "");
    assert!(found[0].zotero_link.is_none());
    assert!(found[0].zotero_metadata.is_none());
}

#[test]
fn search_without_queries_or_documents_finds_nothing() {
    let documents = vec![document("doc1.pdf", &["alpha beta"])];
    assert!(search_pdfs(&params(Vec::new(), 1), &documents, None).unwrap().is_empty());
    let queries = vec![query("alpha", false, QueryType::Parallel)];
    assert!(search_pdfs(&params(queries, 1), &Vec::new(), None).unwrap().is_empty());
}

#[test]
fn matches_are_gathered_document_after_document() {
    let documents = vec![
        document("a.pdf", &["key", "key"]),
        document("b.pdf", &["none"]),
        document("c.pdf", &["key"]),
    ];
    let queries = vec![query("key", false, QueryType::Parallel)];
    let found = search_pdfs(&params(queries, 0), &documents, None).unwrap();
    let places: Vec<(String, usize)> =
        found.iter().map(|m| (m.file_name.clone(), m.page_number)).collect();
    assert_eq!(
        places,
        vec![("a.pdf".to_string(), 1), ("a.pdf".to_string(), 2), ("c.pdf".to_string(), 1)]
    );
}

#[test]
fn searching_the_parts_gives_what_searching_the_whole_gives() {
    let first = vec![document("a.pdf", &["key x"]), document("b.pdf", &["y key"])];
    let second = vec![document("c.pdf", &["key"])];
    let queries = || vec![query("key", false, QueryType::Parallel)];
    let whole = vec![
        document("a.pdf", &["key x"]),
        document("b.pdf", &["y key"]),
        document("c.pdf", &["key"]),
    ];
    let mut parts = search_pdfs(&params(queries(), 1), &first, None).unwrap();
    parts.extend(search_pdfs(&params(queries(), 1), &second, None).unwrap());
    let all = search_pdfs(&params(queries(), 1), &whole, None).unwrap();
    let key = |m: &pdf_search::SearchMatch| {
        (m.file_path.clone(), m.page_number, m.context_before.clone(), m.context_after.clone())
    };
    assert_eq!(parts.iter().map(key).collect::<Vec<_>>(), all.iter().map(key).collect::<Vec<_>>());
    assert_eq!(all.len(), 3);
}

#[test]
fn a_malformed_query_fails_the_whole_search() {
    let documents = vec![document("a.pdf", &["alpha key"]), document("b.pdf", &["key"])];
    let queries = vec![query("key", false, QueryType::Parallel), query("(", true, QueryType::Parallel)];
    match search_pdfs(&params(queries, 1), &documents, None) {
        Err(SearchError::InvalidPattern { pattern, reason }) => {
            assert_eq!(pattern, "(?i)(");
            assert!(!reason.is_empty());
        }
        Ok(_) => panic!("a malformed pattern was accepted"),
    }
}

#[test]
fn a_malformed_query_fails_the_search_though_no_document_reaches_it() {
    // The filter keeps the first document from the malformed pattern, and
    // the second has no page: still the search fails.
    let documents = vec![document("skipped.pdf", &["other"]), document("blank.pdf", &[])];
    let queries = vec![
        query("alpha", false, QueryType::Filter),
        query("key", false, QueryType::Parallel),
        query("ke(y", true, QueryType::Parallel),
    ];
    let error = search_pdfs(&params(queries, 1), &documents, None).unwrap_err();
    assert_eq!(error.pattern(), "(?i)ke(y");
}

#[test]
fn search_without_documents_finds_nothing_whatever_the_queries() {
    let malformed = vec![query("a{2,1}", true, QueryType::Filter)];
    assert!(search_pdfs(&params(malformed, 1), &Vec::new(), None).unwrap().is_empty());
    let mixed = vec![query("key", false, QueryType::Parallel), query("(", true, QueryType::Parallel)];
    assert!(search_pdfs(&params(mixed, 1), &Vec::new(), None).unwrap().is_empty());
    // With one document, though without a page, the queries are checked.
    let blank = vec![document("blank.pdf", &[])];
    let malformed = vec![query("a{2,1}", true, QueryType::Filter)];
    let error = search_pdfs(&params(malformed, 1), &blank, None).unwrap_err();
    assert_eq!(error.pattern(), "(?i)a{2,1}");
}

#[test]
fn the_first_malformed_query_is_the_one_reported() {
    let documents = vec![document("a.pdf", &["key"])];
    let queries = vec![
        query("[", false, QueryType::Parallel),
        query("b(", true, QueryType::Parallel),
        query("a(", true, QueryType::Filter),
    ];
    let error = search_pdfs(&params(queries, 1), &documents, None).unwrap_err();
    assert_eq!(error.pattern(), "(?i)b(");
}

#[test]
fn pdf_files_are_picked_out_of_a_listing() {
    let entries = vec![
        entry("/c", "c", false),
        entry("/c/a.pdf", "a.pdf", true),
        entry("/c/notes.txt", "notes.txt", true),
        entry("/c/dir.pdf", "dir.pdf", false),
        entry("/c/sub/b.pdf", "b.pdf", true),
        entry("/c/UPPER.PDF", "UPPER.PDF", true),
        entry("/c/.pdf", ".pdf", true),
        entry("/c/pdf", "pdf", true),
        entry("/c/x.tar.pdf", "x.tar.pdf", true),
    ];
    assert_eq!(find_pdf_files(&entries), vec!["/c/a.pdf", "/c/sub/b.pdf", "/c/x.tar.pdf"]);
    assert!(find_pdf_files(&Vec::new()).is_empty());
}

#[test]
fn extension_is_what_follows_the_last_dot() {
    assert!(has_pdf_extension("a.pdf"));
    assert!(has_pdf_extension("a.b.pdf"));
    assert!(has_pdf_extension("..pdf"));
    assert!(!has_pdf_extension(".pdf"));
    assert!(!has_pdf_extension("pdf"));
    assert!(!has_pdf_extension("a.pdf."));
    assert!(!has_pdf_extension("a.Pdf"));
    assert!(!has_pdf_extension("a.pdfx"));
    assert!(!has_pdf_extension("a.pd"));
    assert!(!has_pdf_extension(""));
}
