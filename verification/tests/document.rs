use pdf_search::{
    search_pdf_with_queries, Document, MetadataIndex, QueryItem, QueryType, SearchError,
    SearchMatch, ZoteroMetadata,
};

fn query(text: &str, query_type: QueryType) -> QueryItem {
    QueryItem {
        query: text.to_string(),
        use_regex: false,
        query_type,
        color: "#ffff00".to_string(),
    }
}

fn regex(text: &str, query_type: QueryType) -> QueryItem {
    QueryItem { use_regex: true, ..query(text, query_type) }
}

fn document(name: &str, pages: &[&str]) -> Document {
    let texts = pages.iter().map(|p| Some(p.to_string())).collect();
    Document::from_page_texts(format!("/corpus/{}", name), name.to_string(), texts)
}

fn shown(found: &[SearchMatch]) -> Vec<(usize, String, String, String)> {
    found
        .iter()
        .map(|m| {
            (
                m.page_number,
                m.context_before.clone(),
                m.matched_text.clone(),
                m.context_after.clone(),
            )
        })
        .collect()
}

fn row(page: usize, before: &str, matched: &str, after: &str) -> (usize, String, String, String) {
    (page, before.to_string(), matched.to_string(), after.to_string())
}

#[test]
fn pages_are_numbered_from_one_and_unread_pages_are_empty() {
    let texts = vec![Some("first".to_string()), None, Some("third".to_string())];
    let doc = Document::from_page_texts("/a/b.pdf".to_string(), "b.pdf".to_string(), texts);
    assert_eq!(doc.path, "/a/b.pdf");
    assert_eq!(doc.name, "b.pdf");
    assert_eq!(
        doc.pages,
        vec![(1, "first".to_string()), (2, String::new()), (3, "third".to_string())]
    );
    let empty = Document::from_page_texts(String::new(), String::new(), Vec::new());
    assert!(empty.pages.is_empty());
}

#[test]
fn filter_query_decides_which_document_is_reported() {
    let queries = vec![query("alpha", QueryType::Filter), query("beta", QueryType::Parallel)];
    let doc1 = document("doc1.pdf", &["alpha beta"]);
    let doc2 = document("doc2.pdf", &["beta"]);
    let found1 = search_pdf_with_queries(&doc1, &queries, 1, None).unwrap();
    assert_eq!(shown(&found1), vec![row(1, "alpha", "beta", "")]);
    assert_eq!(found1[0].file_path, "/corpus/doc1.pdf");
    assert_eq!(found1[0].file_name, "doc1.pdf");
    assert!(found1[0].zotero_link.is_none());
    assert!(found1[0].zotero_metadata.is_none());
    let found2 = search_pdf_with_queries(&doc2, &queries, 1, None).unwrap();
    assert!(found2.is_empty());
}

#[test]
fn filter_may_be_met_on_another_page_than_the_matches() {
    let queries = vec![query("beta", QueryType::Parallel), query("alpha", QueryType::Filter)];
    let doc = document("d.pdf", &["beta", "nothing", "alpha", "beta beta"]);
    let found = search_pdf_with_queries(&doc, &queries, 1, None).unwrap();
    assert_eq!(
        shown(&found),
        vec![row(1, "", "beta", ""), row(4, "", "beta", "beta"), row(4, "beta", "beta", "")]
    );
}

#[test]
fn every_filter_must_be_met() {
    let doc = document("d.pdf", &["alpha beta", "gamma"]);
    let both = vec![
        query("alpha", QueryType::Filter),
        query("gamma", QueryType::Filter),
        query("beta", QueryType::Parallel),
    ];
    assert_eq!(search_pdf_with_queries(&doc, &both, 0, None).unwrap().len(), 1);
    let one_missing = vec![
        query("alpha", QueryType::Filter),
        query("delta", QueryType::Filter),
        query("beta", QueryType::Parallel),
        query("gamma", QueryType::Parallel),
    ];
    assert!(search_pdf_with_queries(&doc, &one_missing, 0, None).unwrap().is_empty());
}

#[test]
fn matches_come_query_after_query_and_page_after_page() {
    let queries = vec![query("b", QueryType::Parallel), query("a", QueryType::Parallel)];
    let doc = document("d.pdf", &["a b", "b a"]);
    let found = search_pdf_with_queries(&doc, &queries, 0, None).unwrap();
    assert_eq!(
        shown(&found),
        vec![row(1, "", "b", ""), row(2, "", "b", ""), row(1, "", "a", ""), row(2, "", "a", "")]
    );
}

#[test]
fn overlapping_parallel_queries_are_both_reported() {
    let queries = vec![query("alpha", QueryType::Parallel), regex("al.ha", QueryType::Parallel)];
    let doc = document("d.pdf", &["alpha"]);
    let found = search_pdf_with_queries(&doc, &queries, 0, None).unwrap();
    assert_eq!(shown(&found), vec![row(1, "", "alpha", ""), row(1, "", "alpha", "")]);
}

#[test]
fn single_query_is_reported_whatever_its_part() {
    let doc = document("d.pdf", &["x alpha y", "none", "alpha"]);
    let missing = document("e.pdf", &["x y", "none"]);
    for text in ["alpha", "x", "absent"] {
        for d in [&doc, &missing] {
            let as_filter = search_pdf_with_queries(d, &vec![query(text, QueryType::Filter)], 1, None);
            let as_parallel =
                search_pdf_with_queries(d, &vec![query(text, QueryType::Parallel)], 1, None);
            assert_eq!(shown(&as_filter.unwrap()), shown(&as_parallel.unwrap()));
        }
    }
    let found = search_pdf_with_queries(&doc, &vec![query("alpha", QueryType::Filter)], 1, None);
    assert_eq!(shown(&found.unwrap()), vec![row(1, "x", "alpha", "y"), row(3, "", "alpha", "")]);
}

#[test]
fn without_a_parallel_query_the_first_query_is_reported() {
    let queries = vec![query("alpha", QueryType::Filter), query("beta", QueryType::Filter)];
    let doc = document("d.pdf", &["alpha beta alpha"]);
    let found = search_pdf_with_queries(&doc, &queries, 0, None).unwrap();
    assert_eq!(shown(&found), vec![row(1, "", "alpha", ""), row(1, "", "alpha", "")]);
    let lacking = document("e.pdf", &["alpha alpha"]);
    assert!(search_pdf_with_queries(&lacking, &queries, 0, None).unwrap().is_empty());
}

#[test]
fn no_queries_and_no_pages_give_no_matches() {
    let doc = document("d.pdf", &["alpha"]);
    assert!(search_pdf_with_queries(&doc, &Vec::new(), 1, None).unwrap().is_empty());
    let blank = document("e.pdf", &[]);
    let queries = vec![query("alpha", QueryType::Parallel)];
    assert!(search_pdf_with_queries(&blank, &queries, 1, None).unwrap().is_empty());
    // Without a page nothing is compiled, so a malformed pattern goes unnoticed.
    let broken = vec![regex("(", QueryType::Parallel)];
    assert!(search_pdf_with_queries(&blank, &broken, 1, None).unwrap().is_empty());
}

#[test]
fn malformed_regex_ends_the_search_of_a_document() {
    let doc = document("d.pdf", &["alpha beta"]);
    let queries = vec![query("alpha", QueryType::Parallel), regex("be(ta", QueryType::Parallel)];
    match search_pdf_with_queries(&doc, &queries, 1, None) {
        Err(SearchError::InvalidPattern { pattern, .. }) => assert_eq!(pattern, "(?i)be(ta"),
        Ok(_) => panic!("a malformed pattern was accepted"),
    }
    let as_filter = vec![regex("be(ta", QueryType::Filter), query("alpha", QueryType::Parallel)];
    assert!(search_pdf_with_queries(&doc, &as_filter, 1, None).is_err());
}

#[test]
fn malformed_regex_behind_an_unmet_filter_is_not_reached() {
    let doc = document("d.pdf", &["alpha beta"]);
    let queries = vec![query("gamma", QueryType::Filter), regex("be(ta", QueryType::Parallel)];
    assert!(search_pdf_with_queries(&doc, &queries, 1, None).unwrap().is_empty());
}

#[test]
fn every_match_names_a_page_of_its_document() {
    let doc = Document {
        path: "p".to_string(),
        name: "n".to_string(),
        pages: vec![(7, "alpha".to_string()), (3, "x".to_string()), (9, "alpha alpha".to_string())],
    };
    let found =
        search_pdf_with_queries(&doc, &vec![query("alpha", QueryType::Parallel)], 0, None).unwrap();
    let numbers: Vec<usize> = found.iter().map(|m| m.page_number).collect();
    assert_eq!(numbers, vec![7, 9, 9]);
    for m in &found {
        assert!(doc.pages.iter().any(|page| page.0 == m.page_number));
        assert_eq!(m.file_path, "p");
        assert_eq!(m.file_name, "n");
    }
}

#[test]
fn matches_carry_the_metadata_filed_under_the_name() {
    let mut index = MetadataIndex::new();
    index.insert(
        "doc1.pdf".to_string(),
        ZoteroMetadata {
            citekey: "smith2020".to_string(),
            title: Some("On Things".to_string()),
            year: Some("2020".to_string()),
            authors: Some("Ann Smith".to_string()),
            zotero_link: "zotero://select/library/items/ABCD".to_string(),
            pdf_attachment_key: Some("WXYZ".to_string()),
        },
    );
    let queries = vec![query("beta", QueryType::Parallel)];
    let doc1 = document("doc1.pdf", &["beta"]);
    let found = search_pdf_with_queries(&doc1, &queries, 1, Some(&index)).unwrap();
    assert_eq!(found.len(), 1);
    assert_eq!(found[0].zotero_link.as_deref(), Some("zotero://select/library/items/ABCD"));
    let metadata = found[0].zotero_metadata.as_ref().unwrap();
    assert_eq!(metadata.citekey, "smith2020");
    assert_eq!(metadata.title.as_deref(), Some("On Things"));
    assert_eq!(metadata.year.as_deref(), Some("2020"));
    assert_eq!(metadata.authors.as_deref(), Some("Ann Smith"));
    assert_eq!(metadata.pdf_attachment_key.as_deref(), Some("WXYZ"));
    // File names are compared exactly.
    let other = document("Doc1.pdf", &["beta"]);
    let found = search_pdf_with_queries(&other, &queries, 1, Some(&index)).unwrap();
    assert!(found[0].zotero_link.is_none());
    assert!(found[0].zotero_metadata.is_none());
}

#[test]
fn matches_and_queries_can_be_cloned() {
    let doc = document("d.pdf", &["alpha beta"]);
    let q = query("beta", QueryType::Parallel);
    let copy = q.clone();
    assert_eq!(copy.query, "beta");
    assert_eq!(copy.query_type, QueryType::Parallel);
    assert_eq!(copy.color, "#ffff00");
    assert!(!copy.use_regex);
    let found = search_pdf_with_queries(&doc, &vec![q], 1, None).unwrap();
    let again = found[0].clone();
    assert_eq!(shown(&[again]), shown(&found));
}

#[test]
fn query_defaults_are_parallel_and_yellow() {
    let q = QueryItem::new("term".to_string(), true);
    assert_eq!(q.query, "term");
    assert!(q.use_regex);
    assert_eq!(q.query_type, QueryType::Parallel);
    assert_eq!(q.color, "#ffff00");
    assert_eq!(pdf_search::default_query_type(), QueryType::Parallel);
    assert_eq!(pdf_search::default_color(), "#ffff00");
}

#[test]
fn query_types_are_read_from_their_names() {
    assert_eq!(QueryType::from_name("parallel"), Some(QueryType::Parallel));
    assert_eq!(QueryType::from_name("filter"), Some(QueryType::Filter));
    assert_eq!(QueryType::from_name("Filter"), None);
    assert_eq!(QueryType::from_name(""), None);
    assert_eq!(QueryType::from_name("and"), None);
    assert_eq!(QueryType::Parallel.name(), "parallel");
    assert_eq!(QueryType::Filter.name(), "filter");
    for t in [QueryType::Parallel, QueryType::Filter] {
        assert_eq!(QueryType::from_name(&t.name()), Some(t));
    }
}

#[test]
fn queries_are_checked_before_a_search() {
    let sound = vec![
        query("fo(o", QueryType::Filter),
        regex(r"\d+", QueryType::Parallel),
        regex("", QueryType::Parallel),
    ];
    assert!(pdf_search::validate_queries(&sound).is_ok());
    assert!(pdf_search::validate_queries(&Vec::new()).is_ok());
    let broken = vec![
        query("fine", QueryType::Parallel),
        regex("a{2,1}", QueryType::Filter),
        regex("(", QueryType::Parallel),
    ];
    match pdf_search::validate_queries(&broken) {
        Err(SearchError::InvalidPattern { pattern, .. }) => assert_eq!(pattern, "(?i)a{2,1}"),
        Ok(()) => panic!("a malformed pattern was accepted"),
    }
}

fn tagged(text: &str, query_type: &str) -> pdf_search::TaggedQuery {
    pdf_search::TaggedQuery {
        query: text.to_string(),
        use_regex: false,
        query_type: query_type.to_string(),
        color: "#00ff00".to_string(),
    }
}

fn parts(queries: &[QueryItem]) -> Vec<(String, QueryType)> {
    queries.iter().map(|q| (q.query.clone(), q.query_type)).collect()
}

fn part(text: &str, query_type: QueryType) -> (String, QueryType) {
    (text.to_string(), query_type)
}

#[test]
fn tagged_queries_keep_their_named_parts() {
    let given = vec![tagged("a", "filter"), tagged("b", "parallel"), tagged("c", "filter")];
    let queries = pdf_search::queries_from_tagged(&given);
    assert_eq!(
        parts(&queries),
        vec![part("a", QueryType::Filter), part("b", QueryType::Parallel), part("c", QueryType::Filter)]
    );
    assert_eq!(queries[0].color, "#00ff00");
    assert!(!queries[0].use_regex);
    assert!(pdf_search::queries_from_tagged(&Vec::new()).is_empty());
}

#[test]
fn tagged_queries_with_unknown_parts_play_no_part() {
    let given = vec![tagged("a", "other"), tagged("b", "parallel"), tagged("c", ""), tagged("d", "filter")];
    let queries = pdf_search::queries_from_tagged(&given);
    assert_eq!(parts(&queries), vec![part("b", QueryType::Parallel), part("d", QueryType::Filter)]);
    let given = vec![tagged("a", "filter"), tagged("b", "Parallel")];
    let queries = pdf_search::queries_from_tagged(&given);
    assert_eq!(parts(&queries), vec![part("a", QueryType::Filter)]);
}

#[test]
fn first_tagged_query_of_unknown_part_is_reported_where_none_is_parallel() {
    let given = vec![tagged("a", "other"), tagged("b", "filter"), tagged("c", "other")];
    let queries = pdf_search::queries_from_tagged(&given);
    assert_eq!(parts(&queries), vec![part("a", QueryType::Parallel), part("b", QueryType::Filter)]);
    let doc = document("d.pdf", &["a b a"]);
    let found = search_pdf_with_queries(&doc, &queries, 0, None).unwrap();
    assert_eq!(shown(&found), vec![row(1, "", "a", ""), row(1, "", "a", "")]);
    let lacking = document("e.pdf", &["a a"]);
    assert!(search_pdf_with_queries(&lacking, &queries, 0, None).unwrap().is_empty());
    let alone = pdf_search::queries_from_tagged(&vec![tagged("a", "other")]);
    assert_eq!(parts(&alone), vec![part("a", QueryType::Parallel)]);
}
