//! Evaluating the queries of a search on one document.

use crate::document::{Document, SearchMatch, SearchMatchView};
use crate::error::SearchError;
use crate::evaluation_laws::{
    lemma_page_error_depends_on_query, lemma_query_error_stays, lemma_reported_error_stays,
};
use crate::matcher::{page_matches, search_in_page};
use crate::metadata::{copy_optional, MetadataIndex, ZoteroMetadata, ZoteroMetadataView};
use crate::normalize::normalize;
use crate::pattern::{case_insensitive, refused, regex_compiles, Snippet};
use crate::query::{QueryItem, QueryType, QueryView};
use vstd::prelude::*;

verus! {

/// What every match of one document carries: where the document is, and
/// what the index holds under its name.
pub struct MatchSource {
    pub file_path: Seq<char>,
    pub file_name: Seq<char>,
    pub zotero_link: Option<Seq<char>>,
    pub zotero_metadata: Option<ZoteroMetadataView>,
}

/// What the matches of the document at `path`, named `name`, carry when
/// metadata is taken from `index`.
pub open spec fn source_of(
    path: Seq<char>,
    name: Seq<char>,
    index: Option<Map<Seq<char>, ZoteroMetadataView>>,
) -> MatchSource {
    match index {
        Some(entries) if entries.contains_key(name) => MatchSource {
            file_path: path,
            file_name: name,
            zotero_link: Some(entries[name].zotero_link),
            zotero_metadata: Some(entries[name]),
        },
        _ => MatchSource {
            file_path: path,
            file_name: name,
            zotero_link: None,
            zotero_metadata: None,
        },
    }
}

/// The match for `snippet` on page `page_number`.
pub open spec fn match_from(source: MatchSource, page_number: usize, snippet: Snippet) -> SearchMatchView {
    SearchMatchView {
        file_path: source.file_path,
        file_name: source.file_name,
        page_number,
        context_before: snippet.0,
        matched_text: snippet.1,
        context_after: snippet.2,
        zotero_link: source.zotero_link,
        zotero_metadata: source.zotero_metadata,
    }
}

/// The matches for the snippets of one page, in order.
pub open spec fn matches_from(source: MatchSource, page_number: usize, snippets: Seq<Snippet>) -> Seq<
    SearchMatchView,
> {
    Seq::new(snippets.len(), |i: int| match_from(source, page_number, snippets[i]))
}

/// Whether a filter query occurs on one of `pages[from..]`: the pages are
/// searched in order until one has a match. `Err` holds the pattern that
/// the regex engine refused.
pub open spec fn filter_found(
    pages: Seq<(usize, Seq<char>)>,
    query: QueryView,
    k: nat,
    from: int,
) -> Result<bool, Seq<char>>
    decreases pages.len() - from,
{
    if from < 0 || from >= pages.len() {
        Ok(false)
    } else {
        match page_matches(pages[from].1, query.query, query.use_regex, k) {
            Err(pattern) => Err(pattern),
            Ok(snippets) => if snippets.len() > 0 {
                Ok(true)
            } else {
                filter_found(pages, query, k, from + 1)
            },
        }
    }
}

/// Whether the document passes the filter queries among `queries[from..]`,
/// taken in order: the first that occurs on no page rejects it.
pub open spec fn filters_pass(
    pages: Seq<(usize, Seq<char>)>,
    queries: Seq<QueryView>,
    k: nat,
    from: int,
) -> Result<bool, Seq<char>>
    decreases queries.len() - from,
{
    if from < 0 || from >= queries.len() {
        Ok(true)
    } else if queries[from].query_type == QueryType::Filter {
        match filter_found(pages, queries[from], k, 0) {
            Err(pattern) => Err(pattern),
            Ok(false) => Ok(false),
            Ok(true) => filters_pass(pages, queries, k, from + 1),
        }
    } else {
        filters_pass(pages, queries, k, from + 1)
    }
}

/// Whether one of the queries is a parallel query.
pub open spec fn has_parallel(queries: Seq<QueryView>) -> bool {
    exists|i: int| 0 <= i < queries.len() && (#[trigger] queries[i]).query_type == QueryType::Parallel
}

/// Whether the matches of `queries[i]` are reported: those of the parallel
/// queries are, and where there is none, those of the first query.
pub open spec fn is_reported(queries: Seq<QueryView>, i: int) -> bool {
    if has_parallel(queries) {
        queries[i].query_type == QueryType::Parallel
    } else {
        i == 0
    }
}

/// The matches of one query on the first `upto` pages, in page order.
pub open spec fn query_matches(
    source: MatchSource,
    pages: Seq<(usize, Seq<char>)>,
    query: QueryView,
    k: nat,
    upto: int,
) -> Result<Seq<SearchMatchView>, Seq<char>>
    decreases upto,
{
    if upto <= 0 || upto > pages.len() {
        Ok(Seq::empty())
    } else {
        match query_matches(source, pages, query, k, upto - 1) {
            Err(pattern) => Err(pattern),
            Ok(before) => match page_matches(pages[upto - 1].1, query.query, query.use_regex, k) {
                Err(pattern) => Err(pattern),
                Ok(snippets) => Ok(before + matches_from(source, pages[upto - 1].0, snippets)),
            },
        }
    }
}

/// The matches of the reported queries among the first `upto` queries,
/// query after query.
pub open spec fn reported_matches(
    source: MatchSource,
    pages: Seq<(usize, Seq<char>)>,
    queries: Seq<QueryView>,
    k: nat,
    upto: int,
) -> Result<Seq<SearchMatchView>, Seq<char>>
    decreases upto,
{
    if upto <= 0 || upto > queries.len() {
        Ok(Seq::empty())
    } else {
        match reported_matches(source, pages, queries, k, upto - 1) {
            Err(pattern) => Err(pattern),
            Ok(before) => if is_reported(queries, upto - 1) {
                match query_matches(source, pages, queries[upto - 1], k, pages.len() as int) {
                    Err(pattern) => Err(pattern),
                    Ok(found) => Ok(before + found),
                }
            } else {
                Ok(before)
            },
        }
    }
}

/// What the search of one document gives. A document that lacks one of the
/// filter queries gives no match. One that passes gives the matches of the
/// reported queries: query after query, and for each query page after
/// page. `Err` holds the first pattern that the regex engine refused.
pub open spec fn document_matches(
    source: MatchSource,
    pages: Seq<(usize, Seq<char>)>,
    queries: Seq<QueryView>,
    k: nat,
) -> Result<Seq<SearchMatchView>, Seq<char>> {
    match filters_pass(pages, queries, k, 0) {
        Err(pattern) => Err(pattern),
        Ok(false) => Ok(Seq::empty()),
        Ok(true) => reported_matches(source, pages, queries, k, queries.len() as int),
    }
}

/// The pattern of `query` that the regex engine refuses, if it is a regex
/// query with one.
pub open spec fn refused_pattern(query: QueryView) -> Option<Seq<char>> {
    let wanted = normalize(query.query);
    let pattern = case_insensitive(wanted);
    if wanted.len() > 0 && query.use_regex && !regex_compiles(pattern) {
        Some(pattern)
    } else {
        None
    }
}

/// The entries of the index handed to a search, if one was.
pub open spec fn entries_of(zotero_map: Option<&MetadataIndex>) -> Option<
    Map<Seq<char>, ZoteroMetadataView>,
> {
    match zotero_map {
        Some(index) => Some(index@),
        None => None,
    }
}

/// Searches the pages in order for a filter query, up to the first match.
pub fn filter_occurs(pages: &Vec<(usize, String)>, query: &QueryItem, context_words: usize) -> (r:
    Result<bool, SearchError>)
    ensures
        match filter_found(pages.deep_view(), query@, context_words as nat, 0) {
            Ok(found) => r == Ok::<bool, SearchError>(found),
            Err(pattern) => r matches Err(e) && e@ == refused(pattern),
        },
{
    let mut i: usize = 0;
    while i < pages.len()
        invariant
            i <= pages.len(),
            filter_found(pages.deep_view(), query@, context_words as nat, i as int) == filter_found(
                pages.deep_view(),
                query@,
                context_words as nat,
                0,
            ),
        decreases pages.len() - i,
    {
        let found = search_in_page(
            pages[i].1.as_str(),
            query.query.as_str(),
            context_words,
            query.use_regex,
        )?;
        if found.len() > 0 {
            return Ok(true);
        }
        i += 1;
    }
    Ok(false)
}

/// Whether one of the queries is a parallel query.
pub fn any_parallel(queries: &Vec<QueryItem>) -> (r: bool)
    ensures
        r == has_parallel(queries.deep_view()),
{
    let mut i: usize = 0;
    while i < queries.len()
        invariant
            i <= queries.len(),
            forall|j: int|
                0 <= j < i ==> (#[trigger] queries.deep_view()[j]).query_type
                    != QueryType::Parallel,
        decreases queries.len() - i,
    {
        if queries[i].query_type == QueryType::Parallel {
            proof {
                assert(queries.deep_view()[i as int].query_type == QueryType::Parallel);
            }
            return true;
        }
        i += 1;
    }
    false
}

/// The matches of one query on all pages of a document, in page order.
pub fn matches_of_query(
    document: &Document,
    query: &QueryItem,
    context_words: usize,
    zotero_link: &Option<String>,
    zotero_metadata: &Option<ZoteroMetadata>,
) -> (r: Result<Vec<SearchMatch>, SearchError>)
    ensures
        match query_matches(
            MatchSource {
                file_path: document.path@,
                file_name: document.name@,
                zotero_link: zotero_link.deep_view(),
                zotero_metadata: zotero_metadata.deep_view(),
            },
            document.pages.deep_view(),
            query@,
            context_words as nat,
            document.pages.len() as int,
        ) {
            Ok(matches) => r matches Ok(found) && found.deep_view() == matches,
            Err(pattern) => r matches Err(e) && e@ == refused(pattern),
        },
{
    let ghost source = MatchSource {
        file_path: document.path@,
        file_name: document.name@,
        zotero_link: zotero_link.deep_view(),
        zotero_metadata: zotero_metadata.deep_view(),
    };
    let ghost pages = document.pages.deep_view();
    let ghost k = context_words as nat;
    let mut out: Vec<SearchMatch> = Vec::new();
    let mut i: usize = 0;
    proof {
        assert(out.deep_view() =~= Seq::<SearchMatchView>::empty());
    }
    while i < document.pages.len()
        invariant
            i <= document.pages.len(),
            pages == document.pages.deep_view(),
            source == (MatchSource {
                file_path: document.path@,
                file_name: document.name@,
                zotero_link: zotero_link.deep_view(),
                zotero_metadata: zotero_metadata.deep_view(),
            }),
            k == context_words as nat,
            query_matches(source, pages, query@, k, i as int) == Ok::<
                Seq<SearchMatchView>,
                Seq<char>,
            >(out.deep_view()),
        decreases document.pages.len() - i,
    {
        let page_number = document.pages[i].0;
        let searched = search_in_page(
            document.pages[i].1.as_str(),
            query.query.as_str(),
            context_words,
            query.use_regex,
        );
        proof {
            if searched is Err {
                lemma_query_error_stays(source, pages, query@, k, i + 1, pages.len() as int);
            }
        }
        let snippets = searched?;
        let ghost before = out.deep_view();
        let mut j: usize = 0;
        while j < snippets.len()
            invariant
                j <= snippets.len(),
                source == (MatchSource {
                    file_path: document.path@,
                    file_name: document.name@,
                    zotero_link: zotero_link.deep_view(),
                    zotero_metadata: zotero_metadata.deep_view(),
                }),
                out.deep_view() == before + matches_from(
                    source,
                    page_number,
                    snippets.deep_view().take(j as int),
                ),
            decreases snippets.len() - j,
        {
            let ghost shown = out.deep_view();
            out.push(
                SearchMatch {
                    file_path: document.path.clone(),
                    file_name: document.name.clone(),
                    page_number,
                    context_before: snippets[j].0.clone(),
                    matched_text: snippets[j].1.clone(),
                    context_after: snippets[j].2.clone(),
                    zotero_link: copy_optional(zotero_link),
                    zotero_metadata: match zotero_metadata {
                        Some(m) => Some(m.clone()),
                        None => None,
                    },
                },
            );
            proof {
                let made = match_from(source, page_number, snippets.deep_view()[j as int]);
                assert(out.deep_view() =~= shown.push(made));
                assert(shown.push(made) =~= before + matches_from(
                    source,
                    page_number,
                    snippets.deep_view().take(j + 1),
                ));
            }
            j += 1;
        }
        proof {
            assert(snippets.deep_view().take(snippets.len() as int) =~= snippets.deep_view());
        }
        i += 1;
    }
    Ok(out)
}

/// The pattern of the first of `queries[from..]` that the regex engine refuses, if any.
pub open spec fn first_refused(queries: Seq<QueryView>, from: int) -> Option<Seq<char>>
    decreases queries.len() - from,
{
    if from < 0 || from >= queries.len() {
        None
    } else if refused_pattern(queries[from]) is Some {
        refused_pattern(queries[from])
    } else {
        first_refused(queries, from + 1)
    }
}

/// Checks the queries before a search: the first regex query that the
/// engine refuses is reported, whether or not a search would reach it.
pub fn validate_queries(queries: &Vec<QueryItem>) -> (r: Result<(), SearchError>)
    ensures
        match first_refused(queries.deep_view(), 0) {
            Some(pattern) => r matches Err(e) && e@ == refused(pattern),
            None => r is Ok,
        },
{
    let mut i: usize = 0;
    while i < queries.len()
        invariant
            i <= queries.len(),
            first_refused(queries.deep_view(), i as int) == first_refused(queries.deep_view(), 0),
        decreases queries.len() - i,
    {
        proof {
            lemma_page_error_depends_on_query(""@, queries@[i as int]@, 0);
        }
        let checked = search_in_page("", queries[i].query.as_str(), 0, queries[i].use_regex);
        match checked {
            Err(e) => {
                return Err(e);
            },
            Ok(_) => {},
        }
        i += 1;
    }
    Ok(())
}

/// Evaluates the queries on one document. The filter queries decide
/// whether the document is looked at: it must hold each of them on some
/// page. Of a document that passes, every occurrence of every parallel
/// query is reported; where no query is parallel, those of the first query
/// are. Metadata is looked up in `zotero_map` under the document's name.
pub fn search_pdf_with_queries(
    document: &Document,
    queries: &Vec<QueryItem>,
    context_words: usize,
    zotero_map: Option<&MetadataIndex>,
) -> (r: Result<Vec<SearchMatch>, SearchError>)
    ensures
        match document_matches(
            source_of(document.path@, document.name@, entries_of(zotero_map)),
            document.pages.deep_view(),
            queries.deep_view(),
            context_words as nat,
        ) {
            Ok(matches) => r matches Ok(found) && found.deep_view() == matches,
            Err(pattern) => r matches Err(e) && e@ == refused(pattern),
        },
{
    let ghost source = source_of(document.path@, document.name@, entries_of(zotero_map));
    let ghost pages = document.pages.deep_view();
    let ghost wanted = queries.deep_view();
    let ghost k = context_words as nat;
    let found = match zotero_map {
        Some(index) => index.get(document.name.as_str()),
        None => None,
    };
    let (zotero_link, zotero_metadata) = match found {
        Some(metadata) => (Some(metadata.zotero_link.clone()), Some(metadata)),
        None => (None, None),
    };
    assert(source == (MatchSource {
        file_path: document.path@,
        file_name: document.name@,
        zotero_link: zotero_link.deep_view(),
        zotero_metadata: zotero_metadata.deep_view(),
    }));
    let mut i: usize = 0;
    while i < queries.len()
        invariant
            i <= queries.len(),
            pages == document.pages.deep_view(),
            wanted == queries.deep_view(),
            k == context_words as nat,
            filters_pass(pages, wanted, k, i as int) == filters_pass(pages, wanted, k, 0),
        decreases queries.len() - i,
    {
        if queries[i].query_type == QueryType::Filter {
            let occurs = filter_occurs(&document.pages, &queries[i], context_words)?;
            if !occurs {
                let none: Vec<SearchMatch> = Vec::new();
                proof {
                    assert(none.deep_view() =~= Seq::<SearchMatchView>::empty());
                }
                return Ok(none);
            }
        }
        i += 1;
    }
    let some_parallel = any_parallel(queries);
    let mut out: Vec<SearchMatch> = Vec::new();
    let mut i: usize = 0;
    proof {
        assert(out.deep_view() =~= Seq::<SearchMatchView>::empty());
    }
    while i < queries.len()
        invariant
            i <= queries.len(),
            pages == document.pages.deep_view(),
            wanted == queries.deep_view(),
            k == context_words as nat,
            some_parallel == has_parallel(wanted),
            source == source_of(document.path@, document.name@, entries_of(zotero_map)),
            source == (MatchSource {
                file_path: document.path@,
                file_name: document.name@,
                zotero_link: zotero_link.deep_view(),
                zotero_metadata: zotero_metadata.deep_view(),
            }),
            filters_pass(pages, wanted, k, 0) == Ok::<bool, Seq<char>>(true),
            reported_matches(source, pages, wanted, k, i as int) == Ok::<
                Seq<SearchMatchView>,
                Seq<char>,
            >(out.deep_view()),
        decreases queries.len() - i,
    {
        let reported = if some_parallel {
            queries[i].query_type == QueryType::Parallel
        } else {
            i == 0
        };
        if reported {
            let searched = matches_of_query(
                document,
                &queries[i],
                context_words,
                &zotero_link,
                &zotero_metadata,
            );
            proof {
                assert(wanted[i as int] == queries@[i as int]@);
                assert(is_reported(wanted, i as int));
                assert(pages.len() == document.pages.len());
                if searched is Err {
                    assert(reported_matches(source, pages, wanted, k, i + 1) is Err);
                    lemma_reported_error_stays(source, pages, wanted, k, i + 1, wanted.len() as int);
                }
            }
            let mut found = searched?;
            let ghost before = out.deep_view();
            let ghost added = found.deep_view();
            out.append(&mut found);
            proof {
                assert(out.deep_view() =~= before + added);
            }
        }
        i += 1;
    }
    Ok(out)
}

} // verus!
