//! What holds of the evaluation of queries on a document.

use crate::document::SearchMatchView;
use crate::evaluation::{
    document_matches, filter_found, filters_pass, first_refused, has_parallel, is_reported,
    matches_from, query_matches, refused_pattern, reported_matches, MatchSource,
};
use crate::matcher::page_matches;
use crate::pattern::Snippet;
use crate::query::{QueryType, QueryView};
use vstd::prelude::*;

verus! {

/// Once a page has brought an error, the pages after it do not change it.
pub proof fn lemma_query_error_stays(
    source: MatchSource,
    pages: Seq<(usize, Seq<char>)>,
    query: QueryView,
    k: nat,
    upto: int,
    through: int,
)
    requires
        0 <= upto <= through <= pages.len(),
        query_matches(source, pages, query, k, upto) is Err,
    ensures
        query_matches(source, pages, query, k, through) == query_matches(
            source,
            pages,
            query,
            k,
            upto,
        ),
    decreases through - upto,
{
    if upto < through {
        lemma_query_error_stays(source, pages, query, k, upto, through - 1);
    }
}

/// Once a query has brought an error, the queries after it do not change it.
pub proof fn lemma_reported_error_stays(
    source: MatchSource,
    pages: Seq<(usize, Seq<char>)>,
    queries: Seq<QueryView>,
    k: nat,
    upto: int,
    through: int,
)
    requires
        0 <= upto <= through <= queries.len(),
        reported_matches(source, pages, queries, k, upto) is Err,
    ensures
        reported_matches(source, pages, queries, k, through) == reported_matches(
            source,
            pages,
            queries,
            k,
            upto,
        ),
    decreases through - upto,
{
    if upto < through {
        lemma_reported_error_stays(source, pages, queries, k, upto, through - 1);
    }
}

/// Whether `found` is a match of `source` on one of `pages`.
pub open spec fn comes_from(
    found: SearchMatchView,
    source: MatchSource,
    pages: Seq<(usize, Seq<char>)>,
) -> bool {
    &&& found.file_path == source.file_path
    &&& found.file_name == source.file_name
    &&& found.zotero_link == source.zotero_link
    &&& found.zotero_metadata == source.zotero_metadata
    &&& exists|j: int| 0 <= j < pages.len() && (#[trigger] pages[j]).0 == found.page_number
}

/// Every match of a query names a page of the document.
pub proof fn lemma_query_matches_come_from_pages(
    source: MatchSource,
    pages: Seq<(usize, Seq<char>)>,
    query: QueryView,
    k: nat,
    upto: int,
)
    ensures
        query_matches(source, pages, query, k, upto) matches Ok(found) ==> forall|i: int|
            0 <= i < found.len() ==> comes_from(#[trigger] found[i], source, pages),
    decreases upto,
{
    if 0 < upto <= pages.len() {
        lemma_query_matches_come_from_pages(source, pages, query, k, upto - 1);
        if let Ok(found) = query_matches(source, pages, query, k, upto) {
            let before = query_matches(source, pages, query, k, upto - 1)->Ok_0;
            let snippets = page_matches(pages[upto - 1].1, query.query, query.use_regex, k)->Ok_0;
            let here = matches_from(source, pages[upto - 1].0, snippets);
            assert(found == before + here);
            assert forall|i: int| 0 <= i < found.len() implies comes_from(
                #[trigger] found[i],
                source,
                pages,
            ) by {
                if i < before.len() {
                    assert(found[i] == before[i]);
                } else {
                    assert(found[i] == here[i - before.len()]);
                    assert(pages[upto - 1].0 == found[i].page_number);
                }
            }
        }
    }
}

/// Every reported match names a page of the document.
pub proof fn lemma_reported_matches_come_from_pages(
    source: MatchSource,
    pages: Seq<(usize, Seq<char>)>,
    queries: Seq<QueryView>,
    k: nat,
    upto: int,
)
    ensures
        reported_matches(source, pages, queries, k, upto) matches Ok(found) ==> forall|i: int|
            0 <= i < found.len() ==> comes_from(#[trigger] found[i], source, pages),
    decreases upto,
{
    if 0 < upto <= queries.len() {
        lemma_reported_matches_come_from_pages(source, pages, queries, k, upto - 1);
        if let Ok(found) = reported_matches(source, pages, queries, k, upto) {
            let before = reported_matches(source, pages, queries, k, upto - 1)->Ok_0;
            if is_reported(queries, upto - 1) {
                lemma_query_matches_come_from_pages(
                    source,
                    pages,
                    queries[upto - 1],
                    k,
                    pages.len() as int,
                );
                let here = query_matches(
                    source,
                    pages,
                    queries[upto - 1],
                    k,
                    pages.len() as int,
                )->Ok_0;
                assert(found == before + here);
                assert forall|i: int| 0 <= i < found.len() implies comes_from(
                    #[trigger] found[i],
                    source,
                    pages,
                ) by {
                    if i < before.len() {
                        assert(found[i] == before[i]);
                    } else {
                        assert(found[i] == here[i - before.len()]);
                    }
                }
            }
        }
    }
}

/// Every match of a document carries the document's path, name and
/// metadata, and the number of one of its pages.
pub proof fn lemma_matches_come_from_document(
    source: MatchSource,
    pages: Seq<(usize, Seq<char>)>,
    queries: Seq<QueryView>,
    k: nat,
)
    ensures
        document_matches(source, pages, queries, k) matches Ok(found) ==> forall|i: int|
            0 <= i < found.len() ==> comes_from(#[trigger] found[i], source, pages),
{
    lemma_reported_matches_come_from_pages(source, pages, queries, k, queries.len() as int);
}

/// Whether `query` has a match on one of the pages.
pub open spec fn occurs_somewhere(pages: Seq<(usize, Seq<char>)>, query: QueryView, k: nat) -> bool {
    exists|j: int| 0 <= j < pages.len() && occurs_on(#[trigger] pages[j], query, k)
}

/// Whether `query` has a match on `page`.
pub open spec fn occurs_on(page: (usize, Seq<char>), query: QueryView, k: nat) -> bool {
    page_matches(page.1, query.query, query.use_regex, k) matches Ok(snippets) && snippets.len() > 0
}

/// A filter query that the regex engine does not refuse is found exactly
/// where one of the pages that are searched has a match.
pub proof fn lemma_filter_found_on_some_page(
    pages: Seq<(usize, Seq<char>)>,
    query: QueryView,
    k: nat,
    from: int,
)
    requires
        0 <= from,
        refused_pattern(query) is None,
    ensures
        filter_found(pages, query, k, from) == Ok::<bool, Seq<char>>(
            exists|j: int| from <= j < pages.len() && occurs_on(#[trigger] pages[j], query, k),
        ),
    decreases pages.len() - from,
{
    if from < pages.len() {
        lemma_page_error_depends_on_query(pages[from].1, query, k);
        lemma_filter_found_on_some_page(pages, query, k, from + 1);
        let later = exists|j: int|
            from + 1 <= j < pages.len() && occurs_on(#[trigger] pages[j], query, k);
        let here = occurs_on(pages[from], query, k);
        assert((exists|j: int| from <= j < pages.len() && occurs_on(#[trigger] pages[j], query, k))
            == (here || later)) by {
            if later {
                let j = choose|j: int|
                    from + 1 <= j < pages.len() && occurs_on(#[trigger] pages[j], query, k);
                assert(from <= j < pages.len() && occurs_on(pages[j], query, k));
            }
            if exists|j: int| from <= j < pages.len() && occurs_on(#[trigger] pages[j], query, k) {
                let j = choose|j: int|
                    from <= j < pages.len() && occurs_on(#[trigger] pages[j], query, k);
                if j != from {
                    assert(from + 1 <= j < pages.len() && occurs_on(pages[j], query, k));
                }
            }
        }
    }
}

/// Where the regex engine refuses none of the queries, a document passes
/// the filters exactly if each filter query has a match on one of its pages.
pub proof fn lemma_filters_pass_where_all_occur(
    pages: Seq<(usize, Seq<char>)>,
    queries: Seq<QueryView>,
    k: nat,
    from: int,
)
    requires
        0 <= from,
        forall|i: int| 0 <= i < queries.len() ==> refused_pattern(#[trigger] queries[i]) is None,
    ensures
        filters_pass(pages, queries, k, from) == Ok::<bool, Seq<char>>(
            forall|i: int|
                from <= i < queries.len() && (#[trigger] queries[i]).query_type
                    == QueryType::Filter ==> occurs_somewhere(pages, queries[i], k),
        ),
    decreases queries.len() - from,
{
    if from < queries.len() {
        lemma_filters_pass_where_all_occur(pages, queries, k, from + 1);
        lemma_filter_found_on_some_page(pages, queries[from], k, 0);
        let later = forall|i: int|
            from + 1 <= i < queries.len() && (#[trigger] queries[i]).query_type
                == QueryType::Filter ==> occurs_somewhere(pages, queries[i], k);
        let all = forall|i: int|
            from <= i < queries.len() && (#[trigger] queries[i]).query_type == QueryType::Filter
                ==> occurs_somewhere(pages, queries[i], k);
        let here = queries[from].query_type == QueryType::Filter ==> occurs_somewhere(
            pages,
            queries[from],
            k,
        );
        assert(all == (here && later)) by {
            if here && later {
                assert forall|i: int|
                    from <= i < queries.len() && (#[trigger] queries[i]).query_type
                        == QueryType::Filter implies occurs_somewhere(pages, queries[i], k) by {
                    if i != from {
                        assert(from + 1 <= i);
                    }
                }
            }
            if all {
                assert(here);
                assert(later);
            }
        }
    }
}

/// A filter query that no page holds is found on none.
pub proof fn lemma_absent_filter_is_not_found(
    pages: Seq<(usize, Seq<char>)>,
    query: QueryView,
    k: nat,
    from: int,
)
    requires
        0 <= from,
        forall|j: int|
            0 <= j < pages.len() ==> page_matches(
                (#[trigger] pages[j]).1,
                query.query,
                query.use_regex,
                k,
            ) == Ok::<Seq<Snippet>, Seq<char>>(Seq::empty()),
    ensures
        filter_found(pages, query, k, from) == Ok::<bool, Seq<char>>(false),
    decreases pages.len() - from,
{
    if from < pages.len() {
        assert(page_matches(pages[from].1, query.query, query.use_regex, k) == Ok::<
            Seq<Snippet>,
            Seq<char>,
        >(Seq::empty()));
        lemma_absent_filter_is_not_found(pages, query, k, from + 1);
    }
}

/// A document that holds one of the filter queries on none of its pages
/// gives no match, whatever the other queries would find in it.
pub proof fn lemma_missing_filter_gives_nothing(
    source: MatchSource,
    pages: Seq<(usize, Seq<char>)>,
    queries: Seq<QueryView>,
    k: nat,
    i: int,
)
    requires
        0 <= i < queries.len(),
        queries[i].query_type == QueryType::Filter,
        forall|j: int|
            0 <= j < pages.len() ==> page_matches(
                (#[trigger] pages[j]).1,
                queries[i].query,
                queries[i].use_regex,
                k,
            ) == Ok::<Seq<Snippet>, Seq<char>>(Seq::empty()),
    ensures
        document_matches(source, pages, queries, k) matches Ok(found) ==> found.len() == 0,
{
    lemma_absent_filter_is_not_found(pages, queries[i], k, 0);
    lemma_filters_stop_at(pages, queries, k, i, 0);
}

/// Where the filter query `queries[i]` is found on no page, the filters
/// from any earlier query on do not pass.
pub proof fn lemma_filters_stop_at(
    pages: Seq<(usize, Seq<char>)>,
    queries: Seq<QueryView>,
    k: nat,
    i: int,
    from: int,
)
    requires
        0 <= from <= i < queries.len(),
        queries[i].query_type == QueryType::Filter,
        filter_found(pages, queries[i], k, 0) == Ok::<bool, Seq<char>>(false),
    ensures
        filters_pass(pages, queries, k, from) != Ok::<bool, Seq<char>>(true),
    decreases i - from,
{
    if from < i {
        lemma_filters_stop_at(pages, queries, k, i, from + 1);
    }
}

/// Whether a page can be searched for a query depends on the query alone.
pub proof fn lemma_page_error_depends_on_query(page: Seq<char>, query: QueryView, k: nat)
    ensures
        match refused_pattern(query) {
            Some(pattern) => page_matches(page, query.query, query.use_regex, k) == Err::<
                Seq<Snippet>,
                Seq<char>,
            >(pattern),
            None => page_matches(page, query.query, query.use_regex, k) is Ok,
        },
{
}

/// A filter query that is found on none of `pages[from..]` has no match
/// on any of them.
proof fn lemma_not_found_means_no_snippets(
    pages: Seq<(usize, Seq<char>)>,
    query: QueryView,
    k: nat,
    from: int,
)
    requires
        0 <= from,
        filter_found(pages, query, k, from) == Ok::<bool, Seq<char>>(false),
    ensures
        forall|j: int|
            from <= j < pages.len() ==> page_matches(
                (#[trigger] pages[j]).1,
                query.query,
                query.use_regex,
                k,
            ) == Ok::<Seq<Snippet>, Seq<char>>(Seq::empty()),
    decreases pages.len() - from,
{
    if from < pages.len() {
        let here = page_matches(pages[from].1, query.query, query.use_regex, k);
        assert(here is Ok && here->Ok_0.len() == 0);
        assert(here->Ok_0 =~= Seq::<Snippet>::empty());
        lemma_not_found_means_no_snippets(pages, query, k, from + 1);
    }
}

/// A query without a match on any of the first `upto` pages has no match there.
proof fn lemma_no_snippets_means_no_matches(
    source: MatchSource,
    pages: Seq<(usize, Seq<char>)>,
    query: QueryView,
    k: nat,
    upto: int,
)
    requires
        upto <= pages.len(),
        forall|j: int|
            0 <= j < pages.len() ==> page_matches(
                (#[trigger] pages[j]).1,
                query.query,
                query.use_regex,
                k,
            ) == Ok::<Seq<Snippet>, Seq<char>>(Seq::empty()),
    ensures
        query_matches(source, pages, query, k, upto) == Ok::<Seq<SearchMatchView>, Seq<char>>(
            Seq::empty(),
        ),
    decreases upto,
{
    if upto > 0 {
        lemma_no_snippets_means_no_matches(source, pages, query, k, upto - 1);
        assert(page_matches(pages[upto - 1].1, query.query, query.use_regex, k) == Ok::<
            Seq<Snippet>,
            Seq<char>,
        >(Seq::empty()));
        assert(Seq::<SearchMatchView>::empty() + matches_from(
            source,
            pages[upto - 1].0,
            Seq::<Snippet>::empty(),
        ) =~= Seq::<SearchMatchView>::empty());
    }
}

/// What a query finds does not depend on the part it plays.
proof fn lemma_matches_ignore_the_part(
    source: MatchSource,
    pages: Seq<(usize, Seq<char>)>,
    a: QueryView,
    b: QueryView,
    k: nat,
    upto: int,
)
    requires
        a.query == b.query,
        a.use_regex == b.use_regex,
    ensures
        query_matches(source, pages, a, k, upto) == query_matches(source, pages, b, k, upto),
    decreases upto,
{
    if 0 < upto <= pages.len() {
        lemma_matches_ignore_the_part(source, pages, a, b, k, upto - 1);
    }
}

/// A search with a single query gives the same whether the query is
/// marked as a filter or as a parallel query.
pub proof fn lemma_single_query_is_reported(
    source: MatchSource,
    pages: Seq<(usize, Seq<char>)>,
    query: QueryView,
    k: nat,
)
    ensures
        document_matches(
            source,
            pages,
            seq![QueryView { query_type: QueryType::Filter, ..query }],
            k,
        ) == document_matches(
            source,
            pages,
            seq![QueryView { query_type: QueryType::Parallel, ..query }],
            k,
        ),
{
    let as_filter = QueryView { query_type: QueryType::Filter, ..query };
    let as_parallel = QueryView { query_type: QueryType::Parallel, ..query };
    let filters = seq![as_filter];
    let parallels = seq![as_parallel];
    let n = pages.len() as int;
    lemma_matches_ignore_the_part(source, pages, as_filter, as_parallel, k, n);
    let found = query_matches(source, pages, as_parallel, k, n);

    // The parallel query passes the (empty) filter pass and is reported.
    assert(parallels[0].query_type == QueryType::Parallel);
    assert(has_parallel(parallels));
    assert(filters_pass(pages, parallels, k, 1) == Ok::<bool, Seq<char>>(true));
    assert(filters_pass(pages, parallels, k, 0) == Ok::<bool, Seq<char>>(true));
    assert(reported_matches(source, pages, parallels, k, 0) == Ok::<
        Seq<SearchMatchView>,
        Seq<char>,
    >(Seq::empty()));
    assert(is_reported(parallels, 0));
    assert(reported_matches(source, pages, parallels, k, 1) == found) by {
        if let Ok(ms) = found {
            assert(Seq::<SearchMatchView>::empty() + ms =~= ms);
        }
    }

    // The filter query is reported too, once it has passed as a filter.
    assert(!has_parallel(filters)) by {
        if has_parallel(filters) {
            let i = choose|i: int|
                0 <= i < filters.len() && (#[trigger] filters[i]).query_type
                    == QueryType::Parallel;
            assert(filters[i] == as_filter);
        }
    }
    assert(is_reported(filters, 0));
    assert(reported_matches(source, pages, filters, k, 0) == Ok::<
        Seq<SearchMatchView>,
        Seq<char>,
    >(Seq::empty()));
    assert(reported_matches(source, pages, filters, k, 1) == found) by {
        if let Ok(ms) = found {
            assert(Seq::<SearchMatchView>::empty() + ms =~= ms);
        }
    }
    assert(filters_pass(pages, filters, k, 1) == Ok::<bool, Seq<char>>(true));
    match filter_found(pages, as_filter, k, 0) {
        Ok(true) => {},
        Ok(false) => {
            lemma_not_found_means_no_snippets(pages, as_filter, k, 0);
            lemma_no_snippets_means_no_matches(source, pages, as_parallel, k, n);
        },
        Err(pattern) => {
            // The first page that is searched brings the error in both.
            assert(n > 0);
            lemma_page_error_depends_on_query(pages[0].1, as_filter, k);
            assert(refused_pattern(as_filter) == Some(pattern)) by {
                lemma_filter_error_depends_on_query(pages, as_filter, k, 0);
            }
            assert(query_matches(source, pages, as_parallel, k, 0) == Ok::<
                Seq<SearchMatchView>,
                Seq<char>,
            >(Seq::empty()));
            assert(query_matches(source, pages, as_parallel, k, 1) == Err::<
                Seq<SearchMatchView>,
                Seq<char>,
            >(pattern));
            lemma_query_error_stays(source, pages, as_parallel, k, 1, n);
        },
    }
}

/// An error of the filter search is the refused pattern of the query.
proof fn lemma_filter_error_depends_on_query(
    pages: Seq<(usize, Seq<char>)>,
    query: QueryView,
    k: nat,
    from: int,
)
    requires
        0 <= from,
    ensures
        filter_found(pages, query, k, from) matches Err(pattern) ==> refused_pattern(query)
            == Some(pattern),
    decreases pages.len() - from,
{
    if from < pages.len() {
        lemma_page_error_depends_on_query(pages[from].1, query, k);
        lemma_filter_error_depends_on_query(pages, query, k, from + 1);
    }
}

/// Where the regex engine refuses none of `queries[from..]`, it refuses no
/// query of that part.
pub proof fn lemma_none_refused(queries: Seq<QueryView>, from: int)
    requires
        0 <= from,
        first_refused(queries, from) is None,
    ensures
        forall|i: int| from <= i < queries.len() ==> refused_pattern(#[trigger] queries[i]) is None,
    decreases queries.len() - from,
{
    if from < queries.len() {
        lemma_none_refused(queries, from + 1);
    }
}

/// A query that the regex engine does not refuse is searched for on every page.
proof fn lemma_sound_query_does_not_fail(
    source: MatchSource,
    pages: Seq<(usize, Seq<char>)>,
    query: QueryView,
    k: nat,
    upto: int,
)
    requires
        refused_pattern(query) is None,
    ensures
        query_matches(source, pages, query, k, upto) is Ok,
    decreases upto,
{
    if 0 < upto <= pages.len() {
        lemma_sound_query_does_not_fail(source, pages, query, k, upto - 1);
        lemma_page_error_depends_on_query(pages[upto - 1].1, query, k);
    }
}

/// Queries that the regex engine does not refuse are all reported without error.
proof fn lemma_sound_queries_are_reported(
    source: MatchSource,
    pages: Seq<(usize, Seq<char>)>,
    queries: Seq<QueryView>,
    k: nat,
    upto: int,
)
    requires
        forall|i: int| 0 <= i < queries.len() ==> refused_pattern(#[trigger] queries[i]) is None,
    ensures
        reported_matches(source, pages, queries, k, upto) is Ok,
    decreases upto,
{
    if 0 < upto <= queries.len() {
        lemma_sound_queries_are_reported(source, pages, queries, k, upto - 1);
        lemma_sound_query_does_not_fail(source, pages, queries[upto - 1], k, pages.len() as int);
    }
}

/// With queries that the regex engine accepts, the search of a document
/// does not fail.
pub proof fn lemma_sound_queries_do_not_fail(
    source: MatchSource,
    pages: Seq<(usize, Seq<char>)>,
    queries: Seq<QueryView>,
    k: nat,
)
    requires
        first_refused(queries, 0) is None,
    ensures
        document_matches(source, pages, queries, k) is Ok,
{
    lemma_none_refused(queries, 0);
    lemma_filters_pass_where_all_occur(pages, queries, k, 0);
    lemma_sound_queries_are_reported(source, pages, queries, k, queries.len() as int);
}

/// With queries that the regex engine accepts, a document that holds one
/// of the filter queries on none of its pages is searched without error
/// and gives no match.
pub proof fn lemma_missing_filter_gives_empty_result(
    source: MatchSource,
    pages: Seq<(usize, Seq<char>)>,
    queries: Seq<QueryView>,
    k: nat,
    i: int,
)
    requires
        first_refused(queries, 0) is None,
        0 <= i < queries.len(),
        queries[i].query_type == QueryType::Filter,
        forall|j: int|
            0 <= j < pages.len() ==> page_matches(
                (#[trigger] pages[j]).1,
                queries[i].query,
                queries[i].use_regex,
                k,
            ) == Ok::<Seq<Snippet>, Seq<char>>(Seq::empty()),
    ensures
        document_matches(source, pages, queries, k) == Ok::<Seq<SearchMatchView>, Seq<char>>(
            Seq::empty(),
        ),
{
    lemma_sound_queries_do_not_fail(source, pages, queries, k);
    lemma_missing_filter_gives_nothing(source, pages, queries, k, i);
    assert(document_matches(source, pages, queries, k)->Ok_0 =~= Seq::<SearchMatchView>::empty());
}

} // verus!
