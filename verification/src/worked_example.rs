//! A search worked through by proof: two documents, one filter query and
//! one parallel query.

use crate::chars::{ascii_lowercase, is_whitespace_char};
use crate::corpus::{corpus_matches, search_outcome};
use crate::document::{DocumentView, SearchMatchView};
use crate::evaluation::{
    document_matches, filter_found, filters_pass, first_refused, has_parallel, is_reported,
    matches_from, query_matches, refused_pattern, reported_matches, source_of,
};
use crate::matcher::{
    char_snippet, fold_case, fold_char, literal_snippets, literal_starts, occurrences, occurs_at,
    page_matches, snippets_at,
};
use crate::normalize::{is_normalized, lemma_normalize_fixes_normalized, normalize};
use crate::pattern::Snippet;
use crate::query::{QueryType, QueryView};
use crate::words::{
    context_after, context_before, last_words, lemma_tokens_after_run, words, Separator,
};
use vstd::prelude::*;

verus! {

/// The word `alpha`.
pub open spec fn alpha() -> Seq<char> {
    seq!['a', 'l', 'p', 'h', 'a']
}

/// The word `beta`.
pub open spec fn beta() -> Seq<char> {
    seq!['b', 'e', 't', 'a']
}

/// The text `alpha beta`.
pub open spec fn alpha_beta() -> Seq<char> {
    alpha() + seq![' '] + beta()
}

/// The literal query for `text` in the part `query_type`.
pub open spec fn literal_query(text: Seq<char>, query_type: QueryType) -> QueryView {
    QueryView { query: text, use_regex: false, query_type, color: Seq::empty() }
}

/// A text without a character that is stripped is its own normal form, and
/// `alpha beta` loses its space.
proof fn lemma_normal_forms()
    ensures
        normalize(alpha()) == alpha(),
        normalize(beta()) == beta(),
        normalize(alpha_beta()) == alpha() + beta(),
{
    assert(is_normalized(alpha()));
    assert(is_normalized(beta()));
    lemma_normalize_fixes_normalized(alpha());
    lemma_normalize_fixes_normalized(beta());
    let keep = |c: char| !crate::normalize::is_stripped(c);
    Seq::filter_distributes_over_add(alpha() + seq![' '], beta(), keep);
    Seq::filter_distributes_over_add(alpha(), seq![' '], keep);
    assert(normalize(seq![' ']) =~= Seq::<char>::empty()) by {
        reveal_with_fuel(Seq::filter, 2);
        assert(seq![' '].drop_last() =~= Seq::<char>::empty());
    }
    assert(alpha() + Seq::<char>::empty() =~= alpha());
}

/// Two ASCII characters with different lowercase forms do not stand for
/// each other.
proof fn lemma_different_letters(a: char, b: char)
    requires
        a <= '\u{007F}',
        b <= '\u{007F}',
        ascii_lowercase(a) != ascii_lowercase(b),
    ensures
        fold_char(a) != fold_char(b),
{
    assert(fold_char(a)[0] == ascii_lowercase(a));
    assert(fold_char(b)[0] == ascii_lowercase(b));
}

/// `beta` stands in `alphabeta` at index 5 and nowhere before.
proof fn lemma_beta_in_alphabeta()
    ensures
        literal_starts(alpha() + beta(), beta()) == seq![5int],
{
    let text = alpha() + beta();
    let hay = fold_case(text);
    let needle = fold_case(beta());
    assert(needle[0] == fold_char('b'));
    assert forall|i: int| 0 <= i < 5 implies !occurs_at(hay, needle, i) by {
        assert(hay[i + 0] == fold_char(text[i]));
        lemma_different_letters(text[i], 'b');
    }
    assert(occurs_at(hay, needle, 5)) by {
        assert forall|j: int| 0 <= j < needle.len() implies hay[5 + j] == #[trigger] needle[j] by {
            assert(text[5 + j] == beta()[j]);
        }
    }
    assert(occurrences(hay, needle, 9) =~= Seq::<int>::empty());
    assert(occurrences(hay, needle, 5) =~= seq![5int]);
    assert(occurrences(hay, needle, 4) == occurrences(hay, needle, 5));
    assert(occurrences(hay, needle, 3) == occurrences(hay, needle, 4));
    assert(occurrences(hay, needle, 2) == occurrences(hay, needle, 3));
    assert(occurrences(hay, needle, 1) == occurrences(hay, needle, 2));
    assert(occurrences(hay, needle, 0) == occurrences(hay, needle, 1));
}

/// `alpha` stands at the start of `alphabeta` and nowhere else.
proof fn lemma_alpha_in_alphabeta()
    ensures
        literal_starts(alpha() + beta(), alpha()) == seq![0int],
{
    let text = alpha() + beta();
    let hay = fold_case(text);
    let needle = fold_case(alpha());
    assert(occurs_at(hay, needle, 0)) by {
        assert forall|j: int| 0 <= j < needle.len() implies hay[0 + j] == #[trigger] needle[j] by {
            assert(text[j] == alpha()[j]);
        }
    }
    assert(occurrences(hay, needle, 5) =~= Seq::<int>::empty());
    assert(occurrences(hay, needle, 0) =~= seq![0int]);
}

/// The one snippet of `beta` on the page `alpha beta`, with one word of context.
pub open spec fn beta_snippet() -> Snippet {
    (alpha(), beta(), Seq::empty())
}

/// What the queries find on the two pages.
proof fn lemma_pages()
    ensures
        page_matches(alpha_beta(), beta(), false, 1) == Ok::<Seq<Snippet>, Seq<char>>(
            seq![beta_snippet()],
        ),
        page_matches(alpha_beta(), alpha(), false, 1) matches Ok(found) && found.len() == 1,
        page_matches(beta(), alpha(), false, 1) == Ok::<Seq<Snippet>, Seq<char>>(Seq::empty()),
{
    lemma_normal_forms();
    lemma_beta_in_alphabeta();
    lemma_alpha_in_alphabeta();
    let text = alpha() + beta();
    // The context before `beta` is the one word `alpha`; after it nothing is left.
    assert(text.take(5) =~= alpha());
    assert(text.skip(9) =~= Seq::<char>::empty());
    assert(text.subrange(5, 9) =~= beta());
    assert forall|i: int| 0 <= i < alpha().len() implies !Separator::Whitespace.holds(
        #[trigger] alpha()[i],
    ) by {
        assert(!is_whitespace_char(alpha()[i]));
    }
    lemma_tokens_after_run(alpha(), Seq::empty(), Separator::Whitespace);
    assert(alpha() + Seq::<char>::empty() =~= alpha());
    assert(words(alpha()) =~= seq![alpha()]);
    assert(last_words(words(alpha()), 1) == seq![alpha()]);
    assert(context_before(alpha(), 1) == alpha());
    assert(words(Seq::<char>::empty()) =~= Seq::<Seq<char>>::empty());
    assert(context_after(Seq::<char>::empty(), 1) =~= Seq::<char>::empty());
    assert(char_snippet(text, 5, 9, 1) == beta_snippet());
    assert(snippets_at(text, seq![5int], 4, 1) =~= seq![beta_snippet()]);
    assert(literal_snippets(text, beta(), 1) == seq![beta_snippet()]);
    assert(literal_snippets(text, alpha(), 1).len() == 1);
    // `alpha` is longer than the page `beta`.
    assert(occurrences(fold_case(beta()), fold_case(alpha()), 0) =~= Seq::<int>::empty());
    assert(literal_snippets(beta(), alpha(), 1) =~= Seq::<Snippet>::empty());
}

/// The queries of the example: `alpha` as a filter, `beta` as a parallel query.
pub open spec fn example_queries() -> Seq<QueryView> {
    seq![literal_query(alpha(), QueryType::Filter), literal_query(beta(), QueryType::Parallel)]
}

/// The first document of the example: one page, `alpha beta`.
pub open spec fn first_document() -> DocumentView {
    DocumentView { path: "doc1.pdf"@, name: "doc1.pdf"@, pages: seq![(1usize, alpha_beta())] }
}

/// The second document of the example: one page, `beta`.
pub open spec fn second_document() -> DocumentView {
    DocumentView { path: "doc2.pdf"@, name: "doc2.pdf"@, pages: seq![(1usize, beta())] }
}

/// The one match of the example.
pub open spec fn example_match() -> SearchMatchView {
    SearchMatchView {
        file_path: "doc1.pdf"@,
        file_name: "doc1.pdf"@,
        page_number: 1,
        context_before: alpha(),
        matched_text: beta(),
        context_after: Seq::empty(),
        zotero_link: None,
        zotero_metadata: None,
    }
}

/// The first document passes the filter and gives its one `beta`.
proof fn lemma_first_document()
    ensures
        document_matches(
            source_of(first_document().path, first_document().name, None),
            first_document().pages,
            example_queries(),
            1,
        ) == Ok::<Seq<SearchMatchView>, Seq<char>>(seq![example_match()]),
{
    lemma_pages();
    let queries = example_queries();
    let pages = first_document().pages;
    let source = source_of(first_document().path, first_document().name, None);
    let filter = queries[0];
    let parallel = queries[1];
    assert(pages[0].1 == alpha_beta());
    // The filter pass.
    assert(filter_found(pages, filter, 1, 0) == Ok::<bool, Seq<char>>(true));
    assert(filters_pass(pages, queries, 1, 2) == Ok::<bool, Seq<char>>(true));
    assert(filters_pass(pages, queries, 1, 1) == Ok::<bool, Seq<char>>(true));
    assert(filters_pass(pages, queries, 1, 0) == Ok::<bool, Seq<char>>(true));
    // The parallel pass.
    assert(has_parallel(queries)) by {
        assert(queries[1].query_type == QueryType::Parallel);
    }
    assert(!is_reported(queries, 0));
    assert(is_reported(queries, 1));
    let none = Seq::<SearchMatchView>::empty();
    assert(query_matches(source, pages, parallel, 1, 0) == Ok::<Seq<SearchMatchView>, Seq<char>>(
        none,
    ));
    assert(none + matches_from(source, 1usize, seq![beta_snippet()]) =~= seq![example_match()]);
    assert(query_matches(source, pages, parallel, 1, 1) == Ok::<Seq<SearchMatchView>, Seq<char>>(
        seq![example_match()],
    ));
    assert(reported_matches(source, pages, queries, 1, 0) == Ok::<
        Seq<SearchMatchView>,
        Seq<char>,
    >(none));
    assert(reported_matches(source, pages, queries, 1, 1) == Ok::<
        Seq<SearchMatchView>,
        Seq<char>,
    >(none));
    assert(none + seq![example_match()] =~= seq![example_match()]);
    assert(reported_matches(source, pages, queries, 1, 2) == Ok::<
        Seq<SearchMatchView>,
        Seq<char>,
    >(seq![example_match()]));
}

/// The second document lacks `alpha` and gives nothing.
proof fn lemma_second_document()
    ensures
        document_matches(
            source_of(second_document().path, second_document().name, None),
            second_document().pages,
            example_queries(),
            1,
        ) == Ok::<Seq<SearchMatchView>, Seq<char>>(Seq::empty()),
{
    lemma_pages();
    let queries = example_queries();
    let pages = second_document().pages;
    let filter = queries[0];
    assert(pages[0].1 == beta());
    assert(filter_found(pages, filter, 1, 1) == Ok::<bool, Seq<char>>(false));
    assert(filter_found(pages, filter, 1, 0) == Ok::<bool, Seq<char>>(false));
    assert(filters_pass(pages, queries, 1, 0) == Ok::<bool, Seq<char>>(false));
}

/// A search of the two documents for `beta`, in documents that hold
/// `alpha`, with one word of context and without an index: the one match is
/// the `beta` of the first document, with `alpha` before it and nothing
/// after it. The second document, which holds a `beta` too, adds nothing,
/// and the filter query `alpha` is not reported itself.
pub proof fn lemma_filter_keeps_the_second_document_out()
    ensures
        search_outcome(seq![first_document(), second_document()], example_queries(), 1, None)
            == Ok::<Seq<SearchMatchView>, Seq<char>>(seq![example_match()]),
{
    let queries = example_queries();
    let documents = seq![first_document(), second_document()];
    assert(refused_pattern(queries[0]) is None);
    assert(refused_pattern(queries[1]) is None);
    assert(first_refused(queries, 2) is None);
    assert(first_refused(queries, 1) is None);
    assert(first_refused(queries, 0) is None);
    lemma_first_document();
    lemma_second_document();
    let one = documents.drop_last();
    assert(one =~= seq![first_document()]);
    assert(one.drop_last() =~= Seq::<DocumentView>::empty());
    assert(one.last() == first_document());
    assert(documents.last() == second_document());
    let none = Seq::<SearchMatchView>::empty();
    assert(corpus_matches(one.drop_last(), queries, 1, None) == Ok::<
        Seq<SearchMatchView>,
        Seq<char>,
    >(none));
    assert(none + seq![example_match()] =~= seq![example_match()]);
    assert(corpus_matches(one, queries, 1, None) == Ok::<Seq<SearchMatchView>, Seq<char>>(
        seq![example_match()],
    ));
    assert(seq![example_match()] + none =~= seq![example_match()]);
}

} // verus!
