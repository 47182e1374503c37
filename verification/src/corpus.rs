//! Searching a whole collection of documents, and picking the PDF files
//! out of a directory listing.

use crate::document::{Document, DocumentView, SearchMatch, SearchMatchView};
use crate::error::SearchError;
use crate::evaluation::{
    document_matches, entries_of, filters_pass, first_refused, search_pdf_with_queries,
    source_of, validate_queries,
};
use crate::evaluation_laws::{lemma_missing_filter_gives_nothing, lemma_sound_queries_do_not_fail};
use crate::matcher::page_matches;
use crate::pattern::{refused, Snippet};
use crate::metadata::{find_last, last_index_of, MetadataIndex, ZoteroMetadataView};
use crate::query::{QueryType, QueryView, SearchParams};
use crate::chars::{string_of, to_chars};
use vstd::prelude::*;
use vstd::string::StringExecFns;

verus! {

/// One entry of a directory listing.
#[derive(Debug)]
pub struct WalkedEntry {
    /// The path of the entry.
    pub path: String,
    /// The last component of the path.
    pub file_name: String,
    /// Whether the entry is a regular file, links followed.
    pub is_file: bool,
}

/// A `WalkedEntry` as plain values.
pub struct WalkedEntryView {
    pub path: Seq<char>,
    pub file_name: Seq<char>,
    pub is_file: bool,
}

impl DeepView for WalkedEntry {
    type V = WalkedEntryView;

    open spec fn deep_view(&self) -> WalkedEntryView {
        WalkedEntryView { path: self.path@, file_name: self.file_name@, is_file: self.is_file }
    }
}

impl View for WalkedEntry {
    type V = WalkedEntryView;

    open spec fn view(&self) -> WalkedEntryView {
        self.deep_view()
    }
}

/// The extension of a file name: what follows its last dot, where that dot
/// is not its first character.
pub open spec fn extension_of(file_name: Seq<char>) -> Option<Seq<char>> {
    let dot = last_index_of(file_name, '.');
    if dot > 0 {
        Some(file_name.skip(dot + 1))
    } else {
        None
    }
}

/// Whether an entry is a PDF file: a regular file with the extension `pdf`,
/// in lower case.
pub open spec fn is_pdf(entry: WalkedEntryView) -> bool {
    entry.is_file && extension_of(entry.file_name) == Some("pdf"@)
}

/// The paths of the PDF files among `entries`, in order.
pub open spec fn pdf_paths(entries: Seq<WalkedEntryView>) -> Seq<Seq<char>>
    decreases entries.len(),
{
    if entries.len() == 0 {
        Seq::empty()
    } else {
        let before = pdf_paths(entries.drop_last());
        if is_pdf(entries.last()) {
            before.push(entries.last().path)
        } else {
            before
        }
    }
}

/// Decides whether a file name has the extension `pdf`.
pub fn has_pdf_extension(file_name: &str) -> (r: bool)
    ensures
        r == (extension_of(file_name@) == Some("pdf"@)),
{
    let chars = to_chars(file_name);
    match find_last(&chars, '.') {
        Some(dot) => {
            if dot == 0 {
                return false;
            }
            let extension = string_of(&chars, dot + 1, chars.len());
            proof {
                assert(chars@.skip(dot + 1) =~= chars@.subrange(dot + 1, chars@.len() as int));
            }
            extension == String::from_str("pdf")
        },
        None => false,
    }
}

/// Picks the PDF files out of a directory listing.
pub fn find_pdf_files(entries: &Vec<WalkedEntry>) -> (r: Vec<String>)
    ensures
        r.deep_view() == pdf_paths(entries.deep_view()),
{
    let mut out: Vec<String> = Vec::new();
    let mut i: usize = 0;
    proof {
        assert(entries.deep_view().take(0) =~= Seq::empty());
        assert(out.deep_view() =~= Seq::<Seq<char>>::empty());
    }
    while i < entries.len()
        invariant
            i <= entries.len(),
            out.deep_view() == pdf_paths(entries.deep_view().take(i as int)),
        decreases entries.len() - i,
    {
        proof {
            let next = entries.deep_view().take(i + 1);
            assert(next.drop_last() =~= entries.deep_view().take(i as int));
            assert(next.last() == entries@[i as int]@);
        }
        if entries[i].is_file && has_pdf_extension(entries[i].file_name.as_str()) {
            let ghost shown = out.deep_view();
            out.push(entries[i].path.clone());
            proof {
                assert(out.deep_view() =~= shown.push(entries@[i as int].path@));
            }
        }
        i += 1;
    }
    proof {
        assert(entries.deep_view().take(entries.deep_view().len() as int)
            =~= entries.deep_view());
    }
    out
}

/// The result of a search over `documents`: the matches of the documents,
/// one document after the other, or the pattern that the regex engine
/// refused in the first document whose search reached one.
pub open spec fn corpus_matches(
    documents: Seq<DocumentView>,
    queries: Seq<QueryView>,
    k: nat,
    index: Option<Map<Seq<char>, ZoteroMetadataView>>,
) -> Result<Seq<SearchMatchView>, Seq<char>>
    decreases documents.len(),
{
    if documents.len() == 0 {
        Ok(Seq::empty())
    } else {
        match corpus_matches(documents.drop_last(), queries, k, index) {
            Err(pattern) => Err(pattern),
            Ok(before) => match document_matches(
                source_of(documents.last().path, documents.last().name, index),
                documents.last().pages,
                queries,
                k,
            ) {
                Err(pattern) => Err(pattern),
                Ok(found) => Ok(before + found),
            },
        }
    }
}

/// What a search gives. Without queries or without documents nothing is
/// found. Else the queries are checked first: the first pattern that the
/// regex engine refuses ends the search, whether or not a document would
/// reach it. With sound queries the documents are searched.
pub open spec fn search_outcome(
    documents: Seq<DocumentView>,
    queries: Seq<QueryView>,
    k: nat,
    index: Option<Map<Seq<char>, ZoteroMetadataView>>,
) -> Result<Seq<SearchMatchView>, Seq<char>> {
    if queries.len() == 0 || documents.len() == 0 {
        Ok(Seq::empty())
    } else {
        match first_refused(queries, 0) {
            Some(pattern) => Err(pattern),
            None => corpus_matches(documents, queries, k, index),
        }
    }
}

/// With queries that the regex engine accepts, the search of a collection
/// does not fail.
pub proof fn lemma_sound_queries_search_every_document(
    documents: Seq<DocumentView>,
    queries: Seq<QueryView>,
    k: nat,
    index: Option<Map<Seq<char>, ZoteroMetadataView>>,
)
    requires
        first_refused(queries, 0) is None,
    ensures
        corpus_matches(documents, queries, k, index) is Ok,
    decreases documents.len(),
{
    if documents.len() > 0 {
        lemma_sound_queries_search_every_document(documents.drop_last(), queries, k, index);
        let last = documents.last();
        lemma_sound_queries_do_not_fail(
            source_of(last.path, last.name, index),
            last.pages,
            queries,
            k,
        );
    }
}

/// Searching without queries would find nothing in any collection, so
/// that a search without queries loses nothing by not looking.
pub proof fn lemma_no_queries_no_matches(
    documents: Seq<DocumentView>,
    k: nat,
    index: Option<Map<Seq<char>, ZoteroMetadataView>>,
)
    ensures
        corpus_matches(documents, Seq::empty(), k, index) == Ok::<
            Seq<SearchMatchView>,
            Seq<char>,
        >(Seq::empty()),
    decreases documents.len(),
{
    let queries = Seq::<QueryView>::empty();
    if documents.len() > 0 {
        lemma_no_queries_no_matches(documents.drop_last(), k, index);
        let last = documents.last();
        let source = source_of(last.path, last.name, index);
        assert(filters_pass(last.pages, queries, k, 0) == Ok::<bool, Seq<char>>(true));
        assert(document_matches(source, last.pages, queries, k) == Ok::<
            Seq<SearchMatchView>,
            Seq<char>,
        >(Seq::empty()));
        assert(Seq::<SearchMatchView>::empty() + Seq::<SearchMatchView>::empty() =~= Seq::<
            SearchMatchView,
        >::empty());
    }
}

/// Searching a collection gives what searching its parts gives, one after
/// the other: the documents can be searched apart from each other.
pub proof fn lemma_corpus_splits(
    first: Seq<DocumentView>,
    second: Seq<DocumentView>,
    queries: Seq<QueryView>,
    k: nat,
    index: Option<Map<Seq<char>, ZoteroMetadataView>>,
)
    ensures
        corpus_matches(first + second, queries, k, index) == match corpus_matches(
            first,
            queries,
            k,
            index,
        ) {
            Err(pattern) => Err::<Seq<SearchMatchView>, Seq<char>>(pattern),
            Ok(before) => match corpus_matches(second, queries, k, index) {
                Err(pattern) => Err(pattern),
                Ok(after) => Ok(before + after),
            },
        },
    decreases second.len(),
{
    if second.len() == 0 {
        assert(first + second =~= first);
        if let Ok(before) = corpus_matches(first, queries, k, index) {
            assert(before + Seq::<SearchMatchView>::empty() =~= before);
        }
    } else {
        lemma_corpus_splits(first, second.drop_last(), queries, k, index);
        assert((first + second).drop_last() =~= first + second.drop_last());
        assert((first + second).last() == second.last());
        let last = second.last();
        if let Ok(before) = corpus_matches(first, queries, k, index) {
            if let Ok(middle) = corpus_matches(second.drop_last(), queries, k, index) {
                if let Ok(found) = document_matches(
                    source_of(last.path, last.name, index),
                    last.pages,
                    queries,
                    k,
                ) {
                    assert((before + middle) + found =~= before + (middle + found));
                }
            }
        }
    }
}

/// A document that holds one of the filter queries on none of its pages
/// adds nothing to the result of a search: the result is that of the search
/// without the document.
pub proof fn lemma_document_without_filter_adds_nothing(
    first: Seq<DocumentView>,
    document: DocumentView,
    rest: Seq<DocumentView>,
    queries: Seq<QueryView>,
    k: nat,
    index: Option<Map<Seq<char>, ZoteroMetadataView>>,
    i: int,
)
    requires
        0 <= i < queries.len(),
        queries[i].query_type == QueryType::Filter,
        forall|j: int|
            0 <= j < document.pages.len() ==> page_matches(
                (#[trigger] document.pages[j]).1,
                queries[i].query,
                queries[i].use_regex,
                k,
            ) == Ok::<Seq<Snippet>, Seq<char>>(Seq::empty()),
    ensures
        corpus_matches(first + seq![document] + rest, queries, k, index) is Ok ==> corpus_matches(
            first + seq![document] + rest,
            queries,
            k,
            index,
        ) == corpus_matches(first + rest, queries, k, index),
{
    let alone = seq![document];
    let source = source_of(document.path, document.name, index);
    lemma_missing_filter_gives_nothing(source, document.pages, queries, k, i);
    lemma_corpus_splits(first + alone, rest, queries, k, index);
    lemma_corpus_splits(first, alone, queries, k, index);
    lemma_corpus_splits(first, rest, queries, k, index);
    assert(alone.drop_last() =~= Seq::<DocumentView>::empty());
    assert(alone.last() == document);
    assert(corpus_matches(alone.drop_last(), queries, k, index) == Ok::<
        Seq<SearchMatchView>,
        Seq<char>,
    >(Seq::empty()));
    if corpus_matches(first + alone + rest, queries, k, index) is Ok {
        let found = document_matches(source, document.pages, queries, k)->Ok_0;
        assert(found =~= Seq::<SearchMatchView>::empty());
        assert(corpus_matches(alone, queries, k, index) == Ok::<Seq<SearchMatchView>, Seq<char>>(
            Seq::<SearchMatchView>::empty() + found,
        ));
        let before = corpus_matches(first, queries, k, index)->Ok_0;
        assert(before + (Seq::<SearchMatchView>::empty() + found) =~= before);
    }
}

/// Searches every document for the queries of `params` and gathers the
/// matches, document after document. Without queries or without documents
/// nothing is found, and nothing is checked. Else the queries are checked
/// before any document is looked at: a regex query that the engine refuses
/// ends the search.
pub fn search_pdfs(
    params: &SearchParams,
    documents: &Vec<Document>,
    zotero_map: Option<&MetadataIndex>,
) -> (r: Result<Vec<SearchMatch>, SearchError>)
    ensures
        match search_outcome(
            documents.deep_view(),
            params.queries.deep_view(),
            params.context_words as nat,
            entries_of(zotero_map),
        ) {
            Ok(matches) => r matches Ok(found) && found.deep_view() == matches,
            Err(pattern) => r matches Err(e) && e@ == refused(pattern),
        },
        first_refused(params.queries.deep_view(), 0) is None ==> r is Ok,
{
    let ghost queries = params.queries.deep_view();
    let ghost k = params.context_words as nat;
    let ghost index = entries_of(zotero_map);
    let mut out: Vec<SearchMatch> = Vec::new();
    proof {
        assert(out.deep_view() =~= Seq::<SearchMatchView>::empty());
    }
    if params.queries.len() == 0 || documents.len() == 0 {
        return Ok(out);
    }
    validate_queries(&params.queries)?;
    let mut i: usize = 0;
    proof {
        assert(documents.deep_view().take(0) =~= Seq::empty());
    }
    while i < documents.len()
        invariant
            i <= documents.len(),
            queries == params.queries.deep_view(),
            k == params.context_words as nat,
            index == entries_of(zotero_map),
            first_refused(queries, 0) is None,
            corpus_matches(documents.deep_view().take(i as int), queries, k, index) == Ok::<
                Seq<SearchMatchView>,
                Seq<char>,
            >(out.deep_view()),
        decreases documents.len() - i,
    {
        proof {
            let next = documents.deep_view().take(i + 1);
            assert(next.drop_last() =~= documents.deep_view().take(i as int));
            assert(next.last() == documents@[i as int]@);
            lemma_sound_queries_do_not_fail(
                source_of(documents@[i as int].path@, documents@[i as int].name@, index),
                documents@[i as int].pages.deep_view(),
                queries,
                k,
            );
        }
        let searched = search_pdf_with_queries(
            &documents[i],
            &params.queries,
            params.context_words,
            zotero_map,
        );
        let mut found = match searched {
            Ok(found) => found,
            Err(e) => {
                return Err(e);
            },
        };
        let ghost before = out.deep_view();
        let ghost added = found.deep_view();
        out.append(&mut found);
        proof {
            assert(out.deep_view() =~= before + added);
        }
        i += 1;
    }
    proof {
        assert(documents.deep_view().take(documents.deep_view().len() as int)
            =~= documents.deep_view());
    }
    Ok(out)
}

} // verus!
