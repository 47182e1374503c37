//! The queries of a search and the parameters of a run.

use vstd::prelude::*;
use vstd::string::StringExecFns;

verus! {

/// The part that a query plays in a search.
#[derive(Clone, Copy, Debug, PartialEq, Eq, Structural)]
pub enum QueryType {
    /// Every occurrence is reported, for each document that passes the filters.
    Parallel,
    /// The query must occur somewhere in a document for the document to be
    /// looked at; its occurrences are not reported.
    Filter,
}

/// The part that `name` stands for: `parallel` or `filter`, in lower case.
pub open spec fn query_type_named(name: Seq<char>) -> Option<QueryType> {
    if name == "parallel"@ {
        Some(QueryType::Parallel)
    } else if name == "filter"@ {
        Some(QueryType::Filter)
    } else {
        None
    }
}

/// The name of a part.
pub open spec fn name_of(query_type: QueryType) -> Seq<char> {
    match query_type {
        QueryType::Parallel => "parallel"@,
        QueryType::Filter => "filter"@,
    }
}

impl QueryType {
    /// Reads a part from its name.
    pub fn from_name(name: &str) -> (r: Option<QueryType>)
        ensures
            r == query_type_named(name@),
    {
        let given = name.to_owned();
        if given == String::from_str("parallel") {
            Some(QueryType::Parallel)
        } else if given == String::from_str("filter") {
            Some(QueryType::Filter)
        } else {
            None
        }
    }

    /// Writes the name of a part.
    pub fn name(self) -> (r: String)
        ensures
            r@ == name_of(self),
    {
        match self {
            QueryType::Parallel => String::from_str("parallel"),
            QueryType::Filter => String::from_str("filter"),
        }
    }
}

/// One search term.
#[derive(Debug)]
pub struct QueryItem {
    pub query: String,
    /// Whether `query` is a regular expression; else it is taken literally.
    pub use_regex: bool,
    pub query_type: QueryType,
    /// The colour in which a viewer marks the matches, as a hex code.
    pub color: String,
}

/// A `QueryItem` as plain values.
pub struct QueryView {
    pub query: Seq<char>,
    pub use_regex: bool,
    pub query_type: QueryType,
    pub color: Seq<char>,
}

impl DeepView for QueryItem {
    type V = QueryView;

    open spec fn deep_view(&self) -> QueryView {
        QueryView {
            query: self.query@,
            use_regex: self.use_regex,
            query_type: self.query_type,
            color: self.color@,
        }
    }
}

impl View for QueryItem {
    type V = QueryView;

    open spec fn view(&self) -> QueryView {
        self.deep_view()
    }
}

impl Clone for QueryItem {
    fn clone(&self) -> (r: Self)
        ensures
            r@ == self@,
    {
        QueryItem {
            query: self.query.clone(),
            use_regex: self.use_regex,
            query_type: self.query_type,
            color: self.color.clone(),
        }
    }
}

/// The part that a query plays where none is given.
pub fn default_query_type() -> (r: QueryType)
    ensures
        r == QueryType::Parallel,
{
    QueryType::Parallel
}

/// The marking colour where none is given: yellow.
pub fn default_color() -> (r: String)
    ensures
        r@ == "#ffff00"@,
{
    String::from_str("#ffff00")
}

impl QueryItem {
    /// A query with the default part and colour.
    pub fn new(query: String, use_regex: bool) -> (r: Self)
        ensures
            r@ == (QueryView {
                query: query@,
                use_regex,
                query_type: QueryType::Parallel,
                color: "#ffff00"@,
            }),
    {
        QueryItem { query, use_regex, query_type: default_query_type(), color: default_color() }
    }
}

/// A search term whose part is given by name, as a caller outside the
/// crate writes it.
#[derive(Debug)]
pub struct TaggedQuery {
    pub query: String,
    pub use_regex: bool,
    /// The name of the part: `parallel` or `filter`.
    pub query_type: String,
    pub color: String,
}

/// A `TaggedQuery` as plain values.
pub struct TaggedQueryView {
    pub query: Seq<char>,
    pub use_regex: bool,
    pub query_type: Seq<char>,
    pub color: Seq<char>,
}

impl DeepView for TaggedQuery {
    type V = TaggedQueryView;

    open spec fn deep_view(&self) -> TaggedQueryView {
        TaggedQueryView {
            query: self.query@,
            use_regex: self.use_regex,
            query_type: self.query_type@,
            color: self.color@,
        }
    }
}

impl View for TaggedQuery {
    type V = TaggedQueryView;

    open spec fn view(&self) -> TaggedQueryView {
        self.deep_view()
    }
}

/// The tagged query with the part `query_type`.
pub open spec fn with_part(tagged: TaggedQueryView, query_type: QueryType) -> QueryView {
    QueryView { query: tagged.query, use_regex: tagged.use_regex, query_type, color: tagged.color }
}

/// The queries whose part has a known name, in order.
pub open spec fn known_queries(tagged: Seq<TaggedQueryView>) -> Seq<QueryView>
    decreases tagged.len(),
{
    if tagged.len() == 0 {
        Seq::empty()
    } else {
        let before = known_queries(tagged.drop_last());
        match query_type_named(tagged.last().query_type) {
            Some(query_type) => before.push(with_part(tagged.last(), query_type)),
            None => before,
        }
    }
}

/// Whether one of the queries is named a parallel query.
pub open spec fn names_parallel(tagged: Seq<TaggedQueryView>) -> bool {
    exists|i: int|
        0 <= i < tagged.len() && query_type_named((#[trigger] tagged[i]).query_type) == Some(
            QueryType::Parallel,
        )
}

/// The queries that a list of tagged queries stands for. A query whose
/// part has no known name plays no part in the search, with one exception:
/// where no query is parallel and such a query comes first, it is the one
/// whose matches are reported.
pub open spec fn queries_of(tagged: Seq<TaggedQueryView>) -> Seq<QueryView> {
    if tagged.len() > 0 && !names_parallel(tagged) && query_type_named(tagged[0].query_type)
        is None {
        seq![with_part(tagged[0], QueryType::Parallel)] + known_queries(tagged)
    } else {
        known_queries(tagged)
    }
}

/// Reads the queries of a search from tagged queries.
pub fn queries_from_tagged(tagged: &Vec<TaggedQuery>) -> (r: Vec<QueryItem>)
    ensures
        r.deep_view() == queries_of(tagged.deep_view()),
{
    let ghost given = tagged.deep_view();
    let mut some_parallel = false;
    let mut i: usize = 0;
    while i < tagged.len()
        invariant
            i <= tagged.len(),
            given == tagged.deep_view(),
            some_parallel == exists|j: int|
                0 <= j < i && query_type_named((#[trigger] given[j]).query_type) == Some(
                    QueryType::Parallel,
                ),
        decreases tagged.len() - i,
    {
        let here = QueryType::from_name(tagged[i].query_type.as_str());
        proof {
            assert(given[i as int] == tagged@[i as int]@);
            if some_parallel {
                let j = choose|j: int|
                    0 <= j < i && query_type_named((#[trigger] given[j]).query_type) == Some(
                        QueryType::Parallel,
                    );
                assert(0 <= j < i + 1);
            }
        }
        if here == Some(QueryType::Parallel) {
            some_parallel = true;
        }
        i += 1;
    }
    let mut out: Vec<QueryItem> = Vec::new();
    let ghost lead = Seq::<QueryView>::empty();
    proof {
        assert(out.deep_view() =~= Seq::<QueryView>::empty());
    }
    if tagged.len() > 0 && !some_parallel {
        match QueryType::from_name(tagged[0].query_type.as_str()) {
            None => {
                proof {
                    assert(given[0] == tagged@[0]@);
                    lead = seq![with_part(given[0], QueryType::Parallel)];
                }
                out.push(
                    QueryItem {
                        query: tagged[0].query.clone(),
                        use_regex: tagged[0].use_regex,
                        query_type: QueryType::Parallel,
                        color: tagged[0].color.clone(),
                    },
                );
                proof {
                    assert(out.deep_view() =~= lead);
                }
            },
            Some(_) => {
                proof {
                    assert(given[0] == tagged@[0]@);
                }
            },
        }
    }
    proof {
        assert(given.take(0) =~= Seq::<TaggedQueryView>::empty());
        assert(lead + Seq::<QueryView>::empty() =~= lead);
    }
    let mut i: usize = 0;
    while i < tagged.len()
        invariant
            i <= tagged.len(),
            given == tagged.deep_view(),
            out.deep_view() == lead + known_queries(given.take(i as int)),
        decreases tagged.len() - i,
    {
        proof {
            let next = given.take(i + 1);
            assert(next.drop_last() =~= given.take(i as int));
            assert(next.last() == tagged@[i as int]@);
        }
        match QueryType::from_name(tagged[i].query_type.as_str()) {
            Some(query_type) => {
                let ghost shown = out.deep_view();
                out.push(
                    QueryItem {
                        query: tagged[i].query.clone(),
                        use_regex: tagged[i].use_regex,
                        query_type,
                        color: tagged[i].color.clone(),
                    },
                );
                proof {
                    let made = with_part(given[i as int], query_type);
                    assert(out.deep_view() =~= shown.push(made));
                    assert(shown.push(made) =~= lead + known_queries(given.take(i as int)).push(
                        made,
                    ));
                }
            },
            None => {},
        }
        i += 1;
    }
    proof {
        assert(given.take(given.len() as int) =~= given);
    }
    out
}

/// What a search over a directory is run with.
#[derive(Debug)]
pub struct SearchParams {
    pub queries: Vec<QueryItem>,
    /// The directory under which PDF files are looked for.
    pub directory: String,
    /// How many words of context to show on either side of a match.
    pub context_words: usize,
    /// The directory of the Zotero library to take metadata from, if any.
    pub zotero_path: Option<String>,
}

} // verus!
