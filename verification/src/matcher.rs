//! Finding the occurrences of one query in the text of one page.

use crate::chars::{lowercase, lowercase_of, string_of, to_chars};
use crate::error::SearchError;
use crate::normalize::{is_normalized, lemma_normalize_is_normalized, normalize, normalize_text};
use crate::pattern::{
    case_insensitive, find_spans, lemma_fitting_spans_give_snippets, match_snippets, refused,
    regex_compiles, regex_spans, snippets_of_spans, successive_spans, Snippet,
};
use crate::words::{context_after, context_after_of, context_before, context_before_of};
use vstd::prelude::*;
use vstd::string::StringExecFns;

verus! {

/// What stands for `c` when letter case is set aside: its lowercase form,
/// where the final sigma counts as a sigma.
pub open spec fn fold_char(c: char) -> Seq<char> {
    if c == '\u{03C2}' {
        seq!['\u{03C3}']
    } else {
        lowercase_of(c)
    }
}

/// For each character of `s`, what stands for it when letter case is set aside.
pub open spec fn fold_case(s: Seq<char>) -> Seq<Seq<char>> {
    Seq::new(s.len(), |i: int| fold_char(s[i]))
}

/// Whether `needle` stands in `hay` at index `i`.
pub open spec fn occurs_at(hay: Seq<Seq<char>>, needle: Seq<Seq<char>>, i: int) -> bool {
    &&& 0 <= i
    &&& i + needle.len() <= hay.len()
    &&& forall|j: int| 0 <= j < needle.len() ==> hay[i + j] == #[trigger] needle[j]
}

/// Where a scan from left to right, starting at `from`, finds `needle` in
/// `hay`: after each find the scan goes on behind it, so no two overlap.
/// An empty needle is found nowhere.
pub open spec fn occurrences(hay: Seq<Seq<char>>, needle: Seq<Seq<char>>, from: int) -> Seq<int>
    decreases hay.len() - from,
{
    if needle.len() == 0 || from < 0 || from + needle.len() > hay.len() {
        Seq::empty()
    } else if occurs_at(hay, needle, from) {
        seq![from] + occurrences(hay, needle, from + needle.len())
    } else {
        occurrences(hay, needle, from + 1)
    }
}

/// Where `query` is found in `text`, letter case aside.
pub open spec fn literal_starts(text: Seq<char>, query: Seq<char>) -> Seq<int> {
    occurrences(fold_case(text), fold_case(query), 0)
}

/// The snippet for the match that covers `text[start..end]`.
pub open spec fn char_snippet(text: Seq<char>, start: int, end: int, k: nat) -> Snippet {
    (context_before(text.take(start), k), text.subrange(start, end), context_after(text.skip(end), k))
}

/// The snippets for matches of length `len` that begin at `starts`.
pub open spec fn snippets_at(text: Seq<char>, starts: Seq<int>, len: nat, k: nat) -> Seq<Snippet> {
    Seq::new(starts.len(), |i: int| char_snippet(text, starts[i], starts[i] + len, k))
}

/// The snippets for `query` taken literally, letter case aside, in `text`.
pub open spec fn literal_snippets(text: Seq<char>, query: Seq<char>, k: nat) -> Seq<Snippet> {
    snippets_at(text, literal_starts(text, query), query.len(), k)
}

/// What a search of one page gives: the snippets of the matches in page
/// order, or the pattern that the regex engine refused. Page and query are
/// normalised first. An empty query and an empty page have no match.
pub open spec fn page_matches(page: Seq<char>, query: Seq<char>, use_regex: bool, k: nat) -> Result<
    Seq<Snippet>,
    Seq<char>,
> {
    let text = normalize(page);
    let wanted = normalize(query);
    if wanted.len() == 0 {
        Ok(Seq::empty())
    } else if use_regex {
        let pattern = case_insensitive(wanted);
        if !regex_compiles(pattern) {
            Err(pattern)
        } else if text.len() == 0 {
            Ok(Seq::empty())
        } else {
            Ok(match_snippets(text, regex_spans(pattern, text), k))
        }
    } else {
        Ok(literal_snippets(text, wanted, k))
    }
}

/// Every start that the scan reports is at or after `from` and is an
/// occurrence, and each next one begins behind the end of the one before.
pub proof fn lemma_occurrences_sound(hay: Seq<Seq<char>>, needle: Seq<Seq<char>>, from: int)
    requires
        0 <= from,
    ensures
        forall|j: int|
            0 <= j < occurrences(hay, needle, from).len() ==> from <= #[trigger] occurrences(
                hay,
                needle,
                from,
            )[j] && occurs_at(hay, needle, occurrences(hay, needle, from)[j]),
        forall|j: int|
            0 <= j < occurrences(hay, needle, from).len() - 1 ==> #[trigger] occurrences(
                hay,
                needle,
                from,
            )[j] + needle.len() <= occurrences(hay, needle, from)[j + 1],
    decreases hay.len() - from,
{
    let found = occurrences(hay, needle, from);
    if needle.len() == 0 || from + needle.len() > hay.len() {
        assert(found.len() == 0);
    } else if occurs_at(hay, needle, from) {
        let later = occurrences(hay, needle, from + needle.len());
        lemma_occurrences_sound(hay, needle, from + needle.len());
        assert(found == seq![from] + later);
        assert forall|j: int| 0 <= j < found.len() implies from <= #[trigger] found[j] && occurs_at(
            hay,
            needle,
            found[j],
        ) by {
            if j > 0 {
                assert(found[j] == later[j - 1]);
            }
        }
        assert forall|j: int| 0 <= j < found.len() - 1 implies #[trigger] found[j] + needle.len()
            <= found[j + 1] by {
            assert(found[j + 1] == later[j]);
            if j > 0 {
                assert(found[j] == later[j - 1]);
            }
        }
    } else {
        lemma_occurrences_sound(hay, needle, from + 1);
        assert(found == occurrences(hay, needle, from + 1));
    }
}

/// The scan passes over no occurrence: one at or after `from` is reported
/// itself or begins inside a reported one.
pub proof fn lemma_occurrences_complete(
    hay: Seq<Seq<char>>,
    needle: Seq<Seq<char>>,
    from: int,
    i: int,
)
    requires
        0 <= from <= i,
        needle.len() > 0,
        occurs_at(hay, needle, i),
    ensures
        exists|j: int|
            0 <= j < occurrences(hay, needle, from).len() && #[trigger] occurrences(
                hay,
                needle,
                from,
            )[j] <= i < occurrences(hay, needle, from)[j] + needle.len(),
    decreases hay.len() - from,
{
    let found = occurrences(hay, needle, from);
    if occurs_at(hay, needle, from) {
        let later = occurrences(hay, needle, from + needle.len());
        assert(found == seq![from] + later);
        if i < from + needle.len() {
            assert(found[0] <= i < found[0] + needle.len());
        } else {
            lemma_occurrences_complete(hay, needle, from + needle.len(), i);
            let j = choose|j: int|
                0 <= j < later.len() && #[trigger] later[j] <= i < later[j] + needle.len();
            assert(found[j + 1] == later[j]);
            assert(found[j + 1] <= i < found[j + 1] + needle.len());
        }
    } else {
        lemma_occurrences_complete(hay, needle, from + 1, i);
        assert(found == occurrences(hay, needle, from + 1));
    }
}

/// A literal query whose normalised text stands somewhere in the normalised
/// page is found at least once, and what is reported as matched is normalised
/// text that differs from the normalised query in letter case at most.
pub proof fn lemma_literal_query_is_found(page: Seq<char>, query: Seq<char>, k: nat, i: int)
    requires
        normalize(query).len() > 0,
        0 <= i,
        i + normalize(query).len() <= normalize(page).len(),
        normalize(page).subrange(i, i + normalize(query).len()) == normalize(query),
    ensures
        page_matches(page, query, false, k) matches Ok(found) && found.len() > 0 && forall|j: int|
            0 <= j < found.len() ==> normalize((#[trigger] found[j]).1) == found[j].1 && fold_case(
                found[j].1,
            ) == fold_case(normalize(query)),
{
    let text = normalize(page);
    let wanted = normalize(query);
    let hay = fold_case(text);
    let needle = fold_case(wanted);
    let starts = occurrences(hay, needle, 0);
    let found = literal_snippets(text, wanted, k);
    assert(occurs_at(hay, needle, i)) by {
        assert forall|j: int| 0 <= j < needle.len() implies hay[i + j] == #[trigger] needle[j] by {
            assert(text.subrange(i, i + wanted.len())[j] == wanted[j]);
        }
    }
    lemma_occurrences_complete(hay, needle, 0, i);
    lemma_occurrences_sound(hay, needle, 0);
    lemma_normalize_is_normalized(page);
    assert forall|j: int| 0 <= j < found.len() implies normalize((#[trigger] found[j]).1)
        == found[j].1 && fold_case(found[j].1) == fold_case(wanted) by {
        let at = starts[j];
        let matched = text.subrange(at, at + wanted.len());
        assert(found[j].1 == matched);
        assert(occurs_at(hay, needle, at));
        assert(is_normalized(matched)) by {
            assert forall|t: int| 0 <= t < matched.len() implies !crate::normalize::is_stripped(
                #[trigger] matched[t],
            ) by {
                assert(matched[t] == text[at + t]);
            }
        }
        crate::normalize::lemma_normalize_fixes_normalized(matched);
        assert(fold_case(matched) =~= needle) by {
            assert forall|t: int| 0 <= t < needle.len() implies fold_case(matched)[t]
                == needle[t] by {
                assert(hay[at + t] == needle[t]);
                assert(matched[t] == text[at + t]);
            }
        }
    }
}

/// The lowercase forms held by `v`, one per element.
pub open spec fn folded(v: Seq<Vec<char>>) -> Seq<Seq<char>> {
    Seq::new(v.len(), |i: int| v[i]@)
}

/// What stands for each character of `chars` when letter case is set aside.
pub fn fold_chars(chars: &Vec<char>) -> (r: Vec<Vec<char>>)
    ensures
        folded(r@) == fold_case(chars@),
{
    let mut out: Vec<Vec<char>> = Vec::new();
    let mut i: usize = 0;
    while i < chars.len()
        invariant
            i <= chars.len(),
            out@.len() == i,
            forall|j: int| 0 <= j < i ==> (#[trigger] out@[j])@ == fold_char(chars@[j]),
        decreases chars.len() - i,
    {
        let c = chars[i];
        let folded = if c == '\u{03C2}' {
            vec!['\u{03C3}']
        } else {
            lowercase(c)
        };
        out.push(folded);
        i += 1;
    }
    proof {
        assert(folded(out@) =~= fold_case(chars@));
    }
    out
}

/// Whether `a` and `b` hold the same characters.
pub fn same_chars(a: &Vec<char>, b: &Vec<char>) -> (r: bool)
    ensures
        r == (a@ == b@),
{
    if a.len() != b.len() {
        return false;
    }
    let mut i: usize = 0;
    while i < a.len()
        invariant
            i <= a.len() == b.len(),
            forall|j: int| 0 <= j < i ==> a@[j] == b@[j],
        decreases a.len() - i,
    {
        if a[i] != b[i] {
            return false;
        }
        i += 1;
    }
    proof {
        assert(a@ =~= b@);
    }
    true
}

/// Whether `needle` stands in `hay` at index `i`.
pub fn occurs_here(hay: &Vec<Vec<char>>, needle: &Vec<Vec<char>>, i: usize) -> (r: bool)
    requires
        i + needle.len() <= hay.len(),
    ensures
        r == occurs_at(folded(hay@), folded(needle@), i as int),
{
    let mut j: usize = 0;
    while j < needle.len()
        invariant
            j <= needle.len(),
            i + needle.len() <= hay.len(),
            forall|t: int| 0 <= t < j ==> folded(hay@)[i + t] == #[trigger] folded(needle@)[t],
        decreases needle.len() - j,
    {
        if !same_chars(&hay[i + j], &needle[j]) {
            proof {
                assert(folded(hay@)[i + j] != folded(needle@)[j as int]);
            }
            return false;
        }
        j += 1;
    }
    true
}

/// The snippets for `query` taken literally, letter case aside, in `text`.
pub fn literal_snippets_of(text: &Vec<char>, query: &Vec<char>, k: usize) -> (r: Vec<
    (String, String, String),
>)
    ensures
        r.deep_view() == literal_snippets(text@, query@, k as nat),
{
    let mut out: Vec<(String, String, String)> = Vec::new();
    let n = text.len();
    let m = query.len();
    let ghost hay = fold_case(text@);
    let ghost needle = fold_case(query@);
    proof {
        assert(out.deep_view() =~= Seq::<Snippet>::empty());
    }
    if m == 0 || m > n {
        proof {
            assert(literal_snippets(text@, query@, k as nat) =~= Seq::<Snippet>::empty());
        }
        return out;
    }
    let folded_text = fold_chars(text);
    let folded_query = fold_chars(query);
    let mut from: usize = 0;
    proof {
        assert(out.deep_view() + snippets_at(text@, occurrences(hay, needle, 0), m as nat, k as nat)
            =~= snippets_at(text@, occurrences(hay, needle, 0), m as nat, k as nat));
    }
    while from <= n - m
        invariant
            0 < m <= n,
            n == text.len(),
            m == query.len(),
            from <= n,
            hay == fold_case(text@),
            needle == fold_case(query@),
            folded(folded_text@) == hay,
            folded(folded_query@) == needle,
            out.deep_view() + snippets_at(
                text@,
                occurrences(hay, needle, from as int),
                m as nat,
                k as nat,
            ) == literal_snippets(text@, query@, k as nat),
        decreases n - from,
    {
        let ghost rest = occurrences(hay, needle, from as int);
        if occurs_here(&folded_text, &folded_query, from) {
            let context_before = context_before_of(text, from, k);
            let matched_text = string_of(text, from, from + m);
            let context_after = context_after_of(text, from + m, k);
            let ghost shown = out.deep_view();
            let ghost snippet = char_snippet(text@, from as int, from + m, k as nat);
            out.push((context_before, matched_text, context_after));
            proof {
                let later = occurrences(hay, needle, from + m);
                assert(rest == seq![from as int] + later);
                assert(out.deep_view() =~= shown.push(snippet));
                assert(snippets_at(text@, rest, m as nat, k as nat) =~= seq![snippet]
                    + snippets_at(text@, later, m as nat, k as nat));
                assert(shown.push(snippet) + snippets_at(text@, later, m as nat, k as nat)
                    =~= shown + snippets_at(text@, rest, m as nat, k as nat));
            }
            from = from + m;
        } else {
            from = from + 1;
        }
    }
    proof {
        assert(occurrences(hay, needle, from as int) =~= Seq::<int>::empty());
        assert(out.deep_view() + snippets_at(
            text@,
            Seq::<int>::empty(),
            m as nat,
            k as nat,
        ) =~= out.deep_view());
    }
    out
}

/// Finds every occurrence of `query` in `page_text`. Both are normalised
/// first. A literal query is matched letter case aside, character by
/// character: each character is compared by its lowercase form, and the
/// final sigma counts as a sigma. A regex query is compiled with
/// case-insensitive matching switched on; its matches come in page order
/// and do not overlap. Each match comes with up to `context_words` words of
/// context on either side.
pub fn search_in_page(page_text: &str, query: &str, context_words: usize, use_regex: bool) -> (r:
    Result<Vec<(String, String, String)>, SearchError>)
    ensures
        match page_matches(page_text@, query@, use_regex, context_words as nat) {
            Ok(snippets) => r matches Ok(found) && found.deep_view() == snippets,
            Err(pattern) => r matches Err(e) && e@ == refused(pattern),
        },
        use_regex && r is Ok && normalize(query@).len() > 0 ==> successive_spans(
            normalize(page_text@),
            regex_spans(case_insensitive(normalize(query@)), normalize(page_text@)),
        ),
{
    let wanted = normalize_text(query);
    let text = normalize_text(page_text);
    let wanted_chars = to_chars(wanted.as_str());
    if wanted_chars.len() == 0 {
        let none: Vec<(String, String, String)> = Vec::new();
        proof {
            assert(none.deep_view() =~= Seq::<Snippet>::empty());
        }
        return Ok(none);
    }
    if use_regex {
        let mut pattern = String::from_str("(?i)");
        pattern.append(wanted.as_str());
        match find_spans(pattern.as_str(), text.as_str()) {
            Ok(spans) => {
                if text.as_str().is_empty() {
                    let none: Vec<(String, String, String)> = Vec::new();
                    proof {
                        assert(none.deep_view() =~= Seq::<Snippet>::empty());
                    }
                    Ok(none)
                } else {
                    proof {
                        lemma_fitting_spans_give_snippets(text@, spans@, context_words as nat);
                    }
                    Ok(snippets_of_spans(text.as_str(), &spans, context_words))
                }
            },
            Err(reason) => Err(SearchError::InvalidPattern { pattern, reason }),
        }
    } else {
        let text_chars = to_chars(text.as_str());
        Ok(literal_snippets_of(&text_chars, &wanted_chars, context_words))
    }
}

} // verus!
