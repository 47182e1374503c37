//! Regular-expression queries. The engine is the `regex` crate; this module
//! holds the call into it and the verified step from the byte spans it
//! reports to the snippets of a page.

use crate::chars::to_chars;
use crate::error::SearchErrorView;
use crate::words::{context_after, context_after_of, context_before, context_before_of};
use vstd::prelude::*;
use vstd::string::StringSliceAdditionalSpecFns;
use vstd::utf8::{
    decode_utf8, encode_utf8, encode_utf8_decode_utf8, encode_utf8_valid_utf8, is_char_boundary,
    is_char_boundary_iff_not_is_continuation_byte, is_char_boundary_start_end_of_seq,
    valid_utf8, valid_utf8_split,
};

verus! {

/// What is shown of one match: the context before it, the matched text and
/// the context after it.
pub type Snippet = (Seq<char>, Seq<char>, Seq<char>);

/// Whether the regex engine accepts `pattern`.
pub uninterp spec fn regex_compiles(pattern: Seq<char>) -> bool;

/// The matches that the regex engine finds for an accepted `pattern` in
/// `text`, in the order in which it reports them, each as the byte offsets
/// of its start and end in the UTF-8 encoding of `text`.
pub uninterp spec fn regex_spans(pattern: Seq<char>, text: Seq<char>) -> Seq<(usize, usize)>;

/// What the regex engine says about a `pattern` that it refuses.
pub uninterp spec fn regex_refusal(pattern: Seq<char>) -> Seq<char>;

/// The error for a refused `pattern`.
pub open spec fn refused(pattern: Seq<char>) -> SearchErrorView {
    SearchErrorView { pattern, reason: regex_refusal(pattern) }
}

/// Whether `span` lies within the UTF-8 encoding of `text`, start before
/// end, with both ends on character boundaries.
pub open spec fn span_fits(text: Seq<char>, span: (usize, usize)) -> bool {
    let bytes = encode_utf8(text);
    &&& span.0 <= span.1 <= bytes.len()
    &&& is_char_boundary(bytes, span.0 as int)
    &&& is_char_boundary(bytes, span.1 as int)
}

/// Whether `spans` are successive matches in `text`: each fits the text,
/// and each begins where the one before it ends, or later.
pub open spec fn successive_spans(text: Seq<char>, spans: Seq<(usize, usize)>) -> bool {
    &&& forall|i: int| 0 <= i < spans.len() ==> span_fits(text, #[trigger] spans[i])
    &&& forall|i: int| 0 <= i < spans.len() - 1 ==> (#[trigger] spans[i]).1 <= spans[i + 1].0
}

/// Compiles `pattern` with `regex::Regex::new` and walks `Regex::find_iter`
/// over `text`, keeping `Match::start` and `Match::end` of each match; a
/// pattern that does not compile gives the engine's error, rendered through
/// its `Display` impl. Trusted: whether the pattern compiles, and what the
/// engine says where it does not, depends on the pattern alone; the matches
/// of a compiled pattern depend on the pattern and the text alone. What
/// they are is left to the engine and only named here. As the engine
/// documents, the matches come in order and do not overlap, and each lies
/// in the text with start before end and both on character boundaries.
#[verifier::external_body]
pub(crate) fn find_spans(pattern: &str, text: &str) -> (r: Result<Vec<(usize, usize)>, String>)
    ensures
        r is Ok <==> regex_compiles(pattern@),
        r matches Ok(spans) ==> spans@ == regex_spans(pattern@, text@) && successive_spans(
            text@,
            spans@,
        ),
        r matches Err(reason) ==> reason@ == regex_refusal(pattern@),
{
    match regex::Regex::new(pattern) {
        Ok(re) => Ok(re.find_iter(text).map(|m| (m.start(), m.end())).collect()),
        Err(e) => Err(e.to_string()),
    }
}

/// The pattern that is compiled for a regex query whose normalised text is
/// `query`: the query itself, with case-insensitive matching switched on.
pub open spec fn case_insensitive(query: Seq<char>) -> Seq<char> {
    "(?i)"@ + query
}

/// The characters encoded by bytes `from..to` of the UTF-8 encoding of `text`.
pub open spec fn byte_slice(text: Seq<char>, from: int, to: int) -> Seq<char> {
    decode_utf8(encode_utf8(text).subrange(from, to))
}

/// The snippet for the match that covers the bytes `span` of `text`.
pub open spec fn span_snippet(text: Seq<char>, span: (usize, usize), k: nat) -> Snippet {
    (
        context_before(byte_slice(text, 0, span.0 as int), k),
        byte_slice(text, span.0 as int, span.1 as int),
        context_after(byte_slice(text, span.1 as int, encode_utf8(text).len() as int), k),
    )
}

/// The snippets for `spans`, in order. A span that does not fit the text
/// gives none.
pub open spec fn span_snippets(text: Seq<char>, spans: Seq<(usize, usize)>, k: nat) -> Seq<
    Snippet,
>
    decreases spans.len(),
{
    if spans.len() == 0 {
        Seq::empty()
    } else {
        let before = span_snippets(text, spans.drop_last(), k);
        if span_fits(text, spans.last()) {
            before.push(span_snippet(text, spans.last(), k))
        } else {
            before
        }
    }
}

/// The snippets for `spans`, one for each, in order.
pub open spec fn match_snippets(text: Seq<char>, spans: Seq<(usize, usize)>, k: nat) -> Seq<
    Snippet,
> {
    Seq::new(spans.len(), |i: int| span_snippet(text, spans[i], k))
}

/// Where every span fits the text, every span gives its snippet.
pub proof fn lemma_fitting_spans_give_snippets(
    text: Seq<char>,
    spans: Seq<(usize, usize)>,
    k: nat,
)
    requires
        forall|i: int| 0 <= i < spans.len() ==> span_fits(text, #[trigger] spans[i]),
    ensures
        span_snippets(text, spans, k) == match_snippets(text, spans, k),
    decreases spans.len(),
{
    if spans.len() > 0 {
        let before = spans.drop_last();
        assert forall|i: int| 0 <= i < before.len() implies span_fits(text, #[trigger] before[i]) by {
            assert(before[i] == spans[i]);
        }
        lemma_fitting_spans_give_snippets(text, before, k);
        assert(span_fits(text, spans.last()));
        assert(match_snippets(text, before, k).push(span_snippet(text, spans.last(), k))
            =~= match_snippets(text, spans, k));
    } else {
        assert(match_snippets(text, spans, k) =~= Seq::<Snippet>::empty());
    }
}

/// Cuts one snippet per span out of `text`. The spans are byte offsets, as
/// the regex engine reports them; one that is out of range or splits a
/// character is passed over.
pub fn snippets_of_spans(text: &str, spans: &Vec<(usize, usize)>, k: usize) -> (r: Vec<
    (String, String, String),
>)
    ensures
        r.deep_view() == span_snippets(text@, spans@, k as nat),
{
    let mut out: Vec<(String, String, String)> = Vec::new();
    let ghost bytes = text.spec_bytes();
    proof {
        encode_utf8_valid_utf8(text@);
        assert(spans@.take(0) =~= Seq::<(usize, usize)>::empty());
        assert(out.deep_view() =~= Seq::<Snippet>::empty());
    }
    let mut i: usize = 0;
    while i < spans.len()
        invariant
            i <= spans.len(),
            bytes == encode_utf8(text@),
            valid_utf8(bytes),
            out.deep_view() == span_snippets(text@, spans@.take(i as int), k as nat),
        decreases spans.len() - i,
    {
        let (start, end) = spans[i];
        proof {
            assert(spans@.take(i + 1).drop_last() =~= spans@.take(i as int));
            assert(spans@.take(i + 1).last() == spans@[i as int]);
        }
        if start <= end && text.is_char_boundary(start) && text.is_char_boundary(end) {
            let (head, after) = text.split_at(end);
            proof {
                valid_utf8_split(bytes, end as int);
                let head_bytes = bytes.subrange(0, end as int);
                assert(head.spec_bytes() == head_bytes);
                if start < end {
                    is_char_boundary_iff_not_is_continuation_byte(bytes, start as int);
                    is_char_boundary_iff_not_is_continuation_byte(head_bytes, start as int);
                } else {
                    is_char_boundary_start_end_of_seq(head_bytes);
                }
            }
            let (before, matched) = head.split_at(start);
            proof {
                encode_utf8_decode_utf8(before@);
                encode_utf8_decode_utf8(matched@);
                encode_utf8_decode_utf8(after@);
                assert(before.spec_bytes() =~= bytes.subrange(0, start as int));
                assert(matched.spec_bytes() =~= bytes.subrange(start as int, end as int));
                assert(after.spec_bytes() =~= bytes.subrange(end as int, bytes.len() as int));
                assert(before@ == byte_slice(text@, 0, start as int));
                assert(matched@ == byte_slice(text@, start as int, end as int));
                assert(after@ == byte_slice(text@, end as int, bytes.len() as int));
            }
            let before_chars = to_chars(before);
            let after_chars = to_chars(after);
            proof {
                assert(before_chars@.take(before_chars@.len() as int) =~= before_chars@);
                assert(after_chars@.skip(0) =~= after_chars@);
            }
            let context_before = context_before_of(&before_chars, before_chars.len(), k);
            let context_after = context_after_of(&after_chars, 0, k);
            let matched_text = matched.to_owned();
            let ghost shown = out.deep_view();
            out.push((context_before, matched_text, context_after));
            proof {
                assert(out.deep_view() =~= shown.push(
                    span_snippet(text@, spans@[i as int], k as nat),
                ));
            }
        }
        i += 1;
    }
    proof {
        assert(spans@.take(spans@.len() as int) =~= spans@);
    }
    out
}

} // verus!
