//! Text normalisation: page text and queries are compared with whitespace
//! and hyphens taken out, so that broken words and line-end hyphenation in
//! extracted text do not hide a match.

use vstd::prelude::*;

verus! {

/// Whether `c` is one of the whitespace or hyphen characters that matching ignores:
/// space, tab, line feed, carriage return, no-break space, figure space, thin
/// space, narrow no-break space, hyphen-minus, soft hyphen, hyphen and
/// non-breaking hyphen.
pub open spec fn is_stripped(c: char) -> bool {
    c == ' ' || c == '\t' || c == '\n' || c == '\r' || c == '\u{00A0}' || c == '\u{2007}'
        || c == '\u{2009}' || c == '\u{202F}' || c == '-' || c == '\u{00AD}' || c == '\u{2010}'
        || c == '\u{2011}'
}

/// The text with every stripped character removed and the rest kept in order.
pub open spec fn normalize(text: Seq<char>) -> Seq<char> {
    text.filter(|c: char| !is_stripped(c))
}

/// Whether `s` holds no stripped character.
pub open spec fn is_normalized(s: Seq<char>) -> bool {
    forall|i: int| 0 <= i < s.len() ==> !is_stripped(#[trigger] s[i])
}

pub fn is_stripped_char(c: char) -> (r: bool)
    ensures
        r == is_stripped(c),
{
    c == ' ' || c == '\t' || c == '\n' || c == '\r' || c == '\u{00A0}' || c == '\u{2007}'
        || c == '\u{2009}' || c == '\u{202F}' || c == '-' || c == '\u{00AD}' || c == '\u{2010}'
        || c == '\u{2011}'
}

/// Normalises `text` for matching.
pub fn normalize_text(text: &str) -> (r: String)
    ensures
        r@ == normalize(text@),
        is_normalized(r@),
{
    let mut out = String::new();
    proof {
        reveal(Seq::filter);
    }
    for c in it: text.chars()
        invariant
            it.seq() == text@,
            out@ == normalize(text@.take(it.index() as int)),
    {
        proof {
            let keep = |c: char| !is_stripped(c);
            let done = text@.take(it.index() as int);
            assert(text@.take(it.index() + 1) =~= done.push(c));
            done.lemma_filter_push(c, keep);
        }
        if !is_stripped_char(c) {
            out.push(c);
        }
    }
    proof {
        assert(text@.take(text@.len() as int) =~= text@);
        lemma_normalize_is_normalized(text@);
    }
    out
}

/// Normalised text holds no stripped character.
pub proof fn lemma_normalize_is_normalized(s: Seq<char>)
    ensures
        is_normalized(normalize(s)),
{
    let keep = |c: char| !is_stripped(c);
    assert forall|i: int| 0 <= i < normalize(s).len() implies !is_stripped(
        #[trigger] normalize(s)[i],
    ) by {
        s.lemma_filter_pred(keep, i);
    }
}

/// Text without stripped characters is left as it is.
pub proof fn lemma_normalize_fixes_normalized(s: Seq<char>)
    requires
        is_normalized(s),
    ensures
        normalize(s) == s,
    decreases s.len(),
{
    reveal(Seq::filter);
    if s.len() > 0 {
        lemma_normalize_fixes_normalized(s.drop_last());
        assert(s.drop_last().push(s.last()) =~= s);
    }
}

/// Normalising twice gives what normalising once gives.
pub proof fn lemma_normalize_idempotent(s: Seq<char>)
    ensures
        normalize(normalize(s)) == normalize(s),
{
    lemma_normalize_is_normalized(s);
    lemma_normalize_fixes_normalized(normalize(s));
}

} // verus!
