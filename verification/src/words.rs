//! Splitting text into runs of characters, joining runs back together, and
//! the context windows that are cut from the words around a match.

use crate::chars::{is_numeric, is_numeric_char, is_whitespace, is_whitespace_char, string_of, to_chars};
use vstd::prelude::*;
use vstd::string::StringExecFns;

verus! {

/// What separates one run of characters from the next.
#[derive(Clone, Copy, Debug)]
pub enum Separator {
    /// Unicode whitespace separates; the runs are words.
    Whitespace,
    /// Every character that is not numeric separates; the runs are numbers.
    NonNumeric,
}

impl Separator {
    /// Whether `c` separates runs.
    pub open spec fn holds(self, c: char) -> bool {
        match self {
            Separator::Whitespace => is_whitespace_char(c),
            Separator::NonNumeric => !is_numeric_char(c),
        }
    }

    /// Decides whether `c` separates runs.
    pub fn test(self, c: char) -> (r: bool)
        ensures
            r == self.holds(c),
    {
        match self {
            Separator::Whitespace => is_whitespace(c),
            Separator::NonNumeric => !is_numeric(c),
        }
    }
}

/// How many characters at the start of `s` are not separators.
pub open spec fn run_length(s: Seq<char>, sep: Separator) -> int
    decreases s.len(),
{
    if s.len() == 0 || sep.holds(s[0]) {
        0
    } else {
        1 + run_length(s.drop_first(), sep)
    }
}

/// The maximal runs of non-separator characters of `s`, in order.
pub open spec fn tokens(s: Seq<char>, sep: Separator) -> Seq<Seq<char>>
    decreases s.len(),
{
    if s.len() == 0 {
        Seq::empty()
    } else if sep.holds(s[0]) {
        tokens(s.drop_first(), sep)
    } else {
        let n = run_length(s, sep);
        proof {
            lemma_run_length(s.drop_first(), sep);
        }
        seq![s.take(n)] + tokens(s.skip(n), sep)
    }
}

/// The whitespace-separated words of `s`.
pub open spec fn words(s: Seq<char>) -> Seq<Seq<char>> {
    tokens(s, Separator::Whitespace)
}

/// The parts with `sep` between each two neighbours.
pub open spec fn join(parts: Seq<Seq<char>>, sep: Seq<char>) -> Seq<char>
    decreases parts.len(),
{
    if parts.len() == 0 {
        Seq::empty()
    } else if parts.len() == 1 {
        parts[0]
    } else {
        join(parts.drop_last(), sep) + sep + parts.last()
    }
}

/// The last `k` of `ws`, or all of them where there are fewer.
pub open spec fn last_words(ws: Seq<Seq<char>>, k: nat) -> Seq<Seq<char>> {
    if ws.len() <= k {
        ws
    } else {
        ws.skip(ws.len() - k)
    }
}

/// The first `k` of `ws`, or all of them where there are fewer.
pub open spec fn first_words(ws: Seq<Seq<char>>, k: nat) -> Seq<Seq<char>> {
    if ws.len() <= k {
        ws
    } else {
        ws.take(k as int)
    }
}

/// The context shown before a match: the last `k` words of what precedes it,
/// with one space between them.
pub open spec fn context_before(prefix: Seq<char>, k: nat) -> Seq<char> {
    join(last_words(words(prefix), k), seq![' '])
}

/// The context shown after a match: the first `k` words of what follows it,
/// with one space between them.
pub open spec fn context_after(suffix: Seq<char>, k: nat) -> Seq<char> {
    join(first_words(words(suffix), k), seq![' '])
}

/// The leading run is made of non-separators and ends at a separator or at the end.
pub proof fn lemma_run_length(s: Seq<char>, sep: Separator)
    ensures
        0 <= run_length(s, sep) <= s.len(),
        forall|i: int| 0 <= i < run_length(s, sep) ==> !sep.holds(#[trigger] s[i]),
        run_length(s, sep) < s.len() ==> sep.holds(s[run_length(s, sep)]),
    decreases s.len(),
{
    if s.len() == 0 || sep.holds(s[0]) {
    } else {
        let t = s.drop_first();
        lemma_run_length(t, sep);
        assert forall|i: int| 0 <= i < run_length(s, sep) implies !sep.holds(#[trigger] s[i]) by {
            if i > 0 {
                assert(s[i] == t[i - 1]);
            }
        }
        if run_length(s, sep) < s.len() {
            assert(s[run_length(s, sep)] == t[run_length(t, sep)]);
        }
    }
}

/// Every token is non-empty and holds no separator.
pub proof fn lemma_tokens_are_runs(s: Seq<char>, sep: Separator)
    ensures
        forall|i: int|
            0 <= i < tokens(s, sep).len() ==> (#[trigger] tokens(s, sep)[i]).len() > 0,
        forall|i: int, j: int|
            0 <= i < tokens(s, sep).len() && 0 <= j < tokens(s, sep)[i].len() ==> !sep.holds(
                #[trigger] tokens(s, sep)[i][j],
            ),
    decreases s.len(),
{
    if s.len() == 0 {
        assert(tokens(s, sep).len() == 0);
    } else if sep.holds(s[0]) {
        lemma_tokens_are_runs(s.drop_first(), sep);
        assert(tokens(s, sep) == tokens(s.drop_first(), sep));
    } else {
        let n = run_length(s, sep);
        lemma_run_length(s, sep);
        lemma_tokens_are_runs(s.skip(n), sep);
        let rest = tokens(s.skip(n), sep);
        let all = tokens(s, sep);
        assert(all == seq![s.take(n)] + rest);
        assert forall|i: int| 0 <= i < all.len() implies (#[trigger] all[i]).len() > 0 by {
            if i > 0 {
                assert(all[i] == rest[i - 1]);
            } else {
                assert(all[0] == s.take(n));
            }
        }
        assert forall|i: int, j: int| 0 <= i < all.len() && 0 <= j < all[i].len() implies !sep.holds(
            #[trigger] all[i][j],
        ) by {
            if i > 0 {
                assert(all[i] == rest[i - 1]);
            } else {
                assert(all[0] == s.take(n));
                assert(all[0][j] == s[j]);
            }
        }
    }
}

/// A context window holds at most `k` words, and fewer only where the text
/// on that side of the match has fewer.
pub proof fn lemma_context_window_size(text: Seq<char>, k: nat)
    ensures
        last_words(words(text), k).len() <= k,
        first_words(words(text), k).len() <= k,
        last_words(words(text), k).len() < k ==> last_words(words(text), k) == words(text),
        first_words(words(text), k).len() < k ==> first_words(words(text), k) == words(text),
        k == 0 ==> context_before(text, k) == Seq::<char>::empty() && context_after(text, k)
            == Seq::<char>::empty(),
{
}

/// A run of non-separators that ends at a separator or at the end of the
/// text is the first token, and the tokens of the rest follow.
pub proof fn lemma_tokens_after_run(run: Seq<char>, rest: Seq<char>, sep: Separator)
    requires
        run.len() > 0,
        forall|i: int| 0 <= i < run.len() ==> !sep.holds(#[trigger] run[i]),
        rest.len() == 0 || sep.holds(rest[0]),
    ensures
        tokens(run + rest, sep) == seq![run] + tokens(rest, sep),
{
    let s = run + rest;
    lemma_run_covers(run, rest, sep);
    assert(s[0] == run[0]);
    assert(s.take(run.len() as int) =~= run);
    assert(s.skip(run.len() as int) =~= rest);
}

/// The leading run of `run + rest` is `run`, where `run` holds no separator
/// and `rest` begins with one or is empty.
proof fn lemma_run_covers(run: Seq<char>, rest: Seq<char>, sep: Separator)
    requires
        forall|i: int| 0 <= i < run.len() ==> !sep.holds(#[trigger] run[i]),
        rest.len() == 0 || sep.holds(rest[0]),
    ensures
        run_length(run + rest, sep) == run.len(),
    decreases run.len(),
{
    let s = run + rest;
    if run.len() == 0 {
        assert(s =~= rest);
    } else {
        assert(s[0] == run[0]);
        let tail = run.drop_first();
        assert forall|i: int| 0 <= i < tail.len() implies !sep.holds(#[trigger] tail[i]) by {
            assert(tail[i] == run[i + 1]);
        }
        lemma_run_covers(tail, rest, sep);
        assert(s.drop_first() =~= tail + rest);
    }
}

/// Joining from the front: the first part, the separator, and the rest joined.
pub proof fn lemma_join_front(parts: Seq<Seq<char>>, sep: Seq<char>)
    requires
        parts.len() >= 2,
    ensures
        join(parts, sep) == parts[0] + sep + join(parts.drop_first(), sep),
    decreases parts.len(),
{
    let init = parts.drop_last();
    let tail = parts.drop_first();
    if parts.len() == 2 {
        assert(join(init, sep) == parts[0]);
        assert(join(tail, sep) == parts[1]);
    } else {
        lemma_join_front(init, sep);
        assert(init.drop_first() =~= tail.drop_last());
        assert(init[0] == parts[0]);
        assert(tail.last() == parts.last());
        assert((parts[0] + sep + join(tail.drop_last(), sep)) + sep + parts.last() =~= parts[0]
            + sep + (join(tail.drop_last(), sep) + sep + parts.last()));
    }
}

/// Whether each of `ws` is a word: not empty and without whitespace.
pub open spec fn are_words(ws: Seq<Seq<char>>) -> bool {
    forall|i: int|
        0 <= i < ws.len() ==> (#[trigger] ws[i]).len() > 0 && forall|j: int|
            0 <= j < ws[i].len() ==> !is_whitespace_char(#[trigger] ws[i][j])
}

/// Words that are joined with single spaces come apart again as they were.
pub proof fn lemma_words_of_joined(ws: Seq<Seq<char>>)
    requires
        are_words(ws),
    ensures
        words(join(ws, seq![' '])) == ws,
    decreases ws.len(),
{
    let space = seq![' '];
    let sep = Separator::Whitespace;
    if ws.len() == 0 {
    } else if ws.len() == 1 {
        assert(ws[0].len() > 0);
        lemma_tokens_after_run(ws[0], Seq::empty(), sep);
        assert(ws[0] + Seq::<char>::empty() =~= ws[0]);
        assert(seq![ws[0]] + tokens(Seq::<char>::empty(), sep) =~= ws);
    } else {
        let tail = ws.drop_first();
        assert forall|i: int| 0 <= i < tail.len() implies (#[trigger] tail[i]).len() > 0
            && forall|j: int| 0 <= j < tail[i].len() ==> !is_whitespace_char(
            #[trigger] tail[i][j],
        ) by {
            assert(tail[i] == ws[i + 1]);
        }
        lemma_words_of_joined(tail);
        lemma_join_front(ws, space);
        let rest = space + join(tail, space);
        assert(rest[0] == ' ');
        assert(ws[0].len() > 0);
        lemma_tokens_after_run(ws[0], rest, sep);
        assert(join(ws, space) =~= ws[0] + rest);
        assert(rest.drop_first() =~= join(tail, space));
        assert(tokens(rest, sep) == tokens(rest.drop_first(), sep));
        assert(seq![ws[0]] + tail =~= ws);
    }
}

/// A context holds the words that were taken for it and no others: split
/// again at whitespace, the context before a match gives the last `k`
/// words of the text before it, the context after a match the first `k`
/// words of the text after it. So neither holds more than `k` words.
pub proof fn lemma_context_holds_its_words(text: Seq<char>, k: nat)
    ensures
        words(context_before(text, k)) == last_words(words(text), k),
        words(context_after(text, k)) == first_words(words(text), k),
        words(context_before(text, k)).len() <= k,
        words(context_after(text, k)).len() <= k,
{
    let all = words(text);
    lemma_tokens_are_runs(text, Separator::Whitespace);
    let before = last_words(all, k);
    let after = first_words(all, k);
    assert(are_words(before)) by {
        assert forall|i: int| 0 <= i < before.len() implies (#[trigger] before[i]).len() > 0
            && forall|j: int| 0 <= j < before[i].len() ==> !is_whitespace_char(
            #[trigger] before[i][j],
        ) by {
            let at = i + (all.len() - before.len());
            assert(before[i] == all[at]);
            assert forall|j: int| 0 <= j < before[i].len() implies !is_whitespace_char(
                #[trigger] before[i][j],
            ) by {
                assert(!Separator::Whitespace.holds(all[at][j]));
            }
        }
    }
    assert(are_words(after)) by {
        assert forall|i: int| 0 <= i < after.len() implies (#[trigger] after[i]).len() > 0
            && forall|j: int| 0 <= j < after[i].len() ==> !is_whitespace_char(
            #[trigger] after[i][j],
        ) by {
            assert(after[i] == all[i]);
            assert forall|j: int| 0 <= j < after[i].len() implies !is_whitespace_char(
                #[trigger] after[i][j],
            ) by {
                assert(!Separator::Whitespace.holds(all[i][j]));
            }
        }
    }
    lemma_words_of_joined(before);
    lemma_words_of_joined(after);
}

/// The runs of `chars[from..to]`, each as a string.
pub fn split_tokens(chars: &Vec<char>, from: usize, to: usize, sep: Separator) -> (r: Vec<String>)
    requires
        from <= to <= chars.len(),
    ensures
        r.deep_view() == tokens(chars@.subrange(from as int, to as int), sep),
{
    let ghost s = chars@.subrange(from as int, to as int);
    let mut out: Vec<String> = Vec::new();
    let mut i: usize = from;
    proof {
        assert(chars@.subrange(i as int, to as int) == s);
        assert(out.deep_view() =~= Seq::<Seq<char>>::empty());
    }
    while i < to
        invariant
            from <= i <= to <= chars.len(),
            s == chars@.subrange(from as int, to as int),
            out.deep_view() + tokens(chars@.subrange(i as int, to as int), sep) == tokens(s, sep),
        decreases to - i,
    {
        let ghost rest = chars@.subrange(i as int, to as int);
        if sep.test(chars[i]) {
            proof {
                assert(rest.drop_first() =~= chars@.subrange(i + 1, to as int));
            }
            i += 1;
        } else {
            let start = i;
            let mut j: usize = i;
            proof {
                assert(chars@.subrange(j as int, to as int) == rest);
            }
            while j < to && !sep.test(chars[j])
                invariant
                    start <= j <= to <= chars.len(),
                    rest == chars@.subrange(start as int, to as int),
                    run_length(rest, sep) == (j - start) + run_length(
                        chars@.subrange(j as int, to as int),
                        sep,
                    ),
                decreases to - j,
            {
                proof {
                    let tail = chars@.subrange(j as int, to as int);
                    assert(tail[0] == chars@[j as int]);
                    assert(tail.drop_first() =~= chars@.subrange(j + 1, to as int));
                }
                j += 1;
            }
            proof {
                let tail = chars@.subrange(j as int, to as int);
                if j < to {
                    assert(tail[0] == chars@[j as int]);
                }
                assert(run_length(tail, sep) == 0);
                assert(rest[0] == chars@[start as int]);
                assert(run_length(rest, sep) == j - start);
                assert(j > start);
                assert(rest.take(j - start) =~= chars@.subrange(start as int, j as int));
                assert(rest.skip(j - start) =~= tail);
            }
            let word = string_of(chars, start, j);
            let ghost before = out.deep_view();
            out.push(word);
            proof {
                assert(out.deep_view() =~= before.push(word@));
                assert(before.push(word@) + tokens(chars@.subrange(j as int, to as int), sep)
                    =~= before + tokens(rest, sep));
            }
            i = j;
        }
    }
    proof {
        assert(out.deep_view() + Seq::<Seq<char>>::empty() =~= out.deep_view());
    }
    out
}

/// The whitespace-separated words of `text`.
pub fn split_into_words(text: &str) -> (r: Vec<String>)
    ensures
        r.deep_view() == words(text@),
{
    let chars = to_chars(text);
    proof {
        assert(chars@.subrange(0, chars@.len() as int) =~= chars@);
    }
    split_tokens(&chars, 0, chars.len(), Separator::Whitespace)
}

/// `parts[from..to]` with `sep` between each two neighbours.
pub fn join_range(parts: &Vec<String>, from: usize, to: usize, sep: &str) -> (r: String)
    requires
        from <= to <= parts.len(),
    ensures
        r@ == join(parts.deep_view().subrange(from as int, to as int), sep@),
{
    let mut out = String::new();
    let mut i: usize = from;
    while i < to
        invariant
            from <= i <= to <= parts.len(),
            out@ == join(parts.deep_view().subrange(from as int, i as int), sep@),
        decreases to - i,
    {
        proof {
            let next = parts.deep_view().subrange(from as int, i + 1);
            assert(next.drop_last() =~= parts.deep_view().subrange(from as int, i as int));
            assert(next.last() == parts@[i as int]@);
        }
        if i > from {
            out.append(sep);
        }
        out.append(parts[i].as_str());
        i += 1;
    }
    out
}

/// The context before a match that starts at `chars[end]`.
pub fn context_before_of(chars: &Vec<char>, end: usize, k: usize) -> (r: String)
    requires
        end <= chars.len(),
    ensures
        r@ == context_before(chars@.take(end as int), k as nat),
{
    let ws = split_tokens(chars, 0, end, Separator::Whitespace);
    let n = ws.len();
    let from = if n <= k { 0 } else { n - k };
    proof {
        assert(chars@.take(end as int) =~= chars@.subrange(0, end as int));
        assert(ws.deep_view().subrange(from as int, n as int) =~= last_words(
            ws.deep_view(),
            k as nat,
        ));
        reveal_strlit(" ");
        assert(" "@ =~= seq![' ']);
    }
    join_range(&ws, from, n, " ")
}

/// The context after a match that ends before `chars[start]`.
pub fn context_after_of(chars: &Vec<char>, start: usize, k: usize) -> (r: String)
    requires
        start <= chars.len(),
    ensures
        r@ == context_after(chars@.skip(start as int), k as nat),
{
    let ws = split_tokens(chars, start, chars.len(), Separator::Whitespace);
    let n = ws.len();
    let to = if n <= k { n } else { k };
    proof {
        assert(chars@.skip(start as int) =~= chars@.subrange(start as int, chars@.len() as int));
        assert(ws.deep_view().subrange(0, to as int) =~= first_words(ws.deep_view(), k as nat));
        reveal_strlit(" ");
        assert(" "@ =~= seq![' ']);
    }
    join_range(&ws, 0, to, " ")
}

} // verus!
