//! Character-level building blocks: which characters are whitespace and
//! which are numeric, the lowercase form of a character, and conversions
//! between strings and vectors of characters. Beyond ASCII the numeric
//! characters and the lowercase forms are those of the standard library.

use vstd::prelude::*;

verus! {

/// Whether `c` is whitespace: one of the characters with the Unicode
/// property `White_Space`.
pub open spec fn is_whitespace_char(c: char) -> bool {
    ||| '\u{0009}' <= c <= '\u{000D}'
    ||| c == ' '
    ||| c == '\u{0085}'
    ||| c == '\u{00A0}'
    ||| c == '\u{1680}'
    ||| '\u{2000}' <= c <= '\u{200A}'
    ||| c == '\u{2028}'
    ||| c == '\u{2029}'
    ||| c == '\u{202F}'
    ||| c == '\u{205F}'
    ||| c == '\u{3000}'
}

/// Whether the standard library classifies `c`, a character beyond ASCII,
/// as numeric.
pub uninterp spec fn numeric_beyond_ascii(c: char) -> bool;

/// Whether `c` is numeric: within ASCII one of the digits `0` to `9`,
/// beyond it what the standard library classifies as numeric.
pub open spec fn is_numeric_char(c: char) -> bool {
    if c <= '\u{007F}' {
        '0' <= c <= '9'
    } else {
        numeric_beyond_ascii(c)
    }
}

/// The characters that the standard library gives as the lowercase form of
/// `c`, a character beyond ASCII.
pub uninterp spec fn lowercase_beyond_ascii(c: char) -> Seq<char>;

/// The lowercase form of an ASCII character: the capital letters `A` to
/// `Z` become `a` to `z`, every other character stays.
pub open spec fn ascii_lowercase(c: char) -> char {
    if 'A' <= c <= 'Z' {
        ((c as u32) + 32) as char
    } else {
        c
    }
}

/// The lowercase form of `c`: within ASCII one character, beyond it what
/// the standard library gives, which may be several characters.
pub open spec fn lowercase_of(c: char) -> Seq<char> {
    if c <= '\u{007F}' {
        seq![ascii_lowercase(c)]
    } else {
        lowercase_beyond_ascii(c)
    }
}

/// Decides whether `c` is whitespace.
pub fn is_whitespace(c: char) -> (r: bool)
    ensures
        r == is_whitespace_char(c),
{
    ('\u{0009}' <= c && c <= '\u{000D}') || c == ' ' || c == '\u{0085}' || c == '\u{00A0}'
        || c == '\u{1680}' || ('\u{2000}' <= c && c <= '\u{200A}') || c == '\u{2028}'
        || c == '\u{2029}' || c == '\u{202F}' || c == '\u{205F}' || c == '\u{3000}'
}

/// Calls `char::is_numeric` on a character beyond ASCII. Trusted: the
/// answer is whether `c` is in one of the Unicode number categories, which
/// this crate only names.
#[verifier::external_body]
fn is_numeric_beyond_ascii(c: char) -> (r: bool)
    requires
        c > '\u{007F}',
    ensures
        r == numeric_beyond_ascii(c),
{
    c.is_numeric()
}

/// Decides whether `c` is numeric.
pub fn is_numeric(c: char) -> (r: bool)
    ensures
        r == is_numeric_char(c),
{
    if c <= '\u{007F}' {
        '0' <= c && c <= '9'
    } else {
        is_numeric_beyond_ascii(c)
    }
}

/// Calls `char::to_lowercase` on a character beyond ASCII and collects
/// what it yields. Trusted: the characters are the Unicode lowercase
/// mapping of `c`, which this crate only names.
#[verifier::external_body]
fn lowercase_beyond_ascii_of(c: char) -> (r: Vec<char>)
    requires
        c > '\u{007F}',
    ensures
        r@ == lowercase_beyond_ascii(c),
{
    c.to_lowercase().collect()
}

/// The lowercase form of `c`.
pub fn lowercase(c: char) -> (r: Vec<char>)
    ensures
        r@ == lowercase_of(c),
{
    if c <= '\u{007F}' {
        let lower = if 'A' <= c && c <= 'Z' {
            ((c as u8) + 32) as char
        } else {
            c
        };
        let out = vec![lower];
        proof {
            assert(out@ =~= seq![ascii_lowercase(c)]);
        }
        out
    } else {
        lowercase_beyond_ascii_of(c)
    }
}

/// `String::push` appends one character to the end of the string.
pub assume_specification[ String::push ](s: &mut String, ch: char)
    ensures
        final(s)@ == old(s)@.push(ch),
;

/// The characters of `text`, in order.
pub fn to_chars(text: &str) -> (r: Vec<char>)
    ensures
        r@ == text@,
{
    let mut out: Vec<char> = Vec::new();
    for c in it: text.chars()
        invariant
            it.seq() == text@,
            out@ == text@.take(it.index() as int),
    {
        out.push(c);
    }
    out
}

/// The string made of the characters `chars[from..to]`.
pub fn string_of(chars: &Vec<char>, from: usize, to: usize) -> (r: String)
    requires
        from <= to <= chars.len(),
    ensures
        r@ == chars@.subrange(from as int, to as int),
{
    let mut out = String::new();
    let mut i: usize = from;
    while i < to
        invariant
            from <= i <= to <= chars.len(),
            out@ == chars@.subrange(from as int, i as int),
        decreases to - i,
    {
        out.push(chars[i]);
        i += 1;
    }
    out
}

} // verus!
