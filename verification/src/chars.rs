//! Character-level helpers: moving between `&str`, `String` and `Vec<char>`,
//! and the Unicode character classes the lexer relies on.

use vstd::prelude::*;

verus! {

use vstd::std_specs::iter::IteratorSpec;

broadcast use vstd::string::group_string_axioms;

/// What `char::is_alphabetic` answers for a character (the Unicode
/// `Alphabetic` property).
pub uninterp spec fn spec_is_alphabetic(c: char) -> bool;

/// What `char::is_alphanumeric` answers for a character.
pub uninterp spec fn spec_is_alphanumeric(c: char) -> bool;

/// What `char::is_uppercase` answers for a character (the Unicode
/// `Uppercase` property).
pub uninterp spec fn spec_is_uppercase(c: char) -> bool;

/// What `char::is_whitespace` answers for a character (the Unicode
/// `White_Space` property).
pub uninterp spec fn spec_is_whitespace(c: char) -> bool;

/// Whether `c` is an ASCII character.
pub open spec fn ascii(c: char) -> bool {
    c < '\u{80}'
}

/// Whether `c` is one of the ASCII letters `a`..`z`, `A`..`Z`.
pub open spec fn ascii_letter(c: char) -> bool {
    ('a' <= c && c <= 'z') || ('A' <= c && c <= 'Z')
}

/// Whether `c` is one of the ASCII digits `0`..`9`.
pub open spec fn ascii_digit(c: char) -> bool {
    '0' <= c && c <= '9'
}

/// Whether `c` is one of the six ASCII characters with the Unicode
/// `White_Space` property: tab, line feed, vertical tab, form feed, carriage
/// return and space.
pub open spec fn ascii_space(c: char) -> bool {
    c == '\t' || c == '\n' || c == '\u{0B}' || c == '\u{0C}' || c == '\r' || c == ' '
}

/// Calls `char::is_whitespace`: the Unicode `White_Space` property of `c`.
/// The property is named rather than restated; of the ASCII characters it
/// holds of exactly tab, line feed, vertical tab, form feed, carriage return
/// and space. Which other characters have it is left unsaid.
#[verifier::external_body]
pub(crate) fn is_whitespace(c: char) -> (r: bool)
    ensures
        r == spec_is_whitespace(c),
        ascii(c) ==> (r <==> ascii_space(c)),
{
    c.is_whitespace()
}

/// Calls `char::is_alphabetic`: the Unicode `Alphabetic` property of `c`, a
/// fixed table that is named here rather than restated. Of the ASCII
/// characters it holds of exactly the letters; an alphabetic character is
/// alphanumeric too (`is_alphanumeric` is `is_alphabetic || is_numeric`).
/// Which non-ASCII characters are alphabetic is left unsaid.
#[verifier::external_body]
pub(crate) fn is_alphabetic(c: char) -> (r: bool)
    ensures
        r == spec_is_alphabetic(c),
        ascii(c) ==> (r <==> ascii_letter(c)),
        r ==> spec_is_alphanumeric(c),
{
    c.is_alphabetic()
}

/// Calls `char::is_alphanumeric`: `Alphabetic` or `Numeric` in Unicode. Of
/// the ASCII characters it holds of exactly the letters and the digits, and
/// it holds of every alphabetic character. Which other non-ASCII characters
/// are numeric is left unsaid.
#[verifier::external_body]
pub(crate) fn is_alphanumeric(c: char) -> (r: bool)
    ensures
        r == spec_is_alphanumeric(c),
        spec_is_alphabetic(c) ==> r,
        ascii(c) ==> (r <==> (ascii_letter(c) || ascii_digit(c))),
{
    c.is_alphanumeric()
}

/// Calls `char::is_uppercase`: the Unicode `Uppercase` property of `c`,
/// named rather than restated. Of the ASCII characters it holds of exactly
/// `A`..`Z`; which non-ASCII characters have it is left unsaid.
#[verifier::external_body]
pub(crate) fn is_uppercase(c: char) -> (r: bool)
    ensures
        r == spec_is_uppercase(c),
        ascii(c) ==> (r <==> ('A' <= c && c <= 'Z')),
{
    c.is_uppercase()
}

/// Calls `String::push`: appends one character.
#[verifier::external_body]
pub(crate) fn push_char(s: &mut String, c: char)
    ensures
        final(s)@ == old(s)@.push(c),
{
    s.push(c);
}

/// A `String` holding exactly the text of `s`.
pub fn text(s: &str) -> (r: String)
    ensures
        r@ == s@,
{
    s.to_owned()
}

/// The characters of `source`, in order.
pub fn chars_of(source: &str) -> (v: Vec<char>)
    ensures
        v@ == source@,
{
    let mut v: Vec<char> = Vec::new();
    for c in iter: source.chars()
        invariant
            v@ == iter.seq().take(iter.index()),
            iter.seq() == source@,
    {
        v.push(c);
    }
    v
}

/// A `String` holding the characters of `cs`.
pub fn string_of(cs: &[char]) -> (s: String)
    ensures
        s@ == cs@,
{
    let mut s = String::new();
    let mut i: usize = 0;
    while i < cs.len()
        invariant
            i <= cs@.len(),
            s@ == cs@.subrange(0, i as int),
        decreases cs@.len() - i,
    {
        push_char(&mut s, cs[i]);
        i = i + 1;
    }
    s
}

/// Whether the characters `cs` spell exactly `word`.
pub fn spells(cs: &[char], word: &str) -> (r: bool)
    ensures
        r == (cs@ == word@),
{
    let n = word.unicode_len();
    if n != cs.len() {
        return false;
    }
    let mut i: usize = 0;
    while i < n
        invariant
            n == cs@.len(),
            n == word@.len(),
            i <= n,
            forall|j: int| 0 <= j < i ==> cs@[j] == word@[j],
        decreases n - i,
    {
        if cs[i] != word.get_char(i) {
            return false;
        }
        i = i + 1;
    }
    assert(cs@ =~= word@);
    true
}

} // verus!
