//! Character classes, case folding and string conversions for the index.
//!
//! Words are separated by Unicode whitespace; a keyword is a token with
//! leading and trailing non-alphanumeric characters stripped, then
//! lower-cased. Whitespace is the fixed Unicode White_Space set, stated
//! outright; which characters count as alphanumeric and how a string
//! lower-cases are taken from the standard library and carried under the
//! names `is_alnum` and `lower_of`.

use vstd::prelude::*;
use vstd::string::StrSliceExecFns;

verus! {

/// A word separator: one of the characters of the Unicode White_Space
/// set, the set behind the standard library's whitespace test.
pub open spec fn is_space(c: char) -> bool {
    c == '\t' || c == '\n' || c == '\u{b}' || c == '\u{c}' || c == '\r' || c == ' '
        || c == '\u{85}' || c == '\u{a0}' || c == '\u{1680}' || ('\u{2000}' <= c && c
        <= '\u{200a}') || c == '\u{2028}' || c == '\u{2029}' || c == '\u{202f}' || c == '\u{205f}'
        || c == '\u{3000}'
}

/// Decides `is_space` in executable code.
pub fn space_char(c: char) -> (r: bool)
    ensures
        r == is_space(c),
{
    c == '\t' || c == '\n' || c == '\u{b}' || c == '\u{c}' || c == '\r' || c == ' '
        || c == '\u{85}' || c == '\u{a0}' || c == '\u{1680}' || ('\u{2000}' <= c && c
        <= '\u{200a}') || c == '\u{2028}' || c == '\u{2029}' || c == '\u{202f}' || c == '\u{205f}'
        || c == '\u{3000}'
}

/// Whether a character is alphanumeric. The set is the standard library's
/// and is carried as a name: `alnum_char` is the one way to learn it.
pub uninterp spec fn is_alnum(c: char) -> bool;

/// Relies on `char::is_alphanumeric`: whether the character is in the
/// Unicode Alphabetic or Number categories, a function of the character
/// alone.
#[verifier::external_body]
pub(crate) fn alnum_char(c: char) -> (r: bool)
    ensures
        r == is_alnum(c),
{
    c.is_alphanumeric()
}

/// The lower-cased form of a character sequence. The mapping is the
/// standard library's, a function of the characters alone, and is carried
/// as a name: `lowercase_str` is the one way to learn it.
pub uninterp spec fn lower_of(s: Seq<char>) -> Seq<char>;

/// Relies on `str::to_lowercase`: the Unicode lower-case mapping of the
/// string, a function of its characters alone.
#[verifier::external_body]
pub(crate) fn lowercase_str(s: &str) -> (r: String)
    ensures
        r@ == lower_of(s@),
{
    s.to_lowercase()
}

/// Relies on `String::push`: it appends the one character to the end of
/// the string, leaving the characters before it unchanged.
#[verifier::external_body]
pub(crate) fn push_char(s: &mut String, c: char)
    ensures
        final(s)@ == old(s)@.push(c),
{
    s.push(c);
}

/// The characters of a string slice, as a vector.
pub fn chars_of(s: &str) -> (v: Vec<char>)
    ensures
        v@ == s@,
{
    let n: usize = s.unicode_len();
    let mut v: Vec<char> = Vec::new();
    let mut i: usize = 0;
    while i < n
        invariant
            i <= n,
            n == s@.len(),
            v@ == s@.take(i as int),
        decreases n - i,
    {
        let c = s.get_char(i);
        v.push(c);
        assert(s@.take(i + 1) =~= s@.take(i as int).push(s@[i as int]));
        i = i + 1;
    }
    assert(s@.take(n as int) =~= s@);
    v
}

/// A string holding exactly the given characters.
pub fn string_of(v: &Vec<char>) -> (s: String)
    ensures
        s@ == v@,
{
    let mut s = String::new();
    let mut i: usize = 0;
    while i < v.len()
        invariant
            i <= v.len(),
            s@ == v@.take(i as int),
        decreases v.len() - i,
    {
        push_char(&mut s, v[i]);
        assert(v@.take(i + 1) =~= v@.take(i as int).push(v@[i as int]));
        i = i + 1;
    }
    assert(v@.take(v.len() as int) =~= v@);
    s
}

/// The lower-cased form of a word, as `lower_of` describes.
pub fn lower_word(w: &Vec<char>) -> (r: Vec<char>)
    ensures
        r@ == lower_of(w@),
{
    let s = string_of(w);
    let low = lowercase_str(s.as_str());
    chars_of(low.as_str())
}

} // verus!
