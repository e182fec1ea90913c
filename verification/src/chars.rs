//! Character classification and string building helpers used by the
//! text view and the frame serializer.

use vstd::prelude::*;
use vstd::string::StrSliceExecFns;

verus! {

/// Whether `char::is_whitespace` holds of a character: the Unicode
/// `White_Space` property, named here rather than spelled out.
pub uninterp spec fn is_whitespace_char(c: char) -> bool;

/// Whether `char::is_alphanumeric` holds of a character: the Unicode
/// `Alphabetic` property or a number category, named here rather than
/// spelled out.
pub uninterp spec fn is_alphanumeric_char(c: char) -> bool;

/// Relies on char::is_whitespace: the result depends on the character
/// alone.  Within ASCII the `White_Space` property holds of exactly the
/// blank, the tab, the line feed, the vertical tab, the form feed and
/// the carriage return, as the standard library documents.
#[verifier::external_body]
pub fn char_is_whitespace(c: char) -> (r: bool)
    ensures
        r == is_whitespace_char(c),
        (c as u32) < 0x80 ==> r == (c == ' ' || c == '\t' || c == '\n' || (c as u32) == 0x0b || (
        c as u32) == 0x0c || c == '\r'),
{
    c.is_whitespace()
}

/// Relies on char::is_alphanumeric: the result depends on the character
/// alone.  Within ASCII it holds of exactly the digits and the letters
/// of both cases, as the standard library documents.
#[verifier::external_body]
pub fn char_is_alphanumeric(c: char) -> (r: bool)
    ensures
        r == is_alphanumeric_char(c),
        (c as u32) < 0x80 ==> r == (('0' <= c && c <= '9') || ('A' <= c && c <= 'Z') || ('a' <= c
            && c <= 'z')),
{
    c.is_alphanumeric()
}

/// Whether a character is ASCII punctuation: one of the four ASCII
/// ranges `!..=/`, `:..=@`, `[..=`` ` `` and `{..=~`.
pub open spec fn spec_is_ascii_punct(c: char) -> bool {
    ||| 0x21 <= c as u32 <= 0x2f
    ||| 0x3a <= c as u32 <= 0x40
    ||| 0x5b <= c as u32 <= 0x60
    ||| 0x7b <= c as u32 <= 0x7e
}

/// Whether a character is ASCII punctuation.
pub fn is_ascii_punct(c: char) -> (r: bool)
    ensures
        r == spec_is_ascii_punct(c),
{
    let n = c as u32;
    (0x21 <= n && n <= 0x2f) || (0x3a <= n && n <= 0x40) || (0x5b <= n && n <= 0x60) || (0x7b <= n
        && n <= 0x7e)
}

/// Relies on String::push: appends one character at the end.
#[verifier::external_body]
pub fn push_char(s: &mut String, c: char)
    ensures
        final(s)@ == old(s)@.push(c),
{
    s.push(c)
}

/// The characters of a string slice, gathered into a vector.
pub fn str_to_chars(s: &str) -> (v: Vec<char>)
    ensures
        v@ == s@,
{
    let n = s.unicode_len();
    let mut v: Vec<char> = Vec::new();
    for i in 0..n
        invariant
            n == s@.len(),
            v@ == s@.take(i as int),
    {
        v.push(s.get_char(i));
        proof {
            assert(v@ =~= s@.take(i as int + 1));
        }
    }
    proof {
        assert(v@ =~= s@);
    }
    v
}

/// The characters of a vector, gathered into a string.
pub fn chars_to_string(v: &Vec<char>) -> (s: String)
    ensures
        s@ == v@,
{
    let mut s = String::new();
    let n = v.len();
    for i in 0..n
        invariant
            n == v@.len(),
            s@ == v@.take(i as int),
    {
        push_char(&mut s, v[i]);
        proof {
            assert(s@ =~= v@.take(i as int + 1));
        }
    }
    proof {
        assert(s@ =~= v@);
    }
    s
}

} // verus!
