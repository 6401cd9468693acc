//! Small executable helpers over characters and strings, each proved against
//! its counterpart in `model`.
use vstd::prelude::*;
use vstd::string::StrSliceExecFns;
use crate::model::char_eq_ci;
use crate::model::is_punct;
use crate::model::is_url_char;
use crate::model::starts_with_http;
use crate::model::tok_eq_ci;

verus! {

/// Relies on String::push: appends one character at the end of the string.
#[verifier::external_body]
pub(crate) fn push_char(s: &mut String, c: char)
    ensures
        final(s)@ == old(s)@.push(c),
{
    s.push(c);
}

/// Case-insensitive ASCII comparison of two characters.
pub(crate) fn chars_eq_ci(a: char, b: char) -> (r: bool)
    ensures
        r == char_eq_ci(a, b),
{
    a == b || ('A' <= a && a <= 'Z' && b as u32 == a as u32 + 32) || ('a' <= a && a <= 'z' && (
    b as u32) + 32 == a as u32)
}

/// Case-insensitive ASCII comparison of two strings.
pub(crate) fn str_eq_ci(a: &str, b: &str) -> (r: bool)
    ensures
        r == tok_eq_ci(a@, b@),
{
    let na = a.unicode_len();
    let nb = b.unicode_len();
    if na != nb {
        return false;
    }
    let mut i: usize = 0;
    while i < na
        invariant
            na == a@.len(),
            na == b@.len(),
            i <= na,
            forall|k: int| 0 <= k < i ==> #[trigger] char_eq_ci(a@[k], b@[k]),
        decreases na - i,
    {
        if !chars_eq_ci(a.get_char(i), b.get_char(i)) {
            assert(!char_eq_ci(a@[i as int], b@[i as int]));
            return false;
        }
        i = i + 1;
    }
    true
}

/// Exact comparison of two strings.
pub(crate) fn str_eq(a: &str, b: &str) -> (r: bool)
    ensures
        r == (a@ == b@),
{
    let na = a.unicode_len();
    let nb = b.unicode_len();
    if na != nb {
        return false;
    }
    let mut i: usize = 0;
    while i < na
        invariant
            na == a@.len(),
            na == b@.len(),
            i <= na,
            forall|k: int| 0 <= k < i ==> a@[k] == b@[k],
        decreases na - i,
    {
        if a.get_char(i) != b.get_char(i) {
            return false;
        }
        i = i + 1;
    }
    assert(a@ =~= b@);
    true
}

/// Whether a character may follow `#` inside one special token.
pub(crate) fn url_char(c: char) -> (r: bool)
    ensures
        r == is_url_char(c),
{
    ('0' <= c && c <= '9') || ('a' <= c && c <= 'z') || ('A' <= c && c <= 'Z') || c == ':' || c
        == '/' || c == '.' || c == '?' || c == '=' || c == '&' || c == '-' || c == '%'
}

/// Whether the string literally begins with `http`.
pub(crate) fn starts_http(s: &str) -> (r: bool)
    ensures
        r == starts_with_http(s@),
{
    s.unicode_len() >= 4 && s.get_char(0) == 'h' && s.get_char(1) == 't' && s.get_char(2) == 't'
        && s.get_char(3) == 'p'
}

/// Whether the token is one of the four bare punctuation marks.
pub(crate) fn punct(s: &str) -> (r: bool)
    ensures
        r == is_punct(s@),
{
    if s.unicode_len() != 1 {
        return false;
    }
    let c = s.get_char(0);
    c == '.' || c == ',' || c == '!' || c == '?'
}

} // verus!
