//! Character-level helpers shared by the branch and release logic.

use vstd::prelude::*;
use vstd::string::*;

verus! {

/// An ASCII hexadecimal digit: `0-9`, `a-f` or `A-F`.
pub open spec fn is_hex_char(c: char) -> bool {
    ('0' <= c && c <= '9') || ('a' <= c && c <= 'f') || ('A' <= c && c <= 'F')
}

/// Whether `c` is an ASCII hexadecimal digit.
pub fn hex_char(c: char) -> (res: bool)
    ensures
        res == is_hex_char(c),
{
    ('0' <= c && c <= '9') || ('a' <= c && c <= 'f') || ('A' <= c && c <= 'F')
}

/// Whether two strings hold the same characters.
pub fn same_text(a: &str, b: &str) -> (res: bool)
    ensures
        res == (a@ == b@),
{
    let n = a.unicode_len();
    if n != b.unicode_len() {
        return false;
    }
    let mut i: usize = 0;
    while i < n
        invariant
            n == a@.len(),
            n == b@.len(),
            i <= n,
            forall|j: int| 0 <= j < i ==> a@[j] == b@[j],
        decreases n - i,
    {
        if a.get_char(i) != b.get_char(i) {
            return false;
        }
        i = i + 1;
    }
    assert(a@ =~= b@);
    true
}

/// ASCII lower case of one character: `A`-`Z` become `a`-`z`, all else is kept.
pub open spec fn ascii_lower(c: char) -> char {
    if 'A' <= c && c <= 'Z' {
        ((c as u32) + 32) as char
    } else {
        c
    }
}

/// ASCII lower case of every character of a text.
pub open spec fn lower_seq(s: Seq<char>) -> Seq<char> {
    s.map_values(|c: char| ascii_lower(c))
}

/// Std's `str::to_ascii_lowercase`.
///
/// Trusted: the result maps every character of `s` to its ASCII lower case
/// (`A`-`Z` to `a`-`z`) and keeps every other character, as std documents.
#[verifier::external_body]
pub fn to_ascii_lowercase(s: &str) -> (res: String)
    ensures
        res@ == lower_seq(s@),
{
    s.to_ascii_lowercase()
}

/// Std's `str::eq_ignore_ascii_case`.
///
/// Trusted: the result is true exactly when the two strings are equal once
/// every ASCII letter of both is put in lower case, as std documents
/// ("same as `to_ascii_lowercase(a) == to_ascii_lowercase(b)`").
#[verifier::external_body]
pub fn eq_ignore_ascii_case(a: &str, b: &str) -> (res: bool)
    ensures
        res == (lower_seq(a@) == lower_seq(b@)),
{
    a.eq_ignore_ascii_case(b)
}

} // verus!
