//! String relations used by the query engine, and the standard-library
//! string calls they rest on.

use vstd::prelude::*;

verus! {

/// Whether `needle` occurs in `haystack` as a contiguous run of characters.
pub open spec fn is_substring(needle: Seq<char>, haystack: Seq<char>) -> bool {
    exists|i: int|
        0 <= i <= haystack.len() - needle.len() && #[trigger] haystack.subrange(
            i,
            i + needle.len(),
        ) == needle
}

/// `String::push`: appends one character to the end of the string.
#[verifier::external_body]
pub(crate) fn push_char(s: &mut String, c: char)
    ensures
        final(s)@ == old(s)@.push(c),
{
    s.push(c)
}

/// `str::starts_with` on a string pattern: whether the haystack begins with
/// the characters of the needle.
#[verifier::external_body]
pub(crate) fn starts_with(haystack: &str, needle: &str) -> (r: bool)
    ensures
        r == needle@.is_prefix_of(haystack@),
{
    haystack.starts_with(needle)
}

/// `str::contains` on a string pattern: whether the needle occurs somewhere
/// in the haystack.
#[verifier::external_body]
pub(crate) fn contains(haystack: &str, needle: &str) -> (r: bool)
    ensures
        r == is_substring(needle@, haystack@),
{
    haystack.contains(needle)
}

/// `==` on string slices: whether both hold the same characters.
#[verifier::external_body]
pub(crate) fn same_text(a: &str, b: &str) -> (r: bool)
    ensures
        r == (a@ == b@),
{
    a == b
}

} // verus!
