//! Regular expressions, as the `regex` crate provides them.
//!
//! Nothing in this module is proved: it states what the query engine relies
//! on when it compiles a pattern, reads its source back and searches a text.

use regex::Regex;
use vstd::prelude::*;

verus! {

/// `regex::Regex`, a compiled pattern. Nothing is known of what it holds.
#[verifier::external_type_specification]
#[verifier::external_body]
pub struct ExRegex(regex::Regex);

/// `regex::Error`, why a source did not compile. Nothing is known of what
/// it holds.
#[verifier::external_type_specification]
#[verifier::external_body]
pub struct ExRegexError(regex::Error);

/// The outcome of compiling a pattern source with `Regex::new`.
pub uninterp spec fn regex_new(source: Seq<char>) -> Result<Regex, regex::Error>;

/// The source that a compiled pattern was built from, as `Regex::as_str`
/// reports it.
pub uninterp spec fn regex_source(pattern: Regex) -> Seq<char>;

/// Whether a compiled pattern is found anywhere in a text, as
/// `Regex::is_match` decides it.
pub uninterp spec fn regex_is_match(pattern: Regex, haystack: Seq<char>) -> bool;

/// `Regex::new` compiles a source with the default options. Its outcome
/// depends on the source alone, and a pattern that it returns reports that
/// source as its own.
pub assume_specification[ Regex::new ](re: &str) -> (r: Result<Regex, regex::Error>)
    ensures
        r == regex_new(re@),
        r matches Ok(pattern) ==> regex_source(pattern) == re@,
;

/// `Regex::as_str` returns the source of the pattern.
pub assume_specification<'a>[ Regex::as_str ](pattern: &'a Regex) -> (r: &'a str)
    ensures
        r@ == regex_source(*pattern),
;

/// `Regex::is_match` searches the whole text for the pattern. Its answer
/// depends on the pattern and the text alone.
pub assume_specification[ Regex::is_match ](pattern: &Regex, haystack: &str) -> (r: bool)
    ensures
        r == regex_is_match(*pattern, haystack@),
;

} // verus!
