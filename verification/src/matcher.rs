//! The regular-expression engine, as far as the name filter relies on it.
//!
//! Nothing in this file is proved: it states what the `regex` crate is
//! trusted to do.

use regex::Regex;
use vstd::prelude::*;

verus! {

/// A compiled regular expression of the `regex` crate, opaque to the proofs.
#[verifier::external_type_specification]
#[verifier::external_body]
pub struct ExRegex(regex::Regex);

/// The error with which the `regex` crate turns a pattern down.
#[verifier::external_type_specification]
#[verifier::external_body]
pub struct ExRegexError(regex::Error);

/// What `Regex::new` returns for `pattern`: the expression that the pattern
/// compiles to, or the reason why it compiles to none.
pub uninterp spec fn compiled(pattern: Seq<char>) -> Result<Regex, regex::Error>;

/// Whether `pattern` compiles.
pub open spec fn compiles(pattern: Seq<char>) -> bool {
    compiled(pattern) is Ok
}

/// Whether the expression `re` finds a match anywhere in `haystack`: what
/// `Regex::is_match` returns.
pub uninterp spec fn regex_is_match(re: Regex, haystack: Seq<char>) -> bool;

/// Calls `Regex::new`. Whether a pattern compiles, and to what, is a matter
/// of the pattern alone; nothing is claimed about which patterns compile.
#[verifier::external_body]
pub(crate) fn compile(pattern: &str) -> (r: Result<Regex, regex::Error>)
    ensures
        r == compiled(pattern@),
{
    Regex::new(pattern)
}

/// Calls `Regex::is_match`. The answer is a matter of the expression and the
/// haystack alone.
#[verifier::external_body]
pub(crate) fn is_match(re: &Regex, haystack: &str) -> (b: bool)
    ensures
        b == regex_is_match(*re, haystack@),
{
    re.is_match(haystack)
}

} // verus!
