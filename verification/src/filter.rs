//! The name filter: a compiled pattern and a flag that inverts its verdict.

use crate::error::CountError;
use crate::matcher::{compile, compiled, compiles, is_match, regex_is_match};
use regex::Regex;
use vstd::prelude::*;

verus! {

/// What a filter is, to the contracts: the compiled pattern and the invert
/// flag.
pub struct FilterRule {
    /// The compiled pattern.
    pub regex: Regex,
    /// Whether the pattern's verdict is flipped.
    pub invert: bool,
}

impl FilterRule {
    /// Whether this rule lets `name` through: the pattern's verdict on the
    /// name, flipped when `invert` is set.
    pub open spec fn accepts(self, name: Seq<char>) -> bool {
        self.invert != regex_is_match(self.regex, name)
    }

    /// The rule with the same pattern and the flag the other way round.
    pub open spec fn inverted(self) -> FilterRule {
        FilterRule { invert: !self.invert, ..self }
    }
}

/// The rule that `pattern` and `invert` stand for, where the pattern
/// compiles.
pub open spec fn rule_for(pattern: Seq<char>, invert: bool) -> FilterRule {
    FilterRule { regex: compiled(pattern)->Ok_0, invert }
}

/// What building a filter from `pattern` and `invert` comes to: the rule
/// they stand for where the pattern compiles, else `InvalidPattern` with the
/// engine's reason.
pub open spec fn filter_for(pattern: Seq<char>, invert: bool) -> Result<FilterRule, CountError> {
    match compiled(pattern) {
        Ok(_) => Ok(rule_for(pattern, invert)),
        Err(cause) => Err(CountError::InvalidPattern(cause)),
    }
}

/// The rule of a filter that was built, or why it was not.
pub open spec fn rule_of(filter: Result<NameFilter, CountError>) -> Result<FilterRule, CountError> {
    match filter {
        Ok(f) => Ok(f@),
        Err(e) => Err(e),
    }
}

/// A compiled pattern with its invert flag. Immutable once built.
pub struct NameFilter {
    regex: Regex,
    invert: bool,
}

impl View for NameFilter {
    type V = FilterRule;

    closed spec fn view(&self) -> FilterRule {
        FilterRule { regex: self.regex, invert: self.invert }
    }
}

impl NameFilter {
    /// Builds the filter from the outcome of compiling a pattern: the
    /// expression with the flag, or `InvalidPattern` with the cause.
    pub fn from_compiled(outcome: Result<Regex, regex::Error>, invert: bool) -> (r: Result<
        NameFilter,
        CountError,
    >)
        ensures
            match outcome {
                Ok(regex) => r matches Ok(f) && f@ == (FilterRule { regex, invert }),
                Err(cause) => r matches Err(CountError::InvalidPattern(e)) && e == cause,
            },
    {
        match outcome {
            Ok(regex) => Ok(NameFilter { regex, invert }),
            Err(cause) => Err(CountError::InvalidPattern(cause)),
        }
    }

    /// Compiles `pattern` and builds the filter. Succeeds exactly when the
    /// pattern compiles, and fails with `InvalidPattern` when the engine
    /// turns it down.
    pub fn new(pattern: &str, invert: bool) -> (r: Result<NameFilter, CountError>)
        ensures
            r is Ok <==> compiles(pattern@),
            rule_of(r) == filter_for(pattern@, invert),
    {
        NameFilter::from_compiled(compile(pattern), invert)
    }

    /// Whether the filter lets `name` through.
    pub fn accepts(&self, name: &str) -> (b: bool)
        ensures
            b == self@.accepts(name@),
    {
        self.invert != is_match(&self.regex, name)
    }
}

/// Inverting a filter flips its verdict on every name: what a pattern lets
/// through with the flag set is what it turns down without.
pub proof fn lemma_inversion(pattern: Seq<char>, name: Seq<char>)
    ensures
        rule_for(pattern, true).accepts(name) == !rule_for(pattern, false).accepts(name),
{
}

/// The same of any rule, whatever it was built from.
pub proof fn lemma_inverted_rule(rule: FilterRule, name: Seq<char>)
    ensures
        rule.inverted().accepts(name) == !rule.accepts(name),
{
}

} // verus!
