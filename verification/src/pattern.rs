//! Regular expressions, compiled once and matched many times.
//!
//! The expressions are those of the `regex` crate. An expression is known
//! here by its language: the set of texts in which it finds a match. Which
//! language a pattern has is named, not defined: the crate's syntax and
//! matching semantics are its own.

use regex::Regex;
use regex::RegexBuilder;
use vstd::prelude::*;

verus! {

#[verifier::external_type_specification]
#[verifier::external_body]
pub struct ExRegex(regex::Regex);

#[verifier::external_type_specification]
#[verifier::external_body]
pub struct ExRegexError(regex::Error);

/// The texts somewhere in which `pattern` matches, compiled with the given
/// case sensitivity; `None` where the pattern is rejected (bad syntax, or a
/// compiled size over the builder's default limit).
pub uninterp spec fn pattern_language(pattern: Seq<char>, case_insensitive: bool) -> Option<
    Set<Seq<char>>,
>;

/// The texts somewhere in which `regex` matches.
pub uninterp spec fn regex_language(regex: Regex) -> Set<Seq<char>>;

/// `RegexBuilder::new(..).case_insensitive(..).build()`: compiles `pattern`
/// with an otherwise default configuration. The contract claims only that the
/// outcome is a function of the pattern and the flag: it succeeds exactly
/// where `pattern_language` has a language, and the expression it then
/// returns has that language.
#[verifier::external_body]
pub(crate) fn compile(pattern: &str, case_insensitive: bool) -> (r: Result<Regex, regex::Error>)
    ensures
        r is Ok <==> pattern_language(pattern@, case_insensitive) is Some,
        r matches Ok(regex) ==> pattern_language(pattern@, case_insensitive) == Some(
            regex_language(regex),
        ),
{
    RegexBuilder::new(pattern).case_insensitive(case_insensitive).build()
}

/// `Regex::is_match`: true exactly where the expression matches somewhere in
/// the haystack, that is, where the haystack is in its language.
#[verifier::external_body]
pub(crate) fn is_match(regex: &Regex, haystack: &str) -> (r: bool)
    ensures
        r == regex_language(*regex).contains(haystack@),
{
    regex.is_match(haystack)
}

} // verus!
