//! Regular expressions (`regex` crate).
use vstd::prelude::*;
use crate::text::texts;

verus! {

#[verifier::external_type_specification]
#[verifier::external_body]
pub struct ExRegexSet(regex::RegexSet);

#[verifier::external_type_specification]
#[verifier::external_body]
pub struct ExRegex(regex::Regex);

/// The patterns a regex set was compiled from (`RegexSet::patterns`).
pub uninterp spec fn regex_set_patterns(rs: regex::RegexSet) -> Seq<Seq<char>>;

/// Whether `RegexSet::new` compiles these patterns.
pub uninterp spec fn regex_set_compiles(patterns: Seq<Seq<char>>) -> bool;

/// What `RegexSet::is_match` answers for a set of these patterns on `hay`.
pub uninterp spec fn regex_set_matches(patterns: Seq<Seq<char>>, hay: Seq<char>) -> bool;

/// Calls `RegexSet::new`.
#[verifier::external_body]
pub(crate) fn regex_set_new(patterns: &Vec<String>) -> (r: Result<regex::RegexSet, regex::Error>)
    ensures
        r is Ok <==> regex_set_compiles(texts(patterns@)),
        r matches Ok(rs) ==> regex_set_patterns(rs) == texts(patterns@),
{
    regex::RegexSet::new(patterns)
}

/// Calls `RegexSet::is_match`.
#[verifier::external_body]
pub(crate) fn regex_set_is_match(rs: &regex::RegexSet, hay: &str) -> (r: bool)
    ensures
        r == regex_set_matches(regex_set_patterns(*rs), hay@),
{
    rs.is_match(hay)
}

/// The pattern a regex was compiled from (`Regex::as_str`).
pub uninterp spec fn regex_source(re: regex::Regex) -> Seq<char>;

/// Whether `Regex::new` compiles this pattern.
pub uninterp spec fn regex_compiles(pattern: Seq<char>) -> bool;

/// What `Regex::is_match` answers for this pattern on `hay`.
pub uninterp spec fn regex_matches(pattern: Seq<char>, hay: Seq<char>) -> bool;

/// Calls `Regex::new`.
#[verifier::external_body]
pub(crate) fn regex_new(pattern: &str) -> (r: Result<regex::Regex, regex::Error>)
    ensures
        r is Ok <==> regex_compiles(pattern@),
        r matches Ok(re) ==> regex_source(re) == pattern@,
{
    regex::Regex::new(pattern)
}

/// Calls `Regex::is_match`.
#[verifier::external_body]
pub(crate) fn regex_is_match(re: &regex::Regex, hay: &str) -> (r: bool)
    ensures
        r == regex_matches(regex_source(*re), hay@),
{
    re.is_match(hay)
}

} // verus!
