//! Keyword search with ASCII case folding (`aho-corasick` crate).
use vstd::prelude::*;
use vstd::utf8::encode_utf8;
use crate::text::{texts, utf8_all};

verus! {

#[verifier::external_type_specification]
#[verifier::external_body]
pub struct ExAhoCorasick(aho_corasick::AhoCorasick);

#[verifier::external_type_specification]
#[verifier::external_body]
pub struct ExAcBuildError(aho_corasick::BuildError);

/// The patterns an automaton was built from, as bytes, in order.
pub uninterp spec fn ac_patterns(ac: aho_corasick::AhoCorasick) -> Seq<Seq<u8>>;

/// Whether building an ASCII-case-insensitive automaton from these patterns
/// succeeds (it fails only when the automaton would exceed its size limits).
pub uninterp spec fn ac_builds(patterns: Seq<Seq<u8>>) -> bool;

/// ASCII case folding of one byte: `A`..`Z` become `a`..`z`.
pub open spec fn ascii_fold(b: u8) -> u8 {
    if 65 <= b && b <= 90 {
        (b + 32) as u8
    } else {
        b
    }
}

/// `p` occurs in `h` at offset `i`, ignoring the case of ASCII letters.
pub open spec fn occurs_at(p: Seq<u8>, h: Seq<u8>, i: int) -> bool {
    &&& 0 <= i
    &&& i + p.len() <= h.len()
    &&& forall|j: int| 0 <= j < p.len() ==> ascii_fold(#[trigger] h[i + j]) == ascii_fold(p[j])
}

/// Some pattern occurs somewhere in `h`, ignoring ASCII case.
pub open spec fn any_occurs(patterns: Seq<Seq<u8>>, h: Seq<u8>) -> bool {
    exists|k: int, i: int| 0 <= k < patterns.len() && #[trigger] occurs_at(patterns[k], h, i)
}

/// Calls `AhoCorasick::builder().ascii_case_insensitive(true).build(..)`.
#[verifier::external_body]
pub(crate) fn ac_build(patterns: &Vec<String>) -> (r: Result<aho_corasick::AhoCorasick, aho_corasick::BuildError>)
    ensures
        r is Ok <==> ac_builds(utf8_all(texts(patterns@))),
        r matches Ok(ac) ==> ac_patterns(ac) == utf8_all(texts(patterns@)),
{
    aho_corasick::AhoCorasick::builder().ascii_case_insensitive(true).build(patterns)
}

/// Calls `AhoCorasick::is_match`: true when some pattern occurs in the
/// haystack; with ASCII case insensitivity, ASCII letters match either case
/// and all other bytes match only themselves.
#[verifier::external_body]
pub(crate) fn ac_is_match(ac: &aho_corasick::AhoCorasick, haystack: &str) -> (r: bool)
    ensures
        r == any_occurs(ac_patterns(*ac), encode_utf8(haystack@)),
{
    ac.is_match(haystack)
}

/// The text of a build error (`to_string`).
#[verifier::external_body]
pub(crate) fn ac_error_text(e: &aho_corasick::BuildError) -> String {
    e.to_string()
}

} // verus!
