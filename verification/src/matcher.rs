//! Querying a loaded rule set for a domain name.
use vstd::prelude::*;
use vstd::utf8::encode_utf8;
use crate::builder::RewriteEntry;
use crate::fstset::{fst_built, fst_bytes, fst_contains, fst_keys_of};
use crate::keyword::{ac_is_match, ac_patterns, any_occurs};
use crate::labels::{reverse_labels, reversed_labels};
use crate::reader::ArsReader;
use crate::regexes::{
    regex_compiles, regex_is_match, regex_matches, regex_new, regex_set_is_match,
    regex_set_matches, regex_set_patterns,
};
use crate::rule::RuleType;
use crate::text::{chars_of, string_from_chars, to_lowercase, unicode_lowercase};

verus! {

/// Result of a domain query against the rule set.
#[derive(Debug, Clone, PartialEq, Eq)]
pub enum MatchResult {
    /// Domain is allowed to pass through to upstream.
    Allow,
    /// Domain should be blocked (NXDOMAIN or 0.0.0.0).
    Block,
    /// Domain should be rewritten to the given target (IP or CNAME).
    Rewrite(String),
    /// No rule matched — default policy applies.
    NoMatch,
}

/// `s` without its trailing dots.
pub open spec fn trim_dots(s: Seq<char>) -> Seq<char>
    decreases s.len(),
{
    if s.len() > 0 && s.last() == '.' {
        trim_dots(s.drop_last())
    } else {
        s
    }
}

/// The name a query is matched with: trailing dots removed, lowercased.
pub open spec fn normalized(fqdn: Seq<char>) -> Seq<char> {
    unicode_lowercase(trim_dots(fqdn))
}

/// `d` is a proper subdomain of `p`: it ends with "." followed by `p`.
pub open spec fn is_subdomain(d: Seq<char>, p: Seq<char>) -> bool {
    &&& d.len() >= p.len() + 1
    &&& d.subrange(d.len() - p.len() - 1, d.len() as int) == seq!['.'] + p
}

/// Some prefix of `d`'s reversed-label bytes that ends at a dot, or all of
/// them, is a key of the set.
pub open spec fn suffix_in(keys: Set<Seq<u8>>, d: Seq<char>) -> bool {
    let rb = encode_utf8(reversed_labels(d));
    exists|j: int|
        0 <= j <= rb.len() && (j == rb.len() || rb[j] == 46u8) && #[trigger] keys.contains(
            rb.take(j),
        )
}

pub open spec fn exact_hit(f: Option<fst::Set<Vec<u8>>>, d: Seq<char>) -> bool {
    f matches Some(s) && fst_keys_of(fst_bytes(s)).contains(encode_utf8(d))
}

pub open spec fn suffix_hit(f: Option<fst::Set<Vec<u8>>>, d: Seq<char>) -> bool {
    f matches Some(s) && suffix_in(fst_keys_of(fst_bytes(s)), d)
}

pub open spec fn keyword_hit(f: Option<aho_corasick::AhoCorasick>, d: Seq<char>) -> bool {
    f matches Some(ac) && any_occurs(ac_patterns(ac), encode_utf8(d))
}

pub open spec fn regex_hit(f: Option<regex::RegexSet>, d: Seq<char>) -> bool {
    f matches Some(rs) && regex_set_matches(regex_set_patterns(rs), d)
}

/// A set is absent, or its bytes are an FST that `Set::from_iter` built.
pub open spec fn set_built(f: Option<fst::Set<Vec<u8>>>) -> bool {
    f matches Some(s) ==> fst_built(fst_bytes(s))
}

/// Every FST set of the reader is one that `Set::from_iter` built, so that
/// looking names up in it cannot fail.
pub open spec fn lookups_safe(r: ArsReader) -> bool {
    &&& set_built(r.block_exact)
    &&& set_built(r.block_suffix)
    &&& set_built(r.allow_exact)
    &&& set_built(r.allow_suffix)
}

/// Some allow rule matches: exact, suffix, keyword or regex.
pub open spec fn allow_hit(r: ArsReader, d: Seq<char>) -> bool {
    ||| exact_hit(r.allow_exact, d)
    ||| suffix_hit(r.allow_suffix, d)
    ||| keyword_hit(r.allow_keyword, d)
    ||| regex_hit(r.allow_regex, d)
}

/// Some block rule matches: exact, suffix, keyword or regex.
pub open spec fn block_hit(r: ArsReader, d: Seq<char>) -> bool {
    ||| exact_hit(r.block_exact, d)
    ||| suffix_hit(r.block_suffix, d)
    ||| keyword_hit(r.block_keyword, d)
    ||| regex_hit(r.block_regex, d)
}

/// A rewrite entry matches `d`: exactly, as the name or a subdomain of it,
/// or (for a regex entry whose pattern compiles) by the regex.
pub open spec fn entry_matches(e: RewriteEntry, d: Seq<char>) -> bool {
    match e.rule_type {
        RuleType::DomainExact => d == e.pattern@,
        RuleType::DomainSuffix => d == e.pattern@ || is_subdomain(d, e.pattern@),
        RuleType::Regex => regex_compiles(e.pattern@) && regex_matches(e.pattern@, d),
        _ => false,
    }
}

/// The target of the first rewrite entry that matches `d`.
pub open spec fn rewrite_target(es: Seq<RewriteEntry>, d: Seq<char>) -> Option<Seq<char>>
    decreases es.len(),
{
    if es.len() == 0 {
        None
    } else if entry_matches(es[0], d) {
        Some(es[0].target@)
    } else {
        rewrite_target(es.drop_first(), d)
    }
}

/// What a query for the (normalized) name `d` answers: allow rules first,
/// then rewrites, then block rules; no match otherwise.
pub open spec fn answers(r: ArsReader, d: Seq<char>, m: MatchResult) -> bool {
    if allow_hit(r, d) {
        m is Allow
    } else {
        match rewrite_target(r.rewrites@, d) {
            Some(t) => m matches MatchResult::Rewrite(s) && s@ == t,
            None => if block_hit(r, d) {
                m is Block
            } else {
                m is NoMatch
            },
        }
    }
}

/// The verdict on a (normalized) name `d`, in terms of the matchers'
/// contents. An allow rule of any kind that matches `d` allows it.
/// Otherwise the first rewrite entry that matches `d` rewrites it. Otherwise
/// a block rule of any kind that matches `d` blocks it: an exact name, the
/// name or one of its parent domains in the suffix set, a keyword occurring
/// in it, or a regex of the block set matching it. Otherwise nothing
/// matches.
pub proof fn lemma_verdict(r: ArsReader, d: Seq<char>, m: MatchResult)
    requires
        answers(r, d, m),
    ensures
        ({
            let allowed = (r.allow_exact matches Some(s) && fst_keys_of(fst_bytes(s)).contains(
                encode_utf8(d),
            )) || (r.allow_suffix matches Some(s) && suffix_in(fst_keys_of(fst_bytes(s)), d)) || (
            r.allow_keyword matches Some(ac) && any_occurs(ac_patterns(ac), encode_utf8(d))) || (
            r.allow_regex matches Some(rs) && regex_set_matches(regex_set_patterns(rs), d));
            let blocked = (r.block_exact matches Some(s) && fst_keys_of(fst_bytes(s)).contains(
                encode_utf8(d),
            )) || (r.block_suffix matches Some(s) && suffix_in(fst_keys_of(fst_bytes(s)), d)) || (
            r.block_keyword matches Some(ac) && any_occurs(ac_patterns(ac), encode_utf8(d))) || (
            r.block_regex matches Some(rs) && regex_set_matches(regex_set_patterns(rs), d));
            &&& allowed ==> m is Allow
            &&& !allowed ==> match rewrite_target(r.rewrites@, d) {
                Some(t) => m matches MatchResult::Rewrite(x) && x@ == t,
                None => (blocked ==> m is Block) && (!blocked ==> m is NoMatch),
            }
        }),
{
}

/// The first rewrite entry that matches `d` gives the target: an exact entry
/// matches its own name, a suffix entry its name and every subdomain, a
/// regex entry (that compiles) every name it matches, and no other entry
/// matches.
pub proof fn lemma_first_rewrite(es: Seq<RewriteEntry>, d: Seq<char>, i: int)
    requires
        0 <= i < es.len(),
        match es[i].rule_type {
            RuleType::DomainExact => d == es[i].pattern@,
            RuleType::DomainSuffix => d == es[i].pattern@ || (d.len() > es[i].pattern@.len()
                && d.subrange(d.len() - es[i].pattern@.len() - 1, d.len() as int) == seq!['.']
                + es[i].pattern@),
            RuleType::Regex => regex_compiles(es[i].pattern@) && regex_matches(es[i].pattern@, d),
            _ => false,
        },
        forall|j: int| 0 <= j < i ==> !entry_matches(#[trigger] es[j], d),
    ensures
        rewrite_target(es, d) == Some(es[i].target@),
    decreases i,
{
    if i > 0 {
        lemma_first_rewrite(es.drop_first(), d, i - 1);
        assert(es.drop_first()[i - 1] == es[i]);
        assert forall|j: int| 0 <= j < i - 1 implies !entry_matches(#[trigger] es.drop_first()[j], d) by {
            assert(es.drop_first()[j] == es[j + 1]);
        }
        assert(!entry_matches(es[0], d));
    }
}

/// Normalizing removes exactly the trailing dots: what is left ends in no
/// dot, and the name is what is left followed by dots only.
pub proof fn lemma_trim_dots(s: Seq<char>)
    ensures
        trim_dots(s).len() == 0 || trim_dots(s).last() != '.',
        trim_dots(s).len() <= s.len(),
        s.take(trim_dots(s).len() as int) == trim_dots(s),
        forall|i: int| trim_dots(s).len() <= i < s.len() ==> s[i] == '.',
    decreases s.len(),
{
    if s.len() > 0 && s.last() == '.' {
        lemma_trim_dots(s.drop_last());
        let t = trim_dots(s.drop_last());
        assert(s.take(t.len() as int) =~= s.drop_last().take(t.len() as int));
        assert forall|i: int| t.len() <= i < s.len() implies s[i] == '.' by {
            if i < s.len() - 1 {
                assert(s[i] == s.drop_last()[i]);
            }
        }
    } else {
        assert(s.take(s.len() as int) =~= s);
    }
}

/// Removes trailing dots.
fn trim_trailing_dots(s: &str) -> (r: String)
    ensures
        r@ == trim_dots(s@),
{
    let cs = chars_of(s);
    let mut end = cs.len();
    assert(cs@.take(end as int) =~= cs@);
    while end > 0 && cs[end - 1] == '.'
        invariant
            end <= cs@.len(),
            trim_dots(cs@) == trim_dots(cs@.take(end as int)),
        decreases end,
    {
        assert(cs@.take(end as int).drop_last() =~= cs@.take(end - 1));
        end = end - 1;
    }
    assert(cs@.take(end as int).len() == 0 || cs@.take(end as int).last() != '.');
    let v = vstd::slice::slice_subrange(cs.as_slice(), 0, end);
    assert(v@ =~= cs@.take(end as int));
    string_from_chars(v)
}

/// Query a loaded rule set for a name: trailing dots are removed and the
/// name lowercased; then allow rules (exact, suffix, keyword, regex) win,
/// then the first matching rewrite, then block rules (same order).
pub fn match_domain(reader: &ArsReader, fqdn: &str) -> (m: MatchResult)
    requires
        lookups_safe(*reader),
    ensures
        answers(*reader, normalized(fqdn@), m),
{
    let trimmed = trim_trailing_dots(fqdn);
    let domain = to_lowercase(trimmed.as_str());
    if check_allow(reader, domain.as_str()) {
        return MatchResult::Allow;
    }
    if let Some(target) = check_rewrite(reader, domain.as_str()) {
        return MatchResult::Rewrite(target);
    }
    if check_block(reader, domain.as_str()) {
        return MatchResult::Block;
    }
    MatchResult::NoMatch
}

fn check_allow(reader: &ArsReader, domain: &str) -> (r: bool)
    requires
        lookups_safe(*reader),
    ensures
        r == allow_hit(*reader, domain@),
{
    if let Some(set) = &reader.allow_exact {
        if fst_contains(set, domain.as_bytes()) {
            return true;
        }
    }
    if let Some(set) = &reader.allow_suffix {
        if suffix_match(set, domain) {
            return true;
        }
    }
    if let Some(ac) = &reader.allow_keyword {
        if ac_is_match(ac, domain) {
            return true;
        }
    }
    if let Some(rs) = &reader.allow_regex {
        if regex_set_is_match(rs, domain) {
            return true;
        }
    }
    false
}

fn check_block(reader: &ArsReader, domain: &str) -> (r: bool)
    requires
        lookups_safe(*reader),
    ensures
        r == block_hit(*reader, domain@),
{
    if let Some(set) = &reader.block_exact {
        if fst_contains(set, domain.as_bytes()) {
            return true;
        }
    }
    if let Some(set) = &reader.block_suffix {
        if suffix_match(set, domain) {
            return true;
        }
    }
    if let Some(ac) = &reader.block_keyword {
        if ac_is_match(ac, domain) {
            return true;
        }
    }
    if let Some(rs) = &reader.block_regex {
        if regex_set_is_match(rs, domain) {
            return true;
        }
    }
    false
}

/// `d` ends with `.` followed by `p`.
fn ends_with_dot_pattern(d: &Vec<char>, p: &Vec<char>) -> (r: bool)
    ensures
        r == is_subdomain(d@, p@),
{
    if d.len() == 0 || d.len() - 1 < p.len() {
        return false;
    }
    let off = d.len() - p.len() - 1;
    if d[off] != '.' {
        assert((seq!['.'] + p@)[0] == '.');
        assert(d@.subrange(off as int, d@.len() as int)[0] == d@[off as int]);
        return false;
    }
    let mut k: usize = 0;
    while k < p.len()
        invariant
            off + 1 + p@.len() == d@.len(),
            d@.len() == d.len(),
            p@.len() == p.len(),
            k <= p@.len(),
            forall|j: int| 0 <= j < k ==> d@[off + 1 + j] == p@[j],
        decreases p.len() - k,
    {
        if d[off + 1 + k] != p[k] {
            assert(d@.subrange(off as int, d@.len() as int)[k + 1] == d@[off + 1 + k]);
            assert((seq!['.'] + p@)[k + 1] == p@[k as int]);
            return false;
        }
        k = k + 1;
    }
    assert(d@.subrange(off as int, d@.len() as int) =~= seq!['.'] + p@);
    true
}

/// The target of the first matching rewrite entry.
fn chars_equal(a: &Vec<char>, b: &Vec<char>) -> (r: bool)
    ensures
        r == (a@ == b@),
{
    if a.len() != b.len() {
        return false;
    }
    let mut k: usize = 0;
    while k < a.len()
        invariant
            a@.len() == b@.len(),
            k <= a@.len(),
            forall|j: int| 0 <= j < k ==> a@[j] == b@[j],
        decreases a.len() - k,
    {
        if a[k] != b[k] {
            return false;
        }
        k = k + 1;
    }
    assert(a@ =~= b@);
    true
}

fn check_rewrite(reader: &ArsReader, domain: &str) -> (r: Option<String>)
    ensures
        match rewrite_target(reader.rewrites@, domain@) {
            Some(t) => r matches Some(s) && s@ == t,
            None => r is None,
        },
{
    let dchars = chars_of(domain);
    let ghost es = reader.rewrites@;
    let mut i: usize = 0;
    assert(es.skip(0) =~= es);
    while i < reader.rewrites.len()
        invariant
            es == reader.rewrites@,
            i <= es.len(),
            dchars@ == domain@,
            rewrite_target(es, domain@) == rewrite_target(es.skip(i as int), domain@),
        decreases es.len() - i,
    {
        let entry = &reader.rewrites[i];
        let matches = match entry.rule_type {
            RuleType::DomainExact => {
                let pchars = chars_of(entry.pattern.as_str());
                chars_equal(&dchars, &pchars)
            },
            RuleType::DomainSuffix => {
                let pchars = chars_of(entry.pattern.as_str());
                chars_equal(&dchars, &pchars) || ends_with_dot_pattern(&dchars, &pchars)
            },
            RuleType::Regex => match regex_new(entry.pattern.as_str()) {
                Ok(re) => regex_is_match(&re, domain),
                Err(_) => false,
            },
            _ => false,
        };
        assert(es.skip(i as int)[0] == *entry);
        assert(es.skip(i as int).drop_first() =~= es.skip(i + 1));
        assert(matches == entry_matches(*entry, domain@));
        if matches {
            return Some(entry.target.clone());
        }
        i = i + 1;
    }
    assert(es.skip(i as int) =~= Seq::<RewriteEntry>::empty());
    None
}

/// Suffix match against a set of reversed names: each prefix of the
/// reversed name that ends before a dot, and the whole reversed name, is
/// looked up ("sub.example.com" tries "com", "com.example" and
/// "com.example.sub").
fn suffix_match(set: &fst::Set<Vec<u8>>, domain: &str) -> (r: bool)
    requires
        fst_built(fst_bytes(*set)),
    ensures
        r == suffix_in(fst_keys_of(fst_bytes(*set)), domain@),
{
    let reversed = reverse_labels(domain);
    let bytes = reversed.as_str().as_bytes();
    let ghost keys = fst_keys_of(fst_bytes(*set));
    let ghost rb = bytes@;
    assert(rb == encode_utf8(reversed_labels(domain@)));
    let n = bytes.len();
    let mut i: usize = 0;
    while i < n
        invariant
            n == rb.len(),
            rb == bytes@,
            keys == fst_keys_of(fst_bytes(*set)),
            fst_built(fst_bytes(*set)),
            rb == encode_utf8(reversed_labels(domain@)),
            i <= n,
            forall|j: int| 0 <= j < i && rb[j] == 46u8 ==> !keys.contains(rb.take(j)),
        decreases n - i,
    {
        let b = bytes[i];
        if b == 46u8 || i == n - 1 {
            let end = if b == 46u8 {
                i
            } else {
                i + 1
            };
            let candidate = vstd::slice::slice_subrange(bytes, 0, end);
            assert(candidate@ =~= rb.take(end as int));
            let hit = fst_contains(set, candidate);
            assert(hit == keys.contains(rb.take(end as int)));
            if hit {
                assert(0 <= end <= rb.len() && (end == rb.len() || rb[end as int] == 46u8));
                return true;
            }
        }
        i = i + 1;
    }
    assert(rb.take(n as int) =~= rb);
    let full = fst_contains(set, bytes);
    proof {
        if !full {
            assert forall|j: int|
                0 <= j <= rb.len() && (j == rb.len() || rb[j] == 46u8) implies !#[trigger] keys.contains(
                rb.take(j),
            ) by {}
        }
    }
    full
}

} // verus!
