//! Building `.ars` rule sets: collecting rules, removing duplicates, sorting
//! them into sections and encoding the binary file.
use vstd::prelude::*;
use crate::format::Compression;
use crate::rule::{Rule, RuleAction, RuleType};
use crate::ruleorder::{dedup_adjacent, dedup_rules, sort_rules, stable_sort_of, no_duplicate_filters, lemma_dedup_distinct, lemma_dedup_sorted, lemma_builder_order, may_follow, sorted_by_key, key_le};
use crate::text::{texts, utf8_all, join_lines_bytes};
use crate::order::{keys_of, sort_unique_keys, sorted_keys, lemma_sorted_keys_is, strictly_sorted};
use crate::fstset::{fst_build, fst_built, fst_error_text, fst_encoding, fst_accepts, fst_keys_of};
use crate::codec::{zstd_compress, zstd_decoded, zstd_frame, crc32, crc32_of};
use crate::container::{unstored, stored_form, ars_file, frames_decode, file_body, header_prefix, records, section_record, le32, push_le32, push_all, header_prefix_bytes};
use crate::labels::{reversed_labels, reverse_labels, join_on};
use crate::error::ArsError;
use crate::format::SectionId;
use vstd::utf8::encode_utf8;

verus! {

/// Number of rules of each kind in a rule set.
#[derive(Debug, Clone, Copy)]
pub struct RuleCounts {
    pub block_exact: usize,
    pub block_suffix: usize,
    pub block_keyword: usize,
    pub block_regex: usize,
    pub allow_exact: usize,
    pub allow_suffix: usize,
    pub allow_keyword: usize,
    pub allow_regex: usize,
    pub rewrite: usize,
}

impl RuleCounts {
    /// The sum of all counts.
    pub open spec fn spec_total(&self) -> int {
        self.block_exact + self.block_suffix + self.block_keyword + self.block_regex
            + self.allow_exact + self.allow_suffix + self.allow_keyword + self.allow_regex
            + self.rewrite
    }

    pub fn total(&self) -> (t: usize)
        requires
            self.spec_total() <= usize::MAX,
        ensures
            t == self.spec_total(),
    {
        self.block_exact + self.block_suffix + self.block_keyword + self.block_regex
            + self.allow_exact + self.allow_suffix + self.allow_keyword + self.allow_regex
            + self.rewrite
    }
}

impl Default for RuleCounts {
    fn default() -> (r: Self)
        ensures
            r.spec_total() == 0,
            r.block_exact == 0 && r.block_suffix == 0 && r.block_keyword == 0 && r.block_regex == 0,
            r.allow_exact == 0 && r.allow_suffix == 0 && r.allow_keyword == 0 && r.allow_regex == 0,
            r.rewrite == 0,
    {
        RuleCounts {
            block_exact: 0,
            block_suffix: 0,
            block_keyword: 0,
            block_regex: 0,
            allow_exact: 0,
            allow_suffix: 0,
            allow_keyword: 0,
            allow_regex: 0,
            rewrite: 0,
        }
    }
}

/// Descriptive data stored in a rule set's metadata section.
#[derive(Debug, Clone)]
pub struct ArsMetadata {
    pub created_at: String,
    pub source_files: Vec<String>,
    pub rule_counts: RuleCounts,
    pub description: Option<String>,
}

/// A rewrite rule as stored in the rewrite section.
#[derive(Debug, Clone)]
pub struct RewriteEntry {
    pub pattern: String,
    pub rule_type: RuleType,
    pub target: String,
}

/// The metadata a build records when none was set: the given creation time,
/// no source files, the rule counts and no description.
pub fn default_metadata(created_at: String, counts: RuleCounts) -> (m: ArsMetadata)
    ensures
        m.created_at == created_at,
        m.source_files@.len() == 0,
        m.rule_counts == counts,
        m.description is None,
{
    ArsMetadata { created_at, source_files: Vec::new(), rule_counts: counts, description: None }
}

/// The shape of what `to_rfc3339` writes for a UTC time after 1970: a
/// date and time of at least "YYYY-MM-DDTHH:MM:SS" followed by the offset
/// "+00:00".
pub open spec fn utc_rfc3339_shape(s: Seq<char>) -> bool {
    &&& s.len() >= 25
    &&& s.skip(s.len() - 6) == "+00:00"@
}

/// Reads the system clock (`SystemTime::now`, `duration_since` the Unix
/// epoch) and formats that time with chrono's
/// `DateTime::<Utc>::from_timestamp` and `to_rfc3339`. Nothing comes back
/// when the clock reads before 1970 or past chrono's range; otherwise
/// chrono's source shows that it writes the year (four digits for years up
/// to 9999, a sign and more digits outside them), "-MM-DDTHH:MM:SS", an
/// optional fraction, and for UTC the offset "+00:00". The time itself is
/// the clock's.
#[verifier::external_body]
fn utc_now_rfc3339() -> (r: Option<String>)
    ensures
        r matches Some(s) ==> utc_rfc3339_shape(s@),
{
    let since = std::time::SystemTime::now().duration_since(std::time::UNIX_EPOCH).ok()?;
    let secs = i64::try_from(since.as_secs()).ok()?;
    let t = chrono::DateTime::from_timestamp(secs, since.subsec_nanos())?;
    Some(t.to_rfc3339())
}

/// The metadata a build stores: the metadata set on the builder, or else
/// the default metadata stamped with the present time in RFC 3339 form.
/// Without set metadata, nothing comes back when the clock cannot be read
/// as a time after 1970.
pub fn resolve_metadata(meta: Option<ArsMetadata>, counts: RuleCounts) -> (m: Option<ArsMetadata>)
    ensures
        match meta {
            Some(given) => m == Some(given),
            None => m matches Some(d) ==> {
                &&& d.source_files@.len() == 0
                &&& d.rule_counts == counts
                &&& d.description is None
                &&& utc_rfc3339_shape(d.created_at@)
            },
        },
{
    match meta {
        Some(given) => Some(given),
        None => match utc_now_rfc3339() {
            Some(now) => Some(default_metadata(now, counts)),
            None => None,
        },
    }
}

/// `a` is `Allow` when `allow`, `Block` otherwise.
pub open spec fn action_is(a: RuleAction, allow: bool) -> bool {
    if allow {
        a is Allow
    } else {
        a is Block
    }
}

/// The patterns of the allow (or block) rules of type `t`, in order.
pub open spec fn plain_patterns(rules: Seq<Rule>, allow: bool, t: RuleType) -> Seq<Seq<char>>
    decreases rules.len(),
{
    if rules.len() == 0 {
        Seq::empty()
    } else {
        let prev = plain_patterns(rules.drop_last(), allow, t);
        let r = rules.last();
        if r.rule_type == t && action_is(r.action, allow) {
            prev.push(r.pattern@)
        } else {
            prev
        }
    }
}

/// A rewrite entry as plain values: pattern, rule type, target.
pub open spec fn entry_view(e: RewriteEntry) -> (Seq<char>, RuleType, Seq<char>) {
    (e.pattern@, e.rule_type, e.target@)
}

/// The rewrite rules as entries, in order (any rule type).
pub open spec fn rewrite_entries(rules: Seq<Rule>) -> Seq<(Seq<char>, RuleType, Seq<char>)>
    decreases rules.len(),
{
    if rules.len() == 0 {
        Seq::empty()
    } else {
        let prev = rewrite_entries(rules.drop_last());
        let r = rules.last();
        match r.action {
            RuleAction::Rewrite { target } => prev.push((r.pattern@, r.rule_type, target@)),
            _ => prev,
        }
    }
}

/// Every rewrite entry has the type of some rule of `rules`.
proof fn lemma_entries_from(rules: Seq<Rule>)
    ensures
        forall|i: int|
            0 <= i < rewrite_entries(rules).len() ==> exists|k: int|
                0 <= k < rules.len() && (#[trigger] rewrite_entries(rules)[i]).1 == rules[k].rule_type,
    decreases rules.len(),
{
    if rules.len() > 0 {
        let t = rules.drop_last();
        lemma_entries_from(t);
        assert forall|i: int|
            0 <= i < rewrite_entries(rules).len() implies exists|k: int|
                0 <= k < rules.len() && (#[trigger] rewrite_entries(rules)[i]).1 == rules[k].rule_type by {
            if i < rewrite_entries(t).len() {
                let k = choose|k: int| 0 <= k < t.len() && rewrite_entries(t)[i].1 == t[k].rule_type;
                assert(rules[k] == t[k]);
                assert(rewrite_entries(rules)[i] == rewrite_entries(t)[i]);
            } else {
                assert(rewrite_entries(rules)[i].1 == rules[rules.len() - 1].rule_type);
            }
        }
    }
}

/// In a key-sorted rule list the rewrite entries come in type order: exact
/// names, then suffixes, keywords and regexes; so an exact rewrite is
/// tried before a suffix rewrite.
pub proof fn lemma_rewrites_in_type_order(rules: Seq<Rule>)
    requires
        sorted_by_key(rules),
    ensures
        forall|i: int, j: int|
            0 <= i < j < rewrite_entries(rules).len() ==> may_follow(
                (#[trigger] rewrite_entries(rules)[i]).1,
                (#[trigger] rewrite_entries(rules)[j]).1,
            ),
    decreases rules.len(),
{
    if rules.len() > 0 {
        let t = rules.drop_last();
        assert(sorted_by_key(t)) by {
            assert forall|i: int, j: int| 0 <= i < j < t.len() implies key_le(#[trigger] t[i], #[trigger] t[j]) by {
                assert(t[i] == rules[i] && t[j] == rules[j]);
            }
        }
        lemma_rewrites_in_type_order(t);
        lemma_entries_from(t);
        lemma_builder_order(rules);
        let e = rewrite_entries(rules);
        let et = rewrite_entries(t);
        assert forall|i: int, j: int|
            0 <= i < j < e.len() implies may_follow((#[trigger] e[i]).1, (#[trigger] e[j]).1) by {
            if j < et.len() {
                assert(e[i] == et[i] && e[j] == et[j]);
            } else {
                assert(e[i] == et[i]);
                let k = choose|k: int| 0 <= k < t.len() && et[i].1 == t[k].rule_type;
                assert(t[k] == rules[k]);
                assert(e[j].1 == rules[rules.len() - 1].rule_type);
                assert(may_follow(rules[k].rule_type, rules[rules.len() - 1].rule_type));
            }
        }
    }
}

/// The rules of a build sorted into sections, with their counts and the
/// metadata set on the builder (if any).
pub struct RuleSections {
    pub block_exact: Vec<String>,
    pub block_suffix: Vec<String>,
    pub block_keyword: Vec<String>,
    pub block_regex: Vec<String>,
    pub allow_exact: Vec<String>,
    pub allow_suffix: Vec<String>,
    pub allow_keyword: Vec<String>,
    pub allow_regex: Vec<String>,
    pub rewrites: Vec<RewriteEntry>,
    pub counts: RuleCounts,
    pub metadata: Option<ArsMetadata>,
}

impl RuleSections {
    /// The section lists and counts are those of `rules`.
    pub open spec fn lists_rules(&self, rules: Seq<Rule>) -> bool {
        &&& texts(self.block_exact@) == plain_patterns(rules, false, RuleType::DomainExact)
        &&& texts(self.block_suffix@) == plain_patterns(rules, false, RuleType::DomainSuffix)
        &&& texts(self.block_keyword@) == plain_patterns(rules, false, RuleType::DomainKeyword)
        &&& texts(self.block_regex@) == plain_patterns(rules, false, RuleType::Regex)
        &&& texts(self.allow_exact@) == plain_patterns(rules, true, RuleType::DomainExact)
        &&& texts(self.allow_suffix@) == plain_patterns(rules, true, RuleType::DomainSuffix)
        &&& texts(self.allow_keyword@) == plain_patterns(rules, true, RuleType::DomainKeyword)
        &&& texts(self.allow_regex@) == plain_patterns(rules, true, RuleType::Regex)
        &&& self.rewrites@.map_values(|e: RewriteEntry| entry_view(e)) == rewrite_entries(rules)
        &&& self.counts.block_exact == self.block_exact@.len()
        &&& self.counts.block_suffix == self.block_suffix@.len()
        &&& self.counts.block_keyword == self.block_keyword@.len()
        &&& self.counts.block_regex == self.block_regex@.len()
        &&& self.counts.allow_exact == self.allow_exact@.len()
        &&& self.counts.allow_suffix == self.allow_suffix@.len()
        &&& self.counts.allow_keyword == self.allow_keyword@.len()
        &&& self.counts.allow_regex == self.allow_regex@.len()
        &&& self.counts.rewrite == self.rewrites@.len()
    }
}

/// Every rule falls into at most one section, so the sections hold no more
/// entries than there are rules.
pub proof fn lemma_sections_bounded(rules: Seq<Rule>)
    ensures
        plain_patterns(rules, false, RuleType::DomainExact).len() + plain_patterns(rules, false, RuleType::DomainSuffix).len()
            + plain_patterns(rules, false, RuleType::DomainKeyword).len() + plain_patterns(rules, false, RuleType::Regex).len()
            + plain_patterns(rules, true, RuleType::DomainExact).len() + plain_patterns(rules, true, RuleType::DomainSuffix).len()
            + plain_patterns(rules, true, RuleType::DomainKeyword).len() + plain_patterns(rules, true, RuleType::Regex).len()
            + rewrite_entries(rules).len() <= rules.len(),
    decreases rules.len(),
{
    if rules.len() > 0 {
        lemma_sections_bounded(rules.drop_last());
    }
}

/// The byte keys of a list of patterns (their UTF-8 encodings).
pub open spec fn key_set(ps: Seq<Seq<char>>) -> Set<Seq<u8>> {
    utf8_all(ps).to_set()
}

/// The FST bytes of a pattern list: the FST of its distinct keys in order.
pub open spec fn fst_of(ps: Seq<Seq<char>>) -> Seq<u8> {
    fst_encoding(sorted_keys(key_set(ps)))
}

/// The FST bytes of a pattern list open as a set of exactly its keys.
pub open spec fn fst_sound(ps: Seq<Seq<char>>) -> bool {
    &&& fst_built(fst_of(ps))
    &&& fst_accepts(fst_of(ps))
    &&& fst_keys_of(fst_of(ps)) == key_set(ps)
}

/// Each pattern with its labels reversed.
pub open spec fn reversed_all(ps: Seq<Seq<char>>) -> Seq<Seq<char>> {
    ps.map_values(|p: Seq<char>| reversed_labels(p))
}

/// Builds the FST of the patterns' distinct UTF-8 keys. The keys are sorted
/// and deduplicated first, so the FST builder never rejects them.
pub fn build_fst(patterns: &Vec<String>) -> (r: Result<Vec<u8>, ArsError>)
    ensures
        r matches Ok(b) && b@ == fst_of(texts(patterns@)),
        fst_sound(texts(patterns@)),
{
    let mut keys: Vec<Vec<u8>> = Vec::new();
    let mut i: usize = 0;
    while i < patterns.len()
        invariant
            i <= patterns@.len(),
            keys_of(keys@) == utf8_all(texts(patterns@)).take(i as int),
        decreases patterns.len() - i,
    {
        let text = patterns[i].as_str();
        let bytes = text.as_bytes();
        let k = vstd::slice::slice_to_vec(bytes);
        assert(k@ == encode_utf8(patterns@[i as int]@));
        let ghost k0 = keys_of(keys@);
        keys.push(k);
        assert(keys_of(keys@) =~= k0.push(k@));
        i = i + 1;
        assert(keys_of(keys@) =~= utf8_all(texts(patterns@)).take(i as int));
    }
    assert(utf8_all(texts(patterns@)).take(i as int) =~= utf8_all(texts(patterns@)));
    let sorted = sort_unique_keys(keys);
    proof {
        lemma_sorted_keys_is(keys_of(sorted@));
        assert(strictly_sorted(keys_of(sorted@)));
    }
    match fst_build(&sorted) {
        Ok(b) => Ok(b),
        Err(e) => Err(ArsError::FstError(fst_error_text(&e))),
    }
}

/// Builds the FST of the patterns with their labels reversed, so that a
/// suffix rule becomes a prefix of the reversed names it covers.
pub fn build_fst_reversed(patterns: &Vec<String>) -> (r: Result<Vec<u8>, ArsError>)
    ensures
        r matches Ok(b) && b@ == fst_of(reversed_all(texts(patterns@))),
        fst_sound(reversed_all(texts(patterns@))),
{
    let mut reversed: Vec<String> = Vec::new();
    let mut i: usize = 0;
    while i < patterns.len()
        invariant
            i <= patterns@.len(),
            texts(reversed@) == reversed_all(texts(patterns@)).take(i as int),
        decreases patterns.len() - i,
    {
        let rl = reverse_labels(patterns[i].as_str());
        let ghost t0 = texts(reversed@);
        reversed.push(rl);
        assert(texts(reversed@) =~= t0.push(reversed_labels(patterns@[i as int]@)));
        i = i + 1;
        assert(texts(reversed@) =~= reversed_all(texts(patterns@)).take(i as int));
    }
    assert(reversed_all(texts(patterns@)).take(i as int) =~= reversed_all(texts(patterns@)));
    build_fst(&reversed)
}

/// Stores section data with codec `codec`: zstd data is kept only when its
/// frame is shorter than the data; otherwise the data is stored as is.
pub fn compress_data(data: &[u8], codec: Compression) -> (r: Result<(Vec<u8>, Compression), ArsError>)
    ensures
        r matches Ok((s, c)) ==> (c, s@) == stored_form(data@, codec),
        r matches Ok((s, c)) ==> (c == Compression::Zstd ==> zstd_decoded(s@) == Some(data@)),
        r matches Ok((s, c)) ==> unstored(c, s@) == Some(data@),
        r is Ok,
{
    match codec {
        Compression::Raw => Ok((vstd::slice::slice_to_vec(data), Compression::Raw)),
        Compression::Zstd => {
            match zstd_compress(data) {
                Ok(c) => {
                    if c.len() >= data.len() {
                        Ok((vstd::slice::slice_to_vec(data), Compression::Raw))
                    } else {
                        Ok((c, Compression::Zstd))
                    }
                },
                Err(e) => Err(ArsError::Io(e)),
            }
        },
    }
}

/// `x` as a one-element section list when `present`, none otherwise.
pub open spec fn section_if(present: bool, id: SectionId, data: Seq<u8>) -> Seq<(SectionId, Seq<u8>)> {
    if present {
        seq![(id, data)]
    } else {
        Seq::empty()
    }
}

/// The sections a build writes, in order: metadata, then the FSTs of exact
/// and suffix rules (block, then allow), then keyword lists (block, allow),
/// regex lists (block, allow), and the rewrites, each only when non-empty.
pub open spec fn planned_sections(p: RuleSections, meta_json: Seq<u8>, rw_json: Seq<u8>) -> Seq<(SectionId, Seq<u8>)> {
    seq![(SectionId::Metadata, meta_json)]
        + section_if(p.block_exact@.len() > 0, SectionId::BlockExact, fst_of(texts(p.block_exact@)))
        + section_if(p.block_suffix@.len() > 0, SectionId::BlockSuffix, fst_of(reversed_all(texts(p.block_suffix@))))
        + section_if(p.allow_exact@.len() > 0, SectionId::AllowExact, fst_of(texts(p.allow_exact@)))
        + section_if(p.allow_suffix@.len() > 0, SectionId::AllowSuffix, fst_of(reversed_all(texts(p.allow_suffix@))))
        + section_if(p.block_keyword@.len() > 0, SectionId::BlockKeyword, encode_utf8(join_on(texts(p.block_keyword@), '\n')))
        + section_if(p.allow_keyword@.len() > 0, SectionId::AllowKeyword, encode_utf8(join_on(texts(p.allow_keyword@), '\n')))
        + section_if(p.block_regex@.len() > 0, SectionId::BlockRegex, encode_utf8(join_on(texts(p.block_regex@), '\n')))
        + section_if(p.allow_regex@.len() > 0, SectionId::AllowRegex, encode_utf8(join_on(texts(p.allow_regex@), '\n')))
        + section_if(p.rewrites@.len() > 0, SectionId::Rewrite, rw_json)
}

/// The FSTs a build writes open as sets of exactly their keys.
pub open spec fn fsts_sound(p: RuleSections) -> bool {
    &&& p.block_exact@.len() > 0 ==> fst_sound(texts(p.block_exact@))
    &&& p.block_suffix@.len() > 0 ==> fst_sound(reversed_all(texts(p.block_suffix@)))
    &&& p.allow_exact@.len() > 0 ==> fst_sound(texts(p.allow_exact@))
    &&& p.allow_suffix@.len() > 0 ==> fst_sound(reversed_all(texts(p.allow_suffix@)))
}

/// Collects rules and encodes them as an `.ars` file.
pub struct ArsBuilder {
    rules: Vec<Rule>,
    metadata: Option<ArsMetadata>,
    compression: Compression,
}

impl ArsBuilder {
    /// The rules added so far, in the builder's current order.
    pub closed spec fn spec_rules(&self) -> Seq<Rule> {
        self.rules@
    }

    /// The metadata set with `set_metadata`, if any.
    pub closed spec fn spec_metadata(&self) -> Option<ArsMetadata> {
        self.metadata
    }

    /// The codec sections are stored with.
    pub closed spec fn spec_compression(&self) -> Compression {
        self.compression
    }

    /// An empty builder that compresses with zstd.
    pub fn new() -> (b: Self)
        ensures
            b.spec_rules().len() == 0,
            b.spec_metadata() is None,
            b.spec_compression() == Compression::Zstd,
    {
        ArsBuilder { rules: Vec::new(), metadata: None, compression: Compression::Zstd }
    }

    /// The same builder with codec `c`.
    pub fn with_compression(self, c: Compression) -> (b: Self)
        ensures
            b.spec_rules() == self.spec_rules(),
            b.spec_metadata() == self.spec_metadata(),
            b.spec_compression() == c,
    {
        let mut s = self;
        s.compression = c;
        s
    }

    /// Appends one rule.
    pub fn add_rule(&mut self, rule: Rule)
        ensures
            final(self).spec_rules() == old(self).spec_rules().push(rule),
            final(self).spec_metadata() == old(self).spec_metadata(),
            final(self).spec_compression() == old(self).spec_compression(),
    {
        self.rules.push(rule);
    }

    /// Appends rules, in order.
    pub fn add_rules(&mut self, rules: Vec<Rule>)
        ensures
            final(self).spec_rules() == old(self).spec_rules() + rules@,
            final(self).spec_metadata() == old(self).spec_metadata(),
            final(self).spec_compression() == old(self).spec_compression(),
    {
        let mut rules = rules;
        self.rules.append(&mut rules);
    }

    /// Sets the metadata the build records.
    pub fn set_metadata(&mut self, meta: ArsMetadata)
        ensures
            final(self).spec_rules() == old(self).spec_rules(),
            final(self).spec_metadata() == Some(meta),
            final(self).spec_compression() == old(self).spec_compression(),
    {
        self.metadata = Some(meta);
    }

    /// Sorts the rules stably by (type, action kind, pattern) and drops each
    /// rule that duplicates the one before it.
    fn dedup(&mut self)
        ensures
            exists|t: Seq<Rule>|
                stable_sort_of(t, old(self).spec_rules()) && final(self).spec_rules()
                    == dedup_adjacent(t),
            no_duplicate_filters(final(self).spec_rules()),
            sorted_by_key(final(self).spec_rules()),
            final(self).spec_metadata() == old(self).spec_metadata(),
            final(self).spec_compression() == old(self).spec_compression(),
    {
        let all = self.rules.split_off(0);
        assert(all@ =~= old(self).spec_rules());
        let sorted = sort_rules(all);
        let ghost t = sorted@;
        self.rules = dedup_rules(sorted);
        assert(stable_sort_of(t, old(self).spec_rules()));
        proof {
            lemma_dedup_distinct(t);
            lemma_dedup_sorted(t);
        }
    }
}

impl ArsBuilder {
    /// Removes duplicate rules (see `dedup`), sorts the rules into section
    /// lists and counts them, and takes the metadata set on the builder.
    pub fn prepare(&mut self) -> (p: RuleSections)
        ensures
            exists|t: Seq<Rule>|
                stable_sort_of(t, old(self).spec_rules()) && final(self).spec_rules()
                    == dedup_adjacent(t),
            no_duplicate_filters(final(self).spec_rules()),
            sorted_by_key(final(self).spec_rules()),
            forall|i: int, j: int|
                0 <= i < j < p.rewrites@.len() ==> may_follow(
                    (#[trigger] p.rewrites@[i]).rule_type,
                    (#[trigger] p.rewrites@[j]).rule_type,
                ),
            p.lists_rules(final(self).spec_rules()),
            p.counts.spec_total() <= final(self).spec_rules().len(),
            p.counts.spec_total() <= usize::MAX,
            p.metadata == old(self).spec_metadata(),
            final(self).spec_metadata() is None,
            final(self).spec_compression() == old(self).spec_compression(),
    {
        self.dedup();
        let mut be: Vec<String> = Vec::new();
        let mut bs: Vec<String> = Vec::new();
        let mut bk: Vec<String> = Vec::new();
        let mut br: Vec<String> = Vec::new();
        let mut ae: Vec<String> = Vec::new();
        let mut as_: Vec<String> = Vec::new();
        let mut ak: Vec<String> = Vec::new();
        let mut ar: Vec<String> = Vec::new();
        let mut rw: Vec<RewriteEntry> = Vec::new();
        let ghost rules = self.rules@;
        let mut i: usize = 0;
        while i < self.rules.len()
            invariant
                rules == self.rules@,
                i <= rules.len(),
                texts(be@) == plain_patterns(rules.take(i as int), false, RuleType::DomainExact),
                texts(bs@) == plain_patterns(rules.take(i as int), false, RuleType::DomainSuffix),
                texts(bk@) == plain_patterns(rules.take(i as int), false, RuleType::DomainKeyword),
                texts(br@) == plain_patterns(rules.take(i as int), false, RuleType::Regex),
                texts(ae@) == plain_patterns(rules.take(i as int), true, RuleType::DomainExact),
                texts(as_@) == plain_patterns(rules.take(i as int), true, RuleType::DomainSuffix),
                texts(ak@) == plain_patterns(rules.take(i as int), true, RuleType::DomainKeyword),
                texts(ar@) == plain_patterns(rules.take(i as int), true, RuleType::Regex),
                rw@.map_values(|e: RewriteEntry| entry_view(e)) == rewrite_entries(rules.take(i as int)),
            decreases rules.len() - i,
        {
            let ghost pre = rules.take(i as int);
            let ghost next = rules.take(i + 1);
            assert(next.drop_last() =~= pre);
            let rule = &self.rules[i];
            assert(next.last() == *rule);
            let ghost tbe = texts(be@);
            let ghost tbs = texts(bs@);
            let ghost tbk = texts(bk@);
            let ghost tbr = texts(br@);
            let ghost tae = texts(ae@);
            let ghost tas = texts(as_@);
            let ghost tak = texts(ak@);
            let ghost tar = texts(ar@);
            let ghost trw = rw@.map_values(|e: RewriteEntry| entry_view(e));
            match &rule.action {
                RuleAction::Block => {
                    match rule.rule_type {
                        RuleType::DomainExact => be.push(rule.pattern.clone()),
                        RuleType::DomainSuffix => bs.push(rule.pattern.clone()),
                        RuleType::DomainKeyword => bk.push(rule.pattern.clone()),
                        RuleType::Regex => br.push(rule.pattern.clone()),
                        _ => {},
                    }
                },
                RuleAction::Allow => {
                    match rule.rule_type {
                        RuleType::DomainExact => ae.push(rule.pattern.clone()),
                        RuleType::DomainSuffix => as_.push(rule.pattern.clone()),
                        RuleType::DomainKeyword => ak.push(rule.pattern.clone()),
                        RuleType::Regex => ar.push(rule.pattern.clone()),
                        _ => {},
                    }
                },
                RuleAction::Rewrite { target } => {
                    rw.push(
                        RewriteEntry {
                            pattern: rule.pattern.clone(),
                            rule_type: rule.rule_type,
                            target: target.clone(),
                        },
                    );
                    assert(rw@.map_values(|e: RewriteEntry| entry_view(e)) =~= trw.push(
                        (rule.pattern@, rule.rule_type, target@),
                    ));
                },
            }
            assert(texts(be@) =~= plain_patterns(next, false, RuleType::DomainExact));
            assert(texts(bs@) =~= plain_patterns(next, false, RuleType::DomainSuffix));
            assert(texts(bk@) =~= plain_patterns(next, false, RuleType::DomainKeyword));
            assert(texts(br@) =~= plain_patterns(next, false, RuleType::Regex));
            assert(texts(ae@) =~= plain_patterns(next, true, RuleType::DomainExact));
            assert(texts(as_@) =~= plain_patterns(next, true, RuleType::DomainSuffix));
            assert(texts(ak@) =~= plain_patterns(next, true, RuleType::DomainKeyword));
            assert(texts(ar@) =~= plain_patterns(next, true, RuleType::Regex));
            assert(rw@.map_values(|e: RewriteEntry| entry_view(e)) =~= rewrite_entries(next));
            i = i + 1;
        }
        assert(rules.take(rules.len() as int) =~= rules);
        proof {
            lemma_sections_bounded(rules);
            lemma_rewrites_in_type_order(rules);
            assert forall|i: int, j: int|
                0 <= i < j < rw@.len() implies may_follow(
                    (#[trigger] rw@[i]).rule_type,
                    (#[trigger] rw@[j]).rule_type,
                ) by {
                assert(entry_view(rw@[i]) == rewrite_entries(rules)[i]);
                assert(entry_view(rw@[j]) == rewrite_entries(rules)[j]);
            }
        }
        let counts = RuleCounts {
            block_exact: be.len(),
            block_suffix: bs.len(),
            block_keyword: bk.len(),
            block_regex: br.len(),
            allow_exact: ae.len(),
            allow_suffix: as_.len(),
            allow_keyword: ak.len(),
            allow_regex: ar.len(),
            rewrite: rw.len(),
        };
        let metadata = self.metadata.take();
        RuleSections {
            block_exact: be,
            block_suffix: bs,
            block_keyword: bk,
            block_regex: br,
            allow_exact: ae,
            allow_suffix: as_,
            allow_keyword: ak,
            allow_regex: ar,
            rewrites: rw,
            counts,
            metadata,
        }
    }
}

/// The sections of a vector as plain values.
pub open spec fn sections_view(v: Seq<(SectionId, Vec<u8>)>) -> Seq<(SectionId, Seq<u8>)> {
    v.map_values(|x: (SectionId, Vec<u8>)| (x.0, x.1@))
}

/// Appends a section when `present`.
fn push_section_if(secs: &mut Vec<(SectionId, Vec<u8>)>, present: bool, id: SectionId, data: Vec<u8>)
    ensures
        sections_view(final(secs)@) == sections_view(old(secs)@) + section_if(present, id, data@),
{
    if present {
        secs.push((id, data));
        assert(sections_view(secs@) =~= sections_view(old(secs)@) + section_if(present, id, data@));
    } else {
        assert(sections_view(secs@) =~= sections_view(old(secs)@) + section_if(present, id, data@));
    }
}

/// Appends one section record: id, codec, stored length, data length and
/// the stored bytes.
fn write_section(buf: &mut Vec<u8>, id: SectionId, data: &[u8], comp: Compression) -> (r: Result<(), ArsError>)
    ensures
        r is Ok ==> final(buf)@ == old(buf)@ + section_record(id, data@, comp),
        r is Ok && stored_form(data@, comp).0 == Compression::Zstd ==> zstd_decoded(zstd_frame(data@)) == Some(data@),
        r is Ok,
{
    let (stored, codec) = match compress_data(data, comp) {
        Ok(x) => x,
        Err(e) => return Err(e),
    };
    buf.push(id.to_byte());
    buf.push(codec.to_byte());
    push_le32(buf, stored.len() as u32);
    push_le32(buf, data.len() as u32);
    push_all(buf, stored.as_slice());
    assert(buf@ =~= old(buf)@ + section_record(id, data@, comp));
    Ok(())
}

impl ArsBuilder {
    /// Encodes prepared sections as an `.ars` file, given the JSON bytes of
    /// the metadata and of the rewrite entries: header, the planned sections
    /// (each stored with the builder's codec) and the trailer checksum.
    pub fn encode(&self, p: &RuleSections, meta_json: &[u8], rw_json: &[u8]) -> (r: Result<Vec<u8>, ArsError>)
        requires
            p.counts.spec_total() <= usize::MAX,
        ensures
            r matches Ok(b) ==> b@ == ars_file(
                p.counts.spec_total() as u32,
                planned_sections(*p, meta_json@, rw_json@),
                self.spec_compression(),
            ),
            r is Ok ==> frames_decode(planned_sections(*p, meta_json@, rw_json@), self.spec_compression()),
            fsts_sound(*p),
            r is Ok,
    {
        let ghost planned = planned_sections(*p, meta_json@, rw_json@);
        let mut secs: Vec<(SectionId, Vec<u8>)> = Vec::new();
        secs.push((SectionId::Metadata, vstd::slice::slice_to_vec(meta_json)));
        let ghost v1 = sections_view(secs@);
        assert(v1 =~= seq![(SectionId::Metadata, meta_json@)]);
        let be = if p.block_exact.len() > 0 {
            match build_fst(&p.block_exact) {
                Ok(b) => b,
                Err(e) => return Err(e),
            }
        } else {
            Vec::new()
        };
        push_section_if(&mut secs, p.block_exact.len() > 0, SectionId::BlockExact, be);
        let bs = if p.block_suffix.len() > 0 {
            match build_fst_reversed(&p.block_suffix) {
                Ok(b) => b,
                Err(e) => return Err(e),
            }
        } else {
            Vec::new()
        };
        push_section_if(&mut secs, p.block_suffix.len() > 0, SectionId::BlockSuffix, bs);
        let ae = if p.allow_exact.len() > 0 {
            match build_fst(&p.allow_exact) {
                Ok(b) => b,
                Err(e) => return Err(e),
            }
        } else {
            Vec::new()
        };
        push_section_if(&mut secs, p.allow_exact.len() > 0, SectionId::AllowExact, ae);
        let as_ = if p.allow_suffix.len() > 0 {
            match build_fst_reversed(&p.allow_suffix) {
                Ok(b) => b,
                Err(e) => return Err(e),
            }
        } else {
            Vec::new()
        };
        push_section_if(&mut secs, p.allow_suffix.len() > 0, SectionId::AllowSuffix, as_);
        push_section_if(&mut secs, p.block_keyword.len() > 0, SectionId::BlockKeyword, join_lines_bytes(&p.block_keyword));
        push_section_if(&mut secs, p.allow_keyword.len() > 0, SectionId::AllowKeyword, join_lines_bytes(&p.allow_keyword));
        push_section_if(&mut secs, p.block_regex.len() > 0, SectionId::BlockRegex, join_lines_bytes(&p.block_regex));
        push_section_if(&mut secs, p.allow_regex.len() > 0, SectionId::AllowRegex, join_lines_bytes(&p.allow_regex));
        push_section_if(&mut secs, p.rewrites.len() > 0, SectionId::Rewrite, vstd::slice::slice_to_vec(rw_json));
        let ghost sv = sections_view(secs@);
        assert(sv =~= planned);
        let total = p.counts.total() as u32;
        let count = secs.len() as u32;
        let h = header_prefix_bytes(total, count, self.compression);
        let hc = crc32_of(h.as_slice());
        let mut buf = h;
        push_le32(&mut buf, hc);
        let ghost head = buf@;
        let mut i: usize = 0;
        assert(records(sv.take(0), self.compression) =~= Seq::<u8>::empty());
        assert(buf@ =~= head + records(sv.take(0), self.compression));
        while i < secs.len()
            invariant
                sv == sections_view(secs@),
                i <= secs@.len(),
                buf@ == head + records(sv.take(i as int), self.compression),
                frames_decode(sv.take(i as int), self.compression),
                fsts_sound(*p),
            decreases secs.len() - i,
        {
            let id = secs[i].0;
            let data = &secs[i].1;
            let ghost b0 = buf@;
            match write_section(&mut buf, id, data.as_slice(), self.compression) {
                Ok(()) => {},
                Err(e) => return Err(e),
            }
            proof {
                let pre = sv.take(i as int);
                let next = sv.take(i + 1);
                assert(next.drop_last() =~= pre);
                assert(next.last() == (id, data@));
                assert(records(next, self.compression) == records(pre, self.compression) + section_record(id, data@, self.compression));
                assert forall|k: int|
                    0 <= k < next.len() && (#[trigger] stored_form(next[k].1, self.compression)).0
                        == Compression::Zstd implies zstd_decoded(zstd_frame(next[k].1)) == Some(
                    next[k].1,
                ) by {
                    if k < pre.len() {
                        assert(next[k] == pre[k]);
                    }
                }
            }
            i = i + 1;
        }
        assert(sv.take(i as int) =~= sv);
        let c = crc32_of(buf.as_slice());
        push_le32(&mut buf, c);
        assert(count == sv.len() as u32);
        Ok(buf)
    }
}

impl Default for ArsBuilder {
    fn default() -> (b: Self)
        ensures
            b.spec_rules().len() == 0,
            b.spec_metadata() is None,
            b.spec_compression() == Compression::Zstd,
    {
        Self::new()
    }
}

} // verus!
