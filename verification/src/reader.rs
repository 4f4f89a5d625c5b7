//! A loaded, ready-to-query rule set built from the sections of an `.ars`
//! file.
use vstd::prelude::*;
use crate::builder::{ArsMetadata, RewriteEntry};
use crate::error::ArsError;
use crate::format::SectionId;
use crate::fstset::{fst_accepts, fst_bytes, fst_error_text, fst_open};
use crate::keyword::{ac_build, ac_builds, ac_error_text, ac_patterns};
use crate::regexes::{regex_set_compiles, regex_set_new, regex_set_patterns};
use crate::scan::{Section, scanned};
use vstd::utf8::{valid_utf8, decode_utf8};
use crate::text::{from_utf8_lossy, lines_of, std_lines, texts, utf8_all, utf8_lossy};

verus! {

/// Loaded and ready-to-query rule set.
pub struct ArsReader {
    pub metadata: ArsMetadata,
    pub block_exact: Option<fst::Set<Vec<u8>>>,
    pub block_suffix: Option<fst::Set<Vec<u8>>>,
    pub block_keyword: Option<aho_corasick::AhoCorasick>,
    pub block_regex: Option<regex::RegexSet>,
    pub allow_exact: Option<fst::Set<Vec<u8>>>,
    pub allow_suffix: Option<fst::Set<Vec<u8>>>,
    pub allow_keyword: Option<aho_corasick::AhoCorasick>,
    pub allow_regex: Option<regex::RegexSet>,
    pub rewrites: Vec<RewriteEntry>,
}

/// The position of the last section with this id.
pub open spec fn last_index(secs: Seq<(SectionId, Seq<u8>)>, id: SectionId) -> Option<int>
    decreases secs.len(),
{
    if secs.len() == 0 {
        None
    } else if secs.last().0 == id {
        Some(secs.len() - 1)
    } else {
        last_index(secs.drop_last(), id)
    }
}

/// The data of the last section with this id (a later section replaces an
/// earlier one).
pub open spec fn last_data(secs: Seq<(SectionId, Seq<u8>)>, id: SectionId) -> Option<Seq<u8>> {
    match last_index(secs, id) {
        Some(i) => Some(secs[i].1),
        None => None,
    }
}

/// Bytes read as text: decoded when valid UTF-8, with invalid sequences
/// replaced otherwise.
pub open spec fn read_text(d: Seq<u8>) -> Seq<char> {
    if valid_utf8(d) {
        decode_utf8(d)
    } else {
        utf8_lossy(d)
    }
}

/// The lines of the last section with this id, read as text; none without
/// such a section.
pub open spec fn section_lines(secs: Seq<(SectionId, Seq<u8>)>, id: SectionId) -> Seq<Seq<char>> {
    match last_data(secs, id) {
        Some(d) => std_lines(read_text(d)),
        None => Seq::empty(),
    }
}

/// An FST field holds the set opened from the section's bytes, or nothing
/// without a section.
pub open spec fn fst_loaded(f: Option<fst::Set<Vec<u8>>>, d: Option<Seq<u8>>) -> bool {
    match d {
        None => f is None,
        Some(b) => f matches Some(s) && fst_bytes(s) == b,
    }
}

/// A keyword field holds an automaton of the lines, or nothing without lines.
pub open spec fn keywords_loaded(f: Option<aho_corasick::AhoCorasick>, lines: Seq<Seq<char>>) -> bool {
    if lines.len() == 0 {
        f is None
    } else {
        f matches Some(ac) && ac_patterns(ac) == utf8_all(lines)
    }
}

/// A regex field holds a set of the lines, or nothing without lines.
pub open spec fn regexes_loaded(f: Option<regex::RegexSet>, lines: Seq<Seq<char>>) -> bool {
    if lines.len() == 0 {
        f is None
    } else {
        f matches Some(rs) && regex_set_patterns(rs) == lines
    }
}

/// The FST and keyword sections all load.
pub open spec fn matchers_load(secs: Seq<(SectionId, Seq<u8>)>) -> bool {
    &&& (last_data(secs, SectionId::BlockExact) matches Some(b) ==> fst_accepts(b))
    &&& (last_data(secs, SectionId::BlockSuffix) matches Some(b) ==> fst_accepts(b))
    &&& (last_data(secs, SectionId::AllowExact) matches Some(b) ==> fst_accepts(b))
    &&& (last_data(secs, SectionId::AllowSuffix) matches Some(b) ==> fst_accepts(b))
    &&& (section_lines(secs, SectionId::BlockKeyword).len() > 0 ==> ac_builds(
        utf8_all(section_lines(secs, SectionId::BlockKeyword)),
    ))
    &&& (section_lines(secs, SectionId::AllowKeyword).len() > 0 ==> ac_builds(
        utf8_all(section_lines(secs, SectionId::AllowKeyword)),
    ))
}

/// The regex sections all compile.
pub open spec fn regexes_load(secs: Seq<(SectionId, Seq<u8>)>) -> bool {
    &&& (section_lines(secs, SectionId::BlockRegex).len() > 0 ==> regex_set_compiles(
        section_lines(secs, SectionId::BlockRegex),
    ))
    &&& (section_lines(secs, SectionId::AllowRegex).len() > 0 ==> regex_set_compiles(
        section_lines(secs, SectionId::AllowRegex),
    ))
}

impl ArsReader {
    /// This reader was loaded from these sections, metadata and rewrites.
    pub open spec fn loaded_from(
        self,
        secs: Seq<(SectionId, Seq<u8>)>,
        metadata: ArsMetadata,
        rewrites: Vec<RewriteEntry>,
    ) -> bool {
        &&& self.metadata == metadata
        &&& self.rewrites == rewrites
        &&& fst_loaded(self.block_exact, last_data(secs, SectionId::BlockExact))
        &&& fst_loaded(self.block_suffix, last_data(secs, SectionId::BlockSuffix))
        &&& fst_loaded(self.allow_exact, last_data(secs, SectionId::AllowExact))
        &&& fst_loaded(self.allow_suffix, last_data(secs, SectionId::AllowSuffix))
        &&& keywords_loaded(self.block_keyword, section_lines(secs, SectionId::BlockKeyword))
        &&& keywords_loaded(self.allow_keyword, section_lines(secs, SectionId::AllowKeyword))
        &&& regexes_loaded(self.block_regex, section_lines(secs, SectionId::BlockRegex))
        &&& regexes_loaded(self.allow_regex, section_lines(secs, SectionId::AllowRegex))
    }
}

/// Opens the FST of a section, if there is one.
fn open_fst(sections: &Vec<Section>, idx: Option<usize>) -> (r: Result<Option<fst::Set<Vec<u8>>>, ArsError>)
    requires
        idx matches Some(i) ==> i < sections@.len(),
    ensures
        r matches Ok(f) ==> fst_loaded(f, match idx { Some(i) => Some(sections@[i as int].data@), None => None }),
        r is Ok <==> (idx matches Some(i) ==> fst_accepts(sections@[i as int].data@)),
        r matches Err(e) ==> e is FstError,
{
    match idx {
        None => Ok(None),
        Some(i) => {
            let bytes = vstd::slice::slice_to_vec(sections[i].data.as_slice());
            match fst_open(bytes) {
                Ok(s) => Ok(Some(s)),
                Err(e) => Err(ArsError::FstError(fst_error_text(&e))),
            }
        },
    }
}

/// The lines of a section, if there is one.
fn lines_of_section(sections: &Vec<Section>, idx: Option<usize>) -> (r: Vec<String>)
    requires
        idx matches Some(i) ==> i < sections@.len(),
    ensures
        texts(r@) == match idx {
            Some(i) => std_lines(read_text(sections@[i as int].data@)),
            None => Seq::empty(),
        },
{
    match idx {
        None => {
            let v: Vec<String> = Vec::new();
            assert(texts(v@) =~= Seq::<Seq<char>>::empty());
            v
        },
        Some(i) => {
            let text = from_utf8_lossy(sections[i].data.as_slice());
            lines_of(text.as_str())
        },
    }
}

/// Builds the keyword automaton of non-empty lines.
fn keyword_matcher(lines: &Vec<String>) -> (r: Result<Option<aho_corasick::AhoCorasick>, ArsError>)
    ensures
        r matches Ok(f) ==> keywords_loaded(f, texts(lines@)),
        r is Ok <==> (texts(lines@).len() > 0 ==> ac_builds(utf8_all(texts(lines@)))),
        r matches Err(e) ==> e is FstError,
{
    if lines.len() == 0 {
        Ok(None)
    } else {
        match ac_build(lines) {
            Ok(ac) => Ok(Some(ac)),
            Err(e) => Err(ArsError::FstError(ac_error_text(&e))),
        }
    }
}

/// Compiles the regex set of non-empty lines.
fn regex_matcher(lines: &Vec<String>) -> (r: Result<Option<regex::RegexSet>, ArsError>)
    ensures
        r matches Ok(f) ==> regexes_loaded(f, texts(lines@)),
        r is Ok <==> (texts(lines@).len() > 0 ==> regex_set_compiles(texts(lines@))),
        r matches Err(e) ==> e is RegexError,
{
    if lines.len() == 0 {
        Ok(None)
    } else {
        match regex_set_new(lines) {
            Ok(rs) => Ok(Some(rs)),
            Err(e) => Err(ArsError::RegexError(e)),
        }
    }
}


/// The position of the last section with this id.
pub fn find_last(sections: &Vec<Section>, id: SectionId) -> (r: Option<usize>)
    ensures
        match r {
            Some(i) => last_index(scanned(sections@), id) == Some(i as int) && i < sections@.len(),
            None => last_index(scanned(sections@), id) is None,
        },
{
    let ghost all = scanned(sections@);
    let mut i = sections.len();
    assert(all.take(i as int) =~= all);
    while i > 0
        invariant
            i <= sections@.len(),
            all == scanned(sections@),
            last_index(all, id) == last_index(all.take(i as int), id),
        decreases i,
    {
        assert(all.take(i as int).drop_last() =~= all.take(i - 1));
        assert(all.take(i as int).last() == all[i - 1]);
        if sections[i - 1].id == id {
            return Some(i - 1);
        }
        i = i - 1;
    }
    None
}

/// A section whose data is JSON: the metadata or the rewrite entries.
pub open spec fn is_json_section(id: SectionId) -> bool {
    id == SectionId::Metadata || id == SectionId::Rewrite
}

/// The positions of the JSON sections, in file order. Loading a file parses
/// them in this order: the last of each kind is the one kept, and the first
/// that does not parse is the error, before any error met further into the
/// file.
pub fn json_section_positions(sections: &Vec<Section>) -> (r: Vec<usize>)
    ensures
        forall|i: int, j: int| 0 <= i < j < r@.len() ==> r@[i] < r@[j],
        forall|i: int|
            0 <= i < r@.len() ==> r@[i] < sections@.len() && is_json_section(
                #[trigger] sections@[r@[i] as int].id,
            ),
        forall|k: int|
            0 <= k < sections@.len() && is_json_section(#[trigger] sections@[k].id) ==> r@.contains(
                k as usize,
            ),
{
    let mut r: Vec<usize> = Vec::new();
    let mut k: usize = 0;
    while k < sections.len()
        invariant
            k <= sections@.len(),
            forall|i: int, j: int| 0 <= i < j < r@.len() ==> r@[i] < r@[j],
            forall|i: int| 0 <= i < r@.len() ==> r@[i] < k,
            forall|i: int|
                0 <= i < r@.len() ==> r@[i] < sections@.len() && is_json_section(
                    #[trigger] sections@[r@[i] as int].id,
                ),
            forall|m: int|
                0 <= m < k && is_json_section(#[trigger] sections@[m].id) ==> r@.contains(m as usize),
        decreases sections@.len() - k,
    {
        let id = sections[k].id;
        if id == SectionId::Metadata || id == SectionId::Rewrite {
            let ghost r0 = r@;
            r.push(k);
            assert forall|m: int|
                0 <= m < k + 1 && is_json_section(#[trigger] sections@[m].id) implies r@.contains(
                    m as usize,
                ) by {
                if m < k {
                    let i = choose|i: int| 0 <= i < r0.len() && r0[i] == m as usize;
                    assert(r@[i] == m as usize);
                } else {
                    assert(r@[r0.len() as int] == k);
                }
            }
        }
        k = k + 1;
    }
    r
}

impl ArsReader {
    /// Loads a rule set from decoded sections and from the metadata and
    /// rewrite entries read from their JSON sections. Without metadata the
    /// load fails with `TruncatedData`. Otherwise it opens, in order, the
    /// FSTs of the block exact, block suffix, allow exact and allow suffix
    /// sections, the keyword automata (block, allow) and the regex sets
    /// (block, allow) of the last section of each kind; the first that fails
    /// is the error.
    pub fn from_sections(
        sections: Vec<Section>,
        metadata: Option<ArsMetadata>,
        rewrites: Vec<RewriteEntry>,
    ) -> (r: Result<ArsReader, ArsError>)
        ensures
            metadata is None ==> (r matches Err(ArsError::TruncatedData { section }) && section@
                == "metadata section missing"@),
            metadata is Some ==> (r is Ok <==> matchers_load(scanned(sections@)) && regexes_load(
                scanned(sections@),
            )),
            metadata is Some && !matchers_load(scanned(sections@)) ==> (r matches Err(e) && e is FstError),
            metadata is Some && matchers_load(scanned(sections@)) && !regexes_load(scanned(sections@))
                ==> (r matches Err(e) && e is RegexError),
            r matches Ok(rd) ==> rd.loaded_from(scanned(sections@), metadata.unwrap(), rewrites),
    {
        let metadata = match metadata {
            Some(m) => m,
            None => {
                return Err(ArsError::TruncatedData { section: "metadata section missing".to_owned() });
            },
        };
        let ghost secs = scanned(sections@);
        let i_be = find_last(&sections, SectionId::BlockExact);
        let i_bs = find_last(&sections, SectionId::BlockSuffix);
        let i_ae = find_last(&sections, SectionId::AllowExact);
        let i_as = find_last(&sections, SectionId::AllowSuffix);
        let i_bk = find_last(&sections, SectionId::BlockKeyword);
        let i_ak = find_last(&sections, SectionId::AllowKeyword);
        let i_br = find_last(&sections, SectionId::BlockRegex);
        let i_ar = find_last(&sections, SectionId::AllowRegex);
        proof {
            assert forall|i: int| 0 <= i < sections@.len() implies #[trigger] secs[i].1 == sections@[i].data@ by {}
        }
        let block_exact = open_fst(&sections, i_be)?;
        let block_suffix = open_fst(&sections, i_bs)?;
        let allow_exact = open_fst(&sections, i_ae)?;
        let allow_suffix = open_fst(&sections, i_as)?;
        let bk_lines = lines_of_section(&sections, i_bk);
        let ak_lines = lines_of_section(&sections, i_ak);
        let block_keyword = keyword_matcher(&bk_lines)?;
        let allow_keyword = keyword_matcher(&ak_lines)?;
        let br_lines = lines_of_section(&sections, i_br);
        let ar_lines = lines_of_section(&sections, i_ar);
        let block_regex = regex_matcher(&br_lines)?;
        let allow_regex = regex_matcher(&ar_lines)?;
        Ok(ArsReader {
            metadata,
            block_exact,
            block_suffix,
            block_keyword,
            block_regex,
            allow_exact,
            allow_suffix,
            allow_keyword,
            allow_regex,
            rewrites,
        })
    }
}

} // verus!
