//! Reading back a built rule set: the loaded matchers hold exactly the
//! rules that were written.
use vstd::prelude::*;
use vstd::utf8::*;
use crate::builder::{
    RuleSections, fst_of, fst_sound, fsts_sound, key_set, planned_sections, reversed_all,
    section_if,
};
use crate::container::{ars_file, frames_decode};
use crate::format::{Compression, SectionId};
use crate::labels::{join_on, no_sep};
use crate::matcher::{exact_hit, is_subdomain, lookups_safe, suffix_hit};
use crate::reader::{
    ArsReader, fst_loaded, keywords_loaded, last_data, last_index, read_text, regexes_loaded,
    section_lines,
};
use crate::roundtrip::{lemma_scan_ars_file, lemma_short_file_fits};
use crate::scan::{FileEnd, RecordEnd, scan_file};
use crate::suffix::{lemma_encode_injective, lemma_suffix_semantics};
use crate::text::{lemma_lines_of_joined, std_lines, strip_cr, texts, utf8_all};

verus! {

/// Lines that read back as themselves after joining with '\n': none holds
/// a '\n', none but the last ends in '\r', and the last is not empty (or
/// there are no lines at all).
pub open spec fn lines_safe(ps: Seq<Seq<char>>) -> bool {
    ps.len() == 0 || {
        &&& forall|i: int| 0 <= i < ps.len() ==> no_sep(#[trigger] ps[i], '\n')
        &&& forall|i: int| 0 <= i < ps.len() - 1 ==> strip_cr(#[trigger] ps[i]) == ps[i]
        &&& ps.last().len() > 0
    }
}

proof fn lemma_last_data_push(a: Seq<(SectionId, Seq<u8>)>, e: (SectionId, Seq<u8>), id: SectionId)
    ensures
        last_data(a.push(e), id) == (if e.0 == id {
            Some(e.1)
        } else {
            last_data(a, id)
        }),
{
    assert(a.push(e).drop_last() =~= a);
    if e.0 != id {
        if let Some(i) = last_index(a, id) {
            lemma_last_index_bound(a, id);
            assert(a.push(e)[i] == a[i]);
        }
    }
}

proof fn lemma_last_index_bound(a: Seq<(SectionId, Seq<u8>)>, id: SectionId)
    ensures
        last_index(a, id) matches Some(i) ==> 0 <= i < a.len(),
    decreases a.len(),
{
    if a.len() > 0 && a.last().0 != id {
        lemma_last_index_bound(a.drop_last(), id);
    }
}

proof fn lemma_last_data_if(
    a: Seq<(SectionId, Seq<u8>)>,
    c: bool,
    id2: SectionId,
    x: Seq<u8>,
    id: SectionId,
)
    ensures
        last_data(a + section_if(c, id2, x), id) == (if c && id2 == id {
            Some(x)
        } else {
            last_data(a, id)
        }),
{
    if c {
        assert(a + section_if(c, id2, x) =~= a.push((id2, x)));
        lemma_last_data_push(a, (id2, x), id);
    } else {
        assert(a + section_if(c, id2, x) =~= a);
    }
}

/// The data of each kind of section in a planned file.
pub proof fn lemma_planned_last_data(p: RuleSections, mj: Seq<u8>, rj: Seq<u8>, id: SectionId)
    ensures
        last_data(planned_sections(p, mj, rj), id) == match id {
            SectionId::Metadata => Some(mj),
            SectionId::BlockExact => if p.block_exact@.len() > 0 {
                Some(fst_of(texts(p.block_exact@)))
            } else {
                None
            },
            SectionId::BlockSuffix => if p.block_suffix@.len() > 0 {
                Some(fst_of(reversed_all(texts(p.block_suffix@))))
            } else {
                None
            },
            SectionId::AllowExact => if p.allow_exact@.len() > 0 {
                Some(fst_of(texts(p.allow_exact@)))
            } else {
                None
            },
            SectionId::AllowSuffix => if p.allow_suffix@.len() > 0 {
                Some(fst_of(reversed_all(texts(p.allow_suffix@))))
            } else {
                None
            },
            SectionId::BlockKeyword => if p.block_keyword@.len() > 0 {
                Some(encode_utf8(join_on(texts(p.block_keyword@), '\n')))
            } else {
                None
            },
            SectionId::AllowKeyword => if p.allow_keyword@.len() > 0 {
                Some(encode_utf8(join_on(texts(p.allow_keyword@), '\n')))
            } else {
                None
            },
            SectionId::BlockRegex => if p.block_regex@.len() > 0 {
                Some(encode_utf8(join_on(texts(p.block_regex@), '\n')))
            } else {
                None
            },
            SectionId::AllowRegex => if p.allow_regex@.len() > 0 {
                Some(encode_utf8(join_on(texts(p.allow_regex@), '\n')))
            } else {
                None
            },
            SectionId::Rewrite => if p.rewrites@.len() > 0 {
                Some(rj)
            } else {
                None
            },
            SectionId::BloomFilter => None,
        },
{
    let s0 = seq![(SectionId::Metadata, mj)];
    assert(s0 =~= Seq::<(SectionId, Seq<u8>)>::empty().push((SectionId::Metadata, mj)));
    lemma_last_data_push(Seq::<(SectionId, Seq<u8>)>::empty(), (SectionId::Metadata, mj), id);
    let s1 = s0 + section_if(p.block_exact@.len() > 0, SectionId::BlockExact, fst_of(texts(p.block_exact@)));
    lemma_last_data_if(s0, p.block_exact@.len() > 0, SectionId::BlockExact, fst_of(texts(p.block_exact@)), id);
    let s2 = s1 + section_if(p.block_suffix@.len() > 0, SectionId::BlockSuffix, fst_of(reversed_all(texts(p.block_suffix@))));
    lemma_last_data_if(s1, p.block_suffix@.len() > 0, SectionId::BlockSuffix, fst_of(reversed_all(texts(p.block_suffix@))), id);
    let s3 = s2 + section_if(p.allow_exact@.len() > 0, SectionId::AllowExact, fst_of(texts(p.allow_exact@)));
    lemma_last_data_if(s2, p.allow_exact@.len() > 0, SectionId::AllowExact, fst_of(texts(p.allow_exact@)), id);
    let s4 = s3 + section_if(p.allow_suffix@.len() > 0, SectionId::AllowSuffix, fst_of(reversed_all(texts(p.allow_suffix@))));
    lemma_last_data_if(s3, p.allow_suffix@.len() > 0, SectionId::AllowSuffix, fst_of(reversed_all(texts(p.allow_suffix@))), id);
    let s5 = s4 + section_if(p.block_keyword@.len() > 0, SectionId::BlockKeyword, encode_utf8(join_on(texts(p.block_keyword@), '\n')));
    lemma_last_data_if(s4, p.block_keyword@.len() > 0, SectionId::BlockKeyword, encode_utf8(join_on(texts(p.block_keyword@), '\n')), id);
    let s6 = s5 + section_if(p.allow_keyword@.len() > 0, SectionId::AllowKeyword, encode_utf8(join_on(texts(p.allow_keyword@), '\n')));
    lemma_last_data_if(s5, p.allow_keyword@.len() > 0, SectionId::AllowKeyword, encode_utf8(join_on(texts(p.allow_keyword@), '\n')), id);
    let s7 = s6 + section_if(p.block_regex@.len() > 0, SectionId::BlockRegex, encode_utf8(join_on(texts(p.block_regex@), '\n')));
    lemma_last_data_if(s6, p.block_regex@.len() > 0, SectionId::BlockRegex, encode_utf8(join_on(texts(p.block_regex@), '\n')), id);
    let s8 = s7 + section_if(p.allow_regex@.len() > 0, SectionId::AllowRegex, encode_utf8(join_on(texts(p.allow_regex@), '\n')));
    lemma_last_data_if(s7, p.allow_regex@.len() > 0, SectionId::AllowRegex, encode_utf8(join_on(texts(p.allow_regex@), '\n')), id);
    lemma_last_data_if(s8, p.rewrites@.len() > 0, SectionId::Rewrite, rj, id);
    assert(last_data(Seq::<(SectionId, Seq<u8>)>::empty(), id) is None);
}

/// An exact set loaded from the FST of `ps` holds exactly the names in `ps`.
pub proof fn lemma_exact_loaded(f: Option<fst::Set<Vec<u8>>>, ps: Seq<Seq<char>>, d: Seq<char>)
    requires
        fst_loaded(f, if ps.len() > 0 { Some(fst_of(ps)) } else { None }),
        ps.len() > 0 ==> fst_sound(ps),
    ensures
        exact_hit(f, d) <==> ps.contains(d),
{
    if ps.len() > 0 {
        let enc = utf8_all(ps);
        if exact_hit(f, d) {
            assert(key_set(ps).contains(encode_utf8(d)));
            assert(enc.contains(encode_utf8(d)));
            let k = choose|k: int| 0 <= k < enc.len() && enc[k] == encode_utf8(d);
            lemma_encode_injective(ps[k], d);
        }
        if ps.contains(d) {
            let k = choose|k: int| 0 <= k < ps.len() && ps[k] == d;
            assert(enc[k] == encode_utf8(d));
            assert(key_set(ps).contains(encode_utf8(d)));
        }
    }
}

/// A suffix set loaded from the reversed FST of `ps` matches exactly the
/// names in `ps` and their subdomains.
pub proof fn lemma_suffix_loaded(f: Option<fst::Set<Vec<u8>>>, ps: Seq<Seq<char>>, d: Seq<char>)
    requires
        fst_loaded(f, if ps.len() > 0 { Some(fst_of(reversed_all(ps))) } else { None }),
        ps.len() > 0 ==> fst_sound(reversed_all(ps)),
    ensures
        suffix_hit(f, d) <==> exists|k: int| 0 <= k < ps.len() && (d == #[trigger] ps[k] || is_subdomain(d, ps[k])),
{
    lemma_suffix_semantics(ps, d);
}

/// Lines written with '\n' between them are read back as the same lines.
pub proof fn lemma_lines_loaded(ps: Seq<Seq<char>>)
    requires
        lines_safe(ps),
    ensures
        (if ps.len() > 0 {
            std_lines(read_text(encode_utf8(join_on(ps, '\n'))))
        } else {
            Seq::<Seq<char>>::empty()
        }) == ps,
{
    if ps.len() > 0 {
        let t = join_on(ps, '\n');
        encode_utf8_valid_utf8(t);
        encode_utf8_decode_utf8(t);
        lemma_lines_of_joined(ps);
    } else {
        assert(ps =~= Seq::<Seq<char>>::empty());
    }
}

/// Reading back a built file gives back what was written, for a file no
/// longer than the format's 32-bit lengths can describe. The file holds,
/// in order, the sections that were planned, and it reads without error;
/// a reader loaded from what was read answers exact lookups with exactly
/// the exact rules, suffix lookups with exactly those rules' names and their
/// subdomains, and holds the keyword and regex rules as written (whenever
/// they survive being written one per line); every FST set it holds is one
/// that `Set::from_iter` built, so lookups in it are safe.
pub proof fn lemma_read_back(
    p: RuleSections,
    mj: Seq<u8>,
    rj: Seq<u8>,
    comp: Compression,
    rd: ArsReader,
    meta: crate::builder::ArsMetadata,
    rw: Vec<crate::builder::RewriteEntry>,
)
    requires
        frames_decode(planned_sections(p, mj, rj), comp),
        ars_file(p.counts.spec_total() as u32, planned_sections(p, mj, rj), comp).len() <= u32::MAX,
        fsts_sound(p),
        rd.loaded_from(
            scan_file(ars_file(p.counts.spec_total() as u32, planned_sections(p, mj, rj), comp)).0,
            meta,
            rw,
        ),
    ensures
        scan_file(ars_file(p.counts.spec_total() as u32, planned_sections(p, mj, rj), comp))
            == (planned_sections(p, mj, rj), FileEnd::Records(RecordEnd::Done)),
        forall|d: Seq<char>| exact_hit(rd.block_exact, d) <==> texts(p.block_exact@).contains(d),
        forall|d: Seq<char>| exact_hit(rd.allow_exact, d) <==> texts(p.allow_exact@).contains(d),
        forall|d: Seq<char>|
            suffix_hit(rd.block_suffix, d) <==> exists|k: int|
                0 <= k < p.block_suffix@.len() && (d == #[trigger] texts(p.block_suffix@)[k]
                    || is_subdomain(d, texts(p.block_suffix@)[k])),
        forall|d: Seq<char>|
            suffix_hit(rd.allow_suffix, d) <==> exists|k: int|
                0 <= k < p.allow_suffix@.len() && (d == #[trigger] texts(p.allow_suffix@)[k]
                    || is_subdomain(d, texts(p.allow_suffix@)[k])),
        lines_safe(texts(p.block_keyword@)) ==> keywords_loaded(rd.block_keyword, texts(p.block_keyword@)),
        lines_safe(texts(p.allow_keyword@)) ==> keywords_loaded(rd.allow_keyword, texts(p.allow_keyword@)),
        lines_safe(texts(p.block_regex@)) ==> regexes_loaded(rd.block_regex, texts(p.block_regex@)),
        lines_safe(texts(p.allow_regex@)) ==> regexes_loaded(rd.allow_regex, texts(p.allow_regex@)),
        lookups_safe(rd),
{
    let secs = planned_sections(p, mj, rj);
    assert(secs.len() <= 10);
    lemma_short_file_fits(p.counts.spec_total() as u32, secs, comp);
    lemma_scan_ars_file(p.counts.spec_total() as u32, secs, comp);
    lemma_planned_last_data(p, mj, rj, SectionId::BlockExact);
    lemma_planned_last_data(p, mj, rj, SectionId::BlockSuffix);
    lemma_planned_last_data(p, mj, rj, SectionId::AllowExact);
    lemma_planned_last_data(p, mj, rj, SectionId::AllowSuffix);
    lemma_planned_last_data(p, mj, rj, SectionId::BlockKeyword);
    lemma_planned_last_data(p, mj, rj, SectionId::AllowKeyword);
    lemma_planned_last_data(p, mj, rj, SectionId::BlockRegex);
    lemma_planned_last_data(p, mj, rj, SectionId::AllowRegex);
    assert forall|d: Seq<char>| exact_hit(rd.block_exact, d) <==> texts(p.block_exact@).contains(d) by {
        lemma_exact_loaded(rd.block_exact, texts(p.block_exact@), d);
    }
    assert forall|d: Seq<char>| exact_hit(rd.allow_exact, d) <==> texts(p.allow_exact@).contains(d) by {
        lemma_exact_loaded(rd.allow_exact, texts(p.allow_exact@), d);
    }
    assert forall|d: Seq<char>|
        suffix_hit(rd.block_suffix, d) <==> exists|k: int|
            0 <= k < p.block_suffix@.len() && (d == #[trigger] texts(p.block_suffix@)[k]
                || is_subdomain(d, texts(p.block_suffix@)[k])) by {
        lemma_suffix_loaded(rd.block_suffix, texts(p.block_suffix@), d);
    }
    assert forall|d: Seq<char>|
        suffix_hit(rd.allow_suffix, d) <==> exists|k: int|
            0 <= k < p.allow_suffix@.len() && (d == #[trigger] texts(p.allow_suffix@)[k]
                || is_subdomain(d, texts(p.allow_suffix@)[k])) by {
        lemma_suffix_loaded(rd.allow_suffix, texts(p.allow_suffix@), d);
    }
    if lines_safe(texts(p.block_keyword@)) {
        lemma_lines_loaded(texts(p.block_keyword@));
    }
    if lines_safe(texts(p.allow_keyword@)) {
        lemma_lines_loaded(texts(p.allow_keyword@));
    }
    if lines_safe(texts(p.block_regex@)) {
        lemma_lines_loaded(texts(p.block_regex@));
    }
    if lines_safe(texts(p.allow_regex@)) {
        lemma_lines_loaded(texts(p.allow_regex@));
    }
}

} // verus!
