//! Reading an encoded file gives back the sections that were written.
use vstd::prelude::*;
use vstd::bytes::{
    lemma_auto_spec_u16_to_from_le_bytes, lemma_auto_spec_u32_to_from_le_bytes,
};
use crate::codec::{crc32, zstd_decoded, zstd_frame};
use crate::container::{
    ars_file, file_body, frames_decode, header_prefix, le16, le32, records, section_record,
    stored_form,
};
use crate::format::{Compression, SectionId};
use crate::scan::{FileEnd, RecordEnd, scan_file, scan_records};

verus! {

/// Every stored section fits a 32-bit length field.
pub open spec fn lengths_fit(secs: Seq<(SectionId, Seq<u8>)>, comp: Compression) -> bool {
    forall|k: int|
        0 <= k < secs.len() ==> (#[trigger] stored_form(secs[k].1, comp)).1.len() <= u32::MAX
}

/// The records of a non-empty list are the first record followed by the
/// records of the rest.
pub proof fn lemma_records_first(secs: Seq<(SectionId, Seq<u8>)>, comp: Compression)
    requires
        secs.len() > 0,
    ensures
        records(secs, comp) == section_record(secs[0].0, secs[0].1, comp) + records(
            secs.drop_first(),
            comp,
        ),
    decreases secs.len(),
{
    if secs.len() == 1 {
        assert(secs.drop_last() =~= Seq::<(SectionId, Seq<u8>)>::empty());
        assert(secs.drop_first() =~= Seq::<(SectionId, Seq<u8>)>::empty());
        assert(records(secs, comp) =~= section_record(secs[0].0, secs[0].1, comp) + records(
            secs.drop_first(),
            comp,
        ));
    } else {
        lemma_records_first(secs.drop_last(), comp);
        assert(secs.drop_last().drop_first() =~= secs.drop_first().drop_last());
        assert(secs.drop_last()[0] == secs[0]);
        assert(secs.drop_first().last() == secs.last());
        assert(records(secs, comp) =~= section_record(secs[0].0, secs[0].1, comp) + records(
            secs.drop_first(),
            comp,
        ));
    }
}

/// Reading records laid out at `pos`, with four trailer bytes after them,
/// gives back the sections and ends normally.
pub proof fn lemma_scan_records(data: Seq<u8>, pos: int, secs: Seq<(SectionId, Seq<u8>)>, comp: Compression)
    requires
        0 <= pos,
        pos + records(secs, comp).len() + 4 == data.len(),
        data.subrange(pos, pos + records(secs, comp).len()) == records(secs, comp),
        frames_decode(secs, comp),
        lengths_fit(secs, comp),
    ensures
        scan_records(data, pos, secs.len()) == (secs, RecordEnd::Done),
    decreases secs.len(),
{
    if secs.len() == 0 {
        assert(secs =~= Seq::<(SectionId, Seq<u8>)>::empty());
    } else {
        lemma_auto_spec_u32_to_from_le_bytes();
        lemma_records_first(secs, comp);
        let (id, d) = secs[0];
        let (c, stored) = stored_form(d, comp);
        let rec = section_record(id, d, comp);
        let rest = secs.drop_first();
        let rr = records(rest, comp);
        assert(records(secs, comp) == rec + rr);
        let seg = data.subrange(pos, pos + records(secs, comp).len());
        assert(rec.len() == 10 + stored.len());
        assert(data[pos] == seg[0]);
        assert(data[pos + 1] == seg[1]);
        let l1 = le32(stored.len() as u32);
        let l2 = le32(d.len() as u32);
        assert(rec == seq![id.spec_byte(), c.spec_byte()] + l1 + l2 + stored);
        assert(l1.len() == 4 && l2.len() == 4);
        assert forall|j: int| 0 <= j < 4 implies #[trigger] data.subrange(pos + 2, pos + 6)[j] == l1[j] by {
            assert(data.subrange(pos + 2, pos + 6)[j] == seg[2 + j]);
            assert(seg[2 + j] == rec[2 + j]);
        }
        assert(data.subrange(pos + 2, pos + 6) =~= l1);
        assert(stored_form(secs[0].1, comp).1.len() <= u32::MAX);
        let start = pos + 10;
        assert forall|j: int| 0 <= j < stored.len() implies #[trigger] data.subrange(start, start + stored.len())[j] == stored[j] by {
            assert(data.subrange(start, start + stored.len())[j] == seg[10 + j]);
            assert(seg[10 + j] == rec[10 + j]);
        }
        assert(data.subrange(start, start + stored.len()) =~= stored);
        assert(Compression::spec_from_byte(c.spec_byte()) == Some(c));
        id.lemma_byte_roundtrip();
        if c == Compression::Zstd {
            assert(stored_form(secs[0].1, comp).0 == Compression::Zstd);
        }
        assert forall|k: int|
            0 <= k < rest.len() && (#[trigger] stored_form(rest[k].1, comp)).0
                == Compression::Zstd implies zstd_decoded(zstd_frame(rest[k].1)) == Some(rest[k].1) by {
            assert(rest[k] == secs[k + 1]);
        }
        assert forall|k: int| 0 <= k < rest.len() implies (#[trigger] stored_form(rest[k].1, comp)).1.len()
            <= u32::MAX by {
            assert(rest[k] == secs[k + 1]);
        }
        let next = start + stored.len();
        assert forall|j: int| 0 <= j < rr.len() implies #[trigger] data.subrange(next, next + rr.len())[j] == rr[j] by {
            assert(data.subrange(next, next + rr.len())[j] == seg[rec.len() + j]);
        }
        assert(data.subrange(next, next + rr.len()) =~= rr);
        lemma_scan_records(data, next, rest, comp);
        assert(seq![(id, d)] + rest =~= secs);
    }
}

/// The records of the sections hold each section's stored bytes.
proof fn lemma_records_hold_stored(secs: Seq<(SectionId, Seq<u8>)>, comp: Compression, k: int)
    requires
        0 <= k < secs.len(),
    ensures
        stored_form(secs[k].1, comp).1.len() <= records(secs, comp).len(),
    decreases secs.len(),
{
    if k < secs.len() - 1 {
        lemma_records_hold_stored(secs.drop_last(), comp, k);
        assert(secs.drop_last()[k] == secs[k]);
    }
}

/// A file no longer than a 32-bit length holds only sections whose stored
/// lengths fit their 32-bit fields.
pub proof fn lemma_short_file_fits(total: u32, secs: Seq<(SectionId, Seq<u8>)>, comp: Compression)
    requires
        ars_file(total, secs, comp).len() <= u32::MAX,
    ensures
        lengths_fit(secs, comp),
{
    assert forall|k: int| 0 <= k < secs.len() implies (#[trigger] stored_form(secs[k].1, comp)).1.len()
        <= u32::MAX by {
        lemma_records_hold_stored(secs, comp, k);
    }
}

/// Reading an `.ars` file gives back, in order, the sections it was written
/// with, and no error — for any rule total, when the section count and every
/// stored length fit their 32-bit fields and every zstd frame decodes.
pub proof fn lemma_scan_ars_file(total: u32, secs: Seq<(SectionId, Seq<u8>)>, comp: Compression)
    requires
        secs.len() <= u32::MAX,
        frames_decode(secs, comp),
        lengths_fit(secs, comp),
    ensures
        scan_file(ars_file(total, secs, comp)) == (secs, FileEnd::Records(RecordEnd::Done)),
{
    lemma_auto_spec_u32_to_from_le_bytes();
    lemma_auto_spec_u16_to_from_le_bytes();
    let h = header_prefix(total, secs.len() as u32, comp);
    let body = file_body(total, secs, comp);
    let data = ars_file(total, secs, comp);
    assert(h.len() == 28);
    assert(data.len() == body.len() + 4);
    assert(data.subrange(0, data.len() - 4) =~= body);
    assert(data.subrange(data.len() - 4, data.len() as int) =~= le32(crc32(body)));
    assert(data.subrange(0, 4) =~= seq![0x41u8, 0x52u8, 0x53u8, 0x01u8]);
    assert(data.subrange(4, 6) =~= le16(1));
    assert(data.subrange(12, 16) =~= le32(secs.len() as u32));
    let rs = records(secs, comp);
    assert(data.subrange(32, 32 + rs.len() as int) =~= rs);
    lemma_scan_records(data, 32, secs, comp);
}

} // verus!
