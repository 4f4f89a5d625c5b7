//! The byte layout of an `.ars` file: header, sections and trailer, and the
//! writing of each part.
use vstd::prelude::*;
use vstd::bytes::{spec_u16_to_le_bytes, spec_u32_to_le_bytes, u16_to_le_bytes, u32_to_le_bytes};
use crate::codec::{crc32, zstd_decoded, zstd_frame};
use crate::format::{Compression, SectionId};

verus! {

/// Little-endian bytes of a `u32`.
pub open spec fn le32(x: u32) -> Seq<u8> {
    spec_u32_to_le_bytes(x)
}

/// Little-endian bytes of a `u16`.
pub open spec fn le16(x: u16) -> Seq<u8> {
    spec_u16_to_le_bytes(x)
}

/// The first 28 header bytes: magic, version 1, the file's codec byte and a
/// reserved zero, the rule total, the section count, the metadata offset
/// (32) and eight reserved zeros. The header CRC follows them.
pub open spec fn header_prefix(total: u32, count: u32, comp: Compression) -> Seq<u8> {
    seq![0x41u8, 0x52u8, 0x53u8, 0x01u8] + le16(1) + seq![comp.spec_byte(), 0u8] + le32(total) + le32(count)
        + le32(32) + Seq::new(8, |i: int| 0u8)
}

/// How a section's data is stored: as is with `Raw`; with `Zstd`, as its zstd
/// frame when that is shorter than the data, as is otherwise.
pub open spec fn stored_form(data: Seq<u8>, comp: Compression) -> (Compression, Seq<u8>) {
    match comp {
        Compression::Raw => (Compression::Raw, data),
        Compression::Zstd => if zstd_frame(data).len() >= data.len() {
            (Compression::Raw, data)
        } else {
            (Compression::Zstd, zstd_frame(data))
        },
    }
}

/// What reading gives back of stored bytes with their codec: raw bytes as
/// they are, a zstd frame decoded (nothing where it does not decode).
pub open spec fn unstored(c: Compression, stored: Seq<u8>) -> Option<Seq<u8>> {
    match c {
        Compression::Raw => Some(stored),
        Compression::Zstd => zstd_decoded(stored),
    }
}

/// One section: id byte, codec byte, stored length, data length, stored bytes.
pub open spec fn section_record(id: SectionId, data: Seq<u8>, comp: Compression) -> Seq<u8> {
    let (c, stored) = stored_form(data, comp);
    seq![id.spec_byte(), c.spec_byte()] + le32(stored.len() as u32) + le32(data.len() as u32)
        + stored
}

/// The records of all sections, in order.
pub open spec fn records(secs: Seq<(SectionId, Seq<u8>)>, comp: Compression) -> Seq<u8>
    decreases secs.len(),
{
    if secs.len() == 0 {
        Seq::empty()
    } else {
        records(secs.drop_last(), comp) + section_record(secs.last().0, secs.last().1, comp)
    }
}

/// Everything before the trailer: header (with its CRC) and the records.
pub open spec fn file_body(total: u32, secs: Seq<(SectionId, Seq<u8>)>, comp: Compression) -> Seq<u8> {
    let h = header_prefix(total, secs.len() as u32, comp);
    h + le32(crc32(h)) + records(secs, comp)
}

/// A whole `.ars` file: body and the CRC of the body.
pub open spec fn ars_file(total: u32, secs: Seq<(SectionId, Seq<u8>)>, comp: Compression) -> Seq<u8> {
    let b = file_body(total, secs, comp);
    b + le32(crc32(b))
}

/// Every section stored as a zstd frame decodes back to its data.
pub open spec fn frames_decode(secs: Seq<(SectionId, Seq<u8>)>, comp: Compression) -> bool {
    forall|k: int|
        0 <= k < secs.len() && (#[trigger] stored_form(secs[k].1, comp)).0 == Compression::Zstd
            ==> zstd_decoded(zstd_frame(secs[k].1)) == Some(secs[k].1)
}

/// Appends the little-endian bytes of `x`.
pub fn push_le32(buf: &mut Vec<u8>, x: u32)
    ensures
        final(buf)@ == old(buf)@ + le32(x),
{
    let b = u32_to_le_bytes(x);
    push_all(buf, &b);
}

/// Appends the little-endian bytes of `x`.
pub fn push_le16(buf: &mut Vec<u8>, x: u16)
    ensures
        final(buf)@ == old(buf)@ + le16(x),
{
    let b = u16_to_le_bytes(x);
    push_all(buf, &b);
}

/// Appends all of `src`.
pub fn push_all(buf: &mut Vec<u8>, src: &[u8])
    ensures
        final(buf)@ == old(buf)@ + src@,
{
    let ghost b0 = buf@;
    let mut j: usize = 0;
    while j < src.len()
        invariant
            j <= src@.len(),
            buf@ == b0 + src@.take(j as int),
        decreases src.len() - j,
    {
        buf.push(src[j]);
        j = j + 1;
        assert(buf@ =~= b0 + src@.take(j as int));
    }
    assert(src@.take(src@.len() as int) =~= src@);
}

/// The first 28 header bytes.
pub fn header_prefix_bytes(total: u32, count: u32, comp: Compression) -> (h: Vec<u8>)
    ensures
        h@ == header_prefix(total, count, comp),
{
    let mut h: Vec<u8> = Vec::new();
    h.push(0x41u8);
    h.push(0x52u8);
    h.push(0x53u8);
    h.push(0x01u8);
    push_le16(&mut h, 1u16);
    h.push(comp.to_byte());
    h.push(0u8);
    push_le32(&mut h, total);
    push_le32(&mut h, count);
    push_le32(&mut h, 32u32);
    let mut k: usize = 0;
    let ghost h0 = h@;
    while k < 8
        invariant
            k <= 8,
            h@ == h0 + Seq::new(k as nat, |i: int| 0u8),
        decreases 8 - k,
    {
        h.push(0u8);
        k = k + 1;
        assert(h@ =~= h0 + Seq::new(k as nat, |i: int| 0u8));
    }
    assert(h@ =~= header_prefix(total, count, comp));
    h
}

} // verus!
