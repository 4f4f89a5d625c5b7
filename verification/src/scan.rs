//! Reading the sections of an `.ars` file: checksum and header checks, then
//! each section record in turn, decompressed.
use vstd::prelude::*;
use vstd::bytes::{spec_u16_from_le_bytes, spec_u32_from_le_bytes, u16_from_le_bytes, u32_from_le_bytes};
use vstd::slice::{slice_subrange, slice_to_vec};
use crate::codec::{crc32, crc32_of, zstd_decoded, zstd_decompress};
use crate::error::{ArsError, unexpected_eof};
use crate::format::{Compression, SectionId};
use crate::container::unstored;
use crate::text::chars_of;

verus! {

/// A decoded section: its id and its decompressed data.
pub struct Section {
    pub id: SectionId,
    pub data: Vec<u8>,
}

/// The sections read from a file, in file order, and the error that stopped
/// the reading, if any.
pub struct SectionScan {
    pub sections: Vec<Section>,
    pub error: Option<ArsError>,
}

/// Where the reading of section records ended.
pub enum RecordEnd {
    /// All announced sections were read.
    Done,
    /// A section header ran past the end of the data.
    Eof,
    /// A section's data ran into the trailer (the section's id byte).
    Truncated(u8),
    /// An unknown codec byte.
    BadCodec(u8),
    /// The data did not decompress.
    Decompress,
    /// An unknown section id byte.
    BadId(u8),
}

/// Where the reading of a whole file ended.
pub enum FileEnd {
    /// Shorter than a header and a trailer.
    Short,
    /// The trailer CRC differs from the CRC of the bytes before it.
    Checksum { expected: u32, got: u32 },
    /// The file does not start with the magic bytes.
    Magic,
    /// The version is outside the supported range.
    Version(u16),
    /// Section reading ended this way.
    Records(RecordEnd),
}

/// Reads `n` section records starting at `pos`: the decoded sections and
/// where the reading ended.
pub open spec fn scan_records(data: Seq<u8>, pos: int, n: nat) -> (Seq<(SectionId, Seq<u8>)>, RecordEnd)
    decreases n,
{
    if n == 0 {
        (Seq::empty(), RecordEnd::Done)
    } else if pos + 10 > data.len() {
        (Seq::empty(), RecordEnd::Eof)
    } else {
        let id_b = data[pos];
        let codec_b = data[pos + 1];
        let clen = spec_u32_from_le_bytes(data.subrange(pos + 2, pos + 6)) as int;
        let start = pos + 10;
        if start + clen > data.len() - 4 {
            (Seq::empty(), RecordEnd::Truncated(id_b))
        } else {
            let raw = data.subrange(start, start + clen);
            match Compression::spec_from_byte(codec_b) {
                None => (Seq::empty(), RecordEnd::BadCodec(codec_b)),
                Some(c) => {
                    match unstored(c, raw) {
                        None => (Seq::empty(), RecordEnd::Decompress),
                        Some(d) => match SectionId::spec_from_byte(id_b) {
                            None => (Seq::empty(), RecordEnd::BadId(id_b)),
                            Some(id) => {
                                let (rest, end) = scan_records(data, start + clen, (n - 1) as nat);
                                (seq![(id, d)] + rest, end)
                            },
                        },
                    }
                },
            }
        }
    }
}

/// Reads a whole file: length, trailer checksum, magic and version checks,
/// then the announced number of section records from offset 32.
pub open spec fn scan_file(data: Seq<u8>) -> (Seq<(SectionId, Seq<u8>)>, FileEnd) {
    if data.len() < 36 {
        (Seq::empty(), FileEnd::Short)
    } else {
        let stored = spec_u32_from_le_bytes(data.subrange(data.len() - 4, data.len() as int));
        let actual = crc32(data.subrange(0, data.len() - 4));
        if actual != stored {
            (Seq::empty(), FileEnd::Checksum { expected: stored, got: actual })
        } else if data.subrange(0, 4) != seq![0x41u8, 0x52u8, 0x53u8, 0x01u8] {
            (Seq::empty(), FileEnd::Magic)
        } else {
            let version = spec_u16_from_le_bytes(data.subrange(4, 6));
            if version < 1 || version > 1 {
                (Seq::empty(), FileEnd::Version(version))
            } else {
                let count = spec_u32_from_le_bytes(data.subrange(12, 16));
                let (secs, end) = scan_records(data, 32, count as nat);
                (secs, FileEnd::Records(end))
            }
        }
    }
}

/// The hex digit for `n < 16` (lowercase).
pub open spec fn hex_digit(n: u8) -> char {
    if n < 10 {
        ((n + 48) as u8) as char
    } else {
        ((n + 87) as u8) as char
    }
}

/// The name of a section in a truncation error: "section id=0x" and the id
/// byte as two lowercase hex digits (`{:#04x}`).
pub open spec fn section_name(b: u8) -> Seq<char> {
    "section id=0x"@ + seq![hex_digit(b / 16), hex_digit(b % 16)]
}

/// The error reported for each way reading can end.
pub open spec fn reports(e: Option<ArsError>, end: FileEnd) -> bool {
    match end {
        FileEnd::Short => e matches Some(ArsError::TruncatedData { section }) && section@ == "header"@,
        FileEnd::Checksum { expected, got } => e == Some(ArsError::ChecksumMismatch { expected, got }),
        FileEnd::Magic => e matches Some(ArsError::InvalidMagic),
        FileEnd::Version(v) => e matches Some(ArsError::UnsupportedVersion(w)) && w == v,
        FileEnd::Records(RecordEnd::Done) => e is None,
        FileEnd::Records(RecordEnd::Eof) => e matches Some(ArsError::Io(_)),
        FileEnd::Records(RecordEnd::Truncated(b)) => e matches Some(ArsError::TruncatedData { section })
            && section@ == section_name(b),
        FileEnd::Records(RecordEnd::BadCodec(b)) => e matches Some(ArsError::InvalidSectionType(w)) && w == b,
        FileEnd::Records(RecordEnd::Decompress) => e matches Some(ArsError::DecompressError(m)) && m@
            == "zstd decompression failed"@,
        FileEnd::Records(RecordEnd::BadId(b)) => e matches Some(ArsError::InvalidSectionType(w)) && w == b,
    }
}

/// The sections of a vector as plain values.
pub open spec fn scanned(v: Seq<Section>) -> Seq<(SectionId, Seq<u8>)> {
    v.map_values(|s: Section| (s.id, s.data@))
}

/// The hex digit for `n < 16`.
fn hex_char(n: u8) -> (c: char)
    requires
        n < 16,
    ensures
        c == hex_digit(n),
{
    if n < 10 {
        ((n + 48) as u8) as char
    } else {
        ((n + 87) as u8) as char
    }
}

/// "section id=0x" followed by the id byte in hex.
fn section_label(b: u8) -> (s: String)
    ensures
        s@ == section_name(b),
{
    let mut v = chars_of("section id=0x");
    v.push(hex_char(b / 16));
    v.push(hex_char(b % 16));
    crate::text::string_from_chars(v.as_slice())
}


/// Decodes stored section bytes with their codec: raw bytes are copied, a
/// zstd frame is decompressed; bytes that do not decompress are a
/// `DecompressError` ("zstd decompression failed").
pub fn decompress(data: &[u8], codec: Compression) -> (r: Result<Vec<u8>, ArsError>)
    ensures
        match unstored(codec, data@) {
            Some(v) => r matches Ok(d) && d@ == v,
            None => r matches Err(ArsError::DecompressError(m)) && m@ == "zstd decompression failed"@,
        },
{
    match codec {
        Compression::Raw => Ok(slice_to_vec(data)),
        Compression::Zstd => match zstd_decompress(data) {
            Ok(d) => Ok(d),
            Err(_) => Err(ArsError::DecompressError("zstd decompression failed".to_owned())),
        },
    }
}

/// Reads the sections of an `.ars` file in order. Checks, in order: the
/// length (a header and a trailer must fit), the trailer CRC over all bytes
/// before it, the magic bytes and the version; then reads the number of
/// sections the header announces, each checked against the data's end and
/// decompressed. The sections read before an error are returned with it.
pub fn scan_sections(data: &[u8]) -> (r: SectionScan)
    ensures
        scanned(r.sections@) == scan_file(data@).0,
        reports(r.error, scan_file(data@).1),
{
    let len = data.len();
    if len < 36 {
        return SectionScan {
            sections: Vec::new(),
            error: Some(ArsError::TruncatedData { section: "header".to_owned() }),
        };
    }
    let payload = slice_subrange(data, 0, len - 4);
    let stored = u32_from_le_bytes(slice_subrange(data, len - 4, len));
    let actual = crc32_of(payload);
    if actual != stored {
        return SectionScan {
            sections: Vec::new(),
            error: Some(ArsError::ChecksumMismatch { expected: stored, got: actual }),
        };
    }
    if data[0] != 0x41u8 || data[1] != 0x52u8 || data[2] != 0x53u8 || data[3] != 0x01u8 {
        assert(data@.subrange(0, 4) != seq![0x41u8, 0x52u8, 0x53u8, 0x01u8]) by {
            let m = data@.subrange(0, 4);
            assert(m[0] == data@[0] && m[1] == data@[1] && m[2] == data@[2] && m[3] == data@[3]);
        }
        return SectionScan { sections: Vec::new(), error: Some(ArsError::InvalidMagic) };
    }
    assert(data@.subrange(0, 4) =~= seq![0x41u8, 0x52u8, 0x53u8, 0x01u8]);
    let version = u16_from_le_bytes(slice_subrange(data, 4, 6));
    if version < crate::format::MIN_VERSION || version > crate::format::FORMAT_VERSION {
        return SectionScan { sections: Vec::new(), error: Some(ArsError::UnsupportedVersion(version)) };
    }
    let count = u32_from_le_bytes(slice_subrange(data, 12, 16));
    let ghost whole = scan_records(data@, 32, count as nat);
    assert(data@.subrange(0, data@.len() - 4) =~= payload@);
    assert(scan_file(data@).0 == whole.0 && scan_file(data@).1 == FileEnd::Records(whole.1));
    let mut sections: Vec<Section> = Vec::new();
    let mut pos: usize = 32;
    let mut k: u32 = 0;
    assert(scanned(sections@) + whole.0 =~= whole.0);
    while k < count
        invariant
            len == data@.len(),
            36 <= len,
            32 <= pos <= len,
            k <= count,
            whole == scan_records(data@, 32, count as nat),
            scan_file(data@).0 == whole.0,
            scan_file(data@).1 == FileEnd::Records(whole.1),
            whole.0 == scanned(sections@) + scan_records(data@, pos as int, (count - k) as nat).0,
            whole.1 == scan_records(data@, pos as int, (count - k) as nat).1,
        decreases count - k,
    {
        let ghost rest = scan_records(data@, pos as int, (count - k) as nat);
        if len - pos < 10 {
            assert(scanned(sections@) + rest.0 =~= scanned(sections@));
            return SectionScan { sections, error: Some(ArsError::Io(unexpected_eof())) };
        }
        let id_b = data[pos];
        let codec_b = data[pos + 1];
        let clen = u32_from_le_bytes(slice_subrange(data, pos + 2, pos + 6)) as usize;
        let start = pos + 10;
        if start > len - 4 || clen > len - 4 - start {
            assert(scanned(sections@) + rest.0 =~= scanned(sections@));
            return SectionScan {
                sections,
                error: Some(ArsError::TruncatedData { section: section_label(id_b) }),
            };
        }
        let raw = slice_subrange(data, start, start + clen);
        let codec = match Compression::from_byte(codec_b) {
            Ok(c) => c,
            Err(e) => {
                assert(scanned(sections@) + rest.0 =~= scanned(sections@));
                return SectionScan { sections, error: Some(e) };
            },
        };
        let dec = match decompress(raw, codec) {
            Ok(d) => d,
            Err(e) => {
                assert(scanned(sections@) + rest.0 =~= scanned(sections@));
                return SectionScan { sections, error: Some(e) };
            },
        };
        let id = match SectionId::from_byte(id_b) {
            Ok(i) => i,
            Err(e) => {
                assert(scanned(sections@) + rest.0 =~= scanned(sections@));
                return SectionScan { sections, error: Some(e) };
            },
        };
        let ghost s0 = scanned(sections@);
        sections.push(Section { id, data: dec });
        assert(scanned(sections@) =~= s0.push((id, dec@)));
        let ghost after = scan_records(data@, (start + clen) as int, (count - k - 1) as nat);
        assert(rest.0 =~= seq![(id, dec@)] + after.0);
        assert(s0 + rest.0 =~= scanned(sections@) + after.0);
        pos = start + clen;
        k = k + 1;
    }
    assert(scanned(sections@) + Seq::<(SectionId, Seq<u8>)>::empty() =~= scanned(sections@));
    SectionScan { sections, error: None }
}

} // verus!
