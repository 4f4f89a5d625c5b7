//! Layout constants and identifiers of the `.ars` binary format.
use vstd::prelude::*;
use crate::error::ArsError;

verus! {

/// Magic bytes for .ars files: "ARS" + version byte.
pub const MAGIC: [u8; 4] = [0x41, 0x52, 0x53, 0x01];
/// Current format version.
pub const FORMAT_VERSION: u16 = 1;
/// Minimum supported version for reading.
pub const MIN_VERSION: u16 = 1;

/// File header — fixed 32 bytes.
/// Layout:
///   [0..4]   magic "ARS\x01"
///   [4..6]   version (LE u16)
///   [6..8]   compression codec (u8) + reserved (u8)
///   [8..12]  total rule count (LE u32)
///   [12..16] section count (LE u32)
///   [16..20] metadata offset from file start (LE u32)
///   [20..28] reserved (zeroed)
///   [28..32] header CRC32 (LE u32, covers bytes 0..28)
pub const HEADER_SIZE: usize = 32;

/// Section header — 10 bytes per section.
/// Layout:
///   [0]     section id (SectionId)
///   [1]     compression (Compression)
///   [2..6]  compressed data length (LE u32)
///   [6..10] uncompressed data length (LE u32)
pub const SECTION_HEADER_SIZE: usize = 10;

/// Trailer — 4 bytes at end of file: CRC32 over all bytes before it.
pub const TRAILER_SIZE: usize = 4;

/// Compression codec used for section data.
#[derive(Debug, Clone, Copy, PartialEq, Eq, Structural)]
pub enum Compression {
    /// Stored as is (codec byte 0).
    Raw,
    /// Zstandard frame (codec byte 1).
    Zstd,
}

impl Compression {
    /// What reading byte `v` gives: the compression it names, or an
    /// `InvalidSectionType` error carrying the byte.
    pub open spec fn spec_parse(v: u8) -> Result<Compression, ArsError> {
        match Self::spec_from_byte(v) {
            Some(x) => Ok(x),
            None => Err(ArsError::InvalidSectionType(v)),
        }
    }

    /// The codec byte written into a section header.
    pub open spec fn spec_byte(self) -> u8 {
        match self {
            Compression::Raw => 0,
            Compression::Zstd => 1,
        }
    }

    pub fn to_byte(self) -> (b: u8)
        ensures
            b == self.spec_byte(),
    {
        match self {
            Compression::Raw => 0,
            Compression::Zstd => 1,
        }
    }

    /// The codec for a codec byte, if it names one.
    pub open spec fn spec_from_byte(v: u8) -> Option<Compression> {
        if v == 0 {
            Some(Compression::Raw)
        } else if v == 1 {
            Some(Compression::Zstd)
        } else {
            None
        }
    }

    /// Reads a codec byte; any other byte is an `InvalidSectionType` error.
    pub fn from_byte(v: u8) -> (r: Result<Compression, ArsError>)
        ensures
            r == Self::spec_parse(v),
    {
        if v == 0 {
            Ok(Compression::Raw)
        } else if v == 1 {
            Ok(Compression::Zstd)
        } else {
            Err(ArsError::InvalidSectionType(v))
        }
    }
}

/// Section type identifiers in the binary file.
#[derive(Debug, Clone, Copy, PartialEq, Eq, Structural)]
pub enum SectionId {
    /// FST of exact-match block domains
    BlockExact,
    /// FST of suffix-match block domains (stored reversed for prefix search)
    BlockSuffix,
    /// Newline-separated keyword block rules
    BlockKeyword,
    /// Newline-separated regex patterns for block rules
    BlockRegex,
    /// FST of exact-match allow (whitelist) domains
    AllowExact,
    /// FST of suffix-match allow domains
    AllowSuffix,
    /// Keyword allow rules
    AllowKeyword,
    /// Regex allow rules
    AllowRegex,
    /// Rewrite rules: JSON array of {pattern, rule_type, target}
    Rewrite,
    /// Bloom filter bytes (optional, ignored when reading)
    BloomFilter,
    /// Metadata JSON
    Metadata,
}

impl SectionId {
    /// What reading byte `v` gives: the sectionid it names, or an
    /// `InvalidSectionType` error carrying the byte.
    pub open spec fn spec_parse(v: u8) -> Result<SectionId, ArsError> {
        match Self::spec_from_byte(v) {
            Some(x) => Ok(x),
            None => Err(ArsError::InvalidSectionType(v)),
        }
    }

    /// The id byte written into a section header.
    pub open spec fn spec_byte(self) -> u8 {
        match self {
            SectionId::BlockExact => 0x01,
            SectionId::BlockSuffix => 0x02,
            SectionId::BlockKeyword => 0x03,
            SectionId::BlockRegex => 0x04,
            SectionId::AllowExact => 0x11,
            SectionId::AllowSuffix => 0x12,
            SectionId::AllowKeyword => 0x13,
            SectionId::AllowRegex => 0x14,
            SectionId::Rewrite => 0x20,
            SectionId::BloomFilter => 0x30,
            SectionId::Metadata => 0x40,
        }
    }

    pub fn to_byte(self) -> (b: u8)
        ensures
            b == self.spec_byte(),
    {
        match self {
            SectionId::BlockExact => 0x01,
            SectionId::BlockSuffix => 0x02,
            SectionId::BlockKeyword => 0x03,
            SectionId::BlockRegex => 0x04,
            SectionId::AllowExact => 0x11,
            SectionId::AllowSuffix => 0x12,
            SectionId::AllowKeyword => 0x13,
            SectionId::AllowRegex => 0x14,
            SectionId::Rewrite => 0x20,
            SectionId::BloomFilter => 0x30,
            SectionId::Metadata => 0x40,
        }
    }

    /// The section id an id byte names, if any.
    pub open spec fn spec_from_byte(v: u8) -> Option<SectionId> {
        if v == 0x01 {
            Some(SectionId::BlockExact)
        } else if v == 0x02 {
            Some(SectionId::BlockSuffix)
        } else if v == 0x03 {
            Some(SectionId::BlockKeyword)
        } else if v == 0x04 {
            Some(SectionId::BlockRegex)
        } else if v == 0x11 {
            Some(SectionId::AllowExact)
        } else if v == 0x12 {
            Some(SectionId::AllowSuffix)
        } else if v == 0x13 {
            Some(SectionId::AllowKeyword)
        } else if v == 0x14 {
            Some(SectionId::AllowRegex)
        } else if v == 0x20 {
            Some(SectionId::Rewrite)
        } else if v == 0x30 {
            Some(SectionId::BloomFilter)
        } else if v == 0x40 {
            Some(SectionId::Metadata)
        } else {
            None
        }
    }

    /// Reads an id byte; an unknown byte is an `InvalidSectionType` error.
    pub fn from_byte(v: u8) -> (r: Result<SectionId, ArsError>)
        ensures
            r == Self::spec_parse(v),
    {
        if v == 0x01 {
            Ok(SectionId::BlockExact)
        } else if v == 0x02 {
            Ok(SectionId::BlockSuffix)
        } else if v == 0x03 {
            Ok(SectionId::BlockKeyword)
        } else if v == 0x04 {
            Ok(SectionId::BlockRegex)
        } else if v == 0x11 {
            Ok(SectionId::AllowExact)
        } else if v == 0x12 {
            Ok(SectionId::AllowSuffix)
        } else if v == 0x13 {
            Ok(SectionId::AllowKeyword)
        } else if v == 0x14 {
            Ok(SectionId::AllowRegex)
        } else if v == 0x20 {
            Ok(SectionId::Rewrite)
        } else if v == 0x30 {
            Ok(SectionId::BloomFilter)
        } else if v == 0x40 {
            Ok(SectionId::Metadata)
        } else {
            Err(ArsError::InvalidSectionType(v))
        }
    }

    /// Reading an id back gives the id that was written.
    pub proof fn lemma_byte_roundtrip(self)
        ensures
            Self::spec_from_byte(self.spec_byte()) == Some(self),
    {
    }
}

impl vstd::std_specs::convert::TryFromSpecImpl<u8> for Compression {
    open spec fn obeys_try_from_spec() -> bool {
        true
    }

    open spec fn try_from_spec(v: u8) -> Result<Self, ArsError> {
        Self::spec_parse(v)
    }
}

impl TryFrom<u8> for Compression {
    type Error = ArsError;

    fn try_from(v: u8) -> Result<Self, Self::Error> {
        Compression::from_byte(v)
    }
}

impl vstd::std_specs::convert::TryFromSpecImpl<u8> for SectionId {
    open spec fn obeys_try_from_spec() -> bool {
        true
    }

    open spec fn try_from_spec(v: u8) -> Result<Self, ArsError> {
        Self::spec_parse(v)
    }
}

impl TryFrom<u8> for SectionId {
    type Error = ArsError;

    fn try_from(v: u8) -> Result<Self, Self::Error> {
        SectionId::from_byte(v)
    }
}

/// The bytes of the `.ars` format: each section kind has its fixed id byte
/// (block 0x01 exact, 0x02 suffix, 0x03 keyword, 0x04 regex; allow 0x11 to
/// 0x14 likewise; rewrites 0x20, bloom filter 0x30, metadata 0x40), the raw
/// codec is 0 and zstd 1. Each byte is read back as the kind written with
/// it, a byte read as a kind is that kind's byte, and no other byte names a
/// kind.
pub proof fn lemma_format_bytes()
    ensures
        SectionId::BlockExact.spec_byte() == 0x01u8,
        SectionId::BlockSuffix.spec_byte() == 0x02u8,
        SectionId::BlockKeyword.spec_byte() == 0x03u8,
        SectionId::BlockRegex.spec_byte() == 0x04u8,
        SectionId::AllowExact.spec_byte() == 0x11u8,
        SectionId::AllowSuffix.spec_byte() == 0x12u8,
        SectionId::AllowKeyword.spec_byte() == 0x13u8,
        SectionId::AllowRegex.spec_byte() == 0x14u8,
        SectionId::Rewrite.spec_byte() == 0x20u8,
        SectionId::BloomFilter.spec_byte() == 0x30u8,
        SectionId::Metadata.spec_byte() == 0x40u8,
        SectionId::spec_from_byte(0x01) == Some(SectionId::BlockExact),
        SectionId::spec_from_byte(0x02) == Some(SectionId::BlockSuffix),
        SectionId::spec_from_byte(0x03) == Some(SectionId::BlockKeyword),
        SectionId::spec_from_byte(0x04) == Some(SectionId::BlockRegex),
        SectionId::spec_from_byte(0x11) == Some(SectionId::AllowExact),
        SectionId::spec_from_byte(0x12) == Some(SectionId::AllowSuffix),
        SectionId::spec_from_byte(0x13) == Some(SectionId::AllowKeyword),
        SectionId::spec_from_byte(0x14) == Some(SectionId::AllowRegex),
        SectionId::spec_from_byte(0x20) == Some(SectionId::Rewrite),
        SectionId::spec_from_byte(0x30) == Some(SectionId::BloomFilter),
        SectionId::spec_from_byte(0x40) == Some(SectionId::Metadata),
        forall|v: u8| #[trigger] SectionId::spec_from_byte(v) matches Some(id) ==> id.spec_byte() == v,
        Compression::Raw.spec_byte() == 0u8,
        Compression::Zstd.spec_byte() == 1u8,
        Compression::spec_from_byte(0) == Some(Compression::Raw),
        Compression::spec_from_byte(1) == Some(Compression::Zstd),
        forall|v: u8| v > 1 ==> #[trigger] Compression::spec_from_byte(v) is None,
{
}

} // verus!
