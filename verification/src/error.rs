//! Errors of reading and writing `.ars` rule sets.
use vstd::prelude::*;

verus! {

#[verifier::external_type_specification]
#[verifier::external_body]
pub struct ExIoError(std::io::Error);

#[verifier::external_type_specification]
#[verifier::external_body]
pub struct ExRegexError(regex::Error);

#[verifier::external_type_specification]
#[verifier::external_body]
pub struct ExJsonError(serde_json::Error);

#[derive(Debug)]
pub enum ArsError {
    /// Invalid magic bytes: expected ARS\x01
    InvalidMagic,
    /// Unsupported version
    UnsupportedVersion(u16),
    /// Checksum mismatch between the stored and the computed CRC32
    ChecksumMismatch { expected: u32, got: u32 },
    /// Invalid section type (or codec) byte
    InvalidSectionType(u8),
    /// Decompression failed
    DecompressError(String),
    /// FST error
    FstError(String),
    /// Regex error
    RegexError(regex::Error),
    /// IO error
    Io(std::io::Error),
    /// JSON error
    Json(serde_json::Error),
    /// Truncated data at the named section
    TruncatedData { section: String },
}

/// Calls `std::io::Error::from(std::io::ErrorKind::UnexpectedEof)`: the error
/// that reading past the end of a byte cursor gives.
#[verifier::external_body]
pub(crate) fn unexpected_eof() -> (e: std::io::Error) {
    std::io::Error::from(std::io::ErrorKind::UnexpectedEof)
}

} // verus!
