//! Checksums and compression of section data (`crc32fast`, `zstd`).
use vstd::prelude::*;

verus! {

/// The CRC-32 (IEEE) checksum of `data`, as `crc32fast::hash` computes it.
pub uninterp spec fn crc32(data: Seq<u8>) -> u32;

/// Calls `crc32fast::hash`.
#[verifier::external_body]
pub(crate) fn crc32_of(data: &[u8]) -> (r: u32)
    ensures
        r == crc32(data@),
{
    crc32fast::hash(data)
}

/// The zstd frame `zstd::encode_all` produces for `data` at level 9.
pub uninterp spec fn zstd_frame(data: Seq<u8>) -> Seq<u8>;

/// What `zstd::decode_all` gives for `data`: the decompressed bytes, or
/// nothing when `data` is not a valid zstd stream.
pub uninterp spec fn zstd_decoded(data: Seq<u8>) -> Option<Seq<u8>>;

/// Calls `zstd::encode_all(data, 9)`. Reading from a slice and writing to a
/// `Vec` cannot fail and level 9 is a valid level, so the zstd source gives
/// it no error to return. A frame it produces decodes back to `data` (zstd's
/// round-trip guarantee).
#[verifier::external_body]
pub(crate) fn zstd_compress(data: &[u8]) -> (r: Result<Vec<u8>, std::io::Error>)
    ensures
        r is Ok,
        r matches Ok(c) ==> c@ == zstd_frame(data@) && zstd_decoded(c@) == Some(data@),
{
    zstd::encode_all(data, 9)
}

/// Calls `zstd::decode_all`.
#[verifier::external_body]
pub(crate) fn zstd_decompress(data: &[u8]) -> (r: Result<Vec<u8>, std::io::Error>)
    ensures
        r is Ok <==> zstd_decoded(data@) is Some,
        r matches Ok(d) ==> zstd_decoded(data@) == Some(d@),
{
    zstd::decode_all(data)
}

} // verus!
