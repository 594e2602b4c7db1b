//! Decompression of the payload into the archive that is unpacked.

use crate::error::StageError;
use flate2::read::GzDecoder;
use std::io::Read;
use vstd::prelude::*;

verus! {

/// What `flate2` reads out of `data` taken as one gzip member: the
/// decompressed bytes, or `None` where the header, the deflate stream or the
/// trailing checksum is not valid.
pub uninterp spec fn gunzip(data: Seq<u8>) -> Option<Seq<u8>>;

/// Reads a `flate2::read::GzDecoder` over `data` to its end. Trusted: the
/// outcome depends on `data` alone and is what [`gunzip`] names; an error of
/// the decoder comes back as `None`.
#[verifier::external_body]
fn gunzip_of(data: &[u8]) -> (decoded: Option<Vec<u8>>)
    ensures
        match decoded {
            Some(bytes) => gunzip(data@) == Some(bytes@),
            None => gunzip(data@) is None,
        },
{
    let mut decoded = Vec::new();
    match GzDecoder::new(data).read_to_end(&mut decoded) {
        Ok(_) => Some(decoded),
        Err(_) => None,
    }
}

/// Turns the outcome of decompression into the archive to unpack, or the
/// failure to report.
pub fn archive_from(decoded: Option<Vec<u8>>) -> (r: Result<Vec<u8>, StageError>)
    ensures
        match decoded {
            Some(archive) => r == Ok::<Vec<u8>, StageError>(archive),
            None => r == Err::<Vec<u8>, StageError>(StageError::Extraction),
        },
{
    match decoded {
        Some(archive) => Ok(archive),
        None => Err(StageError::Extraction),
    }
}

/// Decompresses the payload. A payload that is not valid gzip is an
/// extraction failure.
pub fn decompress(payload: &[u8]) -> (r: Result<Vec<u8>, StageError>)
    ensures
        match gunzip(payload@) {
            Some(archive) => r is Ok && r->Ok_0@ == archive,
            None => r == Err::<Vec<u8>, StageError>(StageError::Extraction),
        },
{
    archive_from(gunzip_of(payload))
}

} // verus!
