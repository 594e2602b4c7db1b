//! The ways in which a staging run can fail.

use vstd::prelude::*;

verus! {

/// Why a staging run stopped. Every failure is fatal: nothing is retried.
#[derive(Clone, Copy, Debug, PartialEq, Eq, Structural)]
pub enum StageError {
    /// The pattern handed to the directory listing was malformed.
    Pattern,
    /// A shard could not be read, or a permission change failed.
    Io,
    /// The payload's digest differs from the digest the caller expects.
    ChecksumMismatch,
    /// The payload is not gzip, or its contents could not be unpacked.
    Extraction,
}

} // verus!
