//! Reassembles a payload that was split into shard files, checks it against an
//! expected SHA-256 digest, decompresses it and plans how the unpacked tree is
//! made executable.
//!
//! The crate does no I/O. A driver lists directories, reads files, unpacks the
//! archive and changes permissions; every decision in between is taken here
//! and proved against the contracts of the functions below.

pub mod error;
pub mod order;
pub mod payload;
pub mod digest;
pub mod gzip;
pub mod layout;
pub mod pipeline;
