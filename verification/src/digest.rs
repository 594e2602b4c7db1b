//! The integrity check: the payload's SHA-256 digest, written as lower-case
//! hexadecimal text, against the digest the caller expects.

use crate::error::StageError;
use sha2::{Digest, Sha256};
use vstd::prelude::*;

verus! {

/// The SHA-256 digest of `data`, as the `sha2` crate computes it.
pub uninterp spec fn sha256(data: Seq<u8>) -> Seq<u8>;

/// The sixteen digits of lower-case hexadecimal, by value.
pub open spec fn hex_digits() -> Seq<char> {
    seq!['0', '1', '2', '3', '4', '5', '6', '7', '8', '9', 'a', 'b', 'c', 'd', 'e', 'f']
}

/// `data` in lower-case hexadecimal: two digits for each byte, the high half
/// of the byte first.
pub open spec fn hex_lower(data: Seq<u8>) -> Seq<char> {
    Seq::new(
        2 * data.len(),
        |i: int|
            if i % 2 == 0 {
                hex_digits()[data[i / 2] as int / 16]
            } else {
                hex_digits()[data[i / 2] as int % 16]
            },
    )
}

/// The digest of a payload in the form in which it is compared.
pub open spec fn payload_digest(payload: Seq<u8>) -> Seq<char> {
    hex_lower(sha256(payload))
}

/// Whether a payload whose digest is `computed` may be unpacked: always when
/// no digest is expected, else only when the two texts are the same.
pub open spec fn digest_accepted(expected: Option<Seq<char>>, computed: Seq<char>) -> bool {
    match expected {
        None => true,
        Some(wanted) => wanted == computed,
    }
}

/// Calls `sha2::Sha256::digest`. Trusted: the bytes returned are the SHA-256
/// digest of `data`, which this crate knows only by the name [`sha256`].
#[verifier::external_body]
fn sha256_of(data: &[u8]) -> (digest: Vec<u8>)
    ensures
        digest@ == sha256(data@),
{
    Sha256::digest(data).to_vec()
}

/// Calls `hex::encode`. Trusted: the text holds two lower-case hexadecimal
/// digits for each byte of `data`, in order, the high half of a byte first.
#[verifier::external_body]
fn hex_of(data: &[u8]) -> (text: String)
    ensures
        text@ == hex_lower(data@),
{
    hex::encode(data)
}

/// The digest of `payload` as lower-case hexadecimal text.
pub fn digest_hex(payload: &[u8]) -> (text: String)
    ensures
        text@ == payload_digest(payload@),
{
    let digest = sha256_of(payload);
    hex_of(digest.as_slice())
}

/// Compares a computed digest with the expected one, character by character.
pub fn check_digest(expected: &Option<String>, computed: &String) -> (r: Result<(), StageError>)
    ensures
        digest_accepted(expected.deep_view(), computed@) ==> r == Ok::<(), StageError>(()),
        !digest_accepted(expected.deep_view(), computed@) ==> r == Err::<(), StageError>(
            StageError::ChecksumMismatch,
        ),
{
    match expected {
        None => Ok(()),
        Some(wanted) => {
            if *wanted == *computed {
                Ok(())
            } else {
                Err(StageError::ChecksumMismatch)
            }
        },
    }
}

/// Verifies `payload` against the expected digest, if there is one. Without
/// one the payload is accepted unseen.
pub fn verify_payload(payload: &[u8], expected: &Option<String>) -> (r: Result<(), StageError>)
    ensures
        digest_accepted(expected.deep_view(), payload_digest(payload@)) ==> r == Ok::<
            (),
            StageError,
        >(()),
        !digest_accepted(expected.deep_view(), payload_digest(payload@)) ==> r == Err::<
            (),
            StageError,
        >(StageError::ChecksumMismatch),
{
    if expected.is_none() {
        return Ok(());
    }
    let computed = digest_hex(payload);
    check_digest(expected, &computed)
}

} // verus!
