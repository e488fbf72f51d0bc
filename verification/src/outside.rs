//! The crate's few ties to the world outside the verified core: random
//! identifiers, the clock, and the digest.

use vstd::prelude::*;

verus! {

/// The SHA-256 digest of a byte sequence. No contract of this crate says
/// which bytes the digest holds; it is a fixed function of the input
/// alone, computed by the sha2 crate.
pub uninterp spec fn sha256_of(b: Seq<u8>) -> Seq<u8>;

/// Relies on sha2::Sha256 (through the Digest trait): hashing a byte
/// slice yields its 32-byte SHA-256 digest, a function of the bytes
/// alone.
#[verifier::external_body]
pub(crate) fn sha256_digest(bytes: &Vec<u8>) -> (r: Vec<u8>)
    ensures
        r@ == sha256_of(bytes@),
        r@.len() == 32,
{
    let digest = <sha2::Sha256 as sha2::Digest>::digest(bytes.as_slice());
    digest.to_vec()
}

/// Relies on uuid::Uuid::new_v4 and its Display impl: the rendering is
/// the lowercase hyphenated form, 36 characters with a hyphen after the
/// first 8. Nothing is assumed about which identifier comes back.
#[verifier::external_body]
pub(crate) fn uuid_string() -> (r: String)
    ensures
        r@.len() == 36,
        r@[8] == '-',
{
    uuid::Uuid::new_v4().to_string()
}

/// Relies on chrono::Utc::now and DateTime::timestamp_millis: the current
/// wall-clock time in milliseconds since the Unix epoch. Nothing is
/// assumed about the value; the clock may even move backwards between
/// calls.
#[verifier::external_body]
pub(crate) fn now_ms() -> i64 {
    chrono::Utc::now().timestamp_millis()
}

} // verus!
