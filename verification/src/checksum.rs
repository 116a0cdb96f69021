//! Content digest of plaintext, independent of encryption.
//!
//! The checksum is the SHA-256 digest of the original bytes, hex-encoded to
//! 64 lowercase digits. It is reported next to the ciphertext metadata so a
//! verifier can confirm decrypted output without relying on the cipher's own
//! integrity tag.

use vstd::prelude::*;

use sha2::Digest;

use crate::hex_codec::hex_encoding_of;

verus! {

/// The SHA-256 digest of a byte string.
pub uninterp spec fn sha256_of(data: Seq<u8>) -> Seq<u8>;

/// The checksum of a byte string: its SHA-256 digest, hex-encoded.
pub open spec fn checksum_of(data: Seq<u8>) -> Seq<char> {
    hex_encoding_of(sha256_of(data))
}

/// Relies on `sha2::Sha256`: the digest is 32 bytes and depends on the input
/// bytes alone.
#[verifier::external_body]
pub(crate) fn sha256_digest(data: &[u8]) -> (r: Vec<u8>)
    ensures
        r@ == sha256_of(data@),
        r@.len() == 32,
{
    let mut hasher = sha2::Sha256::new();
    hasher.update(data);
    hasher.finalize().to_vec()
}

/// The checksum of `data`: 64 hex digits, the same on every call with the
/// same bytes.
pub fn compute_checksum(data: &[u8]) -> (r: String)
    ensures
        r@ == checksum_of(data@),
        r@.len() == 64,
{
    let digest = sha256_digest(data);
    crate::hex_codec::hex_encode(digest.as_slice())
}

/// The checksum is deterministic: it is a function of the input bytes, so
/// two byte strings that are equal have equal checksums.
pub proof fn lemma_checksum_deterministic(d1: Seq<u8>, d2: Seq<u8>)
    requires
        d1 == d2,
    ensures
        checksum_of(d1) == checksum_of(d2),
{
}

} // verus!
