//! Signing an audit hash with an Ed25519 key, and verifying such signatures.
//!
//! The signing key pair is derived deterministically from a 32-byte seed, so
//! the same seed always yields the same public key and — Ed25519 signing
//! being deterministic — the same signature for the same hash. What is
//! signed are the raw decoded hash bytes, never the hex text: a verifier
//! must decode the hash the same way to reproduce the check.

use vstd::prelude::*;

use ed25519_dalek::{Signer, Verifier};

use crate::hex_codec::{
    hex_decode, hex_decoding_of, hex_encode, hex_encoding_of, strip_0x, strip_hex_prefix,
    valid_hex_string,
};
use crate::VaultError;

verus! {

/// The Ed25519 signature of a message under the key pair derived from a
/// 32-byte seed.
pub uninterp spec fn ed25519_signature_of(seed: Seq<u8>, msg: Seq<u8>) -> Seq<u8>;

/// The Ed25519 public key derived from a 32-byte seed.
pub uninterp spec fn ed25519_public_key_of(seed: Seq<u8>) -> Seq<u8>;

/// Whether an Ed25519 signature checks out under a public key and message.
pub uninterp spec fn ed25519_verifies(pk: Seq<u8>, msg: Seq<u8>, sig: Seq<u8>) -> bool;

/// Relies on `ed25519_dalek::SigningKey`: key derivation and signing are
/// deterministic in the seed and message, the signature is 64 bytes, and it
/// verifies under the pair's public key.
#[verifier::external_body]
fn ed25519_sign(seed: &[u8], msg: &[u8]) -> (r: Vec<u8>)
    requires
        seed@.len() == 32,
    ensures
        r@ == ed25519_signature_of(seed@, msg@),
        r@.len() == 64,
        ed25519_verifies(ed25519_public_key_of(seed@), msg@, r@),
{
    let seed_bytes: [u8; 32] = match seed.try_into() {
        Ok(b) => b,
        Err(_) => return Vec::new(),
    };
    let signing_key = ed25519_dalek::SigningKey::from_bytes(&seed_bytes);
    signing_key.sign(msg).to_bytes().to_vec()
}

/// Relies on `ed25519_dalek::SigningKey::verifying_key`: the public key is a
/// function of the seed alone, 32 bytes.
#[verifier::external_body]
fn ed25519_public_key(seed: &[u8]) -> (r: Vec<u8>)
    requires
        seed@.len() == 32,
    ensures
        r@ == ed25519_public_key_of(seed@),
        r@.len() == 32,
{
    let seed_bytes: [u8; 32] = match seed.try_into() {
        Ok(b) => b,
        Err(_) => return Vec::new(),
    };
    let signing_key = ed25519_dalek::SigningKey::from_bytes(&seed_bytes);
    signing_key.verifying_key().to_bytes().to_vec()
}

/// Relies on `ed25519_dalek::VerifyingKey::verify`: deterministic in the key,
/// message and signature bytes; key bytes that are no valid curve point, or
/// a signature that does not check, yield false.
#[verifier::external_body]
fn ed25519_verify(pk: &[u8], msg: &[u8], sig: &[u8]) -> (r: bool)
    requires
        pk@.len() == 32,
        sig@.len() == 64,
    ensures
        r == ed25519_verifies(pk@, msg@, sig@),
{
    let pk_bytes: [u8; 32] = match pk.try_into() {
        Ok(b) => b,
        Err(_) => return false,
    };
    let sig_bytes: [u8; 64] = match sig.try_into() {
        Ok(b) => b,
        Err(_) => return false,
    };
    let key = match ed25519_dalek::VerifyingKey::from_bytes(&pk_bytes) {
        Ok(k) => k,
        Err(_) => return false,
    };
    let signature = ed25519_dalek::Signature::from_bytes(&sig_bytes);
    key.verify(msg, &signature).is_ok()
}

/// A signature over an audit hash, with the public key that verifies it,
/// both hex-encoded.
pub struct SignatureBundle {
    /// Hex encoding of the 64-byte Ed25519 signature.
    pub signature: String,
    /// Hex encoding of the signer's 32-byte public key.
    pub public_key: String,
}

/// Signs the raw bytes of `record_hash` with the key pair derived from
/// `private_key_hex`, a hex-encoded 32-byte seed. Both inputs may carry a
/// `0x` prefix.
///
/// Succeeds exactly when both strings are hex and the seed comes to 32
/// bytes; anything else is `VaultError::KeyFormat`. The returned signature
/// verifies under the returned public key.
pub fn sign_audit(record_hash: &str, private_key_hex: &str) -> (r: Result<
    SignatureBundle,
    VaultError,
>)
    ensures
        r is Ok <==> (valid_hex_string(strip_hex_prefix(record_hash@)) && valid_hex_string(
            strip_hex_prefix(private_key_hex@),
        ) && strip_hex_prefix(private_key_hex@).len() == 64),
        r matches Ok(bundle) ==> ({
            let msg = hex_decoding_of(strip_hex_prefix(record_hash@));
            let seed = hex_decoding_of(strip_hex_prefix(private_key_hex@));
            &&& bundle.signature@ == hex_encoding_of(ed25519_signature_of(seed, msg))
            &&& bundle.public_key@ == hex_encoding_of(ed25519_public_key_of(seed))
            &&& ed25519_verifies(
                ed25519_public_key_of(seed),
                msg,
                ed25519_signature_of(seed, msg),
            )
        }),
        r matches Err(e) ==> e == VaultError::KeyFormat,
{
    let hash_bytes = match hex_decode(strip_0x(record_hash)) {
        Ok(b) => b,
        Err(_) => {
            return Err(VaultError::KeyFormat);
        },
    };
    let seed = match hex_decode(strip_0x(private_key_hex)) {
        Ok(b) => b,
        Err(_) => {
            return Err(VaultError::KeyFormat);
        },
    };
    if seed.len() != 32 {
        return Err(VaultError::KeyFormat);
    }
    let signature = ed25519_sign(seed.as_slice(), hash_bytes.as_slice());
    let public_key = ed25519_public_key(seed.as_slice());
    Ok(
        SignatureBundle {
            signature: hex_encode(signature.as_slice()),
            public_key: hex_encode(public_key.as_slice()),
        },
    )
}

/// Checks a hex-encoded signature over `record_hash` under a hex-encoded
/// public key. All three inputs may carry a `0x` prefix.
///
/// Succeeds exactly when all three strings are hex, the key comes to 32
/// bytes and the signature to 64; anything else is `VaultError::KeyFormat`.
/// The boolean is the verdict of Ed25519 verification on the decoded bytes.
pub fn verify_signature(public_key_hex: &str, record_hash: &str, signature_hex: &str) -> (r: Result<
    bool,
    VaultError,
>)
    ensures
        r is Ok <==> (valid_hex_string(strip_hex_prefix(public_key_hex@)) && valid_hex_string(
            strip_hex_prefix(record_hash@),
        ) && valid_hex_string(strip_hex_prefix(signature_hex@)) && strip_hex_prefix(
            public_key_hex@,
        ).len() == 64 && strip_hex_prefix(signature_hex@).len() == 128),
        r matches Ok(b) ==> b == ed25519_verifies(
            hex_decoding_of(strip_hex_prefix(public_key_hex@)),
            hex_decoding_of(strip_hex_prefix(record_hash@)),
            hex_decoding_of(strip_hex_prefix(signature_hex@)),
        ),
        r matches Err(e) ==> e == VaultError::KeyFormat,
{
    let pk = match hex_decode(strip_0x(public_key_hex)) {
        Ok(b) => b,
        Err(_) => {
            return Err(VaultError::KeyFormat);
        },
    };
    let msg = match hex_decode(strip_0x(record_hash)) {
        Ok(b) => b,
        Err(_) => {
            return Err(VaultError::KeyFormat);
        },
    };
    let sig = match hex_decode(strip_0x(signature_hex)) {
        Ok(b) => b,
        Err(_) => {
            return Err(VaultError::KeyFormat);
        },
    };
    if pk.len() != 32 || sig.len() != 64 {
        return Err(VaultError::KeyFormat);
    }
    Ok(ed25519_verify(pk.as_slice(), msg.as_slice(), sig.as_slice()))
}

} // verus!
