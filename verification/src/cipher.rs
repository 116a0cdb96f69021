//! Authenticated encryption of a byte payload.
//!
//! Encryption mints a fresh random 32-byte key and 12-byte nonce for every
//! call and seals the plaintext with AES-256-GCM, which appends a 16-byte
//! integrity tag. Decryption verifies the tag and the payload atomically:
//! it either returns the exact plaintext the ciphertext was made from or
//! fails, never partial output.

use vstd::prelude::*;

use aes_gcm::aead::Aead;
use aes_gcm::KeyInit;

use crate::VaultError;

verus! {

/// The AES-256-GCM ciphertext (tag appended) for a key, nonce and plaintext.
pub uninterp spec fn aead_enc(key: Seq<u8>, nonce: Seq<u8>, plaintext: Seq<u8>) -> Seq<u8>;

/// The result of AES-256-GCM decryption for a key, nonce and ciphertext:
/// the plaintext when the tag verifies, nothing otherwise.
pub uninterp spec fn aead_dec(key: Seq<u8>, nonce: Seq<u8>, ciphertext: Seq<u8>) -> Option<
    Seq<u8>,
>;

#[verifier::external_type_specification]
#[verifier::external_body]
pub struct ExAeadError(aes_gcm::Error);

/// Relies on `aes_gcm::Aes256Gcm`: `new_from_slice` accepts every 32-byte
/// key; `encrypt` succeeds on every plaintext up to 2^36 bytes, appends the
/// 16-byte tag to the ciphertext, is a function of key, nonce and plaintext
/// alone, and its output decrypts back to the plaintext under the same key
/// and nonce.
#[verifier::external_body]
fn aes256gcm_encrypt(key: &[u8], nonce: &[u8], plaintext: &[u8]) -> (r: Result<
    Vec<u8>,
    aes_gcm::Error,
>)
    requires
        key@.len() == 32,
        nonce@.len() == 12,
    ensures
        r is Ok <==> plaintext@.len() <= 0x10_0000_0000u64,
        r matches Ok(c) ==> {
            &&& c@ == aead_enc(key@, nonce@, plaintext@)
            &&& c@.len() == plaintext@.len() + 16
            &&& aead_dec(key@, nonce@, c@) == Some(plaintext@)
        },
{
    let cipher = match aes_gcm::Aes256Gcm::new_from_slice(key) {
        Ok(c) => c,
        Err(_) => return Err(aes_gcm::Error),
    };
    cipher.encrypt(aes_gcm::Nonce::from_slice(nonce), plaintext)
}

/// Relies on `aes_gcm::Aes256Gcm`: `decrypt` is deterministic in key, nonce
/// and ciphertext; it returns a plaintext exactly when the integrity tag
/// verifies, and fails otherwise.
#[verifier::external_body]
fn aes256gcm_decrypt(key: &[u8], nonce: &[u8], ciphertext: &[u8]) -> (r: Result<
    Vec<u8>,
    aes_gcm::Error,
>)
    requires
        key@.len() == 32,
        nonce@.len() == 12,
    ensures
        r matches Ok(p) ==> aead_dec(key@, nonce@, ciphertext@) == Some(p@),
        r is Err ==> aead_dec(key@, nonce@, ciphertext@) is None,
{
    let cipher = match aes_gcm::Aes256Gcm::new_from_slice(key) {
        Ok(c) => c,
        Err(_) => return Err(aes_gcm::Error),
    };
    cipher.decrypt(aes_gcm::Nonce::from_slice(nonce), ciphertext)
}

/// Relies on `rand::rngs::OsRng`: `fill_bytes` fills the buffer in place from
/// the operating system's secure random source. Nothing is promised of the
/// values themselves.
#[verifier::external_body]
fn fill_random(buf: &mut Vec<u8>)
    ensures
        final(buf)@.len() == old(buf)@.len(),
{
    rand::RngCore::fill_bytes(&mut rand::rngs::OsRng, buf.as_mut_slice());
}

/// Encrypts `plaintext` under a fresh random key and nonce.
///
/// Returns the ciphertext (16 bytes longer than the plaintext, never equal to
/// it), the 32-byte key and the 12-byte nonce. Fails only when the plaintext
/// exceeds what one AES-GCM message may carry, 2^36 bytes.
pub fn encrypt_data(plaintext: &[u8]) -> (r: Result<(Vec<u8>, Vec<u8>, Vec<u8>), VaultError>)
    ensures
        r is Ok <==> plaintext@.len() <= 0x10_0000_0000u64,
        r matches Ok(t) ==> {
            &&& t.1@.len() == 32
            &&& t.2@.len() == 12
            &&& t.0@ == aead_enc(t.1@, t.2@, plaintext@)
            &&& t.0@.len() == plaintext@.len() + 16
            &&& t.0@ != plaintext@
            &&& aead_dec(t.1@, t.2@, t.0@) == Some(plaintext@)
        },
        r matches Err(e) ==> e == VaultError::Encryption,
{
    let mut key: Vec<u8> = vec![0u8; 32];
    let mut nonce: Vec<u8> = vec![0u8; 12];
    fill_random(&mut key);
    fill_random(&mut nonce);
    match aes256gcm_encrypt(key.as_slice(), nonce.as_slice(), plaintext) {
        Ok(ciphertext) => {
            assert(ciphertext@.len() != plaintext@.len());
            Ok((ciphertext, key, nonce))
        },
        Err(_) => Err(VaultError::Encryption),
    }
}

/// Decrypts `ciphertext` under the given key and nonce.
///
/// Succeeds exactly when the integrity tag verifies, returning the plaintext
/// the ciphertext was sealed from; a tampered ciphertext, a wrong key or a
/// wrong nonce yields `VaultError::Decryption` and no output at all.
pub fn decrypt_data(ciphertext: &[u8], key: &Vec<u8>, nonce: &Vec<u8>) -> (r: Result<
    Vec<u8>,
    VaultError,
>)
    requires
        key@.len() == 32,
        nonce@.len() == 12,
    ensures
        r is Ok <==> aead_dec(key@, nonce@, ciphertext@) is Some,
        r matches Ok(p) ==> aead_dec(key@, nonce@, ciphertext@) == Some(p@),
        r matches Err(e) ==> e == VaultError::Decryption,
{
    match aes256gcm_decrypt(key.as_slice(), nonce.as_slice(), ciphertext) {
        Ok(plaintext) => Ok(plaintext),
        Err(_) => Err(VaultError::Decryption),
    }
}

} // verus!
