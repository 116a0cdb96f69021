//! The envelope: sealing a payload for storage and opening it again.
//!
//! `build_envelope` is the whole client-side compute of an upload: checksum
//! the plaintext, seal it under fresh key material, encode that material for
//! out-of-band transport, and report the sizes. `open_envelope` is the
//! compute of a download: decode the key material and decrypt. The transport
//! that moves the ciphertext is a collaborator outside this crate; it only
//! ever sees the sealed bytes.

use vstd::prelude::*;

use crate::checksum::{checksum_of, compute_checksum};
use crate::cipher::{aead_dec, aead_enc, decrypt_data, encrypt_data};
use crate::hex_codec::hex_encoding_of;
use crate::key_material::{
    decode_decryption_key, encode_decryption_key, key_material_format_ok, key_of, nonce_of,
};
use crate::VaultError;

verus! {

/// Everything an upload reports besides the blob identifier the storage
/// service assigns: the sealed bytes, the key material (raw and encoded),
/// the plaintext checksum and the two sizes.
pub struct Envelope {
    /// The sealed payload: ciphertext with the integrity tag appended.
    pub ciphertext: Vec<u8>,
    /// The fresh 32-byte key the payload was sealed under.
    pub key: Vec<u8>,
    /// The fresh 12-byte nonce the payload was sealed under.
    pub nonce: Vec<u8>,
    /// Key and nonce encoded as one hex string, the sole secret to keep.
    pub decryption_key: String,
    /// Hex-encoded SHA-256 checksum of the plaintext.
    pub checksum: String,
    /// Length of the plaintext in bytes.
    pub original_size: usize,
    /// Length of the sealed payload in bytes.
    pub encrypted_size: usize,
}

impl Envelope {
    /// The envelope is what sealing `plaintext` reports: the ciphertext is
    /// the seal of the plaintext under the envelope's own key material, the
    /// encoded key decodes back to that material, the checksum is the
    /// plaintext's, and the sizes add the 16-byte tag overhead.
    pub open spec fn seals(&self, plaintext: Seq<u8>) -> bool {
        &&& self.key@.len() == 32
        &&& self.nonce@.len() == 12
        &&& self.ciphertext@ == aead_enc(self.key@, self.nonce@, plaintext)
        &&& aead_dec(self.key@, self.nonce@, self.ciphertext@) == Some(plaintext)
        &&& self.decryption_key@ == hex_encoding_of(self.key@ + self.nonce@)
        &&& key_material_format_ok(self.decryption_key@)
        &&& key_of(self.decryption_key@) == self.key@
        &&& nonce_of(self.decryption_key@) == self.nonce@
        &&& self.checksum@ == checksum_of(plaintext)
        &&& self.checksum@.len() == 64
        &&& self.original_size == plaintext.len()
        &&& self.encrypted_size == plaintext.len() + 16
        &&& self.encrypted_size == self.ciphertext@.len()
    }
}

/// An envelope always opens to what it sealed: decoding its key material
/// recovers the key and nonce, and decrypting its ciphertext under them
/// yields exactly the plaintext. And sealing hides: the ciphertext is never
/// the plaintext itself, its 16-byte tag already sets the lengths apart.
pub proof fn lemma_envelope_round_trip(env: Envelope, plaintext: Seq<u8>)
    requires
        env.seals(plaintext),
    ensures
        key_material_format_ok(env.decryption_key@),
        aead_dec(key_of(env.decryption_key@), nonce_of(env.decryption_key@), env.ciphertext@)
            == Some(plaintext),
        env.ciphertext@ != plaintext,
{
    assert(env.ciphertext@.len() != plaintext.len());
}

/// Seals `plaintext` for storage: checksum, fresh key material, ciphertext,
/// encoded key and sizes, all in one envelope.
///
/// An empty plaintext is rejected as `VaultError::EmptyInput`; a plaintext
/// over 2^36 bytes exceeds one AES-GCM message and is rejected as
/// `VaultError::Encryption`.
pub fn build_envelope(plaintext: &[u8]) -> (r: Result<Envelope, VaultError>)
    ensures
        r is Ok <==> 0 < plaintext@.len() <= 0x10_0000_0000u64,
        r matches Ok(env) ==> env.seals(plaintext@),
        plaintext@.len() == 0 ==> r == Err::<Envelope, VaultError>(VaultError::EmptyInput),
        r matches Err(e) ==> e == VaultError::EmptyInput || e == VaultError::Encryption,
{
    if plaintext.len() == 0 {
        return Err(VaultError::EmptyInput);
    }
    let checksum = compute_checksum(plaintext);
    let (ciphertext, key, nonce) = match encrypt_data(plaintext) {
        Ok(t) => t,
        Err(e) => {
            return Err(e);
        },
    };
    let decryption_key = encode_decryption_key(&key, &nonce);
    proof {
        crate::key_material::lemma_key_material_round_trip(key@, nonce@);
    }
    let original_size = plaintext.len();
    let encrypted_size = ciphertext.len();
    Ok(
        Envelope {
            ciphertext,
            key,
            nonce,
            decryption_key,
            checksum,
            original_size,
            encrypted_size,
        },
    )
}

/// Opens a sealed payload: decodes the key material and decrypts under it.
///
/// Malformed key material is rejected as `VaultError::KeyFormat`; a
/// ciphertext whose integrity tag does not verify under the decoded key and
/// nonce is rejected as `VaultError::Decryption`. On success the returned
/// bytes are exactly the plaintext the ciphertext was sealed from.
pub fn open_envelope(ciphertext: &[u8], decryption_key: &str) -> (r: Result<Vec<u8>, VaultError>)
    ensures
        r is Ok <==> (key_material_format_ok(decryption_key@) && aead_dec(
            key_of(decryption_key@),
            nonce_of(decryption_key@),
            ciphertext@,
        ) is Some),
        r matches Ok(p) ==> aead_dec(
            key_of(decryption_key@),
            nonce_of(decryption_key@),
            ciphertext@,
        ) == Some(p@),
        !key_material_format_ok(decryption_key@) ==> r == Err::<Vec<u8>, VaultError>(
            VaultError::KeyFormat,
        ),
        r matches Err(e) ==> e == VaultError::KeyFormat || e == VaultError::Decryption,
{
    let (key, nonce) = match decode_decryption_key(decryption_key) {
        Ok(pair) => pair,
        Err(e) => {
            return Err(e);
        },
    };
    decrypt_data(ciphertext, &key, &nonce)
}

} // verus!
