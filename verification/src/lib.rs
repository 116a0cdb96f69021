//! Zero-knowledge client-side encryption for blob storage, with a
//! deterministic hashing and signing scheme for audit records.
//!
//! The crate covers the envelope protocol: plaintext is sealed under a fresh
//! random key and nonce with an authenticated cipher, the key material is
//! encoded as a single hex string held out of band, and audit records are
//! canonicalized into a stable byte form whose digest can be signed and
//! independently verified.

use vstd::prelude::*;

pub mod audit;
pub mod audit_laws;
pub mod checksum;
pub mod cipher;
pub mod envelope;
pub mod hex_codec;
pub mod key_material;
pub mod signer;
pub mod walrus;

verus! {

/// The failures the library reports, one variant per condition the
/// contracts name.
#[derive(Clone, Copy, Debug, PartialEq, Eq, Structural)]
pub enum VaultError {
    /// Key material is not valid hex or has the wrong length.
    KeyFormat,
    /// The authenticated encryption itself failed.
    Encryption,
    /// Authenticated decryption failed: the integrity tag did not verify.
    Decryption,
    /// The plaintext handed in was empty.
    EmptyInput,
}

impl VaultError {
    /// A human-readable description of the failure.
    pub fn message(&self) -> &'static str {
        match self {
            VaultError::KeyFormat => "key material must be valid hex of the documented length",
            VaultError::Encryption => "encryption failed",
            VaultError::Decryption => "decryption failed: integrity tag did not verify",
            VaultError::EmptyInput => "input is empty",
        }
    }
}

} // verus!
