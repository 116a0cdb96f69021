use aes_gcm::aead::Aead;
use aes_gcm::{Aes256Gcm, KeyInit, Nonce};

use lazarus_vault::cipher::{decrypt_data, encrypt_data};
use lazarus_vault::envelope::{build_envelope, open_envelope};
use lazarus_vault::key_material::{decode_decryption_key, encode_decryption_key};
use lazarus_vault::VaultError;

#[test]
fn test_encryption_decryption() {
    let plaintext = b"Hello, Sentinel Protocol!";
    let (ciphertext, key, nonce) = encrypt_data(plaintext).unwrap();

    // Verify ciphertext is different from plaintext
    assert_ne!(ciphertext.as_slice(), plaintext);

    // Decrypt and verify
    let cipher = Aes256Gcm::new_from_slice(&key).unwrap();
    let nonce_obj = Nonce::from_slice(&nonce);
    let decrypted = cipher.decrypt(nonce_obj, ciphertext.as_ref()).unwrap();

    assert_eq!(decrypted.as_slice(), plaintext);
}

#[test]
fn test_key_encoding() {
    let key = vec![0u8; 32];
    let nonce = vec![1u8; 12];
    let encoded = encode_decryption_key(&key, &nonce);

    // Should be 88 hex characters (44 bytes * 2)
    assert_eq!(encoded.len(), 88);
}

#[test]
fn test_key_decoding_roundtrip() {
    let key = vec![7u8; 32];
    let nonce = vec![9u8; 12];
    let encoded = encode_decryption_key(&key, &nonce);

    let (decoded_key, decoded_nonce) = decode_decryption_key(&encoded).unwrap();
    assert_eq!(decoded_key, key);
    assert_eq!(decoded_nonce, nonce);
}

#[test]
fn key_decoding_accepts_prefix() {
    let key = vec![0xabu8; 32];
    let nonce = vec![0xcdu8; 12];
    let encoded = encode_decryption_key(&key, &nonce);
    let prefixed = format!("0x{}", encoded);

    let (decoded_key, decoded_nonce) = decode_decryption_key(&prefixed).unwrap();
    assert_eq!(decoded_key, key);
    assert_eq!(decoded_nonce, nonce);
}

#[test]
fn key_decoding_rejects_wrong_length() {
    // 43 bytes instead of 44: 86 hex characters decode cleanly but must be
    // rejected, never silently truncated.
    let short = "ab".repeat(43);
    assert_eq!(short.len(), 86);
    assert_eq!(decode_decryption_key(&short), Err(VaultError::KeyFormat));

    // 45 bytes is just as wrong.
    let long = "ab".repeat(45);
    assert_eq!(decode_decryption_key(&long), Err(VaultError::KeyFormat));
}

#[test]
fn key_decoding_rejects_bad_hex() {
    assert_eq!(
        decode_decryption_key(&"zz".repeat(44)),
        Err(VaultError::KeyFormat)
    );
    // Odd length.
    assert_eq!(
        decode_decryption_key(&"a".repeat(87)),
        Err(VaultError::KeyFormat)
    );
}

#[test]
fn round_trip_through_encoded_key() {
    let plaintext = b"round trip through the full envelope";
    let (ciphertext, key, nonce) = encrypt_data(plaintext).unwrap();
    let encoded = encode_decryption_key(&key, &nonce);
    let (decoded_key, decoded_nonce) = decode_decryption_key(&encoded).unwrap();
    let decrypted = decrypt_data(&ciphertext, &decoded_key, &decoded_nonce).unwrap();
    assert_eq!(decrypted.as_slice(), plaintext);
}

#[test]
fn end_to_end_envelope() {
    // A 25-byte input: the envelope reports 25 + 16 bytes of ciphertext,
    // a 64-hex-digit checksum, and key material that opens it again.
    let plaintext = b"0123456789012345678901234";
    assert_eq!(plaintext.len(), 25);

    let env = build_envelope(plaintext).unwrap();
    assert_eq!(env.original_size, 25);
    assert_eq!(env.encrypted_size, 25 + 16);
    assert_eq!(env.ciphertext.len(), 41);
    assert_eq!(env.checksum.len(), 64);
    assert!(env.checksum.chars().all(|c| c.is_ascii_hexdigit()));
    assert_eq!(env.decryption_key.len(), 88);

    let reopened = open_envelope(&env.ciphertext, &env.decryption_key).unwrap();
    assert_eq!(reopened.as_slice(), plaintext);
}

#[test]
fn empty_input_is_rejected() {
    assert_eq!(build_envelope(b"").err(), Some(VaultError::EmptyInput));
}

#[test]
fn tampering_any_bit_fails_decryption() {
    let plaintext = b"tamper-evident payload";
    let env = build_envelope(plaintext).unwrap();

    for byte_index in 0..env.ciphertext.len() {
        for bit in 0..8 {
            let mut tampered = env.ciphertext.clone();
            tampered[byte_index] ^= 1u8 << bit;
            assert_eq!(
                open_envelope(&tampered, &env.decryption_key),
                Err(VaultError::Decryption),
                "flipping bit {} of byte {} must fail tag verification",
                bit,
                byte_index
            );
        }
    }
}

#[test]
fn wrong_key_fails_decryption() {
    let env = build_envelope(b"some payload").unwrap();
    let other = build_envelope(b"some payload").unwrap();
    assert_eq!(
        open_envelope(&env.ciphertext, &other.decryption_key),
        Err(VaultError::Decryption)
    );
}

#[test]
fn open_envelope_rejects_malformed_key() {
    let env = build_envelope(b"payload").unwrap();
    assert_eq!(
        open_envelope(&env.ciphertext, "not hex at all"),
        Err(VaultError::KeyFormat)
    );
}

#[test]
fn fresh_key_material_every_encryption() {
    let env1 = build_envelope(b"same plaintext").unwrap();
    let env2 = build_envelope(b"same plaintext").unwrap();
    assert_ne!(env1.decryption_key, env2.decryption_key);
}
