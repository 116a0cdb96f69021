use lazarus_vault::signer::{sign_audit, verify_signature};
use lazarus_vault::walrus::{BlobObject, WalrusBlob, WalrusResponse};
use lazarus_vault::VaultError;

fn sample_hash() -> String {
    format!("0x{}", "12".repeat(32))
}

fn sample_seed() -> String {
    "42".repeat(32)
}

#[test]
fn sign_audit_produces_verifiable_signature() {
    let hash = sample_hash();
    let bundle = sign_audit(&hash, &sample_seed()).unwrap();
    assert_eq!(bundle.signature.len(), 128);
    assert_eq!(bundle.public_key.len(), 64);

    let verdict = verify_signature(&bundle.public_key, &hash, &bundle.signature).unwrap();
    assert!(verdict);
}

#[test]
fn signing_is_deterministic() {
    let hash = sample_hash();
    let one = sign_audit(&hash, &sample_seed()).unwrap();
    let two = sign_audit(&hash, &sample_seed()).unwrap();
    assert_eq!(one.signature, two.signature);
    assert_eq!(one.public_key, two.public_key);
}

#[test]
fn verification_fails_for_other_hash() {
    let bundle = sign_audit(&sample_hash(), &sample_seed()).unwrap();
    let other_hash = format!("0x{}", "34".repeat(32));
    let verdict = verify_signature(&bundle.public_key, &other_hash, &bundle.signature).unwrap();
    assert!(!verdict);
}

#[test]
fn verification_fails_for_other_key() {
    let hash = sample_hash();
    let bundle = sign_audit(&hash, &sample_seed()).unwrap();
    let other = sign_audit(&hash, &"77".repeat(32)).unwrap();
    let verdict = verify_signature(&other.public_key, &hash, &bundle.signature).unwrap();
    assert!(!verdict);
}

#[test]
fn sign_audit_rejects_bad_seed() {
    // 31 bytes instead of 32.
    assert_eq!(
        sign_audit(&sample_hash(), &"42".repeat(31)).err(),
        Some(VaultError::KeyFormat)
    );
    assert_eq!(
        sign_audit(&sample_hash(), "not hex").err(),
        Some(VaultError::KeyFormat)
    );
    assert_eq!(
        sign_audit("xyz", &sample_seed()).err(),
        Some(VaultError::KeyFormat)
    );
}

#[test]
fn sign_audit_accepts_prefixed_seed() {
    let hash = sample_hash();
    let plain = sign_audit(&hash, &sample_seed()).unwrap();
    let prefixed = sign_audit(&hash, &format!("0x{}", sample_seed())).unwrap();
    assert_eq!(plain.signature, prefixed.signature);
}

#[test]
fn verify_signature_rejects_bad_lengths() {
    let bundle = sign_audit(&sample_hash(), &sample_seed()).unwrap();
    assert_eq!(
        verify_signature("ab", &sample_hash(), &bundle.signature),
        Err(VaultError::KeyFormat)
    );
    assert_eq!(
        verify_signature(&bundle.public_key, &sample_hash(), "abcd"),
        Err(VaultError::KeyFormat)
    );
}

#[test]
fn blob_id_prefers_newly_created() {
    let response = WalrusResponse {
        newly_created: Some(WalrusBlob {
            blob_object: BlobObject {
                blob_id: String::from("fresh"),
            },
        }),
        already_certified: Some(WalrusBlob {
            blob_object: BlobObject {
                blob_id: String::from("old"),
            },
        }),
    };
    assert_eq!(response.get_blob_id(), Some(String::from("fresh")));
}

#[test]
fn blob_id_falls_back_to_certified() {
    let response = WalrusResponse {
        newly_created: None,
        already_certified: Some(WalrusBlob {
            blob_object: BlobObject {
                blob_id: String::from("old"),
            },
        }),
    };
    assert_eq!(response.get_blob_id(), Some(String::from("old")));
}

#[test]
fn blob_id_missing() {
    let response = WalrusResponse {
        newly_created: None,
        already_certified: None,
    };
    assert_eq!(response.get_blob_id(), None);
}
