use sha2::{Digest, Sha256};

use lazarus_vault::audit::{canonical_audit_json, hash_audit};
use lazarus_vault::checksum::compute_checksum;

#[test]
fn test_checksum() {
    let data = b"test data";
    let checksum = compute_checksum(data);
    assert_eq!(checksum.len(), 64); // SHA-256 produces 64 hex characters
}

#[test]
fn checksum_known_vector() {
    assert_eq!(
        compute_checksum(b"abc"),
        "ba7816bf8f01cfea414140de5dae2223b00361a396177a9cb410ff61f20015ad"
    );
}

#[test]
fn checksum_is_deterministic() {
    let data = b"the same bytes twice over";
    assert_eq!(compute_checksum(data), compute_checksum(data));
    assert_ne!(compute_checksum(b"one input"), compute_checksum(b"another"));
}

#[test]
fn canonical_json_fixed_field_order() {
    let json = canonical_audit_json(
        "allow",
        "what is the weather",
        42,
        "b, a",
        "permit",
        "benign",
        "2024-01-02T03:04:05Z",
    );
    assert_eq!(
        json,
        "{\"action\":\"allow\",\"prompt\":\"what is the weather\",\"score\":42,\
         \"tags\":[\"a\",\"b\"],\"decision\":\"permit\",\"reason\":\"benign\",\
         \"timestamp\":\"2024-01-02T03:04:05Z\"}"
    );
}

#[test]
fn canonical_json_escapes_strings() {
    let json = canonical_audit_json("a\"b\\c\nd\te\u{1}f", "p", 0, "", "d", "r", "t");
    assert_eq!(
        json,
        "{\"action\":\"a\\\"b\\\\c\\nd\\te\\u0001f\",\"prompt\":\"p\",\"score\":0,\
         \"tags\":[],\"decision\":\"d\",\"reason\":\"r\",\"timestamp\":\"t\"}"
    );
}

#[test]
fn canonical_json_trims_unicode_whitespace() {
    let json = canonical_audit_json("a", "p", 1, "\u{00A0}b ,\t a\u{3000}", "d", "r", "t");
    assert_eq!(
        json,
        "{\"action\":\"a\",\"prompt\":\"p\",\"score\":1,\"tags\":[\"a\",\"b\"],\
         \"decision\":\"d\",\"reason\":\"r\",\"timestamp\":\"t\"}"
    );
}

#[test]
fn hash_audit_matches_digest_of_canonical_json() {
    let json = canonical_audit_json("act", "pr", 200, "x,y", "dec", "re", "ts");
    let expected = format!("0x{}", hex::encode(Sha256::digest(json.as_bytes())));
    assert_eq!(hash_audit("act", "pr", 200, "x,y", "dec", "re", "ts"), expected);
}

#[test]
fn hash_audit_shape() {
    let hash = hash_audit("a", "p", 0, "", "d", "r", "t");
    assert_eq!(hash.len(), 66);
    assert!(hash.starts_with("0x"));
    assert!(hash[2..].chars().all(|c| c.is_ascii_hexdigit()));
}

#[test]
fn hash_audit_tag_order_independent() {
    let one = hash_audit("a", "p", 9, "b,a", "d", "r", "t");
    let two = hash_audit("a", "p", 9, "a, b", "d", "r", "t");
    assert_eq!(one, two);
}

#[test]
fn hash_audit_ignores_blank_and_repeated_tags() {
    let one = hash_audit("a", "p", 9, ",a, b,,a,", "d", "r", "t");
    let two = hash_audit("a", "p", 9, "a,b", "d", "r", "t");
    assert_eq!(one, two);
}

#[test]
fn hash_audit_sensitive_to_score() {
    let one = hash_audit("a", "p", 1, "t", "d", "r", "ts");
    let two = hash_audit("a", "p", 2, "t", "d", "r", "ts");
    assert_ne!(one, two);
}

#[test]
fn hash_audit_sensitive_to_other_fields() {
    let base = hash_audit("a", "p", 1, "t", "d", "r", "ts");
    assert_ne!(base, hash_audit("b", "p", 1, "t", "d", "r", "ts"));
    assert_ne!(base, hash_audit("a", "q", 1, "t", "d", "r", "ts"));
    assert_ne!(base, hash_audit("a", "p", 1, "u", "d", "r", "ts"));
    assert_ne!(base, hash_audit("a", "p", 1, "t", "e", "r", "ts"));
    assert_ne!(base, hash_audit("a", "p", 1, "t", "d", "s", "ts"));
    assert_ne!(base, hash_audit("a", "p", 1, "t", "d", "r", "tt"));
}

#[test]
fn canonical_json_orders_tags_by_code_point() {
    let json = canonical_audit_json("a", "p", 3, "\u{e9},e,z", "d", "r", "t");
    assert_eq!(
        json,
        "{\"action\":\"a\",\"prompt\":\"p\",\"score\":3,\"tags\":[\"e\",\"z\",\"\u{e9}\"],\
         \"decision\":\"d\",\"reason\":\"r\",\"timestamp\":\"t\"}"
    );
}
