//! Encoding of key material for transport out of band.
//!
//! A symmetric key of 32 bytes and a nonce of 12 bytes travel as one hex
//! string of 88 digits: the key bytes followed by the nonce bytes. Decoding
//! accepts an optional `0x` prefix and fails on anything that is not hex or
//! does not come to exactly 44 bytes.

use vstd::prelude::*;
use vstd::slice::{slice_subrange, slice_to_vec};

use crate::hex_codec::{
    hex_decode, hex_decoding_of, hex_encode, hex_encoding_of, lemma_hex_encoding_keeps_prefix,
    lemma_hex_round_trip, strip_0x, strip_hex_prefix, valid_hex_string,
};
use crate::VaultError;

verus! {

/// A key-material string in the accepted format: hex (an optional `0x`
/// prefix allowed) that decodes to exactly 44 bytes.
pub open spec fn key_material_format_ok(s: Seq<char>) -> bool {
    valid_hex_string(strip_hex_prefix(s)) && strip_hex_prefix(s).len() == 88
}

/// The 32-byte key a key-material string stands for.
pub open spec fn key_of(s: Seq<char>) -> Seq<u8> {
    hex_decoding_of(strip_hex_prefix(s)).subrange(0, 32)
}

/// The 12-byte nonce a key-material string stands for.
pub open spec fn nonce_of(s: Seq<char>) -> Seq<u8> {
    hex_decoding_of(strip_hex_prefix(s)).subrange(32, 44)
}

/// The encoded key material for `key` and `nonce`: 88 lowercase hex digits.
pub fn encode_decryption_key(key: &Vec<u8>, nonce: &Vec<u8>) -> (r: String)
    requires
        key@.len() == 32,
        nonce@.len() == 12,
    ensures
        r@ == hex_encoding_of(key@ + nonce@),
        r@.len() == 88,
{
    let mut combined: Vec<u8> = Vec::new();
    combined.extend_from_slice(key.as_slice());
    combined.extend_from_slice(nonce.as_slice());
    let encoded = hex_encode(combined.as_slice());
    encoded
}

/// The key and nonce a key-material string stands for.
///
/// Succeeds exactly on hex strings (an optional `0x` prefix allowed) that
/// decode to 44 bytes: the first 32 are the key, the last 12 the nonce.
pub fn decode_decryption_key(encoded: &str) -> (r: Result<(Vec<u8>, Vec<u8>), VaultError>)
    ensures
        r is Ok <==> key_material_format_ok(encoded@),
        r matches Ok(pair) ==> {
            &&& pair.0@ == key_of(encoded@)
            &&& pair.1@ == nonce_of(encoded@)
            &&& pair.0@.len() == 32
            &&& pair.1@.len() == 12
        },
        r matches Err(e) ==> e == VaultError::KeyFormat,
{
    let stripped = strip_0x(encoded);
    let raw = match hex_decode(stripped) {
        Ok(raw) => raw,
        Err(_) => {
            return Err(VaultError::KeyFormat);
        },
    };
    if raw.len() != 44 {
        return Err(VaultError::KeyFormat);
    }
    let key = slice_to_vec(slice_subrange(raw.as_slice(), 0, 32));
    let nonce = slice_to_vec(slice_subrange(raw.as_slice(), 32, 44));
    Ok((key, nonce))
}

/// Decoding inverts encoding: for every 32-byte key and 12-byte nonce, the
/// encoded string is valid key material and decodes to exactly that key and
/// that nonce.
pub proof fn lemma_key_material_round_trip(key: Seq<u8>, nonce: Seq<u8>)
    requires
        key.len() == 32,
        nonce.len() == 12,
    ensures
        ({
            let enc = hex_encoding_of(key + nonce);
            &&& strip_hex_prefix(enc) == enc
            &&& valid_hex_string(enc)
            &&& enc.len() == 88
            &&& hex_decoding_of(enc).subrange(0, 32) == key
            &&& hex_decoding_of(enc).subrange(32, 44) == nonce
        }),
{
    let enc = hex_encoding_of(key + nonce);
    lemma_hex_encoding_keeps_prefix(key + nonce);
    lemma_hex_round_trip(key + nonce);
    assert(hex_decoding_of(enc).subrange(0, 32) =~= key);
    assert(hex_decoding_of(enc).subrange(32, 44) =~= nonce);
}

} // verus!
