//! Hexadecimal encoding and decoding of byte strings.
//!
//! The spec functions here pin down the encoding exactly: every byte becomes
//! two digits, high nibble first, lowercase on the way out, either case
//! accepted on the way in. The executable entry points call the `hex` crate
//! through trusted wrappers whose contracts state the same functions.

use vstd::prelude::*;
use vstd::string::StrSliceExecFns;

verus! {

/// The character standing for a nibble value, lowercase.
pub open spec fn hex_char_of(v: u8) -> char
    recommends
        v < 16,
{
    if v == 0 {
        '0'
    } else if v == 1 {
        '1'
    } else if v == 2 {
        '2'
    } else if v == 3 {
        '3'
    } else if v == 4 {
        '4'
    } else if v == 5 {
        '5'
    } else if v == 6 {
        '6'
    } else if v == 7 {
        '7'
    } else if v == 8 {
        '8'
    } else if v == 9 {
        '9'
    } else if v == 10 {
        'a'
    } else if v == 11 {
        'b'
    } else if v == 12 {
        'c'
    } else if v == 13 {
        'd'
    } else if v == 14 {
        'e'
    } else {
        'f'
    }
}

/// A digit of either case.
pub open spec fn is_hex_digit(c: char) -> bool {
    (0x30 <= c as u32 && c as u32 <= 0x39) || (0x61 <= c as u32 && c as u32 <= 0x66) || (0x41
        <= c as u32 && c as u32 <= 0x46)
}

/// The nibble value of a digit of either case.
pub open spec fn hex_digit_value(c: char) -> u8
    recommends
        is_hex_digit(c),
{
    if 0x30 <= c as u32 && c as u32 <= 0x39 {
        (c as u32 - 0x30) as u8
    } else if 0x61 <= c as u32 && c as u32 <= 0x66 {
        (c as u32 - 0x61 + 10) as u8
    } else {
        (c as u32 - 0x41 + 10) as u8
    }
}

/// The hex encoding of a byte string: two lowercase digits per byte, high
/// nibble first.
pub open spec fn hex_encoding_of(bytes: Seq<u8>) -> Seq<char> {
    Seq::new(
        bytes.len() * 2,
        |i: int|
            if i % 2 == 0 {
                hex_char_of(bytes[i / 2] / 16)
            } else {
                hex_char_of(bytes[i / 2] % 16)
            },
    )
}

/// A string that decodes: even length, digits throughout.
pub open spec fn valid_hex_string(s: Seq<char>) -> bool {
    s.len() % 2 == 0 && forall|i: int| 0 <= i < s.len() ==> is_hex_digit(#[trigger] s[i])
}

/// The bytes a hex string stands for.
pub open spec fn hex_decoding_of(s: Seq<char>) -> Seq<u8>
    recommends
        valid_hex_string(s),
{
    Seq::new(
        (s.len() / 2) as nat,
        |i: int| (hex_digit_value(s[2 * i]) * 16 + hex_digit_value(s[2 * i + 1])) as u8,
    )
}

/// `s` without a single leading `0x`, if it has one.
pub open spec fn strip_hex_prefix(s: Seq<char>) -> Seq<char> {
    if s.len() >= 2 && s[0] == '0' && s[1] == 'x' {
        s.skip(2)
    } else {
        s
    }
}

/// Encoding a nibble yields a lowercase digit, and decoding that digit gives
/// the nibble back.
pub proof fn lemma_hex_char_of_value(v: u8)
    requires
        v < 16,
    ensures
        is_hex_digit(hex_char_of(v)),
        hex_digit_value(hex_char_of(v)) == v,
        hex_char_of(v) != 'x',
{
}

/// An encoded byte string is a valid hex string, and decoding it gives the
/// bytes back.
pub proof fn lemma_hex_round_trip(bytes: Seq<u8>)
    ensures
        valid_hex_string(hex_encoding_of(bytes)),
        hex_decoding_of(hex_encoding_of(bytes)) == bytes,
{
    let enc = hex_encoding_of(bytes);
    assert forall|i: int| 0 <= i < enc.len() implies is_hex_digit(#[trigger] enc[i]) by {
        if i % 2 == 0 {
            lemma_hex_char_of_value(bytes[i / 2] / 16);
        } else {
            lemma_hex_char_of_value(bytes[i / 2] % 16);
        }
    }
    let dec = hex_decoding_of(enc);
    assert forall|i: int| 0 <= i < bytes.len() implies dec[i] == bytes[i] by {
        lemma_hex_char_of_value(bytes[i] / 16);
        lemma_hex_char_of_value(bytes[i] % 16);
        assert(enc[2 * i] == hex_char_of(bytes[i] / 16));
        assert(enc[2 * i + 1] == hex_char_of(bytes[i] % 16));
        assert((bytes[i] / 16) * 16 + bytes[i] % 16 == bytes[i]) by (nonlinear_arith);
    }
    assert(dec =~= bytes);
}

/// An encoded byte string never begins with `0x`: its second character is a
/// digit, never `x`.
pub proof fn lemma_hex_encoding_keeps_prefix(bytes: Seq<u8>)
    ensures
        strip_hex_prefix(hex_encoding_of(bytes)) == hex_encoding_of(bytes),
{
    let enc = hex_encoding_of(bytes);
    if enc.len() >= 2 {
        lemma_hex_char_of_value(bytes[0] % 16);
    }
}

#[verifier::external_type_specification]
#[verifier::external_body]
pub struct ExFromHexError(hex::FromHexError);

/// Relies on `hex::encode`: each input byte becomes two lowercase hex digits,
/// high nibble first.
#[verifier::external_body]
pub(crate) fn hex_encode(bytes: &[u8]) -> (r: String)
    ensures
        r@ == hex_encoding_of(bytes@),
{
    hex::encode(bytes)
}

/// Relies on `hex::decode`: it succeeds exactly on even-length strings of hex
/// digits of either case, and returns the bytes the digit pairs stand for.
#[verifier::external_body]
pub(crate) fn hex_decode(s: &str) -> (r: Result<Vec<u8>, hex::FromHexError>)
    ensures
        r is Ok <==> valid_hex_string(s@),
        r matches Ok(bytes) ==> bytes@ == hex_decoding_of(s@),
{
    hex::decode(s)
}

/// `s` without its `0x` prefix, if it has one.
pub fn strip_0x(s: &str) -> (r: &str)
    ensures
        r@ == strip_hex_prefix(s@),
{
    let n = s.unicode_len();
    if n >= 2 && s.get_char(0) == '0' && s.get_char(1) == 'x' {
        s.substring_char(2, n)
    } else {
        s
    }
}

} // verus!
