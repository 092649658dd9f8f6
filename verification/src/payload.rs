//! Byte payloads exchanged with the worker threads and written to save files.
//!
//! Binary data travels as lowercase hexadecimal text (through `array-bytes`),
//! and chunk-key requests travel in bincode's fixed-width little-endian
//! layout (through `bincode`).

use vstd::prelude::*;

verus! {

/// The error type of `array-bytes`.
#[verifier::external_type_specification]
#[verifier::external_body]
pub struct ExHexError(array_bytes::Error);

/// The error kind of `bincode`.
#[verifier::external_type_specification]
#[verifier::external_body]
pub struct ExBincodeErrorKind(bincode::ErrorKind);

/// The lowercase hexadecimal digit of a nibble.
pub open spec fn hex_digit(n: int) -> char {
    if n < 10 { (48 + n) as char } else { (87 + n) as char }
}

/// Lowercase hexadecimal text of a byte sequence: two digits per byte, the
/// high nibble first.
pub open spec fn hex_lower(b: Seq<u8>) -> Seq<char> {
    Seq::new(2 * b.len(), |i: int| if i % 2 == 0 { hex_digit(b[i / 2] as int / 16) } else { hex_digit(b[i / 2] as int % 16) })
}

/// Whether a character reads as a hexadecimal digit: `0`-`9`, `a`-`f`,
/// `A`-`F`, and the control characters U+0010 to U+0019, which the decoder
/// folds onto `0`-`9` (it sets bit 5 of each byte before it looks at it).
pub open spec fn is_hex_char(c: char) -> bool {
    ('0' <= c <= '9') || ('a' <= c <= 'f') || ('A' <= c <= 'F') || ('\u{10}' <= c <= '\u{19}')
}

/// The value of a character that reads as a hexadecimal digit.
pub open spec fn hex_value(c: char) -> int {
    if '0' <= c <= '9' {
        c as int - 48
    } else if 'a' <= c <= 'f' {
        c as int - 87
    } else if 'A' <= c <= 'F' {
        c as int - 55
    } else {
        c as int - 16
    }
}

/// The text without a leading `0x`, if it has one.
pub open spec fn strip_0x(s: Seq<char>) -> Seq<char> {
    if s.len() >= 2 && s[0] == '0' && s[1] == 'x' {
        s.subrange(2, s.len() as int)
    } else {
        s
    }
}

/// Whether hexadecimal text decodes: after an optional `0x`, an even number
/// of characters that read as hexadecimal digits.
pub open spec fn hex_decodable(s: Seq<char>) -> bool {
    let t = strip_0x(s);
    t.len() % 2 == 0 && forall|i: int| 0 <= i < t.len() ==> is_hex_char(#[trigger] t[i])
}

/// The bytes that decodable hexadecimal text stands for.
pub open spec fn hex_decode(s: Seq<char>) -> Seq<u8> {
    let t = strip_0x(s);
    Seq::new(t.len() / 2, |i: int| (hex_value(t[2 * i]) * 16 + hex_value(t[2 * i + 1])) as u8)
}

/// `array_bytes::bytes2hex`: `prefix` followed by the lowercase hexadecimal
/// text of the bytes, two digits per byte, high nibble first.
#[verifier::external_body]
fn bytes_to_hex(prefix: &str, bytes: &Vec<u8>) -> (s: String)
    ensures
        s@ == prefix@ + hex_lower(bytes@),
{
    array_bytes::bytes2hex(prefix, bytes)
}

/// `array_bytes::hex2bytes` on the UTF-8 bytes of `hex`: it strips one
/// leading `0x`, fails on an odd length or on any byte that does not read
/// as a hexadecimal digit (a character outside ASCII always fails), and
/// otherwise returns one byte per two digits, the first digit the high
/// nibble.  Which error it returns is not stated.
#[verifier::external_body]
fn hex_to_bytes(hex: &str) -> (r: Result<Vec<u8>, array_bytes::Error>)
    ensures
        r is Ok <==> hex_decodable(hex@),
        r matches Ok(v) ==> v@ == hex_decode(hex@),
{
    array_bytes::hex2bytes(hex)
}

/// The text form of a binary payload (lowercase hexadecimal).
pub fn encode_payload(bytes: &Vec<u8>) -> (s: String)
    ensures
        s@ == hex_lower(bytes@),
{
    let s = bytes_to_hex("", bytes);
    proof {
        reveal_strlit("");
        assert(s@ =~= hex_lower(bytes@));
    }
    s
}

/// The bytes of a payload in text form, or `None` where the text does not
/// decode (see `hex_decodable`).
pub fn decode_payload(text: &str) -> (r: Option<Vec<u8>>)
    ensures
        r is Some <==> hex_decodable(text@),
        r matches Some(v) ==> v@ == hex_decode(text@),
{
    match hex_to_bytes(text) {
        Ok(v) => Some(v),
        Err(_) => None,
    }
}

proof fn lemma_hex_digit(n: int)
    requires
        0 <= n < 16,
    ensures
        is_hex_char(hex_digit(n)),
        hex_value(hex_digit(n)) == n,
        hex_digit(n) != 'x',
{
}

/// Decoding the text form of a payload gives the payload back.
pub proof fn lemma_payload_round_trip(b: Seq<u8>)
    ensures
        hex_decodable(hex_lower(b)),
        hex_decode(hex_lower(b)) == b,
{
    let h = hex_lower(b);
    if h.len() >= 2 {
        lemma_hex_digit(b[0] as int % 16);
        assert(h[1] == hex_digit(b[0] as int % 16));
    }
    assert(strip_0x(h) == h);
    assert forall|i: int| 0 <= i < h.len() implies is_hex_char(#[trigger] h[i]) by {
        lemma_hex_digit(b[i / 2] as int / 16);
        lemma_hex_digit(b[i / 2] as int % 16);
    }
    assert forall|i: int| 0 <= i < b.len() implies #[trigger] hex_decode(h)[i] == b[i] by {
        assert((2 * i) % 2 == 0 && (2 * i) / 2 == i);
        assert((2 * i + 1) % 2 == 1 && (2 * i + 1) / 2 == i);
        lemma_hex_digit(b[i] as int / 16);
        lemma_hex_digit(b[i] as int % 16);
        assert(b[i] as int / 16 * 16 + b[i] as int % 16 == b[i] as int);
    }
    assert(hex_decode(h) =~= b);
}

} // verus!
