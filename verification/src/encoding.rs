//! Hexadecimal text for keys and receipts, computed by the `hex` crate.

use vstd::prelude::*;
use vstd::string::StringExecFns;
use vstd::utf8::encode_utf8;
use crate::crypto::PublicKey;

verus! {

/// The lowercase hexadecimal digit of `n` (`0 <= n < 16`).
pub open spec fn hex_char(n: int) -> char {
    if n < 10 {
        (48 + n) as char
    } else {
        (87 + n) as char
    }
}

/// Lowercase hexadecimal text of `bytes`, two digits per byte, high nibble first.
pub open spec fn hex_lower(bytes: Seq<u8>) -> Seq<char> {
    Seq::new(
        2 * bytes.len(),
        |k: int|
            if k % 2 == 0 {
                hex_char((bytes[k / 2] / 16) as int)
            } else {
                hex_char((bytes[k / 2] % 16) as int)
            },
    )
}

/// The value of a hexadecimal digit, either case.
pub open spec fn hex_value(c: u8) -> Option<int> {
    if 48 <= c <= 57 {
        Some(c - 48)
    } else if 97 <= c <= 102 {
        Some(c - 87)
    } else if 65 <= c <= 70 {
        Some(c - 55)
    } else {
        None
    }
}

/// Why hexadecimal text does not decode.
#[derive(PartialEq, Eq, Structural, Clone, Copy, Debug)]
pub enum HexError {
    /// The character at `index` is no hexadecimal digit.
    InvalidHexCharacter { c: char, index: usize },
    /// The text has an odd number of digits.
    OddLength,
    /// The text does not fit the container it is decoded into.
    InvalidStringLength,
}

/// The first position of `data` that holds no hexadecimal digit.
pub open spec fn first_non_digit(data: Seq<u8>) -> int {
    choose|i: int|
        0 <= i < data.len() && hex_value(data[i]) is None && forall|j: int|
            0 <= j < i ==> hex_value(#[trigger] data[j]) is Some
}

/// Decoding of hexadecimal text: two digits per byte, high nibble first;
/// an odd length is refused first, then the first non-digit.
pub open spec fn hex_decoding(data: Seq<u8>) -> Result<Seq<u8>, HexError> {
    if data.len() % 2 != 0 {
        Err(HexError::OddLength)
    } else if exists|i: int| 0 <= i < data.len() && hex_value(#[trigger] data[i]) is None {
        let i = first_non_digit(data);
        Err(HexError::InvalidHexCharacter { c: data[i] as char, index: i as usize })
    } else {
        Ok(
            Seq::new(
                data.len() / 2,
                |k: int| (hex_value(data[2 * k])->0 * 16 + hex_value(data[2 * k + 1])->0) as u8,
            ),
        )
    }
}

/// `hex::encode`: lowercase hexadecimal text of the bytes.
///
/// Claims the whole result: the crate writes the high then the low nibble of
/// each byte from the digits `0123456789abcdef`.
#[verifier::external_body]
fn hex_encode(data: &[u8]) -> (r: String)
    ensures
        r@ == hex_lower(data@),
{
    hex::encode(data)
}

/// `hex::decode`, its error converted variant by variant.
///
/// Claims the whole result: an odd length fails first; otherwise the pairs
/// are decoded in order and the first byte that is no digit (either case)
/// fails with its position.
#[verifier::external_body]
fn hex_decode(data: &[u8]) -> (r: Result<Vec<u8>, HexError>)
    ensures
        match r {
            Ok(v) => hex_decoding(data@) == Ok::<Seq<u8>, HexError>(v@),
            Err(e) => hex_decoding(data@) == Err::<Seq<u8>, HexError>(e),
        },
{
    match hex::decode(data) {
        Ok(v) => Ok(v),
        Err(hex::FromHexError::InvalidHexCharacter { c, index }) => Err(HexError::InvalidHexCharacter { c, index }),
        Err(hex::FromHexError::OddLength) => Err(HexError::OddLength),
        Err(hex::FromHexError::InvalidStringLength) => Err(HexError::InvalidStringLength),
    }
}

/// Lowercase hexadecimal text of bytes.
pub fn encode_hex(data: &[u8]) -> (r: String)
    ensures
        r@ == hex_lower(data@),
{
    hex_encode(data)
}

/// Decodes hexadecimal text given as bytes.
pub fn decode_hex(data: &[u8]) -> (r: Result<Vec<u8>, HexError>)
    ensures
        match r {
            Ok(v) => hex_decoding(data@) == Ok::<Seq<u8>, HexError>(v@),
            Err(e) => hex_decoding(data@) == Err::<Seq<u8>, HexError>(e),
        },
{
    hex_decode(data)
}

/// `"0x"` followed by the lowercase hexadecimal text of `bytes`.
pub open spec fn prefixed_hex(bytes: Seq<u8>) -> Seq<char> {
    seq!['0', 'x'] + hex_lower(bytes)
}

/// The text without a leading `"0x"`, when it has one.
pub open spec fn strip_hex_prefix(text: Seq<u8>) -> Seq<u8> {
    if text.len() >= 2 && text[0] == 48 && text[1] == 120 {
        text.subrange(2, text.len() as int)
    } else {
        text
    }
}

/// `"0x"` followed by the lowercase hexadecimal text of `bytes`.
pub fn prefixed_hex_of(bytes: &[u8]) -> (r: String)
    ensures
        r@ == prefixed_hex(bytes@),
{
    let mut r = String::from_str("0x");
    proof {
        reveal_strlit("0x");
    }
    let digits = hex_encode(bytes);
    r.append(digits.as_str());
    assert(r@ =~= prefixed_hex(bytes@));
    r
}

/// Converts a key to `"0x"` followed by the hexadecimal text of its
/// compressed SEC1 encoding: 68 characters, starting `"0x02"` or `"0x03"`.
pub fn to_hex_with_prefix(key: &PublicKey) -> (r: String)
    ensures
        r@ == prefixed_hex(key@),
        r@.len() == 68,
        r@[0] == '0' && r@[1] == 'x' && r@[2] == '0',
        r@[3] == '2' || r@[3] == '3',
{
    let bytes = key.as_bytes();
    let r = prefixed_hex_of(bytes);
    proof {
        let h = hex_lower(bytes@);
        assert(r@[2] == h[0] && r@[3] == h[1]);
        assert(bytes@[0] / 16 == 0);
        assert(hex_char(0) == '0');
        assert(hex_char(2) == '2');
        assert(hex_char(3) == '3');
    }
    r
}

/// Decodes hexadecimal text, after removing a leading `"0x"` if there is one.
pub fn from_hex_with_prefix(hex_str: &str) -> (r: Result<Vec<u8>, HexError>)
    ensures
        match r {
            Ok(v) => hex_decoding(strip_hex_prefix(encode_utf8(hex_str@))) == Ok::<Seq<u8>, HexError>(v@),
            Err(e) => hex_decoding(strip_hex_prefix(encode_utf8(hex_str@))) == Err::<Seq<u8>, HexError>(e),
        },
{
    let bytes = hex_str.as_bytes();
    if bytes.len() >= 2 && bytes[0] == 48 && bytes[1] == 120 {
        hex_decode(vstd::slice::slice_subrange(bytes, 2, bytes.len()))
    } else {
        hex_decode(bytes)
    }
}

/// Each digit reads back as its value.
proof fn lemma_hex_char_value(n: int)
    requires
        0 <= n < 16,
    ensures
        '\0' <= hex_char(n) <= '\u{7f}',
        hex_value(hex_char(n) as u8) == Some(n),
{
}

/// The hexadecimal text of bytes is ASCII, one byte per character.
pub proof fn lemma_hex_is_ascii(bytes: Seq<u8>)
    ensures
        vstd::utf8::is_ascii_chars(prefixed_hex(bytes)),
        vstd::utf8::is_ascii_chars(hex_lower(bytes)),
{
    let h = hex_lower(bytes);
    assert forall|i: int| 0 <= i < h.len() implies '\0' <= #[trigger] h[i] <= '\u{7f}' by {
        lemma_hex_char_value((bytes[i / 2] / 16) as int);
        lemma_hex_char_value((bytes[i / 2] % 16) as int);
    }
    let p = prefixed_hex(bytes);
    assert forall|i: int| 0 <= i < p.len() implies '\0' <= #[trigger] p[i] <= '\u{7f}' by {
        if i >= 2 {
            assert(p[i] == h[i - 2]);
        }
    }
}

/// Decoding the hexadecimal text of bytes gives the bytes back.
pub proof fn lemma_hex_roundtrip(bytes: Seq<u8>)
    ensures
        hex_decoding(encode_utf8(hex_lower(bytes))) == Ok::<Seq<u8>, HexError>(bytes),
{
    let h = hex_lower(bytes);
    lemma_hex_is_ascii(bytes);
    vstd::utf8::is_ascii_chars_encode_utf8(h);
    let e = encode_utf8(h);
    assert forall|i: int| 0 <= i < e.len() implies hex_value(#[trigger] e[i]) == Some(
        if i % 2 == 0 { (bytes[i / 2] / 16) as int } else { (bytes[i / 2] % 16) as int },
    ) by {
        assert(e[i] == h[i] as u8);
        lemma_hex_char_value((bytes[i / 2] / 16) as int);
        lemma_hex_char_value((bytes[i / 2] % 16) as int);
    }
    assert(!exists|i: int| 0 <= i < e.len() && hex_value(#[trigger] e[i]) is None);
    assert(e.len() % 2 == 0);
    let d = Seq::new(
        e.len() / 2,
        |k: int| (hex_value(e[2 * k])->0 * 16 + hex_value(e[2 * k + 1])->0) as u8,
    );
    assert forall|k: int| 0 <= k < bytes.len() implies d[k] == bytes[k] by {
        assert(hex_value(e[2 * k]) == Some((bytes[k] / 16) as int));
        assert(hex_value(e[2 * k + 1]) == Some((bytes[k] % 16) as int));
    }
    assert(d =~= bytes);
}

/// Decoding the `"0x"`-prefixed hexadecimal text of bytes gives the bytes back.
pub proof fn lemma_prefixed_hex_roundtrip(bytes: Seq<u8>)
    ensures
        hex_decoding(strip_hex_prefix(encode_utf8(prefixed_hex(bytes)))) == Ok::<Seq<u8>, HexError>(bytes),
{
    let p = prefixed_hex(bytes);
    let h = hex_lower(bytes);
    lemma_hex_is_ascii(bytes);
    vstd::utf8::is_ascii_chars_encode_utf8(p);
    vstd::utf8::is_ascii_chars_encode_utf8(h);
    let ep = encode_utf8(p);
    assert(ep[0] == p[0] as u8);
    assert(ep[1] == p[1] as u8);
    assert(ep.subrange(2, ep.len() as int) =~= encode_utf8(h)) by {
        assert forall|i: int| 0 <= i < h.len() implies ep.subrange(2, ep.len() as int)[i] == encode_utf8(h)[i] by {
            assert(ep[i + 2] == p[i + 2] as u8);
            assert(p[i + 2] == h[i]);
        }
    }
    lemma_hex_roundtrip(bytes);
}

} // verus!
