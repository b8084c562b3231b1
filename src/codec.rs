//! Hex text and SHA-256 digests, from the `hex` crate and the NEAR SDK.
use vstd::prelude::*;
use vstd::string::StringSliceAdditionalSpecFns;
use vstd::utf8::encode_utf8;

verus! {

/// The lowercase hex digit of `d < 16`.
pub open spec fn hex_digit(d: int) -> char {
    seq!['0', '1', '2', '3', '4', '5', '6', '7', '8', '9', 'a', 'b', 'c', 'd', 'e', 'f'][d]
}

/// Two lowercase hex digits for each byte, high nibble first.
pub open spec fn hex_of(b: Seq<u8>) -> Seq<char>
    decreases b.len(),
{
    if b.len() == 0 {
        Seq::empty()
    } else {
        hex_of(b.drop_last()) + seq![hex_digit(b.last() as int / 16), hex_digit(b.last() as int % 16)]
    }
}

/// The value of an ASCII hex digit of either case.
pub open spec fn hex_value(c: u8) -> Option<u8> {
    if 0x30 <= c <= 0x39 {
        Some((c - 0x30) as u8)
    } else if 0x41 <= c <= 0x46 {
        Some((c - 0x41 + 10) as u8)
    } else if 0x61 <= c <= 0x66 {
        Some((c - 0x61 + 10) as u8)
    } else {
        None
    }
}

/// The bytes that hex text `s` spells, two digits each, or `None` where its
/// length is odd or it holds a byte that is no hex digit.
pub open spec fn hex_decoded(s: Seq<u8>) -> Option<Seq<u8>>
    decreases s.len(),
{
    if s.len() % 2 != 0 {
        None
    } else if s.len() == 0 {
        Some(Seq::empty())
    } else {
        match (hex_decoded(s.subrange(0, s.len() - 2)), hex_value(s[s.len() - 2]), hex_value(
            s[s.len() - 1],
        )) {
            (Some(prefix), Some(hi), Some(lo)) => Some(prefix.push((hi * 16 + lo) as u8)),
            _ => None,
        }
    }
}

/// The SHA-256 digest of `b`.
pub uninterp spec fn sha256_of(b: Seq<u8>) -> Seq<u8>;

/// Relies on `hex::encode`: two lowercase digits per byte, in order.
#[verifier::external_body]
pub(crate) fn hex_encode(b: &Vec<u8>) -> (r: String)
    ensures
        r@ == hex_of(b@),
{
    hex::encode(b)
}

/// Relies on `hex::decode`: digits of either case, two per byte; an odd
/// length or another byte is an error.
#[verifier::external_body]
pub(crate) fn hex_decode(s: &str) -> (r: Option<Vec<u8>>)
    ensures
        match hex_decoded(s.spec_bytes()) {
            Some(v) => r matches Some(w) && w@ == v,
            None => r is None,
        },
{
    hex::decode(s).ok()
}

/// Relies on `near_sdk::env::sha256`: the 32-byte SHA-256 digest of its input.
#[verifier::external_body]
pub(crate) fn sha256(b: &Vec<u8>) -> (r: Vec<u8>)
    ensures
        r@ == sha256_of(b@),
        r@.len() == 32,
{
    near_sdk::env::sha256(b)
}

/// A 32-byte digest written as hex text, in lowercase; `None` for text that
/// is not the hex of exactly 32 bytes.
pub fn normalize_digest_hex(s: &String) -> (r: Option<String>)
    ensures
        match hex_decoded(encode_utf8(s@)) {
            Some(b) => if b.len() == 32 {
                r matches Some(t) && t@ == hex_of(b)
            } else {
                r is None
            },
            None => r is None,
        },
{
    match hex_decode(s.as_str()) {
        Some(bytes) => {
            if bytes.len() == 32 {
                Some(hex_encode(&bytes))
            } else {
                None
            }
        },
        None => None,
    }
}

} // verus!
