//! The calls into outside crates that the engine leans on, each behind a
//! small trusted wrapper whose contract states what the outside source
//! shows, together with the spec functions those contracts speak of.

use vstd::prelude::*;
use base64::Engine;
use crate::value::{hex_of, hex_bytes_of, is_hex_char, dec_int};

verus! {

/// The character of a six-bit group in the standard base64 alphabet.
pub open spec fn b64_char(d: int) -> char {
    seq![
        'A', 'B', 'C', 'D', 'E', 'F', 'G', 'H', 'I', 'J', 'K', 'L', 'M', 'N', 'O', 'P', 'Q', 'R',
        'S', 'T', 'U', 'V', 'W', 'X', 'Y', 'Z', 'a', 'b', 'c', 'd', 'e', 'f', 'g', 'h', 'i', 'j',
        'k', 'l', 'm', 'n', 'o', 'p', 'q', 'r', 's', 't', 'u', 'v', 'w', 'x', 'y', 'z', '0', '1',
        '2', '3', '4', '5', '6', '7', '8', '9', '+', '/',
    ][d]
}

/// Standard base64 text of a byte sequence, '='-padded to a multiple of
/// four characters.
pub open spec fn base64_of(bytes: Seq<u8>) -> Seq<char>
    decreases bytes,
{
    if bytes.len() == 0 {
        Seq::empty()
    } else if bytes.len() == 1 {
        let b0 = bytes[0] as int;
        seq![b64_char(b0 / 4), b64_char((b0 % 4) * 16), '=', '=']
    } else if bytes.len() == 2 {
        let b0 = bytes[0] as int;
        let b1 = bytes[1] as int;
        seq![b64_char(b0 / 4), b64_char((b0 % 4) * 16 + b1 / 16), b64_char((b1 % 16) * 4), '=']
    } else {
        let b0 = bytes[0] as int;
        let b1 = bytes[1] as int;
        let b2 = bytes[2] as int;
        seq![
            b64_char(b0 / 4),
            b64_char((b0 % 4) * 16 + b1 / 16),
            b64_char((b1 % 16) * 4 + b2 / 64),
            b64_char(b2 % 64),
        ] + base64_of(bytes.skip(3))
    }
}

/// Relies on bson's ObjectId::parse_str: it accepts exactly 24 hexadecimal
/// digits of either case (via hex::decode) and returns the twelve bytes
/// they denote.
#[verifier::external_body]
pub(crate) fn oid_parse(s: &str) -> (r: Option<[u8; 12]>)
    ensures
        r is Some <==> (s@.len() == 24 && forall|i: int|
            0 <= i < s@.len() ==> is_hex_char(#[trigger] s@[i])),
        r matches Some(b) ==> b@ == hex_bytes_of(s@),
{
    match bson::oid::ObjectId::parse_str(s) {
        Ok(oid) => Some(oid.bytes()),
        Err(_) => None,
    }
}

/// Relies on bson's ObjectId::to_hex: lowercase hexadecimal, two digits
/// per byte.
#[verifier::external_body]
pub(crate) fn oid_hex(bytes: &[u8; 12]) -> (r: String)
    ensures
        r@ == hex_of(bytes@),
{
    bson::oid::ObjectId::from_bytes(*bytes).to_hex()
}

/// Relies on bson's ObjectId::new, which draws a fresh identifier from the
/// clock, a process-wide counter and random bytes; nothing can be promised
/// of its value.
#[verifier::external_body]
pub(crate) fn oid_fresh() -> [u8; 12] {
    bson::oid::ObjectId::new().bytes()
}

/// Relies on chrono's Utc::now for the current wall-clock time; nothing
/// can be promised of its value.
#[verifier::external_body]
pub(crate) fn current_millis() -> i64 {
    chrono::Utc::now().timestamp_millis()
}

/// The RFC 3339 text of a UTC instant given in milliseconds since the
/// epoch; a function of the instant alone, named here and otherwise left
/// to the formatter.
pub uninterp spec fn rfc3339_of(ms: int) -> Seq<char>;

/// When RFC 3339 formatting succeeds: the proleptic Gregorian year must
/// have four digits, so the instant lies in [0000-01-01, 10000-01-01).
pub open spec fn rfc3339_in_range(ms: int) -> bool {
    -62167219200000 <= ms < 253402300800000
}

/// Relies on bson's DateTime::try_to_rfc3339_string (through the time
/// crate's Rfc3339 formatter, which succeeds exactly when the year is in
/// 0..10000 at UTC offset zero).
#[verifier::external_body]
pub(crate) fn rfc3339_text(ms: i64) -> (r: Option<String>)
    ensures
        r is Some <==> rfc3339_in_range(ms as int),
        r matches Some(s) ==> s@ == rfc3339_of(ms as int),
{
    bson::DateTime::from_millis(ms).try_to_rfc3339_string().ok()
}

/// Relies on the Display impl of bson's Timestamp, which writes exactly
/// "Timestamp(<time>, <increment>)" in decimal.
#[verifier::external_body]
pub(crate) fn timestamp_text(time: u32, increment: u32) -> (r: String)
    ensures
        r@ == "Timestamp("@ + dec_int(time as int) + ", "@ + dec_int(increment as int) + ")"@,
{
    format!("{}", bson::Timestamp { time, increment })
}

/// The canonical decimal string of a 16-byte IEEE-754-2008 decimal128
/// value; a function of the bytes alone, named here and otherwise left to
/// the formatter.
pub uninterp spec fn decimal128_text_of(bytes: Seq<u8>) -> Seq<char>;

/// Relies on the Display impl of bson's Decimal128: the canonical decimal
/// string of the value the 16 bytes represent.
#[verifier::external_body]
pub(crate) fn decimal128_text(bytes: &[u8; 16]) -> (r: String)
    ensures
        r@ == decimal128_text_of(bytes@),
{
    format!("{}", bson::Decimal128::from_bytes(*bytes))
}

/// Relies on std's String::from_utf8: it succeeds exactly on valid UTF-8
/// and yields the characters that the UTF-8 coding rules read from the
/// bytes.
#[verifier::external_body]
pub(crate) fn utf8_text(bytes: Vec<u8>) -> (r: Option<String>)
    ensures
        r is Some <==> vstd::utf8::valid_utf8(bytes@),
        r matches Some(s) ==> s@ == vstd::utf8::decode_utf8(bytes@),
{
    String::from_utf8(bytes).ok()
}

/// Relies on the base64 crate's standard engine: the usual alphabet with
/// '=' padding.
#[verifier::external_body]
pub(crate) fn base64_text(bytes: &Vec<u8>) -> (r: String)
    ensures
        r@ == base64_of(bytes@),
{
    base64::engine::general_purpose::STANDARD.encode(bytes)
}

/// The relaxed extended JSON text of a lone double given by its IEEE-754
/// bit pattern: a bare JSON number for finite values, a "$numberDouble"
/// wrapper for NaN and the infinities; a function of the bits alone.
pub uninterp spec fn double_relaxed_text_of(bits: u64) -> Seq<char>;

/// Relies on bson's Bson::into_relaxed_extjson applied to a double, and
/// on serde_json's compact rendering of the resulting value. The double is
/// rebuilt from its bit pattern by reading the BSON wire form of a
/// one-element document (length 15, element tag 1, empty key, the eight
/// little-endian payload bytes, terminator).
#[verifier::external_body]
pub(crate) fn double_relaxed_text(bits: u64) -> (r: String)
    ensures
        r@ == double_relaxed_text_of(bits),
{
    let mut buf: Vec<u8> = vec![15, 0, 0, 0, 1, 0];
    buf.extend_from_slice(&bits.to_le_bytes());
    buf.push(0);
    let doc = bson::Document::from_reader(&buf[..]).unwrap();
    doc.get("").unwrap().clone().into_relaxed_extjson().to_string()
}

/// The canonical extended JSON text of a lone double given by its
/// IEEE-754 bit pattern: always a "$numberDouble" wrapper; a function of
/// the bits alone.
pub uninterp spec fn double_canonical_text_of(bits: u64) -> Seq<char>;

/// Relies on bson's Bson::into_canonical_extjson applied to a double, and
/// on serde_json's compact rendering of the resulting value. The double is
/// rebuilt from its bit pattern as in `double_relaxed_text`.
#[verifier::external_body]
pub(crate) fn double_canonical_text(bits: u64) -> (r: String)
    ensures
        r@ == double_canonical_text_of(bits),
{
    let mut buf: Vec<u8> = vec![15, 0, 0, 0, 1, 0];
    buf.extend_from_slice(&bits.to_le_bytes());
    buf.push(0);
    let doc = bson::Document::from_reader(&buf[..]).unwrap();
    doc.get("").unwrap().clone().into_canonical_extjson().to_string()
}

/// Relies on std's String::push appending exactly one character.
#[verifier::external_body]
pub(crate) fn push_char(out: &mut String, c: char)
    ensures
        final(out)@ == old(out)@.push(c),
{
    out.push(c);
}

} // verus!
