//! Thin trusted bridges to the standard library's text conversions. Every
//! other string operation in this crate is verified against vstd's UTF-8
//! model; only the conversions that vstd does not specify live here.

use vstd::prelude::*;
use vstd::utf8::{decode_utf8, valid_utf8};

verus! {

/// What lossy UTF-8 decoding yields on bytes that are not valid UTF-8. The
/// result depends on the bytes alone; nothing more is assumed of it.
pub uninterp spec fn lossy_utf8_of(b: Seq<u8>) -> Seq<char>;

/// Lossy UTF-8 decoding: the exact decoding on valid input, and the opaque
/// substitution-based decoding on invalid input.
pub open spec fn decode_utf8_lossy(b: Seq<u8>) -> Seq<char> {
    if valid_utf8(b) {
        decode_utf8(b)
    } else {
        lossy_utf8_of(b)
    }
}

/// Relies on `String::from_utf8_lossy`: valid UTF-8 decodes exactly; invalid
/// sequences are replaced rather than rejected, as a deterministic function
/// of the bytes.
#[verifier::external_body]
pub fn utf8_to_string_lossy(b: &[u8]) -> (r: String)
    ensures
        r@ == decode_utf8_lossy(b@),
        !valid_utf8(b@) ==> r@ == lossy_utf8_of(b@),
{
    String::from_utf8_lossy(b).into_owned()
}

/// Relies on `String::from_iter`: collecting chars yields the string of
/// exactly those chars.
#[verifier::external_body]
pub fn chars_to_string(v: &Vec<char>) -> (r: String)
    ensures
        r@ == v@,
{
    v.iter().collect()
}

/// True of a UTF-16 unit that is a high (leading) surrogate.
pub open spec fn is_high_surrogate(u: u16) -> bool {
    0xd800 <= u <= 0xdbff
}

/// True of a UTF-16 unit that is a low (trailing) surrogate.
pub open spec fn is_low_surrogate(u: u16) -> bool {
    0xdc00 <= u <= 0xdfff
}

/// The UTF-16 units of one Unicode scalar value: one unit below 0x10000, and
/// a surrogate pair above.
pub open spec fn utf16_encode_scalar(u: u32) -> Seq<u16> {
    if u < 0x10000 {
        seq![u as u16]
    } else {
        seq![
            #[verifier::truncate] ((0xd800 + ((u - 0x10000) / 0x400)) as u16),
            #[verifier::truncate] ((0xdc00 + ((u - 0x10000) % 0x400)) as u16),
        ]
    }
}

/// The UTF-16 encoding of a character sequence.
pub open spec fn utf16_encode(s: Seq<char>) -> Seq<u16>
    decreases s.len(),
{
    if s.len() == 0 {
        Seq::empty()
    } else {
        utf16_encode_scalar(s[0] as u32) + utf16_encode(s.drop_first())
    }
}

/// UTF-16 decoding: `None` exactly when some surrogate unit is unpaired.
pub open spec fn utf16_decode(units: Seq<u16>) -> Option<Seq<char>>
    decreases units.len(),
{
    if units.len() == 0 {
        Some(Seq::empty())
    } else if !is_high_surrogate(units[0]) && !is_low_surrogate(units[0]) {
        match utf16_decode(units.drop_first()) {
            Some(cs) => Some(seq![(units[0] as u32) as char] + cs),
            None => None,
        }
    } else if is_high_surrogate(units[0]) && units.len() >= 2 && is_low_surrogate(units[1]) {
        let cp = (0x10000 + (((units[0] - 0xd800) as u32) * 0x400) + ((units[1]
            - 0xdc00) as u32)) as u32;
        match utf16_decode(units.skip(2)) {
            Some(cs) => Some(seq![cp as char] + cs),
            None => None,
        }
    } else {
        None
    }
}

/// Relies on `str::encode_utf16`: the iterator yields the string's UTF-16
/// encoding, unit by unit.
#[verifier::external_body]
pub fn utf16_units(s: &str) -> (r: Vec<u16>)
    ensures
        r@ == utf16_encode(s@),
{
    s.encode_utf16().collect()
}

/// Relies on `String::from_utf16`: well-paired units decode to their scalar
/// values, and any unpaired surrogate makes the whole conversion fail.
#[verifier::external_body]
pub fn utf16_to_chars(units: &[u16]) -> (r: Option<Vec<char>>)
    ensures
        match utf16_decode(units@) {
            Some(cs) => r matches Some(v) && v@ == cs,
            None => r is None,
        },
{
    match String::from_utf16(units) {
        Ok(s) => Some(s.chars().collect()),
        Err(_) => None,
    }
}

} // verus!
