//! Conversions between Rust strings and the UTF-16 names of the format.
use vstd::prelude::*;

verus! {

/// The UTF-16 code units of one character.
pub open spec fn utf16_char(c: char) -> Seq<u16> {
    let v = c as u32;
    if v < 0x10000 {
        seq![v as u16]
    } else {
        let w = (v - 0x10000) as u32;
        seq![(0xD800 + w / 0x400) as u16, (0xDC00 + w % 0x400) as u16]
    }
}

/// The UTF-16 code units of a character sequence.
pub open spec fn utf16_of(s: Seq<char>) -> Seq<u16>
    decreases s.len(),
{
    if s.len() == 0 {
        seq![]
    } else {
        utf16_of(s.drop_last()) + utf16_char(s.last())
    }
}

/// Relies on str::encode_utf16: the string's characters encoded as UTF-16 code units.
#[verifier::external_body]
pub(crate) fn utf16_units(s: &str) -> (r: Vec<u16>)
    ensures
        r@ == utf16_of(s@),
{
    s.encode_utf16().collect()
}

/// What String::from_utf16_lossy makes of a sequence of code units.
pub uninterp spec fn lossy_of(u: Seq<u16>) -> Seq<char>;

/// Relies on String::from_utf16_lossy: decodes the units, replacing unpaired surrogates.
#[verifier::external_body]
pub(crate) fn units_text(u: &[u16]) -> (r: String)
    ensures
        r@ == lossy_of(u@),
{
    String::from_utf16_lossy(u)
}

/// The characters of ASCII bytes.
pub open spec fn ascii_chars(b: Seq<u8>) -> Seq<char> {
    Seq::new(b.len(), |i: int| b[i] as char)
}

/// Relies on String::from_utf8: ASCII bytes are valid UTF-8 and decode one character each.
#[verifier::external_body]
pub(crate) fn ascii_text(b: Vec<u8>) -> (r: String)
    requires
        forall|i: int| 0 <= i < b@.len() ==> b@[i] < 128,
    ensures
        r@ == ascii_chars(b@),
{
    String::from_utf8(b).unwrap()
}

/// `v` is a Unicode scalar value: below 0x110000 and not a surrogate.
pub open spec fn is_scalar(v: u32) -> bool {
    v < 0xD800 || (0xE000 <= v && v < 0x110000)
}

/// Relies on char::from_u32: a character exactly for the scalar values.
#[verifier::external_body]
pub(crate) fn char_from(v: u32) -> (r: Option<char>)
    ensures
        r is Some <==> is_scalar(v),
        r matches Some(c) ==> c as u32 == v,
{
    char::from_u32(v)
}

/// What char::to_uppercase yields for the character with code `c`.
pub uninterp spec fn upper_of(c: u32) -> Seq<char>;

/// Relies on char::to_uppercase: the upper-case mapping of one character,
/// which depends on the character alone.
#[verifier::external_body]
pub(crate) fn upper_chars(c: char) -> (r: Vec<char>)
    ensures
        r@ == upper_of(c as u32),
{
    c.to_uppercase().collect()
}

} // verus!
