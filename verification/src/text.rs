//! The contents of a primitive array as text, where they are text.

use vstd::prelude::*;
use vstd::utf8::{decode_utf8, valid_utf8};
use crate::capture::{PrimitiveArray, PrimitiveElements};
use crate::error::LoadError;

verus! {

/// The byte that a signed byte stands for: the same eight bits.
pub open spec fn byte_of(b: i8) -> u8 {
    if b >= 0 {
        b as u8
    } else {
        (b + 256) as u8
    }
}

/// The bytes that a run of signed bytes stands for.
pub open spec fn bytes_of(values: Seq<i8>) -> Seq<u8> {
    Seq::new(values.len(), |i: int| byte_of(values[i]))
}

/// The first unit of a surrogate pair.
pub open spec fn is_high_surrogate(unit: u16) -> bool {
    0xD800 <= unit <= 0xDBFF
}

/// The second unit of a surrogate pair.
pub open spec fn is_low_surrogate(unit: u16) -> bool {
    0xDC00 <= unit <= 0xDFFF
}

/// Whether 16-bit units are UTF-16: every surrogate is half of a pair, the
/// high one first.
pub open spec fn valid_utf16(units: Seq<u16>) -> bool
    decreases units.len(),
{
    if units.len() == 0 {
        true
    } else if !is_high_surrogate(units[0]) && !is_low_surrogate(units[0]) {
        valid_utf16(units.skip(1))
    } else if is_high_surrogate(units[0]) && units.len() >= 2 && is_low_surrogate(units[1]) {
        valid_utf16(units.skip(2))
    } else {
        false
    }
}

/// The character that a surrogate pair encodes.
pub open spec fn pair_scalar(high: u16, low: u16) -> char {
    (0x1_0000 + (high - 0xD800) * 0x400 + (low - 0xDC00)) as char
}

/// The characters that valid UTF-16 encodes.
pub open spec fn decode_utf16(units: Seq<u16>) -> Seq<char>
    decreases units.len(),
{
    if units.len() == 0 {
        Seq::empty()
    } else if !is_high_surrogate(units[0]) && !is_low_surrogate(units[0]) {
        seq![units[0] as char] + decode_utf16(units.skip(1))
    } else if is_high_surrogate(units[0]) && units.len() >= 2 && is_low_surrogate(units[1]) {
        seq![pair_scalar(units[0], units[1])] + decode_utf16(units.skip(2))
    } else {
        Seq::empty()
    }
}

/// `String::from_utf8` of the standard library: the text that the bytes
/// encode where they are valid UTF-8, and `None` where they are not.
#[verifier::external_body]
fn string_from_utf8(bytes: Vec<u8>) -> (text: Option<String>)
    ensures
        text is Some <==> valid_utf8(bytes@),
        text matches Some(t) ==> t@ == decode_utf8(bytes@),
{
    match String::from_utf8(bytes) {
        Ok(text) => Some(text),
        Err(_) => None,
    }
}

/// `String::from_utf16` of the standard library: the text that the units
/// encode where they are valid UTF-16, and `None` where a surrogate stands
/// alone or out of order.
#[verifier::external_body]
fn string_from_utf16(units: &Vec<u16>) -> (text: Option<String>)
    ensures
        text is Some <==> valid_utf16(units@),
        text matches Some(t) ==> t@ == decode_utf16(units@),
{
    match String::from_utf16(units) {
        Ok(text) => Some(text),
        Err(_) => None,
    }
}

/// The signed bytes of an array as the bytes they stand for.
fn unsigned_bytes(values: &Vec<i8>) -> (bytes: Vec<u8>)
    ensures
        bytes@ == bytes_of(values@),
{
    let mut bytes: Vec<u8> = Vec::new();
    let mut i: usize = 0;
    while i < values.len()
        invariant
            i <= values.len(),
            bytes@ == bytes_of(values@.take(i as int)),
        decreases values.len() - i,
    {
        let b: i8 = values[i];
        let u: u8 = if b >= 0 {
            b as u8
        } else {
            (b as i16 + 256) as u8
        };
        bytes.push(u);
        i = i + 1;
        assert(bytes@ =~= bytes_of(values@.take(i as int)));
    }
    assert(values@.take(values@.len() as int) =~= values@);
    bytes
}

/// The text of an optional string.
pub open spec fn text_view(text: Option<String>) -> Option<Seq<char>> {
    match text {
        Some(t) => Some(t@),
        None => None,
    }
}

/// The text of a primitive array. A byte array has the text that its bytes
/// encode in UTF-8, and none where they are not valid UTF-8. A char array
/// has the text that its units encode in UTF-16, and is in error where they
/// are not valid UTF-16. An array of any other type has no text.
pub open spec fn spec_primitive_array_text(array: PrimitiveArray) -> Result<
    Option<Seq<char>>,
    LoadError,
> {
    match array.elements {
        PrimitiveElements::Bytes(values) => Ok(
            if valid_utf8(bytes_of(values@)) {
                Some(decode_utf8(bytes_of(values@)))
            } else {
                None
            },
        ),
        PrimitiveElements::Chars(units) => if valid_utf16(units@) {
            Ok(Some(decode_utf16(units@)))
        } else {
            Err(LoadError::InvalidUtf16(array.obj_id))
        },
        _ => Ok(None),
    }
}

/// The text of a primitive array, where it has one.
pub fn primitive_array_text(array: &PrimitiveArray) -> (r: Result<Option<String>, LoadError>)
    ensures
        match spec_primitive_array_text(*array) {
            Ok(text) => r matches Ok(t) && text_view(t) == text,
            Err(e) => r matches Err(f) && f == e,
        },
{
    match &array.elements {
        PrimitiveElements::Bytes(values) => Ok(string_from_utf8(unsigned_bytes(values))),
        PrimitiveElements::Chars(units) => match string_from_utf16(units) {
            Some(text) => Ok(Some(text)),
            None => Err(LoadError::InvalidUtf16(array.obj_id)),
        },
        _ => Ok(None),
    }
}

} // verus!
