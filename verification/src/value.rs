//! Field values: how one is read from an instance's bytes, and in which slot
//! of a row it is stored.

use vstd::prelude::*;
use crate::capture::{FieldType, IdSize};

verus! {

/// The value of one field. Floating-point values are held as their IEEE 754
/// bit patterns.
#[derive(Clone, Copy, Debug, PartialEq, Eq, Structural)]
pub enum FieldValue {
    /// A reference; `None` is null.
    ObjectId(Option<u64>),
    Boolean(bool),
    Char(u16),
    Float(u32),
    Double(u64),
    Byte(i8),
    Short(i16),
    Int(i32),
    Long(i64),
}

/// A floating-point number, as the bit pattern of its width.
#[derive(Clone, Copy, Debug, PartialEq, Eq, Structural)]
pub enum Floating {
    Single(u32),
    Double(u64),
}

/// The three value slots of a stored field value.
#[derive(Clone, Copy, Debug, PartialEq, Eq, Structural)]
pub enum Slot {
    Floating,
    Integer,
    Reference,
}

/// The slot that holds the values of a field type.
pub open spec fn slot_of(t: FieldType) -> Slot {
    match t {
        FieldType::ObjectId => Slot::Reference,
        FieldType::Float | FieldType::Double => Slot::Floating,
        _ => Slot::Integer,
    }
}

impl FieldValue {
    /// The field type that a value belongs to.
    pub open spec fn field_type(self) -> FieldType {
        match self {
            FieldValue::ObjectId(_) => FieldType::ObjectId,
            FieldValue::Boolean(_) => FieldType::Boolean,
            FieldValue::Char(_) => FieldType::Char,
            FieldValue::Float(_) => FieldType::Float,
            FieldValue::Double(_) => FieldType::Double,
            FieldValue::Byte(_) => FieldType::Byte,
            FieldValue::Short(_) => FieldType::Short,
            FieldValue::Int(_) => FieldType::Int,
            FieldValue::Long(_) => FieldType::Long,
        }
    }

    /// A null reference.
    pub open spec fn is_null(self) -> bool {
        self == FieldValue::ObjectId(None)
    }
}

/// The number that a run of bytes spells, most significant byte first.
pub open spec fn be_uint(bytes: Seq<u8>) -> nat
    decreases bytes.len(),
{
    if bytes.len() == 0 {
        0
    } else {
        be_uint(bytes.drop_last()) * 256 + bytes.last() as nat
    }
}

/// The number of bytes that a value of a field type takes.
pub open spec fn spec_field_width(t: FieldType, id_size: IdSize) -> nat {
    match t {
        FieldType::ObjectId => id_size.width(),
        FieldType::Boolean | FieldType::Byte => 1,
        FieldType::Char | FieldType::Short => 2,
        FieldType::Float | FieldType::Int => 4,
        FieldType::Double | FieldType::Long => 8,
    }
}

/// The signed number that `raw` stands for in two's complement, where `half`
/// is the least number with the sign bit set.
pub open spec fn twos_complement(raw: nat, half: nat) -> int {
    if raw < half {
        raw as int
    } else {
        raw - 2 * half
    }
}

/// The value of a field of type `t` whose bytes spell `raw`.
pub open spec fn value_of_raw(t: FieldType, raw: nat) -> FieldValue {
    match t {
        FieldType::ObjectId => FieldValue::ObjectId(
            if raw == 0 {
                None
            } else {
                Some(raw as u64)
            },
        ),
        FieldType::Boolean => FieldValue::Boolean(raw != 0),
        FieldType::Char => FieldValue::Char(raw as u16),
        FieldType::Float => FieldValue::Float(raw as u32),
        FieldType::Double => FieldValue::Double(raw as u64),
        FieldType::Byte => FieldValue::Byte(twos_complement(raw, 0x80) as i8),
        FieldType::Short => FieldValue::Short(twos_complement(raw, 0x8000) as i16),
        FieldType::Int => FieldValue::Int(twos_complement(raw, 0x8000_0000) as i32),
        FieldType::Long => FieldValue::Long(twos_complement(raw, 0x8000_0000_0000_0000) as i64),
    }
}

/// Reads one value of type `t` from the front of `input`: the bytes that are
/// left and the value, or `None` where `input` is too short.
pub open spec fn spec_parse_value(t: FieldType, input: Seq<u8>, id_size: IdSize) -> Option<
    (Seq<u8>, FieldValue),
> {
    let width = spec_field_width(t, id_size) as int;
    if input.len() < width {
        None
    } else {
        Some((input.skip(width), value_of_raw(t, be_uint(input.take(width)))))
    }
}

/// The least number that `n` bytes cannot spell, for `n` up to 8.
pub open spec fn byte_limit(n: nat) -> nat {
    if n == 0 {
        1
    } else if n == 1 {
        0x100
    } else if n == 2 {
        0x1_0000
    } else if n == 3 {
        0x100_0000
    } else if n == 4 {
        0x1_0000_0000
    } else if n == 5 {
        0x100_0000_0000
    } else if n == 6 {
        0x1_0000_0000_0000
    } else if n == 7 {
        0x100_0000_0000_0000
    } else {
        0x1_0000_0000_0000_0000
    }
}

/// The number of bytes that a value of a field type takes.
pub fn field_width(t: FieldType, id_size: IdSize) -> (n: usize)
    ensures
        n == spec_field_width(t, id_size),
        1 <= n <= 8,
{
    match t {
        FieldType::ObjectId => id_size.size_in_bytes(),
        FieldType::Boolean | FieldType::Byte => 1,
        FieldType::Char | FieldType::Short => 2,
        FieldType::Float | FieldType::Int => 4,
        FieldType::Double | FieldType::Long => 8,
    }
}

/// The number spelled by the `width` bytes of `input` from `pos` on.
fn read_be(input: &[u8], pos: usize, width: usize) -> (v: u64)
    requires
        width <= 8,
        pos + width <= input.len(),
    ensures
        v == be_uint(input@.subrange(pos as int, pos + width)),
        v < byte_limit(width as nat),
{
    let mut v: u64 = 0;
    let mut i: usize = 0;
    while i < width
        invariant
            i <= width <= 8,
            pos + width <= input.len(),
            v == be_uint(input@.subrange(pos as int, pos + i)),
            v < byte_limit(i as nat),
        decreases width - i,
    {
        let b: u8 = input[pos + i];
        proof {
            let next = input@.subrange(pos as int, pos + i + 1);
            assert(next.drop_last() =~= input@.subrange(pos as int, pos + i));
            assert(next.last() == b);
        }
        v = v * 256 + b as u64;
        i = i + 1;
    }
    v
}

/// The value of a field of type `t` whose bytes spell `raw`.
fn value_from_raw(t: FieldType, raw: u64, id_size: IdSize) -> (v: FieldValue)
    requires
        raw < byte_limit(spec_field_width(t, id_size)),
    ensures
        v == value_of_raw(t, raw as nat),
        v.field_type() == t,
{
    match t {
        FieldType::ObjectId => FieldValue::ObjectId(
            if raw == 0 {
                None
            } else {
                Some(raw)
            },
        ),
        FieldType::Boolean => FieldValue::Boolean(raw != 0),
        FieldType::Char => FieldValue::Char(raw as u16),
        FieldType::Float => FieldValue::Float(raw as u32),
        FieldType::Double => FieldValue::Double(raw),
        FieldType::Byte => FieldValue::Byte(
            if raw < 0x80 {
                raw as i8
            } else {
                (raw as i16 - 0x100) as i8
            },
        ),
        FieldType::Short => FieldValue::Short(
            if raw < 0x8000 {
                raw as i16
            } else {
                (raw as i32 - 0x1_0000) as i16
            },
        ),
        FieldType::Int => FieldValue::Int(
            if raw < 0x8000_0000 {
                raw as i32
            } else {
                (raw as i64 - 0x1_0000_0000) as i32
            },
        ),
        FieldType::Long => FieldValue::Long(
            if raw < 0x8000_0000_0000_0000 {
                raw as i64
            } else {
                (raw as i128 - 0x1_0000_0000_0000_0000) as i64
            },
        ),
    }
}

/// Reads one value of type `t` from `input` at `pos`. Returns the value and
/// the position behind it, or `None` where fewer bytes are left than the
/// value takes.
pub fn parse_value(t: FieldType, input: &[u8], pos: usize, id_size: IdSize) -> (r: Option<
    (FieldValue, usize),
>)
    ensures
        pos > input.len() ==> r is None,
        pos <= input.len() ==> match spec_parse_value(t, input@.skip(pos as int), id_size) {
            Some((rest, value)) => r == Some((value, (pos + spec_field_width(t, id_size)) as usize))
                && rest == input@.skip(pos + spec_field_width(t, id_size)),
            None => r is None,
        },
        r matches Some((value, _)) ==> value.field_type() == t,
{
    let width = field_width(t, id_size);
    if pos > input.len() || input.len() - pos < width {
        return None;
    }
    let raw = read_be(input, pos, width);
    proof {
        assert(input@.skip(pos as int).take(width as int) =~= input@.subrange(
            pos as int,
            pos + width,
        ));
        assert(input@.skip(pos as int).skip(width as int) =~= input@.skip(pos + width));
    }
    Some((value_from_raw(t, raw, id_size), pos + width))
}

/// The slots of a value: floating, integer, reference, in this order. A value
/// fills the slot of its type and no other; a null reference fills none.
pub open spec fn spec_field_value_tuple(value: FieldValue) -> (
    Option<Floating>,
    Option<i64>,
    Option<u64>,
) {
    match value {
        FieldValue::ObjectId(obj) => (None, None, obj),
        FieldValue::Boolean(b) => (
            None,
            Some(
                if b {
                    1i64
                } else {
                    0i64
                },
            ),
            None,
        ),
        FieldValue::Char(c) => (None, Some(c as i64), None),
        FieldValue::Float(f) => (Some(Floating::Single(f)), None, None),
        FieldValue::Double(d) => (Some(Floating::Double(d)), None, None),
        FieldValue::Byte(b) => (None, Some(b as i64), None),
        FieldValue::Short(s) => (None, Some(s as i64), None),
        FieldValue::Int(i) => (None, Some(i as i64), None),
        FieldValue::Long(l) => (None, Some(l), None),
    }
}

/// Whether exactly the slot `slot` of a triple is filled.
pub open spec fn only_slot_filled(
    slots: (Option<Floating>, Option<i64>, Option<u64>),
    slot: Slot,
) -> bool {
    &&& slots.0 is Some <==> slot == Slot::Floating
    &&& slots.1 is Some <==> slot == Slot::Integer
    &&& slots.2 is Some <==> slot == Slot::Reference
}

/// The slots of a value: floating, integer, reference, in this order.
pub fn field_value_tuple(value: FieldValue) -> (slots: (Option<Floating>, Option<i64>, Option<u64>))
    ensures
        slots == spec_field_value_tuple(value),
        !value.is_null() ==> only_slot_filled(slots, slot_of(value.field_type())),
        value.is_null() ==> slots == (None::<Floating>, None::<i64>, None::<u64>),
{
    match value {
        FieldValue::ObjectId(obj) => (None, None, obj),
        FieldValue::Boolean(b) => (
            None,
            Some(
                if b {
                    1
                } else {
                    0
                },
            ),
            None,
        ),
        FieldValue::Char(c) => (None, Some(c as i64), None),
        FieldValue::Float(f) => (Some(Floating::Single(f)), None, None),
        FieldValue::Double(d) => (Some(Floating::Double(d)), None, None),
        FieldValue::Byte(b) => (None, Some(b as i64), None),
        FieldValue::Short(s) => (None, Some(s as i64), None),
        FieldValue::Int(i) => (None, Some(i as i64), None),
        FieldValue::Long(l) => (None, Some(l), None),
    }
}

} // verus!
