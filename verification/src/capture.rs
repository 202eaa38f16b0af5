//! The records of a capture, as plain values.
//!
//! A decoder turns the bytes of a capture into these values; everything else
//! in this crate works on them. Identifiers are the capture's own wide
//! integers, whatever width they had on disk.

use vstd::prelude::*;

verus! {

/// How many bytes an identifier takes in the capture.
#[derive(Clone, Copy, Debug, PartialEq, Eq, Structural)]
pub enum IdSize {
    U32,
    U64,
}

impl IdSize {
    /// Width of an identifier in bytes.
    pub open spec fn width(self) -> nat {
        match self {
            IdSize::U32 => 4,
            IdSize::U64 => 8,
        }
    }

    pub fn size_in_bytes(self) -> (n: usize)
        ensures
            n == self.width(),
    {
        match self {
            IdSize::U32 => 4,
            IdSize::U64 => 8,
        }
    }
}

/// What a capture says about itself before its first record.
#[derive(Clone, Debug, PartialEq, Eq)]
pub struct Header {
    pub label: String,
    pub id_size: IdSize,
    /// Milliseconds since the epoch.
    pub timestamp_millis: u64,
}

/// The declared type of an instance field.
#[derive(Clone, Copy, Debug, PartialEq, Eq, Structural)]
pub enum FieldType {
    ObjectId,
    Boolean,
    Char,
    Float,
    Double,
    Byte,
    Short,
    Int,
    Long,
}

/// The element type of a primitive array.
#[derive(Clone, Copy, Debug, PartialEq, Eq, Structural)]
pub enum PrimitiveArrayType {
    Boolean,
    Char,
    Float,
    Double,
    Byte,
    Short,
    Int,
    Long,
}

/// An entry of the capture's string pool.
#[derive(Clone, Debug, PartialEq, Eq)]
pub struct Utf8 {
    pub name_id: u64,
    /// The text as it stands in the capture; it is not always valid UTF-8.
    pub text: Vec<u8>,
}

/// The record that gives a class its name.
#[derive(Clone, Copy, Debug, PartialEq, Eq, Structural)]
pub struct LoadClass {
    pub class_obj_id: u64,
    pub class_name_id: u64,
}

/// Name and type of one instance field, as its class declares it.
#[derive(Clone, Copy, Debug, PartialEq, Eq, Structural)]
pub struct FieldDescriptor {
    pub name_id: u64,
    pub field_type: FieldType,
}

/// The definition of a class: its layout, without the fields it inherits.
#[derive(Clone, Debug, PartialEq, Eq)]
pub struct Class {
    pub obj_id: u64,
    /// `None` for a class without a superclass.
    pub super_class_obj_id: Option<u64>,
    pub instance_size_bytes: u32,
    pub instance_fields: Vec<FieldDescriptor>,
}

/// One object on the heap.
#[derive(Clone, Debug, PartialEq, Eq)]
pub struct Instance {
    pub obj_id: u64,
    pub class_obj_id: u64,
    /// The field values back to back: those of the object's own class first,
    /// then those of its superclass, and so on up to the root.
    pub fields: Vec<u8>,
}

/// An array of references.
#[derive(Clone, Debug, PartialEq, Eq)]
pub struct ObjectArray {
    pub obj_id: u64,
    pub array_class_obj_id: u64,
    /// `None` stands for a null element.
    pub elements: Vec<Option<u64>>,
}

/// The elements of a primitive array. Floating-point elements are held as
/// their IEEE 754 bit patterns.
#[derive(Clone, Debug, PartialEq, Eq)]
pub enum PrimitiveElements {
    Booleans(Vec<bool>),
    Chars(Vec<u16>),
    Floats(Vec<u32>),
    Doubles(Vec<u64>),
    Bytes(Vec<i8>),
    Shorts(Vec<i16>),
    Ints(Vec<i32>),
    Longs(Vec<i64>),
}

/// An array of primitive values.
#[derive(Clone, Debug, PartialEq, Eq)]
pub struct PrimitiveArray {
    pub obj_id: u64,
    pub elements: PrimitiveElements,
}

/// What a heap dump segment holds.
#[derive(Clone, Debug, PartialEq, Eq)]
pub enum SubRecord {
    Class(Class),
    Instance(Instance),
    ObjectArray(ObjectArray),
    PrimitiveArray(PrimitiveArray),
    /// A garbage-collection root: nothing is stored for it.
    Other,
}

/// One record of the capture.
#[derive(Clone, Debug, PartialEq, Eq)]
pub enum Record {
    Utf8(Utf8),
    LoadClass(LoadClass),
    HeapDumpSegment(Vec<SubRecord>),
    /// A record of any other kind: nothing is stored for it.
    Other,
}

/// The code under which a field type is stored.
pub open spec fn spec_field_type_id(id: FieldType) -> i32 {
    match id {
        FieldType::ObjectId => 2,
        FieldType::Boolean => 4,
        FieldType::Char => 5,
        FieldType::Float => 6,
        FieldType::Double => 7,
        FieldType::Byte => 8,
        FieldType::Short => 9,
        FieldType::Int => 10,
        FieldType::Long => 11,
    }
}

/// The code under which a field type is stored.
pub fn field_type_id(id: FieldType) -> (code: i32)
    ensures
        code == spec_field_type_id(id),
{
    match id {
        FieldType::ObjectId => 2,
        FieldType::Boolean => 4,
        FieldType::Char => 5,
        FieldType::Float => 6,
        FieldType::Double => 7,
        FieldType::Byte => 8,
        FieldType::Short => 9,
        FieldType::Int => 10,
        FieldType::Long => 11,
    }
}

/// No two field types are stored under the same code.
pub proof fn lemma_field_type_codes_differ(a: FieldType, b: FieldType)
    ensures
        spec_field_type_id(a) == spec_field_type_id(b) ==> a == b,
{
}

/// The field type of the elements of a primitive array.
pub open spec fn element_field_type(id: PrimitiveArrayType) -> FieldType {
    match id {
        PrimitiveArrayType::Boolean => FieldType::Boolean,
        PrimitiveArrayType::Char => FieldType::Char,
        PrimitiveArrayType::Float => FieldType::Float,
        PrimitiveArrayType::Double => FieldType::Double,
        PrimitiveArrayType::Byte => FieldType::Byte,
        PrimitiveArrayType::Short => FieldType::Short,
        PrimitiveArrayType::Int => FieldType::Int,
        PrimitiveArrayType::Long => FieldType::Long,
    }
}

impl PrimitiveElements {
    /// The element type.
    pub open spec fn spec_primitive_type(&self) -> PrimitiveArrayType {
        match self {
            PrimitiveElements::Booleans(_) => PrimitiveArrayType::Boolean,
            PrimitiveElements::Chars(_) => PrimitiveArrayType::Char,
            PrimitiveElements::Floats(_) => PrimitiveArrayType::Float,
            PrimitiveElements::Doubles(_) => PrimitiveArrayType::Double,
            PrimitiveElements::Bytes(_) => PrimitiveArrayType::Byte,
            PrimitiveElements::Shorts(_) => PrimitiveArrayType::Short,
            PrimitiveElements::Ints(_) => PrimitiveArrayType::Int,
            PrimitiveElements::Longs(_) => PrimitiveArrayType::Long,
        }
    }

    /// The number of elements.
    pub open spec fn spec_len(&self) -> nat {
        match self {
            PrimitiveElements::Booleans(v) => v@.len(),
            PrimitiveElements::Chars(v) => v@.len(),
            PrimitiveElements::Floats(v) => v@.len(),
            PrimitiveElements::Doubles(v) => v@.len(),
            PrimitiveElements::Bytes(v) => v@.len(),
            PrimitiveElements::Shorts(v) => v@.len(),
            PrimitiveElements::Ints(v) => v@.len(),
            PrimitiveElements::Longs(v) => v@.len(),
        }
    }
}

impl PrimitiveArray {
    /// The element type.
    pub fn primitive_type(&self) -> (t: PrimitiveArrayType)
        ensures
            t == self.elements.spec_primitive_type(),
    {
        match &self.elements {
            PrimitiveElements::Booleans(_) => PrimitiveArrayType::Boolean,
            PrimitiveElements::Chars(_) => PrimitiveArrayType::Char,
            PrimitiveElements::Floats(_) => PrimitiveArrayType::Float,
            PrimitiveElements::Doubles(_) => PrimitiveArrayType::Double,
            PrimitiveElements::Bytes(_) => PrimitiveArrayType::Byte,
            PrimitiveElements::Shorts(_) => PrimitiveArrayType::Short,
            PrimitiveElements::Ints(_) => PrimitiveArrayType::Int,
            PrimitiveElements::Longs(_) => PrimitiveArrayType::Long,
        }
    }
}

/// The code under which an element type is stored. An element type has the
/// code of the field type of the same name.
pub open spec fn spec_primitive_array_type_id(id: PrimitiveArrayType) -> i32 {
    match id {
        PrimitiveArrayType::Boolean => 4,
        PrimitiveArrayType::Char => 5,
        PrimitiveArrayType::Float => 6,
        PrimitiveArrayType::Double => 7,
        PrimitiveArrayType::Byte => 8,
        PrimitiveArrayType::Short => 9,
        PrimitiveArrayType::Int => 10,
        PrimitiveArrayType::Long => 11,
    }
}

/// The code under which an element type is stored.
pub fn primitive_array_type_id(id: PrimitiveArrayType) -> (code: i32)
    ensures
        code == spec_primitive_array_type_id(id),
        code == spec_field_type_id(element_field_type(id)),
{
    match id {
        PrimitiveArrayType::Boolean => 4,
        PrimitiveArrayType::Char => 5,
        PrimitiveArrayType::Float => 6,
        PrimitiveArrayType::Double => 7,
        PrimitiveArrayType::Byte => 8,
        PrimitiveArrayType::Short => 9,
        PrimitiveArrayType::Int => 10,
        PrimitiveArrayType::Long => 11,
    }
}

/// The number of elements of a primitive array.
pub fn primitive_array_length(array: &PrimitiveArray) -> (n: usize)
    ensures
        n == array.elements.spec_len(),
{
    match &array.elements {
        PrimitiveElements::Booleans(v) => v.len(),
        PrimitiveElements::Chars(v) => v.len(),
        PrimitiveElements::Floats(v) => v.len(),
        PrimitiveElements::Doubles(v) => v.len(),
        PrimitiveElements::Bytes(v) => v.len(),
        PrimitiveElements::Shorts(v) => v.len(),
        PrimitiveElements::Ints(v) => v.len(),
        PrimitiveElements::Longs(v) => v.len(),
    }
}

} // verus!
