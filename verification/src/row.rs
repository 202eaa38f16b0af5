//! The rows that a conversion produces, one kind per table of the store.

use vstd::prelude::*;
use crate::value::Floating;

verus! {

/// One row, in the form in which it is handed to the store.
#[derive(Clone, Debug, PartialEq, Eq)]
pub enum Row {
    /// What the capture says about itself. `id_size` is 4 or 8.
    Header { label: String, id_size: i32, timestamp: u64 },
    /// An entry of the string pool under its key, as the bytes of its text.
    Name { id: i64, bytes: Vec<u8> },
    /// A class of which both the definition and the name are known.
    Class { id: i64, name_id: i64, super_id: Option<i64>, instance_size: u32 },
    /// The field that a class declares at position `ordinal`.
    Field { class_id: i64, ordinal: usize, name_id: i64, type_id: i32 },
    /// The key of an object beside the identifier that the capture gives it.
    /// References are stored as such identifiers; this row resolves them.
    Object { id: i64, native_id: u64 },
    /// An instance and its class.
    Instance { id: i64, class_id: i64 },
    /// The value that an instance has in the field that class `class_id`
    /// declares at position `ordinal`.
    FieldValue {
        instance_id: i64,
        class_id: i64,
        ordinal: usize,
        floating: Option<Floating>,
        integer: Option<i64>,
        reference: Option<u64>,
    },
    /// An array of references, its class and its length.
    ObjArray { id: i64, class_id: i64, length: usize },
    /// The element of an array of references at position `ordinal`.
    ObjArrayItem { array_id: i64, ordinal: usize, reference: Option<u64> },
    /// An array of primitive values, with its contents as text where they
    /// are text.
    PrimitiveArray { id: i64, type_id: i32, length: usize, text: Option<String> },
}

/// A row as a mathematical value: text as a sequence of characters, bytes as
/// a sequence of bytes.
pub enum RowView {
    Header { label: Seq<char>, id_size: i32, timestamp: u64 },
    Name { id: i64, bytes: Seq<u8> },
    Class { id: i64, name_id: i64, super_id: Option<i64>, instance_size: u32 },
    Field { class_id: i64, ordinal: nat, name_id: i64, type_id: i32 },
    Object { id: i64, native_id: u64 },
    Instance { id: i64, class_id: i64 },
    FieldValue {
        instance_id: i64,
        class_id: i64,
        ordinal: nat,
        floating: Option<Floating>,
        integer: Option<i64>,
        reference: Option<u64>,
    },
    ObjArray { id: i64, class_id: i64, length: nat },
    ObjArrayItem { array_id: i64, ordinal: nat, reference: Option<u64> },
    PrimitiveArray { id: i64, type_id: i32, length: nat, text: Option<Seq<char>> },
}

impl View for Row {
    type V = RowView;

    open spec fn view(&self) -> RowView {
        match *self {
            Row::Header { label, id_size, timestamp } => RowView::Header {
                label: label@,
                id_size,
                timestamp,
            },
            Row::Name { id, bytes } => RowView::Name { id, bytes: bytes@ },
            Row::Class { id, name_id, super_id, instance_size } => RowView::Class {
                id,
                name_id,
                super_id,
                instance_size,
            },
            Row::Field { class_id, ordinal, name_id, type_id } => RowView::Field {
                class_id,
                ordinal: ordinal as nat,
                name_id,
                type_id,
            },
            Row::Object { id, native_id } => RowView::Object { id, native_id },
            Row::Instance { id, class_id } => RowView::Instance { id, class_id },
            Row::FieldValue { instance_id, class_id, ordinal, floating, integer, reference } =>
                RowView::FieldValue {
                    instance_id,
                    class_id,
                    ordinal: ordinal as nat,
                    floating,
                    integer,
                    reference,
                },
            Row::ObjArray { id, class_id, length } => RowView::ObjArray {
                id,
                class_id,
                length: length as nat,
            },
            Row::ObjArrayItem { array_id, ordinal, reference } => RowView::ObjArrayItem {
                array_id,
                ordinal: ordinal as nat,
                reference,
            },
            Row::PrimitiveArray { id, type_id, length, text } => RowView::PrimitiveArray {
                id,
                type_id,
                length: length as nat,
                text: match text {
                    Some(t) => Some(t@),
                    None => None,
                },
            },
        }
    }
}

/// The rows of a list as mathematical values.
pub open spec fn rows_view(rows: Seq<Row>) -> Seq<RowView> {
    Seq::new(rows.len(), |i: int| rows[i]@)
}

/// Appends `more` to `rows`.
pub fn append_rows(rows: &mut Vec<Row>, more: Vec<Row>)
    ensures
        rows_view(final(rows)@) == rows_view(old(rows)@) + rows_view(more@),
{
    let ghost start = rows@;
    let ghost added = more@;
    let mut more = more;
    rows.append(&mut more);
    assert(rows_view(rows@) =~= rows_view(start) + rows_view(added));
}

} // verus!
