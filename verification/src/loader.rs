//! The second pass: from each record the rows that describe it.
//!
//! The pass keeps a `Context`: the classes seen so far, the width of an
//! identifier, the key of the last object, and the keys of the first pass.
//! Each record is turned into rows by a function of the context before it
//! and the record, which also says what the context is after it. A record
//! that cannot be turned into rows ends the pass.

use vstd::prelude::*;
use vstd::pervasive::unreached;
use crate::capture::{
    spec_field_type_id, spec_primitive_array_type_id, field_type_id, primitive_array_length,
    primitive_array_type_id, Class, FieldDescriptor, Header, IdSize, Instance, LoadClass,
    ObjectArray, PrimitiveArray, Record, SubRecord, Utf8,
};
use crate::error::LoadError;
use crate::hierarchy::{
    completed, lemma_chain_from, spec_resolve_chain, with_definition, with_name, ClassInfo,
    ClassInfoView, Hierarchy,
};
use crate::ident::{map_ids, spec_map_ids, Mapping, MappingView};
use crate::row::{append_rows, rows_view, Row, RowView};
use crate::text::{primitive_array_text, spec_primitive_array_text, text_view};
use crate::value::{
    field_value_tuple, parse_value, spec_field_value_tuple, spec_parse_value, FieldValue,
};

verus! {

broadcast use vstd::std_specs::hash::group_hash_axioms;

/// The state of the second pass.
pub struct Context<'m> {
    pub class_infos: Hierarchy,
    pub id_size: IdSize,
    /// The key of the last object; 0 before the first.
    pub instance_id: i64,
    pub mapping: &'m Mapping,
}

/// A `Context` as a mathematical value.
pub struct ContextView {
    pub classes: Map<u64, ClassInfoView>,
    pub id_size: IdSize,
    pub instance_id: i64,
    pub mapping: MappingView,
}

impl<'m> View for Context<'m> {
    type V = ContextView;

    open spec fn view(&self) -> ContextView {
        ContextView {
            classes: self.class_infos@,
            id_size: self.id_size,
            instance_id: self.instance_id,
            mapping: self.mapping@,
        }
    }
}

impl ContextView {
    /// The context before the first record.
    pub open spec fn initial(id_size: IdSize, mapping: MappingView) -> ContextView {
        ContextView { classes: Map::empty(), id_size, instance_id: 0, mapping }
    }

    /// This context with other classes.
    pub open spec fn with_classes(self, classes: Map<u64, ClassInfoView>) -> ContextView {
        ContextView { classes, ..self }
    }

    /// This context after one more object.
    pub open spec fn with_next_object(self) -> ContextView {
        ContextView { instance_id: (self.instance_id + 1) as i64, ..self }
    }
}

/// What one step of the pass gives: the context after it and its rows.
pub type Step = Result<(ContextView, Seq<RowView>), LoadError>;

/// The row of the header.
pub open spec fn spec_header_row(header: Header) -> RowView {
    RowView::Header {
        label: header.label@,
        id_size: match header.id_size {
            IdSize::U32 => 4,
            IdSize::U64 => 8,
        },
        timestamp: header.timestamp_millis,
    }
}

/// The row of a complete class. The key of its superclass must be known.
pub open spec fn spec_insert_class(mapping: MappingView, info: ClassInfoView) -> Result<
    RowView,
    LoadError,
> {
    match info.super_id {
        None => Ok(
            RowView::Class {
                id: info.id,
                name_id: info.name_id->0,
                super_id: None,
                instance_size: info.instance_size->0,
            },
        ),
        Some(sup) => if mapping.class_ids.contains_key(sup) {
            Ok(
                RowView::Class {
                    id: info.id,
                    name_id: info.name_id->0,
                    super_id: Some(mapping.class_ids[sup]),
                    instance_size: info.instance_size->0,
                },
            )
        } else {
            Err(LoadError::UnknownClass(sup))
        },
    }
}

/// The rows of the fields of a class from position `ordinal` on, behind
/// `acc`. The key of each field's name must be known.
pub open spec fn spec_field_rows(
    mapping: MappingView,
    class_key: i64,
    fields: Seq<FieldDescriptor>,
    ordinal: int,
    acc: Seq<RowView>,
) -> Result<Seq<RowView>, LoadError>
    decreases fields.len() - ordinal,
{
    if ordinal < 0 || ordinal >= fields.len() {
        Ok(acc)
    } else if !mapping.name_ids.contains_key(fields[ordinal].name_id) {
        Err(LoadError::UnknownName(fields[ordinal].name_id))
    } else {
        spec_field_rows(
            mapping,
            class_key,
            fields,
            ordinal + 1,
            acc.push(
                RowView::Field {
                    class_id: class_key,
                    ordinal: ordinal as nat,
                    name_id: mapping.name_ids[fields[ordinal].name_id],
                    type_id: spec_field_type_id(fields[ordinal].field_type),
                },
            ),
        )
    }
}

/// The row of the class `id` where `classes` has made it complete and
/// `before` had not; no row otherwise.
pub open spec fn spec_completion_rows(
    mapping: MappingView,
    before: Map<u64, ClassInfoView>,
    classes: Map<u64, ClassInfoView>,
    id: u64,
    acc: Seq<RowView>,
) -> Result<Seq<RowView>, LoadError> {
    if completed(before, classes, id) {
        match spec_insert_class(mapping, classes[id]) {
            Ok(row) => Ok(acc.push(row)),
            Err(e) => Err(e),
        }
    } else {
        Ok(acc)
    }
}

/// The definition of a class. Of a class that is defined already, nothing
/// changes and there are no rows. Else the class must have a key; its rows
/// are those of its fields and, where the definition completes it, its own.
pub open spec fn spec_process_class(ctx: ContextView, class: Class) -> Step {
    if ctx.classes.contains_key(class.obj_id) && ctx.classes[class.obj_id].defined() {
        Ok((ctx, Seq::empty()))
    } else if !ctx.mapping.class_ids.contains_key(class.obj_id) {
        Err(LoadError::UnknownClass(class.obj_id))
    } else {
        let key = ctx.mapping.class_ids[class.obj_id];
        let classes = with_definition(
            ctx.classes,
            class.obj_id,
            key,
            class.super_class_obj_id,
            class.instance_size_bytes,
            class.instance_fields@,
        );
        match spec_field_rows(ctx.mapping, key, class.instance_fields@, 0, Seq::empty()) {
            Err(e) => Err(e),
            Ok(rows) => match spec_completion_rows(
                ctx.mapping,
                ctx.classes,
                classes,
                class.obj_id,
                rows,
            ) {
                Err(e) => Err(e),
                Ok(all) => Ok((ctx.with_classes(classes), all)),
            },
        }
    }
}

/// The load record of a class. Of a class that is named already, nothing
/// changes and there are no rows. Else the class and its name must have
/// keys; there is a row where the record completes the class.
pub open spec fn spec_process_load_class(ctx: ContextView, class: LoadClass) -> Step {
    if ctx.classes.contains_key(class.class_obj_id) && ctx.classes[class.class_obj_id].named() {
        Ok((ctx, Seq::empty()))
    } else if !ctx.mapping.class_ids.contains_key(class.class_obj_id) {
        Err(LoadError::UnknownClass(class.class_obj_id))
    } else if !ctx.mapping.name_ids.contains_key(class.class_name_id) {
        Err(LoadError::UnknownName(class.class_name_id))
    } else {
        let classes = with_name(
            ctx.classes,
            class.class_obj_id,
            ctx.mapping.class_ids[class.class_obj_id],
            ctx.mapping.name_ids[class.class_name_id],
        );
        match spec_completion_rows(
            ctx.mapping,
            ctx.classes,
            classes,
            class.class_obj_id,
            Seq::empty(),
        ) {
            Err(e) => Err(e),
            Ok(rows) => Ok((ctx.with_classes(classes), rows)),
        }
    }
}

/// The row of a field value; none for a null reference.
pub open spec fn spec_value_rows(
    instance_id: i64,
    class_key: i64,
    ordinal: nat,
    value: FieldValue,
) -> Seq<RowView> {
    if value.is_null() {
        Seq::empty()
    } else {
        let slots = spec_field_value_tuple(value);
        seq![
            RowView::FieldValue {
                instance_id,
                class_id: class_key,
                ordinal,
                floating: slots.0,
                integer: slots.1,
                reference: slots.2,
            },
        ]
    }
}

/// Reads the values of the fields of one class from position `ordinal` on,
/// from the front of `input`: the bytes that are left, and the rows of the
/// values behind `acc`. It is an error for `input` to end within a value.
pub open spec fn spec_class_values(
    fields: Seq<FieldDescriptor>,
    ordinal: int,
    input: Seq<u8>,
    id_size: IdSize,
    instance_id: i64,
    class_key: i64,
    obj_id: u64,
    acc: Seq<RowView>,
) -> Result<(Seq<u8>, Seq<RowView>), LoadError>
    decreases fields.len() - ordinal,
{
    if ordinal < 0 || ordinal >= fields.len() {
        Ok((input, acc))
    } else {
        match spec_parse_value(fields[ordinal].field_type, input, id_size) {
            None => Err(LoadError::TruncatedInstance(obj_id)),
            Some((rest, value)) => spec_class_values(
                fields,
                ordinal + 1,
                rest,
                id_size,
                instance_id,
                class_key,
                obj_id,
                acc + spec_value_rows(instance_id, class_key, ordinal as nat, value),
            ),
        }
    }
}

/// Reads the values of an instance from the front of `input`, class by class
/// from position `level` of its chain on: the rows of the values behind
/// `acc`.
pub open spec fn spec_chain_values(
    classes: Map<u64, ClassInfoView>,
    chain: Seq<u64>,
    level: int,
    input: Seq<u8>,
    id_size: IdSize,
    instance_id: i64,
    obj_id: u64,
    acc: Seq<RowView>,
) -> Result<Seq<RowView>, LoadError>
    decreases chain.len() - level,
{
    if level < 0 || level >= chain.len() {
        Ok(acc)
    } else {
        let info = classes[chain[level]];
        match spec_class_values(
            info.fields,
            0,
            input,
            id_size,
            instance_id,
            info.id,
            obj_id,
            acc,
        ) {
            Err(e) => Err(e),
            Ok((rest, rows)) => spec_chain_values(
                classes,
                chain,
                level + 1,
                rest,
                id_size,
                instance_id,
                obj_id,
                rows,
            ),
        }
    }
}

/// An instance. It gets the next key. Its class and the classes above it
/// must be defined. Its rows are that of its key, its own, and one for each
/// field of its chain that is not a null reference, in the order of the
/// chain and of the declarations.
pub open spec fn spec_process_instance(ctx: ContextView, instance: Instance) -> Step {
    if ctx.instance_id >= i64::MAX {
        Err(LoadError::TooManyObjects)
    } else {
        match spec_resolve_chain(ctx.classes, instance.class_obj_id) {
            Err(e) => Err(e),
            Ok(chain) => {
                let id = (ctx.instance_id + 1) as i64;
                let head = seq![
                    RowView::Object { id, native_id: instance.obj_id },
                    RowView::Instance { id, class_id: ctx.classes[instance.class_obj_id].id },
                ];
                match spec_chain_values(
                    ctx.classes,
                    chain,
                    0,
                    instance.fields@,
                    ctx.id_size,
                    id,
                    instance.obj_id,
                    head,
                ) {
                    Err(e) => Err(e),
                    Ok(rows) => Ok((ctx.with_next_object(), rows)),
                }
            },
        }
    }
}

/// The rows of the elements of an array of references.
pub open spec fn spec_item_rows(array_id: i64, elements: Seq<Option<u64>>) -> Seq<RowView> {
    Seq::new(
        elements.len(),
        |i: int| RowView::ObjArrayItem { array_id, ordinal: i as nat, reference: elements[i] },
    )
}

/// An array of references. It gets the next key. Its class must have been
/// seen. Its rows are that of its key, its own, and one for each element.
pub open spec fn spec_process_object_array(ctx: ContextView, array: ObjectArray) -> Step {
    if ctx.instance_id >= i64::MAX {
        Err(LoadError::TooManyObjects)
    } else if !ctx.classes.contains_key(array.array_class_obj_id) {
        Err(LoadError::UnknownClass(array.array_class_obj_id))
    } else {
        let id = (ctx.instance_id + 1) as i64;
        Ok(
            (
                ctx.with_next_object(),
                seq![
                    RowView::Object { id, native_id: array.obj_id },
                    RowView::ObjArray {
                        id,
                        class_id: ctx.classes[array.array_class_obj_id].id,
                        length: array.elements@.len(),
                    },
                ] + spec_item_rows(id, array.elements@),
            ),
        )
    }
}

/// An array of primitive values. It gets the next key. Its rows are that of
/// its key and its own, with its text where it has one.
pub open spec fn spec_process_primitive_array(ctx: ContextView, array: PrimitiveArray) -> Step {
    if ctx.instance_id >= i64::MAX {
        Err(LoadError::TooManyObjects)
    } else {
        match spec_primitive_array_text(array) {
            Err(e) => Err(e),
            Ok(text) => {
                let id = (ctx.instance_id + 1) as i64;
                Ok(
                    (
                        ctx.with_next_object(),
                        seq![
                            RowView::Object { id, native_id: array.obj_id },
                            RowView::PrimitiveArray {
                                id,
                                type_id: spec_primitive_array_type_id(
                                    array.elements.spec_primitive_type(),
                                ),
                                length: array.elements.spec_len(),
                                text,
                            },
                        ],
                    ),
                )
            },
        }
    }
}

/// One sub-record of a heap dump segment.
pub open spec fn spec_process_sub_record(ctx: ContextView, sub: SubRecord) -> Step {
    match sub {
        SubRecord::Class(class) => spec_process_class(ctx, class),
        SubRecord::Instance(instance) => spec_process_instance(ctx, instance),
        SubRecord::ObjectArray(array) => spec_process_object_array(ctx, array),
        SubRecord::PrimitiveArray(array) => spec_process_primitive_array(ctx, array),
        SubRecord::Other => Ok((ctx, Seq::empty())),
    }
}

/// The sub-records from position `from` on, one after the other: the context
/// after the last, and the rows of all of them behind `acc`. The first that
/// fails ends the pass.
pub open spec fn spec_sub_records_from(
    ctx: ContextView,
    subs: Seq<SubRecord>,
    from: int,
    acc: Seq<RowView>,
) -> Step
    decreases subs.len() - from,
{
    if from < 0 || from >= subs.len() {
        Ok((ctx, acc))
    } else {
        match spec_process_sub_record(ctx, subs[from]) {
            Err(e) => Err(e),
            Ok((next, rows)) => spec_sub_records_from(next, subs, from + 1, acc + rows),
        }
    }
}

/// The sub-records of a heap dump segment, one after the other.
pub open spec fn spec_parse_dump_records(ctx: ContextView, subs: Seq<SubRecord>) -> Step {
    spec_sub_records_from(ctx, subs, 0, Seq::empty())
}

/// An entry of the string pool: one row, under the key of its identifier,
/// which must be known.
pub open spec fn spec_process_name(ctx: ContextView, name: Utf8) -> Step {
    if !ctx.mapping.name_ids.contains_key(name.name_id) {
        Err(LoadError::UnknownName(name.name_id))
    } else {
        Ok((ctx, seq![RowView::Name { id: ctx.mapping.name_ids[name.name_id], bytes: name.text@ }]))
    }
}

/// One record of the capture.
pub open spec fn spec_parse_record(ctx: ContextView, record: Record) -> Step {
    match record {
        Record::Utf8(name) => spec_process_name(ctx, name),
        Record::LoadClass(class) => spec_process_load_class(ctx, class),
        Record::HeapDumpSegment(subs) => spec_parse_dump_records(ctx, subs@),
        Record::Other => Ok((ctx, Seq::empty())),
    }
}

/// The records from position `from` on, one after the other: the context
/// after the last, and the rows of all of them behind `acc`. The first that
/// fails ends the pass.
pub open spec fn spec_records_from(
    ctx: ContextView,
    records: Seq<Record>,
    from: int,
    acc: Seq<RowView>,
) -> Step
    decreases records.len() - from,
{
    if from < 0 || from >= records.len() {
        Ok((ctx, acc))
    } else {
        match spec_parse_record(ctx, records[from]) {
            Err(e) => Err(e),
            Ok((next, rows)) => spec_records_from(next, records, from + 1, acc + rows),
        }
    }
}

/// The rows of a whole capture: that of its header, then those of its
/// records in their order. There are rows only where no record fails.
pub open spec fn spec_parse_records(
    header: Header,
    records: Seq<Record>,
    mapping: MappingView,
) -> Result<Seq<RowView>, LoadError> {
    match spec_records_from(
        ContextView::initial(header.id_size, mapping),
        records,
        0,
        seq![spec_header_row(header)],
    ) {
        Ok((_, rows)) => Ok(rows),
        Err(e) => Err(e),
    }
}

/// The rows of a capture, with the keys that its own first pass gives.
pub open spec fn spec_convert(header: Header, records: Seq<Record>) -> Result<
    Seq<RowView>,
    LoadError,
> {
    if spec_map_ids(records).fits() {
        spec_parse_records(header, records, spec_map_ids(records))
    } else {
        Err(LoadError::TooManyIdentifiers)
    }
}

impl<'m> Context<'m> {
    /// The context before the first record.
    pub fn new(id_size: IdSize, mapping: &'m Mapping) -> (context: Context<'m>)
        ensures
            context@ == ContextView::initial(id_size, mapping@),
    {
        Context { class_infos: Hierarchy::new(), id_size, instance_id: 0, mapping }
    }

    /// Gives the object `obj_id` the next key, and adds to `rows` the row
    /// that holds the two. Fails where no key is left.
    pub fn next_instance_id(&mut self, obj_id: u64, rows: &mut Vec<Row>) -> (r: Result<
        i64,
        LoadError,
    >)
        ensures
            old(self)@.instance_id >= i64::MAX ==> r == Err::<i64, LoadError>(
                LoadError::TooManyObjects,
            ),
            old(self)@.instance_id < i64::MAX ==> r == Ok::<i64, LoadError>(
                (old(self)@.instance_id + 1) as i64,
            ) && final(self)@ == old(self)@.with_next_object() && rows_view(final(rows)@)
                == rows_view(old(rows)@).push(
                RowView::Object { id: (old(self)@.instance_id + 1) as i64, native_id: obj_id },
            ),
    {
        if self.instance_id >= i64::MAX {
            return Err(LoadError::TooManyObjects);
        }
        self.instance_id = self.instance_id + 1;
        let row = Row::Object { id: self.instance_id, native_id: obj_id };
        let ghost start = rows_view(rows@);
        rows.push(row);
        assert(rows_view(rows@) =~= start.push(row@));
        Ok(self.instance_id)
    }
}

/// The key of an identifier in a table.
fn lookup(table: &std::collections::HashMap<u64, i64>, id: u64) -> (key: Option<i64>)
    ensures
        match key {
            Some(k) => table@.contains_key(id) && table@[id] == k,
            None => !table@.contains_key(id),
        },
{
    match table.get(&id) {
        Some(k) => Some(*k),
        None => None,
    }
}

/// The row of the header.
pub fn header_row(header: &Header) -> (row: Row)
    ensures
        row@ == spec_header_row(*header),
{
    Row::Header {
        label: header.label.clone(),
        id_size: match header.id_size {
            IdSize::U32 => 4,
            IdSize::U64 => 8,
        },
        timestamp: header.timestamp_millis,
    }
}

/// The row of a complete class.
pub fn insert_class(mapping: &Mapping, info: &ClassInfo) -> (r: Result<Row, LoadError>)
    requires
        info@.complete(),
    ensures
        match spec_insert_class(mapping@, info@) {
            Ok(row) => r matches Ok(out) && out@ == row,
            Err(e) => r matches Err(f) && f == e,
        },
{
    let name_id = match info.name_id {
        Some(n) => n,
        None => 0,
    };
    let instance_size = match info.instance_size {
        Some(s) => s,
        None => 0,
    };
    let super_id = match info.super_id {
        None => None,
        Some(sup) => match lookup(&mapping.class_ids, sup) {
            Some(key) => Some(key),
            None => {
                return Err(LoadError::UnknownClass(sup));
            },
        },
    };
    Ok(Row::Class { id: info.id, name_id, super_id, instance_size })
}

/// The rows of the fields that a class declares.
fn field_rows(mapping: &Mapping, class_key: i64, fields: &Vec<FieldDescriptor>) -> (r: Result<
    Vec<Row>,
    LoadError,
>)
    ensures
        match spec_field_rows(mapping@, class_key, fields@, 0, Seq::empty()) {
            Ok(rows) => r matches Ok(out) && rows_view(out@) == rows,
            Err(e) => r matches Err(f) && f == e,
        },
{
    let mut rows: Vec<Row> = Vec::new();
    let mut i: usize = 0;
    assert(rows_view(rows@) =~= Seq::<RowView>::empty());
    while i < fields.len()
        invariant
            i <= fields.len(),
            spec_field_rows(mapping@, class_key, fields@, 0, Seq::empty()) == spec_field_rows(
                mapping@,
                class_key,
                fields@,
                i as int,
                rows_view(rows@),
            ),
        decreases fields.len() - i,
    {
        let field = fields[i];
        let name_id = match lookup(&mapping.name_ids, field.name_id) {
            Some(key) => key,
            None => {
                return Err(LoadError::UnknownName(field.name_id));
            },
        };
        let row = Row::Field {
            class_id: class_key,
            ordinal: i,
            name_id,
            type_id: field_type_id(field.field_type),
        };
        let ghost before = rows_view(rows@);
        rows.push(row);
        assert(rows_view(rows@) =~= before.push(row@));
        i = i + 1;
    }
    Ok(rows)
}

/// Adds the row of class `id` to `rows` where the class has just become
/// complete.
fn completion_rows(
    context: &Context,
    id: u64,
    now_complete: bool,
    rows: Vec<Row>,
    Ghost(before): Ghost<Map<u64, ClassInfoView>>,
) -> (r: Result<Vec<Row>, LoadError>)
    requires
        now_complete == completed(before, context@.classes, id),
    ensures
        match spec_completion_rows(
            context@.mapping,
            before,
            context@.classes,
            id,
            rows_view(rows@),
        ) {
            Ok(all) => r matches Ok(out) && rows_view(out@) == all,
            Err(e) => r matches Err(f) && f == e,
        },
{
    if !now_complete {
        return Ok(rows);
    }
    let info = match context.class_infos.get(id) {
        Some(info) => info,
        None => unreached(),
    };
    match insert_class(context.mapping, info) {
        Ok(row) => {
            let mut rows = rows;
            let ghost start = rows_view(rows@);
            rows.push(row);
            assert(rows_view(rows@) =~= start.push(row@));
            Ok(rows)
        },
        Err(e) => Err(e),
    }
}

/// Sees the definition of a class: says what its rows are and takes note of
/// its layout. Where it fails, the context is of no further use.
pub fn process_class(class: &Class, context: &mut Context) -> (r: Result<Vec<Row>, LoadError>)
    ensures
        match spec_process_class(old(context)@, *class) {
            Ok((ctx, rows)) => r matches Ok(out) && rows_view(out@) == rows && final(context)@
                == ctx,
            Err(e) => r matches Err(f) && f == e,
        },
{
    let ghost before = context@.classes;
    match context.class_infos.get(class.obj_id) {
        Some(info) => {
            if info.instance_size.is_some() {
                let rows: Vec<Row> = Vec::new();
                assert(rows_view(rows@) =~= Seq::<RowView>::empty());
                return Ok(rows);
            }
        },
        None => {},
    }
    let key = match lookup(&context.mapping.class_ids, class.obj_id) {
        Some(key) => key,
        None => {
            return Err(LoadError::UnknownClass(class.obj_id));
        },
    };
    let rows = match field_rows(context.mapping, key, &class.instance_fields) {
        Ok(rows) => rows,
        Err(e) => {
            return Err(e);
        },
    };
    let now_complete = context.class_infos.observe_class_definition(class, key);
    completion_rows(context, class.obj_id, now_complete, rows, Ghost(before))
}

/// Sees the load record of a class: takes note of its name and says what
/// its rows are. Where it fails, the context is of no further use.
pub fn process_load_class(class: &LoadClass, context: &mut Context) -> (r: Result<
    Vec<Row>,
    LoadError,
>)
    ensures
        match spec_process_load_class(old(context)@, *class) {
            Ok((ctx, rows)) => r matches Ok(out) && rows_view(out@) == rows && final(context)@
                == ctx,
            Err(e) => r matches Err(f) && f == e,
        },
{
    let ghost before = context@.classes;
    let rows: Vec<Row> = Vec::new();
    assert(rows_view(rows@) =~= Seq::<RowView>::empty());
    match context.class_infos.get(class.class_obj_id) {
        Some(info) => {
            if info.name_id.is_some() {
                return Ok(rows);
            }
        },
        None => {},
    }
    let key = match lookup(&context.mapping.class_ids, class.class_obj_id) {
        Some(key) => key,
        None => {
            return Err(LoadError::UnknownClass(class.class_obj_id));
        },
    };
    let name_key = match lookup(&context.mapping.name_ids, class.class_name_id) {
        Some(key) => key,
        None => {
            return Err(LoadError::UnknownName(class.class_name_id));
        },
    };
    let now_complete = context.class_infos.observe_class_load(class.class_obj_id, key, name_key);
    completion_rows(context, class.class_obj_id, now_complete, rows, Ghost(before))
}

/// Reads the values of the fields of one class from `input` at `pos`, and
/// adds their rows to `rows`. Returns the position behind the last value.
fn class_values(
    fields: &Vec<FieldDescriptor>,
    class_key: i64,
    input: &[u8],
    pos: usize,
    id_size: IdSize,
    instance_id: i64,
    obj_id: u64,
    rows: &mut Vec<Row>,
) -> (r: Result<usize, LoadError>)
    requires
        pos <= input.len(),
    ensures
        match spec_class_values(
            fields@,
            0,
            input@.skip(pos as int),
            id_size,
            instance_id,
            class_key,
            obj_id,
            rows_view(old(rows)@),
        ) {
            Ok((rest, all)) => r matches Ok(end) && end <= input.len() && rest == input@.skip(
                end as int,
            ) && rows_view(final(rows)@) == all,
            Err(e) => r matches Err(f) && f == e,
        },
{
    let mut at: usize = pos;
    let mut i: usize = 0;
    while i < fields.len()
        invariant
            i <= fields.len(),
            at <= input.len(),
            spec_class_values(
                fields@,
                0,
                input@.skip(pos as int),
                id_size,
                instance_id,
                class_key,
                obj_id,
                rows_view(old(rows)@),
            ) == spec_class_values(
                fields@,
                i as int,
                input@.skip(at as int),
                id_size,
                instance_id,
                class_key,
                obj_id,
                rows_view(rows@),
            ),
        decreases fields.len() - i,
    {
        let (value, end) = match parse_value(fields[i].field_type, input, at, id_size) {
            Some(found) => found,
            None => {
                return Err(LoadError::TruncatedInstance(obj_id));
            },
        };
        let ghost before = rows_view(rows@);
        let (floating, integer, reference) = field_value_tuple(value);
        let is_null = match value {
            FieldValue::ObjectId(None) => true,
            _ => false,
        };
        if !is_null {
            let row = Row::FieldValue {
                instance_id,
                class_id: class_key,
                ordinal: i,
                floating,
                integer,
                reference,
            };
            rows.push(row);
            assert(rows_view(rows@) =~= before + seq![row@]);
        } else {
            assert(rows_view(rows@) =~= before + Seq::<RowView>::empty());
        }
        at = end;
        i = i + 1;
    }
    Ok(at)
}

/// Reads the values of an instance, class by class along its chain, and adds
/// their rows to `rows`.
fn chain_values(
    classes: &Hierarchy,
    chain: &Vec<u64>,
    input: &[u8],
    id_size: IdSize,
    instance_id: i64,
    obj_id: u64,
    rows: &mut Vec<Row>,
) -> (r: Result<(), LoadError>)
    requires
        forall|i: int| 0 <= i < chain.len() ==> classes@.contains_key(#[trigger] chain@[i]),
    ensures
        match spec_chain_values(
            classes@,
            chain@,
            0,
            input@,
            id_size,
            instance_id,
            obj_id,
            rows_view(old(rows)@),
        ) {
            Ok(all) => r is Ok && rows_view(final(rows)@) == all,
            Err(e) => r matches Err(f) && f == e,
        },
{
    let mut at: usize = 0;
    let mut level: usize = 0;
    assert(input@.skip(0) =~= input@);
    while level < chain.len()
        invariant
            level <= chain.len(),
            at <= input.len(),
            forall|i: int| 0 <= i < chain.len() ==> classes@.contains_key(#[trigger] chain@[i]),
            spec_chain_values(
                classes@,
                chain@,
                0,
                input@,
                id_size,
                instance_id,
                obj_id,
                rows_view(old(rows)@),
            ) == spec_chain_values(
                classes@,
                chain@,
                level as int,
                input@.skip(at as int),
                id_size,
                instance_id,
                obj_id,
                rows_view(rows@),
            ),
        decreases chain.len() - level,
    {
        assert(classes@.contains_key(chain@[level as int]));
        let info = match classes.get(chain[level]) {
            Some(info) => info,
            None => unreached(),
        };
        at = match class_values(
            &info.fields,
            info.id,
            input,
            at,
            id_size,
            instance_id,
            obj_id,
            rows,
        ) {
            Ok(end) => end,
            Err(e) => {
                return Err(e);
            },
        };
        level = level + 1;
    }
    Ok(())
}

/// Sees an instance: says what its rows are and counts it. Where it fails,
/// the context is of no further use.
pub fn process_instance(instance: &Instance, context: &mut Context) -> (r: Result<
    Vec<Row>,
    LoadError,
>)
    ensures
        match spec_process_instance(old(context)@, *instance) {
            Ok((ctx, rows)) => r matches Ok(out) && rows_view(out@) == rows && final(context)@
                == ctx,
            Err(e) => r matches Err(f) && f == e,
        },
{
    let mut rows: Vec<Row> = Vec::new();
    assert(rows_view(rows@) =~= Seq::<RowView>::empty());
    let id = match context.next_instance_id(instance.obj_id, &mut rows) {
        Ok(id) => id,
        Err(e) => {
            return Err(e);
        },
    };
    let chain = match context.class_infos.resolve_chain(instance.class_obj_id) {
        Ok(chain) => chain,
        Err(e) => {
            return Err(e);
        },
    };
    proof {
        context.class_infos.lemma_finite();
        lemma_chain_from(context@.classes, Some(instance.class_obj_id), Seq::empty());
    }
    let class_id = match context.class_infos.get(instance.class_obj_id) {
        Some(info) => info.id,
        None => unreached(),
    };
    let row = Row::Instance { id, class_id };
    let ghost start = rows_view(rows@);
    rows.push(row);
    assert(rows_view(rows@) =~= start.push(row@));
    let ghost head = rows_view(rows@);
    assert(head =~= seq![
        RowView::Object { id, native_id: instance.obj_id },
        RowView::Instance { id, class_id },
    ]);
    match chain_values(
        &context.class_infos,
        &chain,
        instance.fields.as_slice(),
        context.id_size,
        id,
        instance.obj_id,
        &mut rows,
    ) {
        Ok(()) => Ok(rows),
        Err(e) => Err(e),
    }
}

/// The rows of the elements of an array of references.
fn item_rows(array_id: i64, elements: &Vec<Option<u64>>, rows: &mut Vec<Row>)
    ensures
        rows_view(final(rows)@) == rows_view(old(rows)@) + spec_item_rows(array_id, elements@),
{
    let ghost start = rows_view(rows@);
    let mut i: usize = 0;
    assert(rows_view(rows@) =~= start + spec_item_rows(array_id, elements@.take(0)));
    while i < elements.len()
        invariant
            i <= elements.len(),
            rows_view(rows@) == start + spec_item_rows(array_id, elements@.take(i as int)),
        decreases elements.len() - i,
    {
        let row = Row::ObjArrayItem { array_id, ordinal: i, reference: elements[i] };
        let ghost before = rows_view(rows@);
        rows.push(row);
        assert(rows_view(rows@) =~= before.push(row@));
        assert(spec_item_rows(array_id, elements@.take(i + 1)) =~= spec_item_rows(
            array_id,
            elements@.take(i as int),
        ).push(row@));
        i = i + 1;
    }
    assert(elements@.take(elements@.len() as int) =~= elements@);
}

/// Sees an array of references: says what its rows are and counts it. Where
/// it fails, the context is of no further use.
pub fn process_object_array(array: &ObjectArray, context: &mut Context) -> (r: Result<
    Vec<Row>,
    LoadError,
>)
    ensures
        match spec_process_object_array(old(context)@, *array) {
            Ok((ctx, rows)) => r matches Ok(out) && rows_view(out@) == rows && final(context)@
                == ctx,
            Err(e) => r matches Err(f) && f == e,
        },
{
    let mut rows: Vec<Row> = Vec::new();
    assert(rows_view(rows@) =~= Seq::<RowView>::empty());
    let id = match context.next_instance_id(array.obj_id, &mut rows) {
        Ok(id) => id,
        Err(e) => {
            return Err(e);
        },
    };
    let class_id = match context.class_infos.get(array.array_class_obj_id) {
        Some(info) => info.id,
        None => {
            return Err(LoadError::UnknownClass(array.array_class_obj_id));
        },
    };
    let row = Row::ObjArray { id, class_id, length: array.elements.len() };
    let ghost start = rows_view(rows@);
    rows.push(row);
    assert(rows_view(rows@) =~= start.push(row@));
    assert(rows_view(rows@) =~= seq![
        RowView::Object { id, native_id: array.obj_id },
        RowView::ObjArray { id, class_id, length: array.elements@.len() },
    ]);
    item_rows(id, &array.elements, &mut rows);
    Ok(rows)
}

/// Sees an array of primitive values: says what its rows are and counts it.
/// Where it fails, the context is of no further use.
pub fn process_primitive_array(array: &PrimitiveArray, context: &mut Context) -> (r: Result<
    Vec<Row>,
    LoadError,
>)
    ensures
        match spec_process_primitive_array(old(context)@, *array) {
            Ok((ctx, rows)) => r matches Ok(out) && rows_view(out@) == rows && final(context)@
                == ctx,
            Err(e) => r matches Err(f) && f == e,
        },
{
    let mut rows: Vec<Row> = Vec::new();
    assert(rows_view(rows@) =~= Seq::<RowView>::empty());
    let id = match context.next_instance_id(array.obj_id, &mut rows) {
        Ok(id) => id,
        Err(e) => {
            return Err(e);
        },
    };
    let text = match primitive_array_text(array) {
        Ok(text) => text,
        Err(e) => {
            return Err(e);
        },
    };
    let row = Row::PrimitiveArray {
        id,
        type_id: primitive_array_type_id(array.primitive_type()),
        length: primitive_array_length(array),
        text,
    };
    let ghost start = rows_view(rows@);
    rows.push(row);
    assert(rows_view(rows@) =~= start.push(row@));
    assert(rows_view(rows@) =~= seq![
        RowView::Object { id, native_id: array.obj_id },
        row@,
    ]);
    Ok(rows)
}

/// Sees one sub-record of a heap dump segment.
pub fn process_sub_record(sub: &SubRecord, context: &mut Context) -> (r: Result<
    Vec<Row>,
    LoadError,
>)
    ensures
        match spec_process_sub_record(old(context)@, *sub) {
            Ok((ctx, rows)) => r matches Ok(out) && rows_view(out@) == rows && final(context)@
                == ctx,
            Err(e) => r matches Err(f) && f == e,
        },
{
    match sub {
        SubRecord::Class(class) => process_class(class, context),
        SubRecord::Instance(instance) => process_instance(instance, context),
        SubRecord::ObjectArray(array) => process_object_array(array, context),
        SubRecord::PrimitiveArray(array) => process_primitive_array(array, context),
        SubRecord::Other => {
            let rows: Vec<Row> = Vec::new();
            assert(rows_view(rows@) =~= Seq::<RowView>::empty());
            Ok(rows)
        },
    }
}

/// Sees the sub-records of a heap dump segment, one after the other. Where
/// one fails, the context is of no further use.
pub fn parse_dump_records(subs: &Vec<SubRecord>, context: &mut Context) -> (r: Result<
    Vec<Row>,
    LoadError,
>)
    ensures
        match spec_parse_dump_records(old(context)@, subs@) {
            Ok((ctx, rows)) => r matches Ok(out) && rows_view(out@) == rows && final(context)@
                == ctx,
            Err(e) => r matches Err(f) && f == e,
        },
{
    let mut rows: Vec<Row> = Vec::new();
    assert(rows_view(rows@) =~= Seq::<RowView>::empty());
    let mut i: usize = 0;
    while i < subs.len()
        invariant
            i <= subs.len(),
            spec_parse_dump_records(old(context)@, subs@) == spec_sub_records_from(
                context@,
                subs@,
                i as int,
                rows_view(rows@),
            ),
        decreases subs.len() - i,
    {
        match process_sub_record(&subs[i], context) {
            Ok(more) => append_rows(&mut rows, more),
            Err(e) => {
                return Err(e);
            },
        }
        i = i + 1;
    }
    Ok(rows)
}

/// Sees one record of the capture: says what its rows are and takes note of
/// what it tells. Where it fails, the context is of no further use.
pub fn parse_record(record: &Record, context: &mut Context) -> (r: Result<Vec<Row>, LoadError>)
    ensures
        match spec_parse_record(old(context)@, *record) {
            Ok((ctx, rows)) => r matches Ok(out) && rows_view(out@) == rows && final(context)@
                == ctx,
            Err(e) => r matches Err(f) && f == e,
        },
{
    match record {
        Record::Utf8(name) => {
            let id = match lookup(&context.mapping.name_ids, name.name_id) {
                Some(key) => key,
                None => {
                    return Err(LoadError::UnknownName(name.name_id));
                },
            };
            let mut rows: Vec<Row> = Vec::new();
            let row = Row::Name { id, bytes: name.text.clone() };
            rows.push(row);
            assert(rows_view(rows@) =~= seq![row@]);
            Ok(rows)
        },
        Record::LoadClass(class) => process_load_class(class, context),
        Record::HeapDumpSegment(subs) => parse_dump_records(subs, context),
        Record::Other => {
            let rows: Vec<Row> = Vec::new();
            assert(rows_view(rows@) =~= Seq::<RowView>::empty());
            Ok(rows)
        },
    }
}

/// The second pass over a whole capture: the row of the header, then the
/// rows of the records in their order. Where a record fails there are no
/// rows at all.
pub fn parse_records(header: &Header, records: &Vec<Record>, mapping: &Mapping) -> (r: Result<
    Vec<Row>,
    LoadError,
>)
    ensures
        match spec_parse_records(*header, records@, mapping@) {
            Ok(rows) => r matches Ok(out) && rows_view(out@) == rows,
            Err(e) => r matches Err(f) && f == e,
        },
{
    let mut context = Context::new(header.id_size, mapping);
    let mut rows: Vec<Row> = Vec::new();
    let first = header_row(header);
    rows.push(first);
    assert(rows_view(rows@) =~= seq![first@]);
    let mut i: usize = 0;
    while i < records.len()
        invariant
            i <= records.len(),
            spec_records_from(
                ContextView::initial(header.id_size, mapping@),
                records@,
                0,
                seq![spec_header_row(*header)],
            ) == spec_records_from(context@, records@, i as int, rows_view(rows@)),
        decreases records.len() - i,
    {
        match parse_record(&records[i], &mut context) {
            Ok(more) => append_rows(&mut rows, more),
            Err(e) => {
                return Err(e);
            },
        }
        i = i + 1;
    }
    Ok(rows)
}

/// Both passes over a capture that is held as a whole: its rows, or the
/// reason for which it has none.
pub fn convert(header: &Header, records: &Vec<Record>) -> (r: Result<Vec<Row>, LoadError>)
    ensures
        match spec_convert(*header, records@) {
            Ok(rows) => r matches Ok(out) && rows_view(out@) == rows,
            Err(e) => r matches Err(f) && f == e,
        },
{
    match map_ids(records) {
        Ok(mapping) => parse_records(header, records, &mapping),
        Err(e) => Err(e),
    }
}

} // verus!
