use hprof_sqlite::capture::{
    Class, FieldDescriptor, FieldType, Header, IdSize, Instance, LoadClass, ObjectArray,
    PrimitiveArray, PrimitiveElements, Record, SubRecord, Utf8,
};
use hprof_sqlite::error::LoadError;
use hprof_sqlite::hierarchy::ClassInfo;
use hprof_sqlite::ident::{map_ids, Mapping};
use hprof_sqlite::loader::{
    convert, header_row, insert_class, parse_dump_records, parse_record, parse_records,
    process_class, process_instance, process_load_class, process_object_array,
    process_primitive_array, process_sub_record, Context,
};
use hprof_sqlite::row::{append_rows, Row};
use hprof_sqlite::value::Floating;

const OBJECT: u64 = 0x10;
const POINT: u64 = 0x20;

fn header() -> Header {
    Header { label: String::from("JAVA PROFILE 1.0.2"), id_size: IdSize::U32, timestamp_millis: 1234 }
}

fn name(name_id: u64, text: &str) -> Record {
    Record::Utf8(Utf8 { name_id, text: text.as_bytes().to_vec() })
}

fn load(class_obj_id: u64, class_name_id: u64) -> Record {
    Record::LoadClass(LoadClass { class_obj_id, class_name_id })
}

fn field(name_id: u64, field_type: FieldType) -> FieldDescriptor {
    FieldDescriptor { name_id, field_type }
}

fn object_class() -> Class {
    Class {
        obj_id: OBJECT,
        super_class_obj_id: None,
        instance_size_bytes: 8,
        instance_fields: vec![field(104, FieldType::Int)],
    }
}

fn point_class() -> Class {
    Class {
        obj_id: POINT,
        super_class_obj_id: Some(OBJECT),
        instance_size_bytes: 16,
        instance_fields: vec![field(102, FieldType::Short), field(103, FieldType::ObjectId)],
    }
}

fn names() -> Vec<Record> {
    vec![
        name(100, "java/lang/Object"),
        name(101, "Point"),
        name(102, "x"),
        name(103, "next"),
        name(104, "hash"),
    ]
}

fn first_point() -> Instance {
    Instance {
        obj_id: 0xA1,
        class_obj_id: POINT,
        fields: vec![0x01, 0x02, 0x00, 0x00, 0x00, 0xA2, 0xFF, 0xFF, 0xFF, 0xFF],
    }
}

fn second_point() -> Instance {
    Instance {
        obj_id: 0xA2,
        class_obj_id: POINT,
        fields: vec![0xFF, 0xFF, 0x00, 0x00, 0x00, 0x00, 0x00, 0x00, 0x00, 0x07],
    }
}

fn points() -> ObjectArray {
    ObjectArray { obj_id: 0xB1, array_class_obj_id: POINT, elements: vec![Some(0xA1), None, Some(0xA2)] }
}

fn hello() -> PrimitiveArray {
    PrimitiveArray {
        obj_id: 0xC1,
        elements: PrimitiveElements::Bytes(vec![104, 101, 108, 108, 111]),
    }
}

fn capture() -> Vec<Record> {
    let mut records = names();
    records.push(load(OBJECT, 100));
    records.push(load(POINT, 101));
    records.push(Record::Other);
    records.push(Record::HeapDumpSegment(vec![
        SubRecord::Class(object_class()),
        SubRecord::Other,
        SubRecord::Class(point_class()),
        SubRecord::Instance(first_point()),
        SubRecord::Instance(second_point()),
        SubRecord::ObjectArray(points()),
        SubRecord::PrimitiveArray(hello()),
    ]));
    records
}

fn integer(instance_id: i64, class_id: i64, ordinal: usize, value: i64) -> Row {
    Row::FieldValue {
        instance_id,
        class_id,
        ordinal,
        floating: None,
        integer: Some(value),
        reference: None,
    }
}

fn reference(instance_id: i64, class_id: i64, ordinal: usize, value: u64) -> Row {
    Row::FieldValue {
        instance_id,
        class_id,
        ordinal,
        floating: None,
        integer: None,
        reference: Some(value),
    }
}

fn expected_rows() -> Vec<Row> {
    vec![
        Row::Header { label: String::from("JAVA PROFILE 1.0.2"), id_size: 4, timestamp: 1234 },
        Row::Name { id: 1, bytes: b"java/lang/Object".to_vec() },
        Row::Name { id: 2, bytes: b"Point".to_vec() },
        Row::Name { id: 3, bytes: b"x".to_vec() },
        Row::Name { id: 4, bytes: b"next".to_vec() },
        Row::Name { id: 5, bytes: b"hash".to_vec() },
        Row::Field { class_id: 1, ordinal: 0, name_id: 5, type_id: 10 },
        Row::Class { id: 1, name_id: 1, super_id: None, instance_size: 8 },
        Row::Field { class_id: 2, ordinal: 0, name_id: 3, type_id: 9 },
        Row::Field { class_id: 2, ordinal: 1, name_id: 4, type_id: 2 },
        Row::Class { id: 2, name_id: 2, super_id: Some(1), instance_size: 16 },
        Row::Object { id: 1, native_id: 0xA1 },
        Row::Instance { id: 1, class_id: 2 },
        integer(1, 2, 0, 258),
        reference(1, 2, 1, 0xA2),
        integer(1, 1, 0, -1),
        Row::Object { id: 2, native_id: 0xA2 },
        Row::Instance { id: 2, class_id: 2 },
        integer(2, 2, 0, -1),
        integer(2, 1, 0, 7),
        Row::Object { id: 3, native_id: 0xB1 },
        Row::ObjArray { id: 3, class_id: 2, length: 3 },
        Row::ObjArrayItem { array_id: 3, ordinal: 0, reference: Some(0xA1) },
        Row::ObjArrayItem { array_id: 3, ordinal: 1, reference: None },
        Row::ObjArrayItem { array_id: 3, ordinal: 2, reference: Some(0xA2) },
        Row::Object { id: 4, native_id: 0xC1 },
        Row::PrimitiveArray { id: 4, type_id: 8, length: 5, text: Some(String::from("hello")) },
    ]
}

/// The keys of the names and classes of `capture()`, and a context in which
/// both classes are complete.
fn mapping() -> Mapping {
    map_ids(&capture()).unwrap()
}

fn with_classes(mapping: &Mapping) -> Context<'_> {
    let mut context = Context::new(IdSize::U32, mapping);
    for record in [load(OBJECT, 100), load(POINT, 101)] {
        parse_record(&record, &mut context).unwrap();
    }
    process_class(&object_class(), &mut context).unwrap();
    process_class(&point_class(), &mut context).unwrap();
    context
}

#[test]
fn whole_capture() {
    let records = capture();
    let mapping = map_ids(&records).unwrap();
    assert_eq!(parse_records(&header(), &records, &mapping), Ok(expected_rows()));
}

#[test]
fn convert_makes_both_passes() {
    assert_eq!(convert(&header(), &capture()), Ok(expected_rows()));
}

#[test]
fn convert_twice_gives_the_same_rows() {
    assert_eq!(convert(&header(), &capture()), convert(&header(), &capture()));
}

#[test]
fn convert_of_nothing_is_the_header() {
    let wide = Header { label: String::new(), id_size: IdSize::U64, timestamp_millis: u64::MAX };
    assert_eq!(
        convert(&wide, &vec![]),
        Ok(vec![Row::Header { label: String::new(), id_size: 8, timestamp: u64::MAX }])
    );
}

#[test]
fn header_row_has_the_width_in_bytes() {
    assert_eq!(
        header_row(&header()),
        Row::Header { label: String::from("JAVA PROFILE 1.0.2"), id_size: 4, timestamp: 1234 }
    );
}

#[test]
fn record_by_record_gives_the_same_rows() {
    let records = capture();
    let mapping = map_ids(&records).unwrap();
    let mut context = Context::new(IdSize::U32, &mapping);
    let mut rows = vec![header_row(&header())];
    for record in &records {
        append_rows(&mut rows, parse_record(record, &mut context).unwrap());
    }
    assert_eq!(rows, expected_rows());
    assert_eq!(context.instance_id, 4);
}

#[test]
fn cutting_a_segment_keeps_the_rows() {
    let mut records = Vec::new();
    for record in capture() {
        match record {
            Record::HeapDumpSegment(subs) => {
                for sub in subs {
                    records.push(Record::HeapDumpSegment(vec![sub]));
                }
            }
            other => records.push(other),
        }
    }
    assert_eq!(records.len(), 15);
    assert_eq!(convert(&header(), &records), Ok(expected_rows()));
}

#[test]
fn segment_rows() {
    let mapping = mapping();
    let mut context = with_classes(&mapping);
    let subs = vec![
        SubRecord::Other,
        SubRecord::Instance(second_point()),
        SubRecord::PrimitiveArray(hello()),
    ];
    assert_eq!(
        parse_dump_records(&subs, &mut context),
        Ok(vec![
            Row::Object { id: 1, native_id: 0xA2 },
            Row::Instance { id: 1, class_id: 2 },
            integer(1, 2, 0, -1),
            integer(1, 1, 0, 7),
            Row::Object { id: 2, native_id: 0xC1 },
            Row::PrimitiveArray { id: 2, type_id: 8, length: 5, text: Some(String::from("hello")) },
        ])
    );
    assert_eq!(context.instance_id, 2);
}

#[test]
fn other_records_give_no_rows() {
    let mapping = mapping();
    let mut context = Context::new(IdSize::U32, &mapping);
    assert_eq!(parse_record(&Record::Other, &mut context), Ok(vec![]));
    assert_eq!(process_sub_record(&SubRecord::Other, &mut context), Ok(vec![]));
    assert_eq!(parse_record(&Record::HeapDumpSegment(vec![]), &mut context), Ok(vec![]));
    assert_eq!(context.instance_id, 0);
}

#[test]
fn definition_then_load() {
    let mapping = mapping();
    let mut context = Context::new(IdSize::U32, &mapping);
    let mut rows = process_class(&point_class(), &mut context).unwrap();
    assert_eq!(
        rows,
        vec![
            Row::Field { class_id: 2, ordinal: 0, name_id: 3, type_id: 9 },
            Row::Field { class_id: 2, ordinal: 1, name_id: 4, type_id: 2 },
        ]
    );
    let load = LoadClass { class_obj_id: POINT, class_name_id: 101 };
    append_rows(&mut rows, process_load_class(&load, &mut context).unwrap());
    assert_eq!(
        rows,
        vec![
            Row::Field { class_id: 2, ordinal: 0, name_id: 3, type_id: 9 },
            Row::Field { class_id: 2, ordinal: 1, name_id: 4, type_id: 2 },
            Row::Class { id: 2, name_id: 2, super_id: Some(1), instance_size: 16 },
        ]
    );
}

#[test]
fn load_then_definition() {
    let mapping = mapping();
    let mut context = Context::new(IdSize::U32, &mapping);
    let load = LoadClass { class_obj_id: POINT, class_name_id: 101 };
    let mut rows = process_load_class(&load, &mut context).unwrap();
    assert_eq!(rows, vec![]);
    append_rows(&mut rows, process_class(&point_class(), &mut context).unwrap());
    assert_eq!(
        rows,
        vec![
            Row::Field { class_id: 2, ordinal: 0, name_id: 3, type_id: 9 },
            Row::Field { class_id: 2, ordinal: 1, name_id: 4, type_id: 2 },
            Row::Class { id: 2, name_id: 2, super_id: Some(1), instance_size: 16 },
        ]
    );
}

#[test]
fn either_order_leaves_the_same_class() {
    let mapping = mapping();
    let load = LoadClass { class_obj_id: POINT, class_name_id: 101 };
    let mut first = Context::new(IdSize::U32, &mapping);
    process_class(&point_class(), &mut first).unwrap();
    process_load_class(&load, &mut first).unwrap();
    let mut second = Context::new(IdSize::U32, &mapping);
    process_load_class(&load, &mut second).unwrap();
    process_class(&point_class(), &mut second).unwrap();
    let a = first.class_infos.get(POINT).unwrap();
    let b = second.class_infos.get(POINT).unwrap();
    assert_eq!((a.id, a.instance_size, a.name_id, a.super_id), (2, Some(16), Some(2), Some(OBJECT)));
    assert_eq!((a.id, a.instance_size, a.name_id, a.super_id), (b.id, b.instance_size, b.name_id, b.super_id));
    assert_eq!(a.fields, b.fields);
}

#[test]
fn class_row_is_written_once() {
    let mapping = mapping();
    let mut context = Context::new(IdSize::U32, &mapping);
    let load = LoadClass { class_obj_id: OBJECT, class_name_id: 100 };
    assert_eq!(process_load_class(&load, &mut context), Ok(vec![]));
    assert_eq!(process_class(&object_class(), &mut context).unwrap().len(), 2);
    assert_eq!(process_load_class(&load, &mut context), Ok(vec![]));
    assert_eq!(process_class(&object_class(), &mut context), Ok(vec![]));
    let again = LoadClass { class_obj_id: OBJECT, class_name_id: 101 };
    assert_eq!(process_load_class(&again, &mut context), Ok(vec![]));
    assert_eq!(context.class_infos.get(OBJECT).unwrap().name_id, Some(1));
}

#[test]
fn insert_class_with_and_without_superclass() {
    let mapping = mapping();
    let root = ClassInfo {
        id: 1,
        fields: vec![],
        instance_size: Some(8),
        name_id: Some(1),
        super_id: None,
    };
    assert_eq!(
        insert_class(&mapping, &root),
        Ok(Row::Class { id: 1, name_id: 1, super_id: None, instance_size: 8 })
    );
    let point = ClassInfo {
        id: 2,
        fields: vec![],
        instance_size: Some(16),
        name_id: Some(2),
        super_id: Some(OBJECT),
    };
    assert_eq!(
        insert_class(&mapping, &point),
        Ok(Row::Class { id: 2, name_id: 2, super_id: Some(1), instance_size: 16 })
    );
    let orphan = ClassInfo {
        id: 2,
        fields: vec![],
        instance_size: Some(16),
        name_id: Some(2),
        super_id: Some(0x99),
    };
    assert_eq!(insert_class(&mapping, &orphan), Err(LoadError::UnknownClass(0x99)));
}

#[test]
fn instance_rows_follow_the_chain() {
    let mapping = mapping();
    let mut context = with_classes(&mapping);
    assert_eq!(
        process_instance(&first_point(), &mut context),
        Ok(vec![
            Row::Object { id: 1, native_id: 0xA1 },
            Row::Instance { id: 1, class_id: 2 },
            integer(1, 2, 0, 258),
            reference(1, 2, 1, 0xA2),
            integer(1, 1, 0, -1),
        ])
    );
    assert_eq!(context.instance_id, 1);
}

#[test]
fn null_reference_has_no_row() {
    let mapping = mapping();
    let mut context = with_classes(&mapping);
    let rows = process_instance(&second_point(), &mut context).unwrap();
    assert_eq!(rows.len(), 2 + 3 - 1);
    assert_eq!(rows[2], integer(1, 2, 0, -1));
    assert_eq!(rows[3], integer(1, 1, 0, 7));
}

#[test]
fn instance_of_root_class() {
    let mapping = mapping();
    let mut context = with_classes(&mapping);
    let instance = Instance { obj_id: 5, class_obj_id: OBJECT, fields: vec![0, 0, 0, 9, 0xEE] };
    assert_eq!(
        process_instance(&instance, &mut context),
        Ok(vec![
            Row::Object { id: 1, native_id: 5 },
            Row::Instance { id: 1, class_id: 1 },
            integer(1, 1, 0, 9),
        ])
    );
}

#[test]
fn every_field_type_has_its_slot() {
    let mut records = vec![name(1, "f"), name(2, "C"), load(0x30, 2)];
    let types = vec![
        FieldType::ObjectId,
        FieldType::Boolean,
        FieldType::Char,
        FieldType::Float,
        FieldType::Double,
        FieldType::Byte,
        FieldType::Short,
        FieldType::Int,
        FieldType::Long,
    ];
    let class = Class {
        obj_id: 0x30,
        super_class_obj_id: None,
        instance_size_bytes: 38,
        instance_fields: types.iter().map(|t| field(1, *t)).collect(),
    };
    let mut fields = vec![0, 0, 0, 0, 0, 0, 0, 0x63];
    fields.push(1);
    fields.extend([0x00, 0x41]);
    fields.extend(2.5f32.to_bits().to_be_bytes());
    fields.extend((-0.125f64).to_bits().to_be_bytes());
    fields.push(0xFE);
    fields.extend([0xFF, 0x00]);
    fields.extend([0x00, 0x01, 0x00, 0x00]);
    fields.extend([0xFF, 0xFF, 0xFF, 0xFF, 0xFF, 0xFF, 0xFF, 0xF6]);
    let instance = Instance { obj_id: 0xD1, class_obj_id: 0x30, fields };
    records.push(Record::HeapDumpSegment(vec![SubRecord::Class(class), SubRecord::Instance(instance)]));
    let wide = Header { label: String::from("w"), id_size: IdSize::U64, timestamp_millis: 0 };
    let rows = convert(&wide, &records).unwrap();
    let values: Vec<Row> = rows.into_iter().filter(|r| matches!(r, Row::FieldValue { .. })).collect();
    let floating = |ordinal: usize, value: Floating| Row::FieldValue {
        instance_id: 1,
        class_id: 1,
        ordinal,
        floating: Some(value),
        integer: None,
        reference: None,
    };
    assert_eq!(
        values,
        vec![
            reference(1, 1, 0, 0x63),
            integer(1, 1, 1, 1),
            integer(1, 1, 2, 0x41),
            floating(3, Floating::Single(2.5f32.to_bits())),
            floating(4, Floating::Double((-0.125f64).to_bits())),
            integer(1, 1, 5, -2),
            integer(1, 1, 6, -256),
            integer(1, 1, 7, 65536),
            integer(1, 1, 8, -10),
        ]
    );
}

#[test]
fn every_value_row_fills_one_slot() {
    for row in convert(&header(), &capture()).unwrap() {
        if let Row::FieldValue { floating, integer, reference, .. } = row {
            let filled =
                floating.is_some() as u8 + integer.is_some() as u8 + reference.is_some() as u8;
            assert_eq!(filled, 1);
        }
    }
}

#[test]
fn object_array_rows() {
    let mapping = mapping();
    let mut context = with_classes(&mapping);
    assert_eq!(
        process_object_array(&points(), &mut context),
        Ok(vec![
            Row::Object { id: 1, native_id: 0xB1 },
            Row::ObjArray { id: 1, class_id: 2, length: 3 },
            Row::ObjArrayItem { array_id: 1, ordinal: 0, reference: Some(0xA1) },
            Row::ObjArrayItem { array_id: 1, ordinal: 1, reference: None },
            Row::ObjArrayItem { array_id: 1, ordinal: 2, reference: Some(0xA2) },
        ])
    );
}

#[test]
fn empty_object_array_rows() {
    let mapping = mapping();
    let mut context = with_classes(&mapping);
    let array = ObjectArray { obj_id: 1, array_class_obj_id: OBJECT, elements: vec![] };
    assert_eq!(
        process_object_array(&array, &mut context),
        Ok(vec![Row::Object { id: 1, native_id: 1 }, Row::ObjArray { id: 1, class_id: 1, length: 0 }])
    );
}

#[test]
fn object_array_of_a_class_that_is_only_named() {
    let mapping = mapping();
    let mut context = Context::new(IdSize::U32, &mapping);
    parse_record(&load(POINT, 101), &mut context).unwrap();
    let rows = process_object_array(&points(), &mut context).unwrap();
    assert_eq!(rows[1], Row::ObjArray { id: 1, class_id: 2, length: 3 });
}

#[test]
fn primitive_array_rows() {
    let mapping = Mapping::new();
    let mut context = Context::new(IdSize::U64, &mapping);
    assert_eq!(
        process_primitive_array(&hello(), &mut context),
        Ok(vec![
            Row::Object { id: 1, native_id: 0xC1 },
            Row::PrimitiveArray { id: 1, type_id: 8, length: 5, text: Some(String::from("hello")) },
        ])
    );
    let invalid = PrimitiveArray { obj_id: 0xC2, elements: PrimitiveElements::Bytes(vec![-128]) };
    assert_eq!(
        process_primitive_array(&invalid, &mut context),
        Ok(vec![
            Row::Object { id: 2, native_id: 0xC2 },
            Row::PrimitiveArray { id: 2, type_id: 8, length: 1, text: None },
        ])
    );
    let chars = PrimitiveArray { obj_id: 0xC3, elements: PrimitiveElements::Chars(vec![0x4F, 0x4B]) };
    assert_eq!(
        process_primitive_array(&chars, &mut context),
        Ok(vec![
            Row::Object { id: 3, native_id: 0xC3 },
            Row::PrimitiveArray { id: 3, type_id: 5, length: 2, text: Some(String::from("OK")) },
        ])
    );
    let longs = PrimitiveArray { obj_id: 0xC4, elements: PrimitiveElements::Longs(vec![1, 2, 3]) };
    assert_eq!(
        process_primitive_array(&longs, &mut context),
        Ok(vec![
            Row::Object { id: 4, native_id: 0xC4 },
            Row::PrimitiveArray { id: 4, type_id: 11, length: 3, text: None },
        ])
    );
}

#[test]
fn next_instance_id_counts_objects() {
    let mapping = Mapping::new();
    let mut context = Context::new(IdSize::U64, &mapping);
    let mut rows = Vec::new();
    assert_eq!(context.next_instance_id(500, &mut rows), Ok(1));
    assert_eq!(context.next_instance_id(400, &mut rows), Ok(2));
    assert_eq!(context.next_instance_id(500, &mut rows), Ok(3));
    assert_eq!(
        rows,
        vec![
            Row::Object { id: 1, native_id: 500 },
            Row::Object { id: 2, native_id: 400 },
            Row::Object { id: 3, native_id: 500 },
        ]
    );
}

#[test]
fn no_key_left_for_an_object() {
    let mapping = mapping();
    let mut context = with_classes(&mapping);
    context.instance_id = i64::MAX;
    let mut rows = Vec::new();
    assert_eq!(context.next_instance_id(1, &mut rows), Err(LoadError::TooManyObjects));
    assert!(rows.is_empty());
    assert_eq!(process_instance(&first_point(), &mut context), Err(LoadError::TooManyObjects));
    assert_eq!(process_object_array(&points(), &mut context), Err(LoadError::TooManyObjects));
    assert_eq!(process_primitive_array(&hello(), &mut context), Err(LoadError::TooManyObjects));
}

#[test]
fn last_key_for_an_object() {
    let mapping = mapping();
    let mut context = with_classes(&mapping);
    context.instance_id = i64::MAX - 1;
    let rows = process_primitive_array(&hello(), &mut context).unwrap();
    assert_eq!(rows[0], Row::Object { id: i64::MAX, native_id: 0xC1 });
}

#[test]
fn truncated_instance_fails() {
    let mapping = mapping();
    let mut context = with_classes(&mapping);
    let short = Instance {
        obj_id: 0xA3,
        class_obj_id: POINT,
        fields: vec![0x01, 0x02, 0x00, 0x00, 0x00, 0xA2, 0xFF, 0xFF, 0xFF],
    };
    assert_eq!(process_instance(&short, &mut context), Err(LoadError::TruncatedInstance(0xA3)));
    let empty = Instance { obj_id: 0xA4, class_obj_id: OBJECT, fields: vec![] };
    assert_eq!(process_instance(&empty, &mut context), Err(LoadError::TruncatedInstance(0xA4)));
}

#[test]
fn instance_of_unknown_class_fails() {
    let mapping = mapping();
    let mut context = with_classes(&mapping);
    let stray = Instance { obj_id: 1, class_obj_id: 0x77, fields: vec![] };
    assert_eq!(process_instance(&stray, &mut context), Err(LoadError::UnknownClass(0x77)));
}

#[test]
fn instance_of_a_class_that_is_only_named_fails() {
    let mapping = mapping();
    let mut context = Context::new(IdSize::U32, &mapping);
    parse_record(&load(POINT, 101), &mut context).unwrap();
    assert_eq!(process_instance(&first_point(), &mut context), Err(LoadError::UnknownClass(POINT)));
}

#[test]
fn instance_below_an_undefined_class_fails() {
    let mapping = mapping();
    let mut context = Context::new(IdSize::U32, &mapping);
    process_class(&point_class(), &mut context).unwrap();
    assert_eq!(process_instance(&first_point(), &mut context), Err(LoadError::UnknownClass(OBJECT)));
}

#[test]
fn instance_in_a_cycle_fails() {
    let records = vec![Record::HeapDumpSegment(vec![
        SubRecord::Class(Class {
            obj_id: 1,
            super_class_obj_id: Some(2),
            instance_size_bytes: 0,
            instance_fields: vec![],
        }),
        SubRecord::Class(Class {
            obj_id: 2,
            super_class_obj_id: Some(1),
            instance_size_bytes: 0,
            instance_fields: vec![],
        }),
        SubRecord::Instance(Instance { obj_id: 9, class_obj_id: 1, fields: vec![] }),
    ])];
    assert_eq!(convert(&header(), &records), Err(LoadError::SuperclassCycle(1)));
}

#[test]
fn array_of_unknown_class_fails() {
    let mapping = mapping();
    let mut context = with_classes(&mapping);
    let stray = ObjectArray { obj_id: 1, array_class_obj_id: 0x77, elements: vec![] };
    assert_eq!(process_object_array(&stray, &mut context), Err(LoadError::UnknownClass(0x77)));
}

#[test]
fn char_array_that_is_not_text_fails() {
    let records = vec![Record::HeapDumpSegment(vec![
        SubRecord::PrimitiveArray(hello()),
        SubRecord::PrimitiveArray(PrimitiveArray {
            obj_id: 0xC9,
            elements: PrimitiveElements::Chars(vec![0xDC00]),
        }),
    ])];
    assert_eq!(convert(&header(), &records), Err(LoadError::InvalidUtf16(0xC9)));
}

#[test]
fn class_without_key_fails() {
    let mapping = Mapping::new();
    let mut context = Context::new(IdSize::U32, &mapping);
    assert_eq!(process_class(&object_class(), &mut context), Err(LoadError::UnknownClass(OBJECT)));
    let load = LoadClass { class_obj_id: OBJECT, class_name_id: 100 };
    assert_eq!(process_load_class(&load, &mut context), Err(LoadError::UnknownClass(OBJECT)));
}

#[test]
fn name_without_key_fails() {
    let records = vec![load(OBJECT, 100), Record::HeapDumpSegment(vec![SubRecord::Class(object_class())])];
    let mapping = map_ids(&records).unwrap();
    let mut context = Context::new(IdSize::U32, &mapping);
    assert_eq!(parse_record(&records[0], &mut context), Err(LoadError::UnknownName(100)));
    assert_eq!(parse_record(&records[1], &mut context), Err(LoadError::UnknownName(104)));
    assert_eq!(parse_record(&name(7, "seven"), &mut context), Err(LoadError::UnknownName(7)));
}

#[test]
fn superclass_without_key_fails() {
    let records = vec![
        name(101, "Point"),
        name(102, "x"),
        name(103, "next"),
        load(POINT, 101),
        Record::HeapDumpSegment(vec![SubRecord::Class(point_class())]),
    ];
    assert_eq!(convert(&header(), &records), Err(LoadError::UnknownClass(OBJECT)));
}

#[test]
fn failure_leaves_no_rows() {
    let mut records = capture();
    records.push(Record::HeapDumpSegment(vec![
        SubRecord::Instance(first_point()),
        SubRecord::Instance(Instance { obj_id: 0xA9, class_obj_id: POINT, fields: vec![0x00] }),
    ]));
    assert_eq!(convert(&header(), &records), Err(LoadError::TruncatedInstance(0xA9)));
    let mapping = map_ids(&records).unwrap();
    assert_eq!(
        parse_records(&header(), &records, &mapping),
        Err(LoadError::TruncatedInstance(0xA9))
    );
}

#[test]
fn first_failure_is_reported() {
    let mapping = mapping();
    let mut context = with_classes(&mapping);
    let subs = vec![
        SubRecord::Instance(first_point()),
        SubRecord::Instance(Instance { obj_id: 0xA8, class_obj_id: 0x55, fields: vec![] }),
        SubRecord::Instance(Instance { obj_id: 0xA9, class_obj_id: POINT, fields: vec![0x00] }),
    ];
    assert_eq!(parse_dump_records(&subs, &mut context), Err(LoadError::UnknownClass(0x55)));
}
