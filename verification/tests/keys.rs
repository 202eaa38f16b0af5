use hprof_sqlite::capture::{
    Class, Instance, LoadClass, ObjectArray, PrimitiveArray, PrimitiveElements, Record, SubRecord,
    Utf8,
};
use hprof_sqlite::ident::{ensure_id, map_ids, map_record, Mapping};
use std::collections::HashMap;

fn class(obj_id: u64) -> SubRecord {
    SubRecord::Class(Class {
        obj_id,
        super_class_obj_id: None,
        instance_size_bytes: 0,
        instance_fields: vec![],
    })
}

fn load(class_obj_id: u64, class_name_id: u64) -> Record {
    Record::LoadClass(LoadClass { class_obj_id, class_name_id })
}

fn name(name_id: u64, text: &str) -> Record {
    Record::Utf8(Utf8 { name_id, text: text.as_bytes().to_vec() })
}

fn sorted_keys(table: &HashMap<u64, i64>) -> Vec<i64> {
    let mut keys: Vec<i64> = table.values().copied().collect();
    keys.sort();
    keys
}

#[test]
fn ensure_id_counts_from_one() {
    let mut table: HashMap<u64, i64> = HashMap::new();
    ensure_id(&mut table, 0xAAAA);
    ensure_id(&mut table, 0x10);
    ensure_id(&mut table, 0xFFFF_FFFF_FFFF_FFFF);
    assert_eq!(table.get(&0xAAAA), Some(&1));
    assert_eq!(table.get(&0x10), Some(&2));
    assert_eq!(table.get(&0xFFFF_FFFF_FFFF_FFFF), Some(&3));
    assert_eq!(table.len(), 3);
}

#[test]
fn ensure_id_again_changes_nothing() {
    let mut table: HashMap<u64, i64> = HashMap::new();
    ensure_id(&mut table, 5);
    ensure_id(&mut table, 6);
    ensure_id(&mut table, 5);
    ensure_id(&mut table, 7);
    assert_eq!(table.get(&5), Some(&1));
    assert_eq!(table.get(&6), Some(&2));
    assert_eq!(table.get(&7), Some(&3));
    assert_eq!(table.len(), 3);
}

#[test]
fn new_mapping_is_empty() {
    let mapping = Mapping::new();
    assert!(mapping.class_ids.is_empty());
    assert!(mapping.name_ids.is_empty());
}

#[test]
fn map_ids_of_nothing() {
    let mapping = map_ids(&vec![]).unwrap();
    assert!(mapping.class_ids.is_empty());
    assert!(mapping.name_ids.is_empty());
}

#[test]
fn map_ids_goes_by_first_appearance() {
    let records = vec![
        name(900, "A"),
        load(0x7000, 900),
        name(20, "B"),
        Record::HeapDumpSegment(vec![class(0x5000), SubRecord::Other, class(0x7000), class(0x6000)]),
        load(0x6000, 20),
        load(0x4000, 20),
        name(900, "again"),
        name(1, "C"),
    ];
    let mapping = map_ids(&records).unwrap();
    assert_eq!(mapping.class_ids.get(&0x7000), Some(&1));
    assert_eq!(mapping.class_ids.get(&0x5000), Some(&2));
    assert_eq!(mapping.class_ids.get(&0x6000), Some(&3));
    assert_eq!(mapping.class_ids.get(&0x4000), Some(&4));
    assert_eq!(mapping.class_ids.len(), 4);
    assert_eq!(mapping.name_ids.get(&900), Some(&1));
    assert_eq!(mapping.name_ids.get(&20), Some(&2));
    assert_eq!(mapping.name_ids.get(&1), Some(&3));
    assert_eq!(mapping.name_ids.len(), 3);
}

#[test]
fn map_ids_keys_are_dense() {
    let mut subs = Vec::new();
    for i in 0..50u64 {
        subs.push(class(1000 - 7 * (i % 25)));
    }
    let mut records = vec![Record::HeapDumpSegment(subs)];
    for i in 0..40u64 {
        records.push(name(3 * (i % 13), "n"));
        records.push(load(1000 - 7 * (i % 30), 0));
    }
    let mapping = map_ids(&records).unwrap();
    assert_eq!(sorted_keys(&mapping.class_ids), (1..=30).collect::<Vec<i64>>());
    assert_eq!(sorted_keys(&mapping.name_ids), (1..=13).collect::<Vec<i64>>());
}

#[test]
fn map_ids_twice_gives_the_same_keys() {
    let records = vec![
        name(3, "x"),
        Record::HeapDumpSegment(vec![class(8), class(2)]),
        load(2, 3),
        load(5, 3),
        name(1, "y"),
    ];
    let first = map_ids(&records).unwrap();
    let second = map_ids(&records).unwrap();
    assert_eq!(first.class_ids, second.class_ids);
    assert_eq!(first.name_ids, second.name_ids);
}

#[test]
fn map_ids_ignores_objects() {
    let records = vec![
        Record::Other,
        Record::HeapDumpSegment(vec![
            SubRecord::Instance(Instance { obj_id: 1, class_obj_id: 77, fields: vec![] }),
            SubRecord::ObjectArray(ObjectArray {
                obj_id: 2,
                array_class_obj_id: 78,
                elements: vec![Some(1)],
            }),
            SubRecord::PrimitiveArray(PrimitiveArray {
                obj_id: 3,
                elements: PrimitiveElements::Ints(vec![1]),
            }),
        ]),
    ];
    let mapping = map_ids(&records).unwrap();
    assert!(mapping.class_ids.is_empty());
    assert!(mapping.name_ids.is_empty());
}

#[test]
fn map_record_by_record_is_map_ids() {
    let records = vec![
        name(3, "x"),
        Record::HeapDumpSegment(vec![class(8), class(2)]),
        load(2, 3),
        Record::HeapDumpSegment(vec![class(9)]),
        name(4, "y"),
    ];
    let whole = map_ids(&records).unwrap();
    let mut stepwise = Mapping::new();
    for record in &records {
        assert_eq!(map_record(&mut stepwise, record), Ok(()));
    }
    assert_eq!(whole.class_ids, stepwise.class_ids);
    assert_eq!(whole.name_ids, stepwise.name_ids);
}

#[test]
fn cutting_a_segment_keeps_the_keys() {
    let whole = vec![Record::HeapDumpSegment(vec![class(8), class(2), class(8), class(5)])];
    let cut = vec![
        Record::HeapDumpSegment(vec![class(8)]),
        Record::HeapDumpSegment(vec![class(2)]),
        Record::HeapDumpSegment(vec![class(8)]),
        Record::HeapDumpSegment(vec![class(5)]),
    ];
    assert_eq!(map_ids(&whole).unwrap().class_ids, map_ids(&cut).unwrap().class_ids);
}
