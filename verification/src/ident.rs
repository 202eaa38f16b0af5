//! The first pass: dense keys for class and name identifiers.
//!
//! An identifier gets the next free key, counted from 1, when it is first
//! seen; seeing it again changes nothing.

use vstd::prelude::*;
use std::collections::HashMap;
use crate::capture::{Record, SubRecord};
use crate::error::LoadError;

verus! {

broadcast use vstd::std_specs::hash::group_hash_axioms;

/// The greatest key.
pub open spec fn max_key() -> nat {
    0x7fff_ffff_ffff_ffff
}

/// The table after `id` has been seen.
pub open spec fn assign_one(m: Map<u64, i64>, id: u64) -> Map<u64, i64> {
    if m.contains_key(id) {
        m
    } else {
        m.insert(id, (m.len() + 1) as i64)
    }
}

/// The table after the identifiers `ids` have been seen, first to last.
pub open spec fn assign_all(m: Map<u64, i64>, ids: Seq<u64>) -> Map<u64, i64>
    decreases ids.len(),
{
    if ids.len() == 0 {
        m
    } else {
        assign_all(assign_one(m, ids[0]), ids.drop_first())
    }
}

/// A table is dense when its keys are exactly the numbers from 1 to the
/// number of its identifiers, and no two identifiers share a key.
pub open spec fn dense(m: Map<u64, i64>) -> bool {
    &&& m.dom().finite()
    &&& m.len() <= max_key()
    &&& m.values() =~= Set::new(|v: i64| 1 <= v <= m.len())
    &&& forall|a: u64, b: u64|
        m.contains_key(a) && m.contains_key(b) && a != b ==> #[trigger] m[a] != #[trigger] m[b]
}

/// Seeing an identifier keeps a table dense, as long as a key is left.
pub proof fn lemma_assign_one_dense(m: Map<u64, i64>, id: u64)
    requires
        dense(m),
        m.contains_key(id) || m.len() < max_key(),
    ensures
        dense(assign_one(m, id)),
        assign_one(m, id).dom() == m.dom().insert(id),
        forall|k: u64| m.contains_key(k) ==> assign_one(m, id)[k] == m[k],
{
    let n = assign_one(m, id);
    if m.contains_key(id) {
        assert(m.dom().insert(id) =~= m.dom());
    } else {
        let key = (m.len() + 1) as i64;
        assert forall|v: i64| n.values().contains(v) <==> 1 <= v <= n.len() by {
            if n.values().contains(v) {
                let k = choose|k: u64| n.contains_key(k) && n[k] == v;
                if k != id {
                    assert(m.contains_key(k) && m[k] == v);
                    assert(m.values().contains(v));
                }
            }
            if 1 <= v <= n.len() {
                if v == key {
                    assert(n.contains_key(id) && n[id] == v);
                } else {
                    assert(m.values().contains(v));
                    let k = choose|k: u64| m.contains_key(k) && m[k] == v;
                    assert(n.contains_key(k) && n[k] == v);
                }
            }
        }
        assert forall|a: u64, b: u64|
            n.contains_key(a) && n.contains_key(b) && a != b implies #[trigger] n[a]
            != #[trigger] n[b] by {
            if a != id {
                assert(m.values().contains(m[a]));
            }
            if b != id {
                assert(m.values().contains(m[b]));
            }
        }
    }
}

/// Seeing identifiers never shrinks a table.
pub proof fn lemma_assign_all_grows(m: Map<u64, i64>, ids: Seq<u64>)
    requires
        m.dom().finite(),
    ensures
        assign_all(m, ids).dom().finite(),
        m.len() <= assign_all(m, ids).len(),
        assign_all(m, ids).dom() == m.dom().union(ids.to_set()),
        forall|k: u64| m.contains_key(k) ==> assign_all(m, ids)[k] == m[k],
    decreases ids.len(),
{
    if ids.len() == 0 {
        assert(m.dom().union(ids.to_set()) =~= m.dom());
    } else {
        let n = assign_one(m, ids[0]);
        lemma_assign_all_grows(n, ids.drop_first());
        assert(n.dom() =~= m.dom().insert(ids[0]));
        assert(ids.to_set() =~= ids.drop_first().to_set().insert(ids[0])) by {
            assert(ids =~= seq![ids[0]] + ids.drop_first());
            assert forall|x: u64| ids.to_set().contains(x) <==> ids.drop_first().to_set().insert(
                ids[0],
            ).contains(x) by {
                if ids.contains(x) {
                    let i = choose|i: int| 0 <= i < ids.len() && ids[i] == x;
                    if i > 0 {
                        assert(ids.drop_first()[i - 1] == x);
                    }
                }
                if ids.drop_first().contains(x) {
                    let rest = ids.drop_first();
                    let i = choose|i: int| 0 <= i < rest.len() && rest[i] == x;
                    assert(ids[i + 1] == x);
                }
            }
        }
        assert(assign_all(m, ids).dom() =~= m.dom().union(ids.to_set()));
        assert forall|k: u64| m.contains_key(k) implies assign_all(m, ids)[k] == m[k] by {
            assert(n.contains_key(k) && n[k] == m[k]);
        }
    }
}

/// Seeing a run of one identifier is seeing that identifier.
pub proof fn lemma_assign_all_single(m: Map<u64, i64>, id: u64)
    ensures
        assign_all(m, seq![id]) == assign_one(m, id),
{
    reveal_with_fuel(assign_all, 2);
    assert(seq![id].drop_first() =~= Seq::<u64>::empty());
}

/// Seeing one run of identifiers after another is seeing both in a row.
pub proof fn lemma_assign_all_concat(m: Map<u64, i64>, a: Seq<u64>, b: Seq<u64>)
    ensures
        assign_all(m, a + b) == assign_all(assign_all(m, a), b),
    decreases a.len(),
{
    if a.len() == 0 {
        assert(a + b =~= b);
    } else {
        assert((a + b).drop_first() =~= a.drop_first() + b);
        lemma_assign_all_concat(assign_one(m, a[0]), a.drop_first(), b);
    }
}

/// Density: after any run of identifiers, a table that was dense is dense,
/// as long as the keys suffice. Its identifiers are those it had and those
/// seen; none of those it had has changed its key.
pub proof fn lemma_assign_all_dense(m: Map<u64, i64>, ids: Seq<u64>)
    requires
        dense(m),
        assign_all(m, ids).len() <= max_key(),
    ensures
        dense(assign_all(m, ids)),
        assign_all(m, ids).dom() == m.dom().union(ids.to_set()),
    decreases ids.len(),
{
    lemma_assign_all_grows(m, ids);
    if ids.len() > 0 {
        let n = assign_one(m, ids[0]);
        assert(n.dom().finite());
        lemma_assign_all_grows(n, ids.drop_first());
        if !m.contains_key(ids[0]) {
            assert(n.len() == m.len() + 1);
        }
        lemma_assign_one_dense(m, ids[0]);
        lemma_assign_all_dense(n, ids.drop_first());
    }
}

/// Keys go by first appearance: the identifier at position `i` of a run,
/// where it does not appear before, gets the key that follows the number of
/// distinct identifiers before it. So the keys depend on nothing but the
/// order of the run.
pub proof fn lemma_key_by_first_appearance(ids: Seq<u64>, i: int)
    requires
        0 <= i < ids.len(),
        forall|j: int| 0 <= j < i ==> ids[j] != ids[i],
        assign_all(Map::empty(), ids).len() <= max_key(),
    ensures
        assign_all(Map::empty(), ids).contains_key(ids[i]),
        assign_all(Map::empty(), ids)[ids[i]] == ids.take(i).to_set().len() + 1,
{
    let none = Map::<u64, i64>::empty();
    let before = ids.take(i);
    let after = ids.skip(i);
    let early = assign_all(none, before);
    assert(ids =~= before + after);
    lemma_assign_all_concat(none, before, after);
    lemma_assign_all_grows(none, before);
    assert(none.dom().union(before.to_set()) =~= before.to_set());
    assert(!early.contains_key(ids[i])) by {
        if before.contains(ids[i]) {
            let j = choose|j: int| 0 <= j < before.len() && before[j] == ids[i];
            assert(ids[j] == ids[i]);
        }
    }
    let here = assign_one(early, ids[i]);
    assert(after[0] == ids[i]);
    assert(here.dom().finite());
    lemma_assign_all_grows(here, after.drop_first());
    assert(here.len() == early.len() + 1);
    assert(early.len() == before.to_set().len());
    assert(assign_all(early, after) == assign_all(here, after.drop_first()));
    assert(here[ids[i]] == (early.len() + 1) as i64);
    assert(assign_all(here, after.drop_first())[ids[i]] == here[ids[i]]);
}

/// The class identifiers that a run of sub-records defines, first to last.
pub open spec fn sub_record_class_ids(subs: Seq<SubRecord>) -> Seq<u64>
    decreases subs.len(),
{
    if subs.len() == 0 {
        Seq::empty()
    } else {
        let rest = sub_record_class_ids(subs.drop_first());
        match subs[0] {
            SubRecord::Class(class) => seq![class.obj_id] + rest,
            _ => rest,
        }
    }
}

/// The class identifiers that a record names or defines, first to last.
pub open spec fn record_class_ids(record: Record) -> Seq<u64> {
    match record {
        Record::LoadClass(class) => seq![class.class_obj_id],
        Record::HeapDumpSegment(subs) => sub_record_class_ids(subs@),
        _ => Seq::empty(),
    }
}

/// The name identifier that a record introduces, if any.
pub open spec fn record_name_ids(record: Record) -> Seq<u64> {
    match record {
        Record::Utf8(name) => seq![name.name_id],
        _ => Seq::empty(),
    }
}

/// The class identifiers of a capture in the order of their appearance, each
/// as often as it appears.
pub open spec fn class_ids_of(records: Seq<Record>) -> Seq<u64>
    decreases records.len(),
{
    if records.len() == 0 {
        Seq::empty()
    } else {
        record_class_ids(records[0]) + class_ids_of(records.drop_first())
    }
}

/// The name identifiers of a capture in the order of their appearance.
pub open spec fn name_ids_of(records: Seq<Record>) -> Seq<u64>
    decreases records.len(),
{
    if records.len() == 0 {
        Seq::empty()
    } else {
        record_name_ids(records[0]) + name_ids_of(records.drop_first())
    }
}

/// Converting again gives the same keys: the tables of two captures whose
/// identifiers appear in the same order are the same.
pub proof fn lemma_map_ids_by_order(first: Seq<Record>, second: Seq<Record>)
    requires
        class_ids_of(first) == class_ids_of(second),
        name_ids_of(first) == name_ids_of(second),
    ensures
        spec_map_ids(first) == spec_map_ids(second),
{
}

/// The class identifiers of a run of sub-records hold that of each class
/// that the run defines.
pub proof fn lemma_sub_record_class_ids(subs: Seq<SubRecord>, j: int)
    requires
        0 <= j < subs.len(),
        subs[j] is Class,
    ensures
        sub_record_class_ids(subs).contains(subs[j]->Class_0.obj_id),
    decreases subs.len(),
{
    let rest = sub_record_class_ids(subs.drop_first());
    let id = subs[j]->Class_0.obj_id;
    if j == 0 {
        assert((seq![id] + rest)[0] == id);
    } else {
        lemma_sub_record_class_ids(subs.drop_first(), j - 1);
        let at = choose|at: int| 0 <= at < rest.len() && rest[at] == id;
        if subs[0] is Class {
            assert((seq![subs[0]->Class_0.obj_id] + rest)[at + 1] == id);
        }
    }
}

/// The identifiers of a capture hold those of each of its records.
pub proof fn lemma_record_ids(records: Seq<Record>, i: int)
    requires
        0 <= i < records.len(),
    ensures
        forall|id: u64|
            record_class_ids(records[i]).contains(id) ==> #[trigger] class_ids_of(records).contains(
                id,
            ),
        forall|id: u64|
            record_name_ids(records[i]).contains(id) ==> #[trigger] name_ids_of(records).contains(
                id,
            ),
    decreases records.len(),
{
    let first_classes = record_class_ids(records[0]);
    let first_names = record_name_ids(records[0]);
    let rest = records.drop_first();
    if i > 0 {
        lemma_record_ids(rest, i - 1);
    }
    assert forall|id: u64|
        record_class_ids(records[i]).contains(id) implies #[trigger] class_ids_of(
        records,
    ).contains(id) by {
        if i == 0 {
            let at = choose|at: int| 0 <= at < first_classes.len() && first_classes[at] == id;
            assert((first_classes + class_ids_of(rest))[at] == id);
        } else {
            assert(class_ids_of(rest).contains(id));
            let later = class_ids_of(rest);
            let at = choose|at: int| 0 <= at < later.len() && later[at] == id;
            assert((first_classes + later)[first_classes.len() + at] == id);
        }
    }
    assert forall|id: u64| record_name_ids(records[i]).contains(id) implies #[trigger] name_ids_of(
        records,
    ).contains(id) by {
        if i == 0 {
            let at = choose|at: int| 0 <= at < first_names.len() && first_names[at] == id;
            assert((first_names + name_ids_of(rest))[at] == id);
        } else {
            assert(name_ids_of(rest).contains(id));
            let later = name_ids_of(rest);
            let at = choose|at: int| 0 <= at < later.len() && later[at] == id;
            assert((first_names + later)[first_names.len() + at] == id);
        }
    }
}

/// The first pass leaves nothing out: every name that a capture introduces
/// has a key, and so has every class that it names in a load record or
/// defines.
pub proof fn lemma_map_ids_covers(records: Seq<Record>, i: int)
    requires
        0 <= i < records.len(),
    ensures
        records[i] matches Record::Utf8(name) ==> spec_map_ids(records).name_ids.contains_key(
            name.name_id,
        ),
        records[i] matches Record::LoadClass(class) ==> spec_map_ids(
            records,
        ).class_ids.contains_key(class.class_obj_id),
        records[i] matches Record::HeapDumpSegment(subs) ==> forall|j: int|
            0 <= j < subs@.len() && (#[trigger] subs@[j]) is Class ==> spec_map_ids(
                records,
            ).class_ids.contains_key(subs@[j]->Class_0.obj_id),
{
    let none = Map::<u64, i64>::empty();
    lemma_assign_all_grows(none, class_ids_of(records));
    lemma_assign_all_grows(none, name_ids_of(records));
    lemma_record_ids(records, i);
    match records[i] {
        Record::Utf8(name) => {
            assert(seq![name.name_id][0] == name.name_id);
            assert(name_ids_of(records).contains(name.name_id));
        },
        Record::LoadClass(class) => {
            assert(seq![class.class_obj_id][0] == class.class_obj_id);
            assert(class_ids_of(records).contains(class.class_obj_id));
        },
        Record::HeapDumpSegment(subs) => {
            assert forall|j: int|
                0 <= j < subs@.len() && (#[trigger] subs@[j]) is Class implies spec_map_ids(
                records,
            ).class_ids.contains_key(subs@[j]->Class_0.obj_id) by {
                lemma_sub_record_class_ids(subs@, j);
                assert(class_ids_of(records).contains(subs@[j]->Class_0.obj_id));
            }
        },
        Record::Other => {},
    }
}

/// The two tables of keys.
pub struct Mapping {
    pub class_ids: HashMap<u64, i64>,
    pub name_ids: HashMap<u64, i64>,
}

/// The tables of a `Mapping` as maps.
pub struct MappingView {
    pub class_ids: Map<u64, i64>,
    pub name_ids: Map<u64, i64>,
}

impl View for Mapping {
    type V = MappingView;

    open spec fn view(&self) -> MappingView {
        MappingView { class_ids: self.class_ids@, name_ids: self.name_ids@ }
    }
}

impl MappingView {
    /// The tables before anything has been seen.
    pub open spec fn empty() -> MappingView {
        MappingView { class_ids: Map::empty(), name_ids: Map::empty() }
    }

    /// Both tables are dense.
    pub open spec fn dense(self) -> bool {
        dense(self.class_ids) && dense(self.name_ids)
    }

    /// The tables after a record has been seen.
    pub open spec fn see(self, record: Record) -> MappingView {
        MappingView {
            class_ids: assign_all(self.class_ids, record_class_ids(record)),
            name_ids: assign_all(self.name_ids, record_name_ids(record)),
        }
    }

    /// Neither table holds more identifiers than there are keys.
    pub open spec fn fits(self) -> bool {
        self.class_ids.len() <= max_key() && self.name_ids.len() <= max_key()
    }
}

/// The tables of a whole capture.
pub open spec fn spec_map_ids(records: Seq<Record>) -> MappingView {
    MappingView {
        class_ids: assign_all(Map::empty(), class_ids_of(records)),
        name_ids: assign_all(Map::empty(), name_ids_of(records)),
    }
}

impl Mapping {
    /// Two empty tables.
    pub fn new() -> (mapping: Mapping)
        ensures
            mapping@ == MappingView::empty(),
            mapping@.dense(),
    {
        let mapping = Mapping { class_ids: HashMap::new(), name_ids: HashMap::new() };
        proof {
            assert(mapping.class_ids@.values() =~= Set::new(|v: i64| 1 <= v <= 0));
            assert(mapping.name_ids@.values() =~= Set::new(|v: i64| 1 <= v <= 0));
        }
        mapping
    }
}

/// Gives `id` the next key unless it has one.
pub fn ensure_id(map: &mut HashMap<u64, i64>, id: u64)
    requires
        old(map)@.contains_key(id) || old(map)@.len() < max_key(),
    ensures
        final(map)@ == assign_one(old(map)@, id),
{
    if !map.contains_key(&id) {
        let used: u64 = map.len() as u64;
        map.insert(id, (used + 1) as i64);
    }
}

/// Whether `id` can be seen: it has a key, or one is left.
fn has_room(map: &HashMap<u64, i64>, id: u64) -> (b: bool)
    ensures
        b == (map@.contains_key(id) || map@.len() < max_key()),
{
    map.contains_key(&id) || (map.len() as u64) < 0x7fff_ffff_ffff_ffff
}

/// Sees the identifiers of one record: those of the classes it names or
/// defines and that of the name it introduces. Fails, with the tables in an
/// unspecified state, where an identifier is new and no key is left.
pub fn map_record(mapping: &mut Mapping, record: &Record) -> (r: Result<(), LoadError>)
    ensures
        r is Ok ==> final(mapping)@ == old(mapping)@.see(*record),
        r is Ok && old(mapping)@.fits() ==> final(mapping)@.fits(),
        r is Err ==> r == Err::<(), LoadError>(LoadError::TooManyIdentifiers) && !old(
            mapping,
        )@.see(*record).fits(),
{
    let ghost start = mapping@;
    match record {
        Record::Utf8(name) => {
            proof {
                lemma_assign_all_single(start.name_ids, name.name_id);
            }
            if !has_room(&mapping.name_ids, name.name_id) {
                return Err(LoadError::TooManyIdentifiers);
            }
            ensure_id(&mut mapping.name_ids, name.name_id);
            Ok(())
        },
        Record::LoadClass(class) => {
            proof {
                lemma_assign_all_single(start.class_ids, class.class_obj_id);
            }
            if !has_room(&mapping.class_ids, class.class_obj_id) {
                return Err(LoadError::TooManyIdentifiers);
            }
            ensure_id(&mut mapping.class_ids, class.class_obj_id);
            Ok(())
        },
        Record::HeapDumpSegment(subs) => {
            let mut i: usize = 0;
            proof {
                assert(subs@.skip(0) =~= subs@);
            }
            while i < subs.len()
                invariant
                    i <= subs.len(),
                    start == old(mapping)@,
                    record_class_ids(*record) == sub_record_class_ids(subs@),
                    mapping.name_ids@ == start.name_ids,
                    start.class_ids.len() <= max_key() ==> mapping.class_ids@.len() <= max_key(),
                    assign_all(start.class_ids, sub_record_class_ids(subs@)) == assign_all(
                        mapping.class_ids@,
                        sub_record_class_ids(subs@.skip(i as int)),
                    ),
                decreases subs.len() - i,
            {
                let ghost here = subs@.skip(i as int);
                let ghost rest = sub_record_class_ids(subs@.skip(i + 1));
                proof {
                    assert(here.drop_first() =~= subs@.skip(i + 1));
                    assert(here[0] == subs@[i as int]);
                }
                match &subs[i] {
                    SubRecord::Class(class) => {
                        proof {
                            assert((seq![class.obj_id] + rest).drop_first() =~= rest);
                        }
                        if !has_room(&mapping.class_ids, class.obj_id) {
                            proof {
                                let full = assign_one(mapping.class_ids@, class.obj_id);
                                assert(sub_record_class_ids(here) == seq![class.obj_id] + rest);
                                assert(full.len() == mapping.class_ids@.len() + 1);
                                lemma_assign_all_grows(full, rest);
                                assert(assign_all(mapping.class_ids@, seq![class.obj_id] + rest)
                                    == assign_all(full, rest));
                            }
                            return Err(LoadError::TooManyIdentifiers);
                        }
                        ensure_id(&mut mapping.class_ids, class.obj_id);
                    },
                    _ => {},
                }
                i = i + 1;
            }
            proof {
                assert(subs@.skip(subs@.len() as int) =~= Seq::<SubRecord>::empty());
            }
            Ok(())
        },
        Record::Other => Ok(()),
    }
}

/// The first pass over a whole capture. It fails only where the capture
/// holds more distinct identifiers of one kind than there are keys.
pub fn map_ids(records: &Vec<Record>) -> (r: Result<Mapping, LoadError>)
    ensures
        r is Ok <==> spec_map_ids(records@).fits(),
        r matches Ok(mapping) ==> mapping@ == spec_map_ids(records@) && mapping@.dense(),
        r matches Err(e) ==> e == LoadError::TooManyIdentifiers,
{
    let mut mapping = Mapping::new();
    let mut i: usize = 0;
    proof {
        assert(records@.skip(0) =~= records@);
    }
    while i < records.len()
        invariant
            i <= records.len(),
            mapping@.fits(),
            spec_map_ids(records@).class_ids == assign_all(
                mapping.class_ids@,
                class_ids_of(records@.skip(i as int)),
            ),
            spec_map_ids(records@).name_ids == assign_all(
                mapping.name_ids@,
                name_ids_of(records@.skip(i as int)),
            ),
        decreases records.len() - i,
    {
        let ghost before = mapping@;
        let ghost here = records@.skip(i as int);
        proof {
            assert(here.drop_first() =~= records@.skip(i + 1));
            assert(here[0] == records@[i as int]);
            lemma_assign_all_concat(
                before.class_ids,
                record_class_ids(records@[i as int]),
                class_ids_of(records@.skip(i + 1)),
            );
            lemma_assign_all_concat(
                before.name_ids,
                record_name_ids(records@[i as int]),
                name_ids_of(records@.skip(i + 1)),
            );
        }
        match map_record(&mut mapping, &records[i]) {
            Ok(()) => {},
            Err(e) => {
                proof {
                    let seen = before.see(records@[i as int]);
                    lemma_assign_all_grows(before.class_ids, record_class_ids(records@[i as int]));
                    lemma_assign_all_grows(before.name_ids, record_name_ids(records@[i as int]));
                    lemma_assign_all_grows(seen.class_ids, class_ids_of(records@.skip(i + 1)));
                    lemma_assign_all_grows(seen.name_ids, name_ids_of(records@.skip(i + 1)));
                }
                return Err(e);
            },
        }
        i = i + 1;
    }
    proof {
        assert(records@.skip(records@.len() as int) =~= Seq::<Record>::empty());
        lemma_map_ids_dense(records@);
    }
    Ok(mapping)
}

/// Density of the first pass: the keys of the class identifiers of a capture
/// are exactly the numbers from 1 to the number of its distinct class
/// identifiers, no two identifiers share a key, and the same holds of its
/// name identifiers.
pub proof fn lemma_map_ids_dense(records: Seq<Record>)
    requires
        spec_map_ids(records).fits(),
    ensures
        spec_map_ids(records).dense(),
        spec_map_ids(records).class_ids.dom() == class_ids_of(records).to_set(),
        spec_map_ids(records).name_ids.dom() == name_ids_of(records).to_set(),
        spec_map_ids(records).class_ids.values() == Set::new(
            |v: i64| 1 <= v <= class_ids_of(records).to_set().len(),
        ),
        spec_map_ids(records).name_ids.values() == Set::new(
            |v: i64| 1 <= v <= name_ids_of(records).to_set().len(),
        ),
{
    let none = Map::<u64, i64>::empty();
    assert(none.values() =~= Set::new(|v: i64| 1 <= v <= 0));
    lemma_assign_all_dense(none, class_ids_of(records));
    lemma_assign_all_dense(none, name_ids_of(records));
    assert(none.dom().union(class_ids_of(records).to_set()) =~= class_ids_of(records).to_set());
    assert(none.dom().union(name_ids_of(records).to_set()) =~= name_ids_of(records).to_set());
}

} // verus!
