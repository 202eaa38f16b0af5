//! What holds of the second pass whatever the capture.

use vstd::prelude::*;
use crate::capture::{
    Class, FieldDescriptor, Header, IdSize, Instance, LoadClass, Record, SubRecord,
};
use crate::hierarchy::{lemma_chain_from, spec_resolve_chain, ClassInfoView};
use crate::ident::MappingView;
use crate::capture::spec_field_type_id;
use crate::loader::{
    spec_chain_values, spec_class_values, spec_field_rows, spec_header_row, spec_parse_dump_records,
    spec_parse_record, spec_parse_records, spec_process_class, spec_process_instance,
    spec_process_load_class, spec_process_sub_record, spec_records_from, spec_sub_records_from,
    spec_value_rows, ContextView, Step,
};
use crate::row::RowView;
use crate::value::{only_slot_filled, slot_of, spec_field_value_tuple, spec_parse_value};

verus! {

/// One step after another: the second goes on from the context that the
/// first leaves, and the rows of the first come first.
pub open spec fn and_then(first: Step, second: spec_fn(ContextView) -> Step) -> Step {
    match first {
        Err(e) => Err(e),
        Ok((ctx, rows)) => match second(ctx) {
            Err(e) => Err(e),
            Ok((next, more)) => Ok((next, rows + more)),
        },
    }
}

/// The definition of a class and then its load record.
pub open spec fn definition_then_load(ctx: ContextView, class: Class, load: LoadClass) -> Step {
    and_then(spec_process_class(ctx, class), |c: ContextView| spec_process_load_class(c, load))
}

/// The load record of a class and then its definition.
pub open spec fn load_then_definition(ctx: ContextView, class: Class, load: LoadClass) -> Step {
    and_then(spec_process_load_class(ctx, load), |c: ContextView| spec_process_class(c, class))
}

/// The order in which the definition and the load record of a class are seen
/// makes no difference: either both orders fail, or they leave the same
/// classes and give the same rows, that of the class among them.
pub proof fn lemma_class_order_independent(ctx: ContextView, class: Class, load: LoadClass)
    requires
        class.obj_id == load.class_obj_id,
    ensures
        definition_then_load(ctx, class, load) is Ok <==> load_then_definition(
            ctx,
            class,
            load,
        ) is Ok,
        definition_then_load(ctx, class, load) is Ok ==> definition_then_load(ctx, class, load)
            == load_then_definition(ctx, class, load),
{
    let id = class.obj_id;
    let a = definition_then_load(ctx, class, load);
    let b = load_then_definition(ctx, class, load);
    let first_a = spec_process_class(ctx, class);
    let first_b = spec_process_load_class(ctx, load);
    if let Ok((ca, ra)) = first_a {
        if let Ok((cb, rb)) = first_b {
            let second_a = spec_process_load_class(ca, load);
            let second_b = spec_process_class(cb, class);
            if let Ok((ca2, ra2)) = second_a {
                if let Ok((cb2, rb2)) = second_b {
                    assert(ca2.classes =~= cb2.classes);
                    assert(ra + ra2 =~= rb + rb2);
                }
            }
        }
    }
}

/// The context of a step, and its rows behind `acc`.
pub open spec fn behind(acc: Seq<RowView>, step: Step) -> Step {
    match step {
        Err(e) => Err(e),
        Ok((ctx, rows)) => Ok((ctx, acc + rows)),
    }
}

/// The rows that are there already take no part in a run of sub-records:
/// they stay in front of its rows.
pub proof fn lemma_sub_records_behind(
    ctx: ContextView,
    subs: Seq<SubRecord>,
    from: int,
    acc: Seq<RowView>,
)
    requires
        0 <= from <= subs.len(),
    ensures
        spec_sub_records_from(ctx, subs, from, acc) == behind(
            acc,
            spec_sub_records_from(ctx, subs, from, Seq::empty()),
        ),
    decreases subs.len() - from,
{
    let none = Seq::<RowView>::empty();
    if from < subs.len() {
        if let Ok((next, rows)) = spec_process_sub_record(ctx, subs[from]) {
            lemma_sub_records_behind(next, subs, from + 1, acc + rows);
            lemma_sub_records_behind(next, subs, from + 1, none + rows);
            if let Ok((last, more)) = spec_sub_records_from(next, subs, from + 1, none) {
                assert((acc + rows) + more =~= acc + ((none + rows) + more));
            }
        }
    } else {
        assert(acc + none =~= acc);
    }
}

/// A run of sub-records is the run of those before position `mid` and then
/// the run of the others.
pub proof fn lemma_sub_records_split(
    ctx: ContextView,
    subs: Seq<SubRecord>,
    from: int,
    mid: int,
    acc: Seq<RowView>,
)
    requires
        0 <= from <= mid <= subs.len(),
    ensures
        spec_sub_records_from(ctx, subs, from, acc) == match spec_sub_records_from(
            ctx,
            subs.take(mid),
            from,
            acc,
        ) {
            Err(e) => Err(e),
            Ok((next, rows)) => spec_sub_records_from(next, subs, mid, rows),
        },
    decreases mid - from,
{
    if from < mid {
        assert(subs.take(mid)[from] == subs[from]);
        if let Ok((next, rows)) = spec_process_sub_record(ctx, subs[from]) {
            lemma_sub_records_split(next, subs, from + 1, mid, acc + rows);
        }
    }
}

/// The position of a sub-record in a run does not matter, only what comes
/// before it: the run of `subs` from `mid` on is the run of what `subs`
/// holds from there.
pub proof fn lemma_sub_records_shift(
    ctx: ContextView,
    subs: Seq<SubRecord>,
    mid: int,
    from: int,
    acc: Seq<RowView>,
)
    requires
        0 <= mid,
        0 <= from,
        mid + from <= subs.len(),
    ensures
        spec_sub_records_from(ctx, subs, mid + from, acc) == spec_sub_records_from(
            ctx,
            subs.skip(mid),
            from,
            acc,
        ),
    decreases subs.len() - mid - from,
{
    if mid + from < subs.len() {
        assert(subs.skip(mid)[from] == subs[mid + from]);
        if let Ok((next, rows)) = spec_process_sub_record(ctx, subs[mid + from]) {
            lemma_sub_records_shift(next, subs, mid, from + 1, acc + rows);
        }
    }
}

/// Where a heap dump segment is cut in two makes no difference: seeing the
/// two parts one after the other is seeing the whole.
pub proof fn lemma_segment_split(ctx: ContextView, subs: Seq<SubRecord>, mid: int)
    requires
        0 <= mid <= subs.len(),
    ensures
        spec_parse_dump_records(ctx, subs) == and_then(
            spec_parse_dump_records(ctx, subs.take(mid)),
            |c: ContextView| spec_parse_dump_records(c, subs.skip(mid)),
        ),
{
    let none = Seq::<RowView>::empty();
    lemma_sub_records_split(ctx, subs, 0, mid, none);
    if let Ok((next, rows)) = spec_parse_dump_records(ctx, subs.take(mid)) {
        lemma_sub_records_behind(next, subs, mid, rows);
        lemma_sub_records_shift(next, subs, mid, 0, none);
    }
}

/// Where the sub-record at position `n` of a heap dump segment fails after
/// those before it were seen, the segment fails as that sub-record does: it
/// gives no rows, not those of the sub-records before.
pub proof fn lemma_sub_record_failure(ctx: ContextView, subs: Seq<SubRecord>, n: int)
    requires
        0 <= n < subs.len(),
        spec_parse_dump_records(ctx, subs.take(n)) is Ok,
        spec_process_sub_record(spec_parse_dump_records(ctx, subs.take(n))->Ok_0.0, subs[n]) is Err,
    ensures
        spec_parse_dump_records(ctx, subs) is Err,
        spec_parse_dump_records(ctx, subs)->Err_0 == spec_process_sub_record(
            spec_parse_dump_records(ctx, subs.take(n))->Ok_0.0,
            subs[n],
        )->Err_0,
{
    lemma_sub_records_split(ctx, subs, 0, n, Seq::empty());
}

/// A run of records is the run of those before position `mid` and then the
/// run of the others.
pub proof fn lemma_records_split(
    ctx: ContextView,
    records: Seq<Record>,
    from: int,
    mid: int,
    acc: Seq<RowView>,
)
    requires
        0 <= from <= mid <= records.len(),
    ensures
        spec_records_from(ctx, records, from, acc) == match spec_records_from(
            ctx,
            records.take(mid),
            from,
            acc,
        ) {
            Err(e) => Err(e),
            Ok((next, rows)) => spec_records_from(next, records, mid, rows),
        },
    decreases mid - from,
{
    if from < mid {
        assert(records.take(mid)[from] == records[from]);
        if let Ok((next, rows)) = spec_parse_record(ctx, records[from]) {
            lemma_records_split(next, records, from + 1, mid, acc + rows);
        }
    }
}

/// The context in which the record at position `n` of a capture is seen,
/// where the records before it can be converted.
pub open spec fn context_before(
    header: Header,
    records: Seq<Record>,
    mapping: MappingView,
    n: int,
) -> Option<ContextView> {
    match spec_records_from(
        ContextView::initial(header.id_size, mapping),
        records.take(n),
        0,
        seq![spec_header_row(header)],
    ) {
        Ok((ctx, _)) => Some(ctx),
        Err(_) => None,
    }
}

/// All or nothing: where the record at position `n` fails after those before
/// it were converted, the conversion fails as that record does. It gives no
/// rows, not those of the records before.
pub proof fn lemma_failure_leaves_no_rows(
    header: Header,
    records: Seq<Record>,
    mapping: MappingView,
    n: int,
)
    requires
        0 <= n < records.len(),
        context_before(header, records, mapping, n) is Some,
        spec_parse_record(context_before(header, records, mapping, n)->0, records[n]) is Err,
    ensures
        spec_parse_records(header, records, mapping) is Err,
        spec_parse_records(header, records, mapping)->Err_0 == spec_parse_record(
            context_before(header, records, mapping, n)->0,
            records[n],
        )->Err_0,
{
    lemma_records_split(
        ContextView::initial(header.id_size, mapping),
        records,
        0,
        n,
        seq![spec_header_row(header)],
    );
}

/// `row` holds a value of the field that the class with the key `class_key`
/// declares at the row's position among `fields`: it is a row of the
/// instance, and of its three slots exactly that of the field's type is
/// filled.
pub open spec fn holds_field_of(
    row: RowView,
    instance_id: i64,
    class_key: i64,
    fields: Seq<FieldDescriptor>,
) -> bool {
    match row {
        RowView::FieldValue { instance_id: of, class_id, ordinal, floating, integer, reference }
        => {
            &&& of == instance_id
            &&& class_id == class_key
            &&& ordinal < fields.len()
            &&& only_slot_filled(
                (floating, integer, reference),
                slot_of(fields[ordinal as int].field_type),
            )
        },
        _ => false,
    }
}

/// The number of null references among the values of the fields of one class
/// from position `ordinal` on, read from the front of `input`.
pub open spec fn spec_class_nulls(
    fields: Seq<FieldDescriptor>,
    ordinal: int,
    input: Seq<u8>,
    id_size: IdSize,
) -> nat
    decreases fields.len() - ordinal,
{
    if ordinal < 0 || ordinal >= fields.len() {
        0
    } else {
        match spec_parse_value(fields[ordinal].field_type, input, id_size) {
            None => 0,
            Some((rest, value)) => {
                let here: nat = if value.is_null() {
                    1
                } else {
                    0
                };
                here + spec_class_nulls(fields, ordinal + 1, rest, id_size)
            },
        }
    }
}

/// The bytes that are left of `input` behind the values of the fields of one
/// class from position `ordinal` on.
pub open spec fn spec_class_rest(
    fields: Seq<FieldDescriptor>,
    ordinal: int,
    input: Seq<u8>,
    id_size: IdSize,
) -> Seq<u8>
    decreases fields.len() - ordinal,
{
    if ordinal < 0 || ordinal >= fields.len() {
        input
    } else {
        match spec_parse_value(fields[ordinal].field_type, input, id_size) {
            None => input,
            Some((rest, _)) => spec_class_rest(fields, ordinal + 1, rest, id_size),
        }
    }
}

/// The number of fields that the classes of a chain declare, from position
/// `level` of the chain on.
pub open spec fn spec_chain_fields(
    classes: Map<u64, ClassInfoView>,
    chain: Seq<u64>,
    level: int,
) -> nat
    decreases chain.len() - level,
{
    if level < 0 || level >= chain.len() {
        0
    } else {
        classes[chain[level]].fields.len() + spec_chain_fields(classes, chain, level + 1)
    }
}

/// The number of null references among the values of an instance, from
/// position `level` of its chain on, read from the front of `input`.
pub open spec fn spec_chain_nulls(
    classes: Map<u64, ClassInfoView>,
    chain: Seq<u64>,
    level: int,
    input: Seq<u8>,
    id_size: IdSize,
) -> nat
    decreases chain.len() - level,
{
    if level < 0 || level >= chain.len() {
        0
    } else {
        let fields = classes[chain[level]].fields;
        spec_class_nulls(fields, 0, input, id_size) + spec_chain_nulls(
            classes,
            chain,
            level + 1,
            spec_class_rest(fields, 0, input, id_size),
            id_size,
        )
    }
}

/// The rows of the values of one class: they stand behind those that were
/// there, each holds a value of one of the fields, and there is one for each
/// field but for the null references.
pub proof fn lemma_class_values(
    fields: Seq<FieldDescriptor>,
    ordinal: int,
    input: Seq<u8>,
    id_size: IdSize,
    instance_id: i64,
    class_key: i64,
    obj_id: u64,
    acc: Seq<RowView>,
)
    requires
        0 <= ordinal <= fields.len(),
        spec_class_values(fields, ordinal, input, id_size, instance_id, class_key, obj_id, acc)
            is Ok,
    ensures
        ({
            let (rest, rows) = spec_class_values(
                fields,
                ordinal,
                input,
                id_size,
                instance_id,
                class_key,
                obj_id,
                acc,
            )->Ok_0;
            &&& rest == spec_class_rest(fields, ordinal, input, id_size)
            &&& acc.len() <= rows.len()
            &&& rows.take(acc.len() as int) == acc
            &&& rows.len() + spec_class_nulls(fields, ordinal, input, id_size) == acc.len()
                + fields.len() - ordinal
            &&& forall|k: int|
                acc.len() <= k < rows.len() ==> holds_field_of(
                    #[trigger] rows[k],
                    instance_id,
                    class_key,
                    fields,
                )
        }),
    decreases fields.len() - ordinal,
{
    let (rest, rows) = spec_class_values(
        fields,
        ordinal,
        input,
        id_size,
        instance_id,
        class_key,
        obj_id,
        acc,
    )->Ok_0;
    if ordinal < fields.len() {
        let (after, value) = spec_parse_value(fields[ordinal].field_type, input, id_size)->0;
        let here = spec_value_rows(instance_id, class_key, ordinal as nat, value);
        let longer = acc + here;
        lemma_class_values(
            fields,
            ordinal + 1,
            after,
            id_size,
            instance_id,
            class_key,
            obj_id,
            longer,
        );
        assert(rows.take(acc.len() as int) =~= acc) by {
            assert forall|k: int| 0 <= k < acc.len() implies rows[k] == acc[k] by {
                assert(rows.take(longer.len() as int)[k] == longer[k]);
            }
        }
        assert forall|k: int| acc.len() <= k < rows.len() implies holds_field_of(
            #[trigger] rows[k],
            instance_id,
            class_key,
            fields,
        ) by {
            if k < longer.len() {
                assert(rows.take(longer.len() as int)[k] == longer[k]);
                assert(longer[k] == here[k - acc.len()]);
                assert(value.field_type() == fields[ordinal].field_type);
            }
        }
    } else {
        assert(rows.take(acc.len() as int) =~= acc);
    }
}

/// `row` holds a value of a field of one of the classes of `chain`, from
/// position `level` of the chain on.
pub open spec fn holds_field_of_chain(
    row: RowView,
    instance_id: i64,
    classes: Map<u64, ClassInfoView>,
    chain: Seq<u64>,
    level: int,
) -> bool {
    exists|l: int|
        level <= l < chain.len() && #[trigger] holds_field_of(
            row,
            instance_id,
            classes[chain[l]].id,
            classes[chain[l]].fields,
        )
}

/// The rows of the values of an instance: they stand behind those that were
/// there, each holds a value of a field of a class of the chain, and there
/// is one for each field of the chain but for the null references.
pub proof fn lemma_chain_values(
    classes: Map<u64, ClassInfoView>,
    chain: Seq<u64>,
    level: int,
    input: Seq<u8>,
    id_size: IdSize,
    instance_id: i64,
    obj_id: u64,
    acc: Seq<RowView>,
)
    requires
        0 <= level <= chain.len(),
        spec_chain_values(classes, chain, level, input, id_size, instance_id, obj_id, acc) is Ok,
    ensures
        ({
            let rows = spec_chain_values(
                classes,
                chain,
                level,
                input,
                id_size,
                instance_id,
                obj_id,
                acc,
            )->Ok_0;
            &&& acc.len() <= rows.len()
            &&& rows.take(acc.len() as int) == acc
            &&& rows.len() + spec_chain_nulls(classes, chain, level, input, id_size) == acc.len()
                + spec_chain_fields(classes, chain, level)
            &&& forall|k: int|
                acc.len() <= k < rows.len() ==> holds_field_of_chain(
                    #[trigger] rows[k],
                    instance_id,
                    classes,
                    chain,
                    level,
                )
        }),
    decreases chain.len() - level,
{
    let rows = spec_chain_values(
        classes,
        chain,
        level,
        input,
        id_size,
        instance_id,
        obj_id,
        acc,
    )->Ok_0;
    if level < chain.len() {
        let info = classes[chain[level]];
        lemma_class_values(info.fields, 0, input, id_size, instance_id, info.id, obj_id, acc);
        let (rest, longer) = spec_class_values(
            info.fields,
            0,
            input,
            id_size,
            instance_id,
            info.id,
            obj_id,
            acc,
        )->Ok_0;
        lemma_chain_values(classes, chain, level + 1, rest, id_size, instance_id, obj_id, longer);
        assert(rows.take(acc.len() as int) =~= acc) by {
            assert forall|k: int| 0 <= k < acc.len() implies rows[k] == acc[k] by {
                assert(rows.take(longer.len() as int)[k] == longer[k]);
                assert(longer.take(acc.len() as int)[k] == acc[k]);
            }
        }
        assert forall|k: int| acc.len() <= k < rows.len() implies holds_field_of_chain(
            #[trigger] rows[k],
            instance_id,
            classes,
            chain,
            level,
        ) by {
            if k < longer.len() {
                assert(rows.take(longer.len() as int)[k] == longer[k]);
                assert(holds_field_of(
                    rows[k],
                    instance_id,
                    classes[chain[level]].id,
                    classes[chain[level]].fields,
                ));
            } else {
                assert(holds_field_of_chain(rows[k], instance_id, classes, chain, level + 1));
                let l = choose|l: int|
                    level + 1 <= l < chain.len() && #[trigger] holds_field_of(
                        rows[k],
                        instance_id,
                        classes[chain[l]].id,
                        classes[chain[l]].fields,
                    );
                assert(holds_field_of(
                    rows[k],
                    instance_id,
                    classes[chain[l]].id,
                    classes[chain[l]].fields,
                ));
            }
        }
    } else {
        assert(rows.take(acc.len() as int) =~= acc);
    }
}

/// The rows of an instance. The first is that of its key and the second its
/// own. Behind them stands one row for each field of its chain, but for the
/// fields that hold a null reference: never more. Each of these rows holds
/// the value of one field of a class of the chain, in exactly one of its
/// three slots: the floating slot for a float or a double, the reference
/// slot for a reference, the integer slot for any other type.
pub proof fn lemma_instance_rows(ctx: ContextView, instance: Instance)
    requires
        ctx.classes.dom().finite(),
        spec_process_instance(ctx, instance) is Ok,
    ensures
        ({
            let rows = spec_process_instance(ctx, instance)->Ok_0.1;
            let id = (ctx.instance_id + 1) as i64;
            let chain = spec_resolve_chain(ctx.classes, instance.class_obj_id)->Ok_0;
            let nulls = spec_chain_nulls(ctx.classes, chain, 0, instance.fields@, ctx.id_size);
            &&& spec_resolve_chain(ctx.classes, instance.class_obj_id) is Ok
            &&& chain.len() > 0 && chain[0] == instance.class_obj_id
            &&& rows.len() >= 2
            &&& rows[0] == (RowView::Object { id, native_id: instance.obj_id })
            &&& rows[1] == (RowView::Instance {
                id,
                class_id: ctx.classes[instance.class_obj_id].id,
            })
            &&& rows.len() - 2 + nulls == spec_chain_fields(ctx.classes, chain, 0)
            &&& rows.len() - 2 <= spec_chain_fields(ctx.classes, chain, 0)
            &&& forall|k: int|
                2 <= k < rows.len() ==> holds_field_of_chain(
                    #[trigger] rows[k],
                    id,
                    ctx.classes,
                    chain,
                    0,
                )
        }),
{
    let id = (ctx.instance_id + 1) as i64;
    let chain = spec_resolve_chain(ctx.classes, instance.class_obj_id)->Ok_0;
    let head = seq![
        RowView::Object { id, native_id: instance.obj_id },
        RowView::Instance { id, class_id: ctx.classes[instance.class_obj_id].id },
    ];
    lemma_chain_from(ctx.classes, Some(instance.class_obj_id), Seq::empty());
    lemma_chain_values(
        ctx.classes,
        chain,
        0,
        instance.fields@,
        ctx.id_size,
        id,
        instance.obj_id,
        head,
    );
    let rows = spec_process_instance(ctx, instance)->Ok_0.1;
    assert(rows.take(2)[0] == head[0]);
    assert(rows.take(2)[1] == head[1]);
}

/// The number of slots that a row fills; a row that is not a field value has
/// no slots.
pub open spec fn filled_slots(row: RowView) -> nat {
    match row {
        RowView::FieldValue { floating, integer, reference, .. } => {
            let f: nat = if floating is Some {
                1
            } else {
                0
            };
            let i: nat = if integer is Some {
                1
            } else {
                0
            };
            let r: nat = if reference is Some {
                1
            } else {
                0
            };
            f + i + r
        },
        _ => 0,
    }
}

/// Every field value among `rows` fills exactly one slot.
pub open spec fn one_slot_each(rows: Seq<RowView>) -> bool {
    forall|k: int|
        0 <= k < rows.len() && (#[trigger] rows[k]) is FieldValue ==> filled_slots(rows[k]) == 1
}

/// A step keeps the classes finitely many, and every field value among its
/// rows fills exactly one slot.
pub open spec fn step_in_order(step: Step) -> bool {
    step matches Ok((ctx, rows)) ==> ctx.classes.dom().finite() && one_slot_each(rows)
}

/// Whatever a sub-record is, every field value among its rows fills exactly
/// one slot.
pub proof fn lemma_sub_record_one_slot(ctx: ContextView, sub: SubRecord)
    requires
        ctx.classes.dom().finite(),
    ensures
        step_in_order(spec_process_sub_record(ctx, sub)),
{
    if let Ok((next, rows)) = spec_process_sub_record(ctx, sub) {
        match sub {
            SubRecord::Instance(instance) => {
                lemma_instance_rows(ctx, instance);
                let id = (ctx.instance_id + 1) as i64;
                let chain = spec_resolve_chain(ctx.classes, instance.class_obj_id)->Ok_0;
                assert forall|k: int|
                    0 <= k < rows.len() && (#[trigger] rows[k]) is FieldValue implies filled_slots(
                    rows[k],
                ) == 1 by {
                    assert(holds_field_of_chain(rows[k], id, ctx.classes, chain, 0));
                }
            },
            SubRecord::Class(class) => {
                lemma_class_rows(ctx, class);
            },
            _ => {},
        }
    }
}

/// The rows of the definition of a class are those of its fields, one for
/// each in the order of their declaration, and behind them that of the
/// class where the definition completes it.
pub proof fn lemma_class_rows(ctx: ContextView, class: Class)
    requires
        spec_process_class(ctx, class) is Ok,
    ensures
        ({
            let (next, rows) = spec_process_class(ctx, class)->Ok_0;
            let id = class.obj_id;
            let seen = ctx.classes.contains_key(id) && ctx.classes[id].defined();
            let named = ctx.classes.contains_key(id) && ctx.classes[id].named();
            let fields = class.instance_fields@.len();
            &&& next.classes.dom() == ctx.classes.dom().insert(class.obj_id)
            &&& seen ==> rows.len() == 0
            &&& !seen ==> rows.len() == fields + (if named {
                1nat
            } else {
                0nat
            })
            &&& forall|k: int|
                0 <= k < rows.len() && k < fields ==> (#[trigger] rows[k]) is Field
            &&& forall|k: int|
                0 <= k < rows.len() && k >= fields ==> (#[trigger] rows[k]) is Class
        }),
{
    let (next, rows) = spec_process_class(ctx, class)->Ok_0;
    let seen = ctx.classes.contains_key(class.obj_id) && ctx.classes[class.obj_id].defined();
    if seen {
        assert(ctx.classes.dom().insert(class.obj_id) =~= ctx.classes.dom());
    } else {
        let key = ctx.mapping.class_ids[class.obj_id];
        lemma_field_rows(ctx.mapping, key, class.instance_fields@, 0, Seq::empty());
    }
}

/// The rows of the fields of a class stand behind those that were there, one
/// for each field.
pub proof fn lemma_field_rows(
    mapping: MappingView,
    class_key: i64,
    fields: Seq<FieldDescriptor>,
    ordinal: int,
    acc: Seq<RowView>,
)
    requires
        0 <= ordinal <= fields.len(),
        spec_field_rows(mapping, class_key, fields, ordinal, acc) is Ok,
    ensures
        ({
            let rows = spec_field_rows(mapping, class_key, fields, ordinal, acc)->Ok_0;
            &&& rows.len() == acc.len() + fields.len() - ordinal
            &&& rows.take(acc.len() as int) == acc
            &&& forall|k: int| acc.len() <= k < rows.len() ==> (#[trigger] rows[k]) is Field
        }),
    decreases fields.len() - ordinal,
{
    let rows = spec_field_rows(mapping, class_key, fields, ordinal, acc)->Ok_0;
    if ordinal < fields.len() {
        let row = RowView::Field {
            class_id: class_key,
            ordinal: ordinal as nat,
            name_id: mapping.name_ids[fields[ordinal].name_id],
            type_id: spec_field_type_id(fields[ordinal].field_type),
        };
        let longer = acc.push(row);
        lemma_field_rows(mapping, class_key, fields, ordinal + 1, longer);
        assert(rows.take(acc.len() as int) =~= acc) by {
            assert forall|k: int| 0 <= k < acc.len() implies rows[k] == acc[k] by {
                assert(rows.take(longer.len() as int)[k] == longer[k]);
            }
        }
        assert forall|k: int| acc.len() <= k < rows.len() implies (#[trigger] rows[k]) is Field by {
            if k < longer.len() {
                assert(rows.take(longer.len() as int)[k] == longer[k]);
            }
        }
    } else {
        assert(rows.take(acc.len() as int) =~= acc);
    }
}

/// Whatever the sub-records are, every field value among their rows fills
/// exactly one slot.
pub proof fn lemma_sub_records_one_slot(
    ctx: ContextView,
    subs: Seq<SubRecord>,
    from: int,
    acc: Seq<RowView>,
)
    requires
        0 <= from <= subs.len(),
        ctx.classes.dom().finite(),
        one_slot_each(acc),
    ensures
        step_in_order(spec_sub_records_from(ctx, subs, from, acc)),
    decreases subs.len() - from,
{
    if from < subs.len() {
        lemma_sub_record_one_slot(ctx, subs[from]);
        if let Ok((next, rows)) = spec_process_sub_record(ctx, subs[from]) {
            lemma_sub_records_one_slot(next, subs, from + 1, acc + rows);
        }
    }
}

/// Whatever a record is, every field value among its rows fills exactly one
/// slot.
pub proof fn lemma_record_one_slot(ctx: ContextView, record: Record)
    requires
        ctx.classes.dom().finite(),
    ensures
        step_in_order(spec_parse_record(ctx, record)),
{
    match record {
        Record::HeapDumpSegment(subs) => {
            lemma_sub_records_one_slot(ctx, subs@, 0, Seq::empty());
        },
        _ => {},
    }
}

/// Whatever the records are, every field value among their rows fills
/// exactly one slot.
pub proof fn lemma_records_one_slot(
    ctx: ContextView,
    records: Seq<Record>,
    from: int,
    acc: Seq<RowView>,
)
    requires
        0 <= from <= records.len(),
        ctx.classes.dom().finite(),
        one_slot_each(acc),
    ensures
        step_in_order(spec_records_from(ctx, records, from, acc)),
    decreases records.len() - from,
{
    if from < records.len() {
        lemma_record_one_slot(ctx, records[from]);
        if let Ok((next, rows)) = spec_parse_record(ctx, records[from]) {
            lemma_records_one_slot(next, records, from + 1, acc + rows);
        }
    }
}

/// One slot for one value: whatever the capture, every field value among
/// its rows fills exactly one of its three slots.
pub proof fn lemma_one_slot_per_value(header: Header, records: Seq<Record>, mapping: MappingView)
    ensures
        spec_parse_records(header, records, mapping) matches Ok(rows) ==> one_slot_each(rows),
{
    lemma_records_one_slot(
        ContextView::initial(header.id_size, mapping),
        records,
        0,
        seq![spec_header_row(header)],
    );
}

/// The rows of the load record of a class: none, or that of the class where
/// the record completes it. The row holds what the definition and the load
/// record say of the class.
pub proof fn lemma_load_rows(ctx: ContextView, load: LoadClass)
    requires
        spec_process_load_class(ctx, load) is Ok,
    ensures
        ({
            let (next, rows) = spec_process_load_class(ctx, load)->Ok_0;
            let id = load.class_obj_id;
            let named = ctx.classes.contains_key(id) && ctx.classes[id].named();
            let defined = ctx.classes.contains_key(id) && ctx.classes[id].defined();
            &&& next.classes.dom() == ctx.classes.dom().insert(id)
            &&& rows.len() == (if defined && !named {
                1nat
            } else {
                0nat
            })
            &&& defined && !named ==> rows[0] is Class && rows[0]->Class_id
                == ctx.mapping.class_ids[id] && rows[0]->Class_name_id
                == ctx.mapping.name_ids[load.class_name_id] && rows[0]->Class_instance_size
                == ctx.classes[id].instance_size->0
        }),
{
    let id = load.class_obj_id;
    if ctx.classes.contains_key(id) {
        assert(ctx.classes.dom().insert(id) =~= ctx.classes.dom());
    }
}

/// What is complete stays as it is: no sub-record changes what is known of a
/// class of which both the definition and the load record have been seen.
pub proof fn lemma_sub_record_keeps_complete(ctx: ContextView, sub: SubRecord, id: u64)
    requires
        ctx.classes.contains_key(id),
        ctx.classes[id].complete(),
        spec_process_sub_record(ctx, sub) is Ok,
    ensures
        spec_process_sub_record(ctx, sub)->Ok_0.0.classes.contains_key(id),
        spec_process_sub_record(ctx, sub)->Ok_0.0.classes[id] == ctx.classes[id],
{
}

/// What is complete stays as it is, whatever sub-records follow.
pub proof fn lemma_sub_records_keep_complete(
    ctx: ContextView,
    subs: Seq<SubRecord>,
    from: int,
    acc: Seq<RowView>,
    id: u64,
)
    requires
        0 <= from <= subs.len(),
        ctx.classes.contains_key(id),
        ctx.classes[id].complete(),
        spec_sub_records_from(ctx, subs, from, acc) is Ok,
    ensures
        spec_sub_records_from(ctx, subs, from, acc)->Ok_0.0.classes.contains_key(id),
        spec_sub_records_from(ctx, subs, from, acc)->Ok_0.0.classes[id] == ctx.classes[id],
    decreases subs.len() - from,
{
    if from < subs.len() {
        lemma_sub_record_keeps_complete(ctx, subs[from], id);
        let (next, rows) = spec_process_sub_record(ctx, subs[from])->Ok_0;
        lemma_sub_records_keep_complete(next, subs, from + 1, acc + rows, id);
    }
}

/// What is complete stays as it is: no record changes what is known of a
/// class of which both the definition and the load record have been seen,
/// so the row of a class is written once.
pub proof fn lemma_record_keeps_complete(ctx: ContextView, record: Record, id: u64)
    requires
        ctx.classes.contains_key(id),
        ctx.classes[id].complete(),
        spec_parse_record(ctx, record) is Ok,
    ensures
        spec_parse_record(ctx, record)->Ok_0.0.classes.contains_key(id),
        spec_parse_record(ctx, record)->Ok_0.0.classes[id] == ctx.classes[id],
        record matches Record::LoadClass(load) && load.class_obj_id == id ==> spec_parse_record(
            ctx,
            record,
        )->Ok_0.1.len() == 0,
{
    if let Record::HeapDumpSegment(subs) = record {
        lemma_sub_records_keep_complete(ctx, subs@, 0, Seq::empty(), id);
    }
}

/// The keys of the objects among `rows`, in the order of the rows.
pub open spec fn object_keys(rows: Seq<RowView>) -> Seq<i64>
    decreases rows.len(),
{
    if rows.len() == 0 {
        Seq::empty()
    } else {
        let before = object_keys(rows.drop_last());
        match rows.last() {
            RowView::Object { id, .. } => before.push(id),
            _ => before,
        }
    }
}

/// The keys `after + 1`, `after + 2`, and so on up to `last`.
pub open spec fn keys_between(after: int, last: int) -> Seq<i64> {
    Seq::new((last - after) as nat, |k: int| (after + 1 + k) as i64)
}

/// The keys of the objects among two runs of rows are those of the first
/// and then those of the second.
pub proof fn lemma_object_keys_concat(first: Seq<RowView>, second: Seq<RowView>)
    ensures
        object_keys(first + second) == object_keys(first) + object_keys(second),
    decreases second.len(),
{
    if second.len() == 0 {
        assert(first + second =~= first);
        assert(object_keys(first) + object_keys(second) =~= object_keys(first));
    } else {
        assert((first + second).drop_last() =~= first + second.drop_last());
        lemma_object_keys_concat(first, second.drop_last());
        assert(object_keys(first + second) =~= object_keys(first) + object_keys(second));
    }
}

/// Rows none of which is that of an object hold no key of an object.
pub proof fn lemma_object_keys_none(rows: Seq<RowView>)
    requires
        forall|k: int| 0 <= k < rows.len() ==> !((#[trigger] rows[k]) is Object),
    ensures
        object_keys(rows) == Seq::<i64>::empty(),
    decreases rows.len(),
{
    if rows.len() > 0 {
        lemma_object_keys_none(rows.drop_last());
    }
}

/// Rows of which the first is that of an object, and no other, hold the key
/// of that object.
pub proof fn lemma_object_keys_first(rows: Seq<RowView>)
    requires
        rows.len() > 0,
        rows[0] is Object,
        forall|k: int| 1 <= k < rows.len() ==> !((#[trigger] rows[k]) is Object),
    ensures
        object_keys(rows) == seq![rows[0]->Object_id],
{
    let first = seq![rows[0]];
    let rest = rows.skip(1);
    assert(rows =~= first + rest);
    lemma_object_keys_concat(first, rest);
    lemma_object_keys_none(rest);
    assert(first.drop_last() =~= Seq::<RowView>::empty());
    assert(object_keys(first.drop_last()) =~= Seq::<i64>::empty());
    assert(object_keys(first) =~= seq![rows[0]->Object_id]);
    assert(object_keys(first) + object_keys(rest) =~= seq![rows[0]->Object_id]);
}

/// A step gives the objects that it sees the keys that follow that of the
/// last object before it, in their order.
pub open spec fn step_numbers_objects(ctx: ContextView, step: Step) -> bool {
    step matches Ok((next, rows)) ==> {
        &&& ctx.instance_id <= next.instance_id
        &&& next.classes.dom().finite()
        &&& object_keys(rows) == keys_between(ctx.instance_id as int, next.instance_id as int)
    }
}

/// Whatever a sub-record is, the object that it holds gets the key that
/// follows that of the last object before it.
pub proof fn lemma_sub_record_numbers_objects(ctx: ContextView, sub: SubRecord)
    requires
        ctx.classes.dom().finite(),
    ensures
        step_numbers_objects(ctx, spec_process_sub_record(ctx, sub)),
{
    if let Ok((next, rows)) = spec_process_sub_record(ctx, sub) {
        let id = (ctx.instance_id + 1) as i64;
        match sub {
            SubRecord::Class(class) => {
                lemma_class_rows(ctx, class);
                lemma_object_keys_none(rows);
                assert(object_keys(rows) =~= keys_between(
                    ctx.instance_id as int,
                    next.instance_id as int,
                ));
            },
            SubRecord::Instance(instance) => {
                lemma_instance_rows(ctx, instance);
                let chain = spec_resolve_chain(ctx.classes, instance.class_obj_id)->Ok_0;
                assert forall|k: int| 1 <= k < rows.len() implies !((#[trigger] rows[k])
                    is Object) by {
                    if k >= 2 {
                        assert(holds_field_of_chain(rows[k], id, ctx.classes, chain, 0));
                    }
                }
                lemma_object_keys_first(rows);
                assert(object_keys(rows) =~= keys_between(
                    ctx.instance_id as int,
                    next.instance_id as int,
                ));
            },
            SubRecord::ObjectArray(array) => {
                lemma_object_keys_first(rows);
                assert(object_keys(rows) =~= keys_between(
                    ctx.instance_id as int,
                    next.instance_id as int,
                ));
            },
            SubRecord::PrimitiveArray(array) => {
                lemma_object_keys_first(rows);
                assert(object_keys(rows) =~= keys_between(
                    ctx.instance_id as int,
                    next.instance_id as int,
                ));
            },
            SubRecord::Other => {
                assert(object_keys(rows) =~= keys_between(
                    ctx.instance_id as int,
                    next.instance_id as int,
                ));
            },
        }
    }
}

/// A run of steps numbers the objects as its steps do, one after the other.
pub proof fn lemma_keys_between_concat(after: int, mid: int, last: int)
    requires
        after <= mid <= last,
    ensures
        keys_between(after, mid) + keys_between(mid, last) == keys_between(after, last),
{
    assert(keys_between(after, mid) + keys_between(mid, last) =~= keys_between(after, last));
}

/// Whatever the sub-records are, the objects among them get the keys that
/// follow that of the last object before them, in their order.
pub proof fn lemma_sub_records_number_objects(
    ctx: ContextView,
    subs: Seq<SubRecord>,
    from: int,
    acc: Seq<RowView>,
)
    requires
        0 <= from <= subs.len(),
        ctx.classes.dom().finite(),
    ensures
        spec_sub_records_from(ctx, subs, from, acc) matches Ok((last, rows)) ==> {
            &&& ctx.instance_id <= last.instance_id
            &&& last.classes.dom().finite()
            &&& object_keys(rows) == object_keys(acc) + keys_between(
                ctx.instance_id as int,
                last.instance_id as int,
            )
        },
    decreases subs.len() - from,
{
    if from < subs.len() {
        lemma_sub_record_numbers_objects(ctx, subs[from]);
        if let Ok((next, rows)) = spec_process_sub_record(ctx, subs[from]) {
            lemma_sub_records_number_objects(next, subs, from + 1, acc + rows);
            lemma_object_keys_concat(acc, rows);
            if let Ok((last, all)) = spec_sub_records_from(next, subs, from + 1, acc + rows) {
                lemma_keys_between_concat(
                    ctx.instance_id as int,
                    next.instance_id as int,
                    last.instance_id as int,
                );
                assert(object_keys(all) =~= object_keys(acc) + keys_between(
                    ctx.instance_id as int,
                    last.instance_id as int,
                ));
            }
        }
    } else {
        assert(object_keys(acc) + keys_between(ctx.instance_id as int, ctx.instance_id as int)
            =~= object_keys(acc));
    }
}

/// Whatever a record is, the objects in it get the keys that follow that of
/// the last object before it, in their order.
pub proof fn lemma_record_numbers_objects(ctx: ContextView, record: Record)
    requires
        ctx.classes.dom().finite(),
    ensures
        step_numbers_objects(ctx, spec_parse_record(ctx, record)),
{
    if let Ok((next, rows)) = spec_parse_record(ctx, record) {
        match record {
            Record::HeapDumpSegment(subs) => {
                lemma_sub_records_number_objects(ctx, subs@, 0, Seq::empty());
                assert(object_keys(Seq::<RowView>::empty()) + keys_between(
                    ctx.instance_id as int,
                    next.instance_id as int,
                ) =~= keys_between(ctx.instance_id as int, next.instance_id as int));
            },
            Record::LoadClass(class) => {
                lemma_object_keys_none(rows);
                assert(object_keys(rows) =~= keys_between(
                    ctx.instance_id as int,
                    next.instance_id as int,
                ));
            },
            _ => {
                lemma_object_keys_none(rows);
                assert(object_keys(rows) =~= keys_between(
                    ctx.instance_id as int,
                    next.instance_id as int,
                ));
            },
        }
    }
}

/// Whatever the records are, the objects among them get the keys that follow
/// that of the last object before them, in their order.
pub proof fn lemma_records_number_objects(
    ctx: ContextView,
    records: Seq<Record>,
    from: int,
    acc: Seq<RowView>,
)
    requires
        0 <= from <= records.len(),
        ctx.classes.dom().finite(),
    ensures
        spec_records_from(ctx, records, from, acc) matches Ok((last, rows)) ==> {
            &&& ctx.instance_id <= last.instance_id
            &&& object_keys(rows) == object_keys(acc) + keys_between(
                ctx.instance_id as int,
                last.instance_id as int,
            )
        },
    decreases records.len() - from,
{
    if from < records.len() {
        lemma_record_numbers_objects(ctx, records[from]);
        if let Ok((next, rows)) = spec_parse_record(ctx, records[from]) {
            lemma_records_number_objects(next, records, from + 1, acc + rows);
            lemma_object_keys_concat(acc, rows);
            if let Ok((last, all)) = spec_records_from(next, records, from + 1, acc + rows) {
                lemma_keys_between_concat(
                    ctx.instance_id as int,
                    next.instance_id as int,
                    last.instance_id as int,
                );
                assert(object_keys(all) =~= object_keys(acc) + keys_between(
                    ctx.instance_id as int,
                    last.instance_id as int,
                ));
            }
        }
    } else {
        assert(object_keys(acc) + keys_between(ctx.instance_id as int, ctx.instance_id as int)
            =~= object_keys(acc));
    }
}

/// The keys of the objects of a capture are the numbers from 1 on, in the
/// order in which the capture holds the objects: each instance and each
/// array gets a key of its own, and no number is left out.
pub proof fn lemma_object_keys_dense(header: Header, records: Seq<Record>, mapping: MappingView)
    ensures
        spec_parse_records(header, records, mapping) matches Ok(rows) ==> object_keys(rows)
            == keys_between(0, object_keys(rows).len() as int),
{
    let start = ContextView::initial(header.id_size, mapping);
    let acc = seq![spec_header_row(header)];
    lemma_records_number_objects(start, records, 0, acc);
    lemma_object_keys_none(acc);
    if let Ok((last, rows)) = spec_records_from(start, records, 0, acc) {
        assert(object_keys(acc) + keys_between(0, last.instance_id as int) =~= keys_between(
            0,
            last.instance_id as int,
        ));
    }
}

} // verus!
