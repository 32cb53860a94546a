//! What rows become together is what they become apart, one after the other.

use crate::builder::batch_fits;
use crate::columns::{
    distinct_names, holds_rows, lemma_finished, lemma_fresh_by_columns, lemma_names_must_differ,
    lemma_rows_by_columns, lemma_schema_by_columns, well_built,
};
use crate::flat::{
    built_for, is_flat, is_plain, is_scalar, lemma_append_keeps, lemma_fresh_built, lemma_plain,
    lemma_scalar_step_keeps, lemma_trino_types_are_flat, same_kind,
};
use crate::json::JsonView;
use crate::rows::{
    conversion, finish_step, fresh, fresh_builders, lemma_fresh_struct, lemma_less_room, room_for,
    room_for_all, lemma_left, lemma_rows_stuck, names_before, row_step, row_value, rows_step,
    schema_of, BuildersStep, ColumnsStep, Outcome, SchemaReading,
};
use crate::store::{child_fits, finishable, item_field, store_len, store_type, Store};
use crate::success::lemma_binary_bytes_sum;
use crate::types::{ColumnView, FieldView, TypeView};
use crate::values::{
    append_step, children_step, field_value, lemma_text_bytes_sum, scalar_step, struct_step,
    ChildrenStep, Step,
};
use vstd::prelude::*;

verus! {

/// Where lists or maps end, behind so many items.
pub open spec fn shifted(slots: Seq<(nat, bool)>, items: nat) -> Seq<(nat, bool)> {
    Seq::new(slots.len(), |i: int| (slots[i].0 + items, slots[i].1))
}

/// A column followed by another of its kind.
pub open spec fn joined(a: Store, b: Store) -> Store
    decreases a,
{
    match (a, b) {
        (Store::Boolean(x), Store::Boolean(y)) => Store::Boolean(x + y),
        (Store::Int8(x), Store::Int8(y)) => Store::Int8(x + y),
        (Store::Int16(x), Store::Int16(y)) => Store::Int16(x + y),
        (Store::Int32(x), Store::Int32(y)) => Store::Int32(x + y),
        (Store::Int64(x), Store::Int64(y)) => Store::Int64(x + y),
        (Store::Float32(x), Store::Float32(y)) => Store::Float32(x + y),
        (Store::Float64(x), Store::Float64(y)) => Store::Float64(x + y),
        (Store::Utf8(x), Store::Utf8(y)) => Store::Utf8(x + y),
        (Store::LargeUtf8(x), Store::LargeUtf8(y)) => Store::LargeUtf8(x + y),
        (Store::Binary(x), Store::Binary(y)) => Store::Binary(x + y),
        (Store::Date32(x), Store::Date32(y)) => Store::Date32(x + y),
        (Store::Time64(x), Store::Time64(y)) => Store::Time64(x + y),
        (Store::Timestamp(x), Store::Timestamp(y)) => Store::Timestamp(x + y),
        (
            Store::Decimal128 { precision, scale, cells: x },
            Store::Decimal128 { cells: y, .. },
        ) => Store::Decimal128 { precision, scale, cells: x + y },
        (
            Store::Decimal256 { precision, scale, cells: x },
            Store::Decimal256 { cells: y, .. },
        ) => Store::Decimal256 { precision, scale, cells: x + y },
        (Store::Null(x), Store::Null(y)) => Store::Null(x + y),
        (
            Store::TextList { items: x, slots: xs },
            Store::TextList { items: y, slots: ys },
        ) => Store::TextList { items: x + y, slots: xs + shifted(ys, x.len()) },
        (
            Store::TextMap { keys: xk, values: xv, slots: xs },
            Store::TextMap { keys: yk, values: yv, slots: ys },
        ) => Store::TextMap {
            keys: xk + yk,
            values: xv + yv,
            slots: xs + shifted(ys, xk.len()),
        },
        (
            Store::Struct { fields, children: x, validity: xv },
            Store::Struct { children: y, validity: yv, .. },
        ) => Store::Struct {
            fields,
            children: Seq::new(
                x.len(),
                |i: int|
                    if 0 <= i < x.len() {
                        joined(x[i], y[i])
                    } else {
                        arbitrary()
                    },
            ),
            validity: xv + yv,
        },
        // Columns of lists or maps of any type hold none.
        _ => a,
    }
}

/// Columns followed by others, one by one.
pub open spec fn all_joined(a: Seq<Store>, b: Seq<Store>) -> Seq<Store> {
    Seq::new(a.len(), |i: int| joined(a[i], b[i]))
}

proof fn lemma_struct_joined(
    fields: Seq<FieldView>,
    x: Seq<Store>,
    xv: Seq<bool>,
    other: Seq<FieldView>,
    y: Seq<Store>,
    yv: Seq<bool>,
)
    ensures
        joined(
            Store::Struct { fields, children: x, validity: xv },
            Store::Struct { fields: other, children: y, validity: yv },
        ) == (Store::Struct { fields, children: all_joined(x, y), validity: xv + yv }),
{
    let j = joined(
        Store::Struct { fields, children: x, validity: xv },
        Store::Struct { fields: other, children: y, validity: yv },
    );
    assert(j->Struct_children =~= all_joined(x, y));
}

/// What a step of the second of two joined columns makes of both together: the same, unless they
/// are more than can be counted.
spec fn steps_agree(apart: Step, a: Store, together: Step) -> bool {
    match apart {
        Step::Done(s) => together == Step::Done(joined(a, s)) || together is Broken,
        Step::Failed(_, _) => together !is Done,
        Step::Broken => together is Broken,
    }
}

proof fn lemma_scalar_joined(a: Store, b: Store, value: Option<JsonView>, t: TypeView)
    requires
        is_scalar(t),
        same_kind(a, t),
        same_kind(b, t),
    ensures
        same_kind(joined(a, b), t),
        steps_agree(scalar_step(b, value, t), a, scalar_step(joined(a, b), value, t)),
{
    let together = scalar_step(joined(a, b), value, t);
    match (a, b) {
        (Store::Utf8(x), Store::Utf8(y)) => {
            let cell = crate::values::text_cell(value);
            assert((x + y).push(cell) =~= x + y.push(cell));
            lemma_text_bytes_sum(x, y.push(cell));
        },
        (Store::Binary(x), Store::Binary(y)) => {
            let cell = crate::values::binary_cell(value);
            assert((x + y).push(cell) =~= x + y.push(cell));
            lemma_binary_bytes_sum(x, y.push(cell));
        },
        _ => {
            match scalar_step(b, value, t) {
                Step::Done(s) => {
                    if together is Done {
                        assert(together->Done_0 =~= joined(a, s));
                    }
                },
                _ => {},
            }
        },
    }
}

spec fn children_agree(apart: ChildrenStep, x: Seq<Store>, together: ChildrenStep) -> bool {
    match apart {
        ChildrenStep::Done(now) => together == ChildrenStep::Done(all_joined(x, now))
            || together is Broken,
        ChildrenStep::Failed(_, _) => together !is Done,
        ChildrenStep::Broken => together is Broken,
    }
}

/// Whether columns are of the kinds of a struct's fields, which have no parts.
spec fn kinds_fit(children: Seq<Store>, fields: Seq<FieldView>) -> bool {
    &&& children.len() == fields.len()
    &&& forall|i: int|
        0 <= i < fields.len() ==> is_scalar((#[trigger] fields[i]).data_type) && same_kind(
            children[i],
            fields[i].data_type,
        )
}

proof fn lemma_children_joined(
    x: Seq<Store>,
    y: Seq<Store>,
    value: Option<JsonView>,
    fields: Seq<FieldView>,
    k: nat,
)
    requires
        k <= fields.len(),
        kinds_fit(x, fields),
        kinds_fit(y, fields),
    ensures
        children_step(y, value, fields, k) matches ChildrenStep::Done(now) ==> kinds_fit(
            now,
            fields,
        ),
        children_agree(
            children_step(y, value, fields, k),
            x,
            children_step(all_joined(x, y), value, fields, k),
        ),
    decreases k,
{
    if k > 0 {
        lemma_children_joined(x, y, value, fields, (k - 1) as nat);
        match children_step(y, value, fields, (k - 1) as nat) {
            ChildrenStep::Done(now) => {
                let c = k - 1;
                let part = field_value(value, fields[c], c);
                assert(is_scalar(fields[c].data_type));
                lemma_scalar_joined(x[c], now[c], part, fields[c].data_type);
                lemma_scalar_step_keeps(
                    now[c],
                    part,
                    fields[c].data_type,
                    fields[c].data_type,
                );
                match children_step(y, value, fields, k) {
                    ChildrenStep::Done(after) => {
                        assert forall|i: int| 0 <= i < fields.len() implies is_scalar(
                            (#[trigger] fields[i]).data_type,
                        ) && same_kind(after[i], fields[i].data_type) by {}
                        assert(all_joined(x, now).update(c, joined(x[c], after[c]))
                            =~= all_joined(x, after));
                    },
                    _ => {},
                }
            },
            _ => {},
        }
    }
}

proof fn lemma_append_joined(a: Store, b: Store, value: Option<JsonView>, t: TypeView)
    requires
        is_flat(t),
        built_for(a, t),
        built_for(b, t),
    ensures
        steps_agree(append_step(b, value, t), a, append_step(joined(a, b), value, t)),
{
    match t {
        TypeView::Struct(fields) => {
            let x = a->Struct_children;
            let y = b->Struct_children;
            let xv = a->Struct_validity;
            let yv = b->Struct_validity;
            assert(kinds_fit(x, fields)) by {
                assert forall|i: int| 0 <= i < fields.len() implies is_scalar(
                    (#[trigger] fields[i]).data_type,
                ) && same_kind(x[i], fields[i].data_type) by {}
            }
            assert(kinds_fit(y, fields)) by {
                assert forall|i: int| 0 <= i < fields.len() implies is_scalar(
                    (#[trigger] fields[i]).data_type,
                ) && same_kind(y[i], fields[i].data_type) by {}
            }
            lemma_struct_joined(fields, x, xv, fields, y, yv);
            lemma_children_joined(x, y, value, fields, fields.len());
            match struct_step(b, value, fields) {
                Step::Done(now) => {
                    let after = now->Struct_children;
                    let valid = crate::values::is_struct_value(value);
                    lemma_struct_joined(fields, x, xv, fields, after, yv.push(valid));
                    assert((xv + yv).push(valid) =~= xv + yv.push(valid));
                },
                _ => {},
            }
        },
        TypeView::List(_) => {},
        _ => {
            lemma_scalar_joined(a, b, value, t);
        },
    }
}

/// A column followed by one without cells is as it was.
proof fn lemma_joined_to_nothing(a: Store, t: TypeView)
    requires
        is_flat(t),
        built_for(a, t),
        fresh(t) is Some,
    ensures
        joined(a, fresh(t)->0) == a,
{
    match t {
        TypeView::Struct(fields) => {
            lemma_fresh_struct(fields);
            let x = a->Struct_children;
            let y = fresh(t)->0->Struct_children;
            let xv = a->Struct_validity;
            lemma_struct_joined(fields, x, xv, fields, y, seq![]);
            assert forall|i: int| 0 <= i < x.len() implies joined(x[i], y[i])
                == #[trigger] x[i] by {
                assert(fresh(fields[i].data_type) is Some);
                lemma_scalar_joined_to_nothing(x[i], fields[i].data_type);
            }
            assert(all_joined(x, y) =~= x);
            assert(xv + Seq::<bool>::empty() =~= xv);
        },
        TypeView::List(_) => {},
        _ => {
            lemma_scalar_joined_to_nothing(a, t);
        },
    }
}

proof fn lemma_scalar_joined_to_nothing(a: Store, t: TypeView)
    requires
        is_scalar(t),
        same_kind(a, t),
        fresh(t) is Some,
    ensures
        joined(a, fresh(t)->0) == a,
{
    match (a, fresh(t)->0) {
        (Store::Boolean(x), Store::Boolean(y)) => assert(x + y =~= x),
        (Store::Int8(x), Store::Int8(y)) => assert(x + y =~= x),
        (Store::Int16(x), Store::Int16(y)) => assert(x + y =~= x),
        (Store::Int32(x), Store::Int32(y)) => assert(x + y =~= x),
        (Store::Int64(x), Store::Int64(y)) => assert(x + y =~= x),
        (Store::Float32(x), Store::Float32(y)) => assert(x + y =~= x),
        (Store::Float64(x), Store::Float64(y)) => assert(x + y =~= x),
        (Store::Utf8(x), Store::Utf8(y)) => assert(x + y =~= x),
        (Store::LargeUtf8(x), Store::LargeUtf8(y)) => assert(x + y =~= x),
        (Store::Binary(x), Store::Binary(y)) => assert(x + y =~= x),
        (Store::Date32(x), Store::Date32(y)) => assert(x + y =~= x),
        (Store::Time64(x), Store::Time64(y)) => assert(x + y =~= x),
        (Store::Timestamp(x), Store::Timestamp(y)) => assert(x + y =~= x),
        (Store::Decimal128 { cells: x, .. }, Store::Decimal128 { cells: y, .. }) => assert(x + y
            =~= x),
        (Store::Decimal256 { cells: x, .. }, Store::Decimal256 { cells: y, .. }) => assert(x + y
            =~= x),
        _ => {},
    }
}

/// Whether the builders of all fields are of the kinds of their types.
spec fn all_built(builders: Map<Seq<char>, Store>, fields: Seq<FieldView>) -> bool {
    forall|i: int|
        0 <= i < fields.len() ==> builders.contains_key((#[trigger] fields[i]).name) && is_flat(
            fields[i].data_type,
        ) && built_for(builders[fields[i].name], fields[i].data_type)
}

/// Whether builders hold what others hold, followed by what others yet hold.
spec fn follows(
    together: Map<Seq<char>, Store>,
    first: Map<Seq<char>, Store>,
    second: Map<Seq<char>, Store>,
    fields: Seq<FieldView>,
) -> bool {
    forall|i: int|
        0 <= i < fields.len() ==> together.contains_key((#[trigger] fields[i]).name)
            && together[fields[i].name] == joined(first[fields[i].name], second[fields[i].name])
}

spec fn builders_agree(
    apart: BuildersStep,
    first: Map<Seq<char>, Store>,
    together: BuildersStep,
    fields: Seq<FieldView>,
) -> bool {
    match apart {
        BuildersStep::Done(second) => all_built(second, fields) && (together is Broken || (
        together matches BuildersStep::Done(now) && follows(now, first, second, fields))),
        _ => together !is Done,
    }
}

proof fn lemma_row_joined(
    together: Map<Seq<char>, Store>,
    first: Map<Seq<char>, Store>,
    second: Map<Seq<char>, Store>,
    row: Seq<JsonView>,
    fields: Seq<FieldView>,
    k: nat,
)
    requires
        k <= fields.len(),
        distinct_names(fields),
        all_built(first, fields),
        all_built(second, fields),
        follows(together, first, second, fields),
    ensures
        builders_agree(
            row_step(second, row, fields, k),
            first,
            row_step(together, row, fields, k),
            fields,
        ),
    decreases k,
{
    if k > 0 {
        lemma_row_joined(together, first, second, row, fields, (k - 1) as nat);
        match (
            row_step(second, row, fields, (k - 1) as nat),
            row_step(together, row, fields, (k - 1) as nat),
        ) {
            (BuildersStep::Done(b), BuildersStep::Done(m)) => {
                let field = fields[k - 1];
                let value = row_value(row, k - 1);
                assert(first.contains_key(field.name));
                assert(b.contains_key(field.name));
                assert(m.contains_key(field.name));
                lemma_append_joined(first[field.name], b[field.name], value, field.data_type);
                lemma_append_keeps(b[field.name], value, field.data_type, field.data_type);
                match row_step(second, row, fields, k) {
                    BuildersStep::Done(after) => {
                        lemma_others_stay(b, after, fields, k - 1);
                        assert forall|i: int| 0 <= i < fields.len() implies after.contains_key(
                            (#[trigger] fields[i]).name,
                        ) && is_flat(fields[i].data_type) && built_for(
                            after[fields[i].name],
                            fields[i].data_type,
                        ) by {
                            assert(b.contains_key(fields[i].name));
                        }
                        match row_step(together, row, fields, k) {
                            BuildersStep::Done(now) => {
                                lemma_others_stay(m, now, fields, k - 1);
                                assert forall|i: int| 0 <= i < fields.len() implies
                                    now.contains_key((#[trigger] fields[i]).name)
                                    && now[fields[i].name] == joined(
                                    first[fields[i].name],
                                    after[fields[i].name],
                                ) by {
                                    assert(m.contains_key(fields[i].name));
                                }
                            },
                            _ => {},
                        }
                    },
                    _ => {},
                }
            },
            _ => {
                lemma_append_kept(second, row, fields, k);
            },
        }
    }
}

/// A change to the builder of one field leaves those of the others.
proof fn lemma_others_stay(
    before: Map<Seq<char>, Store>,
    after: Map<Seq<char>, Store>,
    fields: Seq<FieldView>,
    k: int,
)
    requires
        0 <= k < fields.len(),
        distinct_names(fields),
        after == before.insert(fields[k].name, after[fields[k].name]),
    ensures
        forall|i: int|
            0 <= i < fields.len() && i != k ==> after[(#[trigger] fields[i]).name]
                == before[fields[i].name],
{
    assert forall|i: int| 0 <= i < fields.len() && i != k implies after[(
    #[trigger] fields[i]).name] == before[fields[i].name] by {
        if i < k {
            assert(fields[i].name != fields[k].name);
        } else {
            assert(fields[k].name != fields[i].name);
        }
    }
}

/// Appending a row keeps the kinds of the builders.
proof fn lemma_append_kept(
    builders: Map<Seq<char>, Store>,
    row: Seq<JsonView>,
    fields: Seq<FieldView>,
    k: nat,
)
    requires
        k <= fields.len(),
        distinct_names(fields),
        all_built(builders, fields),
    ensures
        row_step(builders, row, fields, k) matches BuildersStep::Done(now) ==> all_built(
            now,
            fields,
        ),
    decreases k,
{
    if k > 0 {
        lemma_append_kept(builders, row, fields, (k - 1) as nat);
        match row_step(builders, row, fields, k) {
            BuildersStep::Done(after) => {
                let b = row_step(builders, row, fields, (k - 1) as nat)->Done_0;
                let field = fields[k - 1];
                assert(b.contains_key(field.name));
                lemma_append_keeps(
                    b[field.name],
                    row_value(row, k - 1),
                    field.data_type,
                    field.data_type,
                );
                lemma_others_stay(b, after, fields, k - 1);
                assert forall|i: int| 0 <= i < fields.len() implies after.contains_key(
                    (#[trigger] fields[i]).name,
                ) && is_flat(fields[i].data_type) && built_for(
                    after[fields[i].name],
                    fields[i].data_type,
                ) by {
                    assert(b.contains_key(fields[i].name));
                }
            },
            _ => {},
        }
    }
}

/// Rows that come first are appended first.
proof fn lemma_first_rows(
    builders: Map<Seq<char>, Store>,
    xs: Seq<Seq<JsonView>>,
    ys: Seq<Seq<JsonView>>,
    fields: Seq<FieldView>,
    n: nat,
)
    requires
        n <= xs.len(),
    ensures
        rows_step(builders, xs + ys, fields, n) == rows_step(builders, xs, fields, n),
    decreases n,
{
    if n > 0 {
        lemma_first_rows(builders, xs, ys, fields, (n - 1) as nat);
        assert((xs + ys)[n - 1] == xs[n - 1]);
    }
}

proof fn lemma_rows_joined(
    start: Map<Seq<char>, Store>,
    first: Map<Seq<char>, Store>,
    xs: Seq<Seq<JsonView>>,
    ys: Seq<Seq<JsonView>>,
    fields: Seq<FieldView>,
    n: nat,
)
    requires
        n <= ys.len(),
        distinct_names(fields),
        all_built(start, fields),
        all_built(first, fields),
        follows(first, first, start, fields),
        rows_step(start, xs, fields, xs.len()) == BuildersStep::Done(first),
    ensures
        builders_agree(
            rows_step(start, ys, fields, n),
            first,
            rows_step(start, xs + ys, fields, xs.len() + n),
            fields,
        ),
    decreases n,
{
    let all = xs + ys;
    if n == 0 {
        lemma_first_rows(start, xs, ys, fields, xs.len());
    } else {
        lemma_rows_joined(start, first, xs, ys, fields, (n - 1) as nat);
        let before = (xs.len() + n - 1) as nat;
        assert(all[before as int] == ys[n - 1]);
        match (
            rows_step(start, ys, fields, (n - 1) as nat),
            rows_step(start, all, fields, before),
        ) {
            (BuildersStep::Done(b), BuildersStep::Done(m)) => {
                lemma_row_joined(m, first, b, ys[n - 1], fields, fields.len());
            },
            (BuildersStep::Done(b), _) => {
                lemma_append_kept(b, ys[n - 1], fields, fields.len());
            },
            _ => {},
        }
    }
}

/// Whether columns of a type can be finished.
spec fn finishes(t: TypeView) -> bool {
    match t {
        TypeView::Struct(fields) => forall|c: int|
            0 <= c < fields.len() ==> is_plain((#[trigger] fields[c]).data_type),
        _ => true,
    }
}

/// Whether finished columns of the kind that a type calls for are of that very type.
spec fn is_typed(t: TypeView) -> bool {
    match t {
        TypeView::Struct(_) => true,
        TypeView::List(item) => is_plain(item.data_type) && *item == item_field(item.data_type),
        _ => is_plain(t),
    }
}

/// Whether the columns of fields make up a record batch, once rows fill them. As columns of lists
/// stay empty, either all are of lists or none is.
spec fn make_a_batch(fields: Seq<FieldView>) -> bool {
    &&& fields.len() > 0
    &&& forall|i: int|
        0 <= i < fields.len() ==> finishes((#[trigger] fields[i]).data_type) && is_typed(
            fields[i].data_type,
        ) && (fields[i].data_type is List <==> fields[0].data_type is List)
}

proof fn lemma_column_finished(s: Store, t: TypeView)
    requires
        is_flat(t),
        built_for(s, t),
        holds_rows(t) ==> well_built(s, t),
    ensures
        finishable(s) == finishes(t),
        (store_type(s) == t) == is_typed(t),
{
    match t {
        TypeView::Struct(fields) => {
            let children = s->Struct_children;
            let validity = s->Struct_validity;
            assert forall|c: int| 0 <= c < fields.len() implies (finishable(
                #[trigger] children[c],
            ) && child_fits(fields[c], children[c], validity)) == is_plain(fields[c].data_type) by {
                assert(is_scalar(fields[c].data_type));
                assert(same_kind(children[c], fields[c].data_type));
                lemma_plain(children[c], fields[c].data_type);
            }
            if finishes(t) {
                assert forall|c: int| 0 <= c < children.len() implies finishable(
                    #[trigger] children[c],
                ) && child_fits(fields[c], children[c], validity) by {
                    assert(is_plain(fields[c].data_type));
                }
            }
            if finishable(s) {
                assert forall|c: int| 0 <= c < fields.len() implies is_plain(
                    (#[trigger] fields[c]).data_type,
                ) by {
                    assert(finishable(children[c]));
                }
            }
        },
        TypeView::List(item) => {
            let items = s->List_0;
            lemma_plain(*items, item.data_type);
            assert(store_type(s) == TypeView::List(Box::new(item_field(store_type(*items)))));
        },
        _ => {
            lemma_plain(s, t);
        },
    }
}

proof fn lemma_all_finished(builders: Map<Seq<char>, Store>, fields: Seq<FieldView>, k: nat)
    requires
        k <= fields.len(),
        distinct_names(fields),
        forall|i: int| 0 <= i < fields.len() ==> builders.contains_key((#[trigger] fields[i]).name),
    ensures
        (finish_step(builders, fields, k) is Done) == (forall|i: int|
            0 <= i < k ==> finishable(builders[(#[trigger] fields[i]).name])),
    decreases k,
{
    if k > 0 {
        lemma_all_finished(builders, fields, (k - 1) as nat);
        lemma_left(builders, fields, (k - 1) as nat);
        let field = fields[k - 1];
        assert(builders.contains_key(field.name));
        assert(!names_before(fields, k - 1, field.name)) by {
            if names_before(fields, k - 1, field.name) {
                let i = choose|i: int| 0 <= i < k - 1 && (#[trigger] fields[i]).name == field.name;
                assert(fields[i].name != fields[k - 1].name);
            }
        }
        if finish_step(builders, fields, (k - 1) as nat) is Done {
            let left = finish_step(builders, fields, (k - 1) as nat)->Done_0;
            assert(left.contains_key(field.name));
            assert(left[field.name] == builders[field.name]);
            if finish_step(builders, fields, k) is Done {
                assert forall|i: int| 0 <= i < k implies finishable(
                    builders[(#[trigger] fields[i]).name],
                ) by {
                    if i < k - 1 {
                        assert(finishable(builders[fields[i].name]));
                    }
                }
            } else {
                assert(!finishable(builders[fields[k - 1].name]));
            }
        } else {
            let i = choose|i: int|
                0 <= i < k - 1 && !finishable(builders[(#[trigger] fields[i]).name]);
            assert(!finishable(builders[fields[i].name]));
        }
    }
}

/// Once rows are appended, whether their columns make up a record batch rests on the fields alone.
proof fn lemma_filled(
    rows: Seq<Seq<JsonView>>,
    columns: Seq<ColumnView>,
    fields: Seq<FieldView>,
    start: Map<Seq<char>, Store>,
    filled: Map<Seq<char>, Store>,
)
    requires
        0 < rows.len(),
        room_for_all(fields, rows.len() as int),
        schema_of(columns) == SchemaReading::Fields(fields),
        distinct_names(fields),
        fresh_builders(fields, fields.len()) == Some(start),
        all_built(filled, fields),
        rows_step(start, rows, fields, rows.len()) == BuildersStep::Done(filled),
    ensures
        (conversion(rows, columns) is Batch) == make_a_batch(fields),
        conversion(rows, columns) matches Outcome::Batch(f, stores) ==> f == fields && stores
            == Seq::new(fields.len(), |i: int| filled[fields[i].name]),
{
    lemma_schema_by_columns(columns, columns.len());
    lemma_rows_by_columns(start, rows, fields, rows.len());
    lemma_all_finished(filled, fields, fields.len());
    lemma_finished(filled, fields, fields.len());
    assert forall|i: int| 0 <= i < fields.len() implies {
        let s = filled[(#[trigger] fields[i]).name];
        let t = fields[i].data_type;
        &&& finishable(s) == finishes(t)
        &&& (store_type(s) == t) == is_typed(t)
        &&& store_len(s) == (if t is List {
            0
        } else {
            rows.len()
        })
    } by {
        assert(filled.contains_key(fields[i].name));
        lemma_column_finished(filled[fields[i].name], fields[i].data_type);
    }
    match finish_step(filled, fields, fields.len()) {
        ColumnsStep::Done(_, stores) => {
            assert(stores =~= Seq::new(fields.len(), |i: int| filled[fields[i].name]));
            assert forall|i: int| 0 <= i < fields.len() implies finishes(
                (#[trigger] fields[i]).data_type,
            ) by {
                assert(finishable(filled[fields[i].name]));
            }
            if batch_fits(fields, stores) {
                assert forall|i: int| 0 <= i < fields.len() implies is_typed(
                    (#[trigger] fields[i]).data_type,
                ) && (fields[i].data_type is List <==> fields[0].data_type is List) by {
                    assert(stores[i] == filled[fields[i].name]);
                    assert(stores[0] == filled[fields[0].name]);
                    assert(store_len(stores[i]) == store_len(stores[0]));
                }
            }
            if make_a_batch(fields) {
                assert forall|i: int| 0 <= i < stores.len() implies {
                    &&& store_len(#[trigger] stores[i]) == store_len(stores[0])
                    &&& store_type(stores[i]) == fields[i].data_type
                    &&& fields[i].nullable || !crate::store::has_nulls(stores[i])
                } by {
                    assert(stores[i] == filled[fields[i].name]);
                    assert(stores[0] == filled[fields[0].name]);
                    assert(is_typed(fields[i].data_type));
                    assert(fields[i].nullable);
                }
                assert(batch_fits(fields, stores));
            }
        },
        _ => {
            let i = choose|i: int|
                0 <= i < fields.len() && !finishable(filled[(#[trigger] fields[i]).name]);
            assert(!finishes(fields[i].data_type));
        },
    }
}

proof fn lemma_rows_kept(
    builders: Map<Seq<char>, Store>,
    rows: Seq<Seq<JsonView>>,
    fields: Seq<FieldView>,
    n: nat,
)
    requires
        n <= rows.len(),
        distinct_names(fields),
        all_built(builders, fields),
    ensures
        rows_step(builders, rows, fields, n) matches BuildersStep::Done(now) ==> all_built(
            now,
            fields,
        ),
    decreases n,
{
    if n > 0 {
        lemma_rows_kept(builders, rows, fields, (n - 1) as nat);
        match rows_step(builders, rows, fields, (n - 1) as nat) {
            BuildersStep::Done(now) => {
                lemma_append_kept(now, rows[n - 1], fields, fields.len());
            },
            _ => {},
        }
    }
}

/// Rows become a record batch together just where they become record batches apart, unless they
/// are together more than Arrow can hold or count. The batch then has the same fields, and each
/// column is that of the first rows followed by that of the others: the order of rows is kept,
/// and no row has a part in what becomes of another.
pub proof fn lemma_rows_convert_apart(
    xs: Seq<Seq<JsonView>>,
    ys: Seq<Seq<JsonView>>,
    columns: Seq<ColumnView>,
)
    requires
        xs.len() > 0,
        ys.len() > 0,
    ensures
        conversion(xs + ys, columns) is Batch <==> conversion(xs, columns) is Batch && conversion(
            ys,
            columns,
        ) is Batch && conversion(xs + ys, columns) !is Broken,
        conversion(xs + ys, columns) matches Outcome::Batch(fields, stores) ==> conversion(
            xs,
            columns,
        ) == Outcome::Batch(fields, conversion(xs, columns)->Batch_1) && conversion(ys, columns)
            == Outcome::Batch(fields, conversion(ys, columns)->Batch_1) && stores == all_joined(
            conversion(xs, columns)->Batch_1,
            conversion(ys, columns)->Batch_1,
        ),
{
    let all = xs + ys;
    lemma_schema_by_columns(columns, columns.len());
    match schema_of(columns) {
        SchemaReading::Fields(fields) => {
            if !distinct_names(fields) {
                let (i, j) = choose|i: int, j: int|
                    0 <= i < j < fields.len() && (#[trigger] fields[i]).name == (
                    #[trigger] fields[j]).name;
                lemma_names_must_differ(all, columns, i, j);
                lemma_names_must_differ(xs, columns, i, j);
            } else if room_for_all(fields, all.len() as int) && fresh_builders(
                fields,
                fields.len(),
            ) is Some {
                assert forall|i: int| 0 <= i < fields.len() implies room_for(
                    (#[trigger] fields[i]).data_type,
                    xs.len() as int,
                ) && room_for(fields[i].data_type, ys.len() as int) by {
                    assert(room_for(fields[i].data_type, all.len() as int));
                    lemma_less_room(fields[i].data_type, xs.len() as int, all.len() as int);
                    lemma_less_room(fields[i].data_type, ys.len() as int, all.len() as int);
                }
                let start = fresh_builders(fields, fields.len())->0;
                lemma_fresh_by_columns(fields, fields.len());
                assert forall|i: int| 0 <= i < fields.len() implies start.contains_key(
                    (#[trigger] fields[i]).name,
                ) && is_flat(fields[i].data_type) && built_for(
                    start[fields[i].name],
                    fields[i].data_type,
                ) by {
                    lemma_trino_types_are_flat(columns[i].trino_type);
                    lemma_fresh_built(fields[i].data_type);
                }
                lemma_first_rows(start, xs, ys, fields, xs.len());
                lemma_rows_stuck(start, all, fields, xs.len(), all.len());
                lemma_rows_kept(start, xs, fields, xs.len());
                lemma_rows_kept(start, all, fields, all.len());
                match rows_step(start, xs, fields, xs.len()) {
                    BuildersStep::Done(first) => {
                        assert forall|i: int| 0 <= i < fields.len() implies first.contains_key(
                            (#[trigger] fields[i]).name,
                        ) && first[fields[i].name] == joined(
                            first[fields[i].name],
                            start[fields[i].name],
                        ) by {
                            assert(start.contains_key(fields[i].name));
                            lemma_joined_to_nothing(first[fields[i].name], fields[i].data_type);
                        }
                        lemma_filled(xs, columns, fields, start, first);
                        lemma_rows_joined(start, first, xs, ys, fields, ys.len());
                        match (
                            rows_step(start, ys, fields, ys.len()),
                            rows_step(start, all, fields, all.len()),
                        ) {
                            (BuildersStep::Done(second), BuildersStep::Done(now)) => {
                                lemma_filled(ys, columns, fields, start, second);
                                lemma_filled(all, columns, fields, start, now);
                                if conversion(all, columns) is Batch {
                                    assert(conversion(all, columns)->Batch_1 =~= all_joined(
                                        conversion(xs, columns)->Batch_1,
                                        conversion(ys, columns)->Batch_1,
                                    ));
                                }
                            },
                            _ => {},
                        }
                    },
                    _ => {},
                }
            }
        },
        _ => {},
    }
}

} // verus!
