//! What a record batch holds of the rows that it was made of.

use crate::builder::{batch_fits, cell_single, row_count};
use crate::flat::{is_flat, is_scalar, lemma_trino_types_are_flat, same_kind};
use crate::json::{member, JsonView};
use crate::rows::{
    conversion, empty_children, empty_store, finish_step, fresh, fresh_builders, lemma_fresh_struct,
    lemma_left, names_before, row_step, row_value, rows_step, schema_reading, BuildersStep,
    ColumnsStep, Outcome, SchemaReading,
};
use crate::schema::{trino_type, TypeReading};
use crate::store::{store_len, store_type, Store};
use crate::types::{ColumnView, FieldView, TimeUnit, TypeView};
use crate::values::{
    append_step, binary_cell, boolean_cell, children_step, date_cell, decimal128_cell,
    decimal256_cell, field_value, float_cell, int16_cell, int32_cell, int64_cell, int8_cell,
    is_struct_value, scalar_step, struct_step, text_cell, time_cell, timestamp_cell, ChildrenStep,
    Reading, Step,
};
use vstd::prelude::*;

verus! {

/// Whether the `j`-th cell of a column of a type without parts is the one that a value gives.
pub open spec fn cell_at(s: Store, j: int, value: Option<JsonView>, t: TypeView) -> bool {
    match (s, t) {
        (Store::Boolean(cells), TypeView::Boolean) => cells[j] == boolean_cell(value),
        (Store::Int8(cells), TypeView::Int8) => cells[j] == int8_cell(value),
        (Store::Int16(cells), TypeView::Int16) => cells[j] == int16_cell(value),
        (Store::Int32(cells), TypeView::Int32) => cells[j] == int32_cell(value),
        (Store::Int64(cells), TypeView::Int64) => cells[j] == int64_cell(value),
        (Store::Float32(cells), TypeView::Float32) => cells[j] == cell_single(float_cell(value)),
        (Store::Float64(cells), TypeView::Float64) => cells[j] == float_cell(value),
        (Store::LargeUtf8(cells), TypeView::LargeUtf8) => cells[j] == text_cell(value),
        (Store::Binary(cells), TypeView::Binary) => cells[j] == binary_cell(value),
        (Store::Date32(cells), TypeView::Date32) => Reading::Cell(cells[j]) == date_cell(value),
        (Store::Time64(cells), TypeView::Time64(TimeUnit::Nanosecond)) => Reading::Cell(cells[j])
            == time_cell(value),
        (Store::Timestamp(cells), TypeView::Timestamp(TimeUnit::Microsecond, _)) => Reading::Cell(
            cells[j],
        ) == timestamp_cell(value),
        (Store::Decimal128 { cells, .. }, TypeView::Decimal128(_, _)) => Reading::Cell(cells[j])
            == decimal128_cell(value),
        (Store::Decimal256 { cells, .. }, TypeView::Decimal256(_, _)) => Reading::Cell(cells[j])
            == decimal256_cell(value),
        (Store::Null(_), TypeView::Null) => true,
        (Store::Utf8(cells), _) => cells[j] == text_cell(value),
        _ => false,
    }
}

/// Whether the `j`-th struct of a column is the one that a value gives: each field by its own
/// value.
pub open spec fn struct_at(
    s: Store,
    j: int,
    value: Option<JsonView>,
    fields: Seq<FieldView>,
) -> bool {
    match s {
        Store::Struct { children, validity, .. } => {
            &&& validity[j] == is_struct_value(value)
            &&& children.len() == fields.len()
            &&& forall|i: int|
                0 <= i < fields.len() ==> cell_at(
                    #[trigger] children[i],
                    j,
                    field_value(value, fields[i], i),
                    fields[i].data_type,
                )
        },
        _ => false,
    }
}

/// One more value gives a column of a type without parts one more cell, and leaves the others as
/// they are.
pub proof fn lemma_scalar_step_adds_a_cell(s: Store, value: Option<JsonView>, t: TypeView)
    requires
        is_scalar(t),
        same_kind(s, t),
    ensures
        scalar_step(s, value, t) matches Step::Done(now) ==> {
            &&& same_kind(now, t)
            &&& store_len(now) == store_len(s) + 1
            &&& cell_at(now, store_len(s) as int, value, t)
            &&& forall|j: int, v: Option<JsonView>|
                0 <= j < store_len(s) && cell_at(s, j, v, t) ==> #[trigger] cell_at(now, j, v, t)
        },
{
}

/// A value that cannot be read leaves a column of a type without parts as it is.
pub proof fn lemma_failed_scalar_step_changes_nothing(
    s: Store,
    value: Option<JsonView>,
    t: TypeView,
)
    ensures
        scalar_step(s, value, t) matches Step::Failed(now, _) ==> now == s,
{
}

/// Whether a column has one more cell than before, which is the one that a value gives, and the
/// cells before it as they were.
pub open spec fn grown(before: Store, now: Store, value: Option<JsonView>, t: TypeView) -> bool {
    &&& same_kind(now, t)
    &&& store_len(now) == store_len(before) + 1
    &&& cell_at(now, store_len(before) as int, value, t)
    &&& forall|j: int, v: Option<JsonView>|
        0 <= j < store_len(before) && cell_at(before, j, v, t) ==> #[trigger] cell_at(now, j, v, t)
}

/// Whether the columns of a struct are of the kinds of its fields, and all of one length.
pub open spec fn even_children(children: Seq<Store>, fields: Seq<FieldView>, n: nat) -> bool {
    &&& children.len() == fields.len()
    &&& forall|i: int| 0 <= i < fields.len() ==> is_scalar((#[trigger] fields[i]).data_type)
    &&& forall|i: int|
        0 <= i < fields.len() ==> same_kind(#[trigger] children[i], fields[i].data_type)
            && store_len(children[i]) == n
}

/// One more value gives each column of a struct one more cell.
pub proof fn lemma_children_grow(
    children: Seq<Store>,
    value: Option<JsonView>,
    fields: Seq<FieldView>,
    k: nat,
    n: nat,
)
    requires
        k <= fields.len(),
        even_children(children, fields, n),
    ensures
        children_step(children, value, fields, k) matches ChildrenStep::Done(now) ==> {
            &&& now.len() == children.len()
            &&& forall|i: int|
                0 <= i < k ==> grown(
                    children[i],
                    #[trigger] now[i],
                    field_value(value, fields[i], i),
                    fields[i].data_type,
                )
            &&& forall|i: int| k <= i < now.len() ==> (#[trigger] now[i]) == children[i]
        },
    decreases k,
{
    if k > 0 {
        lemma_children_grow(children, value, fields, (k - 1) as nat, n);
        match children_step(children, value, fields, (k - 1) as nat) {
            ChildrenStep::Done(before) => {
                let field = fields[k - 1];
                assert(before[k - 1] == children[k - 1]);
                lemma_scalar_step_adds_a_cell(
                    children[k - 1],
                    field_value(value, field, k - 1),
                    field.data_type,
                );
            },
            _ => {},
        }
    }
}

/// Whether a column of structs has columns of the kinds of its fields, all as long as itself.
pub open spec fn is_even(s: Store, fields: Seq<FieldView>) -> bool {
    match s {
        Store::Struct { fields: own, children, validity } => own == fields && even_children(
            children,
            fields,
            validity.len(),
        ),
        _ => false,
    }
}

/// One more value gives a column of structs one more struct, and each of its columns one more
/// cell; so they stay as long as the column itself.
pub proof fn lemma_struct_step_adds_a_struct(
    s: Store,
    value: Option<JsonView>,
    fields: Seq<FieldView>,
)
    requires
        is_even(s, fields),
    ensures
        struct_step(s, value, fields) matches Step::Done(now) ==> {
            &&& is_even(now, fields)
            &&& store_len(now) == store_len(s) + 1
            &&& struct_at(now, store_len(s) as int, value, fields)
            &&& forall|j: int, v: Option<JsonView>|
                0 <= j < store_len(s) && struct_at(s, j, v, fields) ==> #[trigger] struct_at(
                    now,
                    j,
                    v,
                    fields,
                )
        },
{
    match s {
        Store::Struct { children, validity, .. } => {
            lemma_children_grow(children, value, fields, fields.len(), validity.len());
            match struct_step(s, value, fields) {
                Step::Done(now) => {
                    let after = now->Struct_children;
                    let n = validity.len();
                    assert forall|i: int| 0 <= i < fields.len() implies {
                        &&& same_kind(#[trigger] after[i], fields[i].data_type)
                        &&& store_len(after[i]) == n + 1
                        &&& cell_at(
                            after[i],
                            n as int,
                            field_value(value, fields[i], i),
                            fields[i].data_type,
                        )
                    } by {
                        assert(store_len(children[i]) == n);
                        assert(grown(
                            children[i],
                            after[i],
                            field_value(value, fields[i], i),
                            fields[i].data_type,
                        ));
                    }
                    assert forall|j: int, v: Option<JsonView>|
                        0 <= j < store_len(s) && struct_at(s, j, v, fields) implies
                        #[trigger] struct_at(now, j, v, fields) by {
                        assert forall|i: int| 0 <= i < fields.len() implies cell_at(
                            #[trigger] after[i],
                            j,
                            field_value(v, fields[i], i),
                            fields[i].data_type,
                        ) by {
                            assert(cell_at(
                                children[i],
                                j,
                                field_value(v, fields[i], i),
                                fields[i].data_type,
                            ));
                        }
                    }
                },
                _ => {},
            }
        },
        _ => {},
    }
}

proof fn lemma_children_by_name_or_place(
    children: Seq<Store>,
    a: Option<JsonView>,
    b: Option<JsonView>,
    fields: Seq<FieldView>,
    k: nat,
)
    requires
        k <= fields.len(),
        forall|i: int|
            0 <= i < fields.len() ==> field_value(a, #[trigger] fields[i], i) == field_value(
                b,
                fields[i],
                i,
            ),
    ensures
        children_step(children, a, fields, k) == children_step(children, b, fields, k),
    decreases k,
{
    if k > 0 {
        lemma_children_by_name_or_place(children, a, b, fields, (k - 1) as nat);
        assert(field_value(a, fields[k - 1], k - 1) == field_value(b, fields[k - 1], k - 1));
    }
}

/// An object and a list make the same struct where the object has, under the name of each field,
/// what the list has in its place.
pub proof fn lemma_objects_and_lists_make_the_same_struct(
    s: Store,
    members: Seq<(Seq<char>, JsonView)>,
    items: Seq<JsonView>,
    fields: Seq<FieldView>,
)
    requires
        forall|i: int|
            0 <= i < fields.len() ==> member(members, (#[trigger] fields[i]).name) == (if i
                < items.len() {
                Some(items[i])
            } else {
                None
            }),
    ensures
        struct_step(s, Some(JsonView::Object(members)), fields) == struct_step(
            s,
            Some(JsonView::Array(items)),
            fields,
        ),
{
    match s {
        Store::Struct { children, .. } => {
            lemma_children_by_name_or_place(
                children,
                Some(JsonView::Object(members)),
                Some(JsonView::Array(items)),
                fields,
                fields.len(),
            );
        },
        _ => {},
    }
}

/// Whether a type is one whose columns hold a cell or a struct for each row.
pub open spec fn holds_rows(t: TypeView) -> bool {
    is_flat(t) && !(t is List)
}

/// Whether the `j`-th value of a column is the one that a JSON value gives.
pub open spec fn value_at(s: Store, j: int, value: Option<JsonView>, t: TypeView) -> bool {
    match t {
        TypeView::Struct(fields) => struct_at(s, j, value, fields),
        _ => cell_at(s, j, value, t),
    }
}

/// Whether a column has a value for each of the first `n` rows: the one that the row has in the
/// `i`-th place.
pub open spec fn column_holds(
    s: Store,
    rows: Seq<Seq<JsonView>>,
    i: int,
    t: TypeView,
    n: nat,
) -> bool {
    &&& store_len(s) == n
    &&& forall|j: int| 0 <= j < n ==> #[trigger] value_at(s, j, row_value(rows[j], i), t)
}

/// Whether a column is of the kind of its type, inside too.
pub open spec fn well_built(s: Store, t: TypeView) -> bool {
    match t {
        TypeView::Struct(fields) => is_even(s, fields),
        _ => same_kind(s, t),
    }
}

proof fn lemma_fresh_scalar(t: TypeView)
    requires
        is_scalar(t),
        fresh(t) is Some,
    ensures
        same_kind(fresh(t)->0, t),
        store_len(fresh(t)->0) == 0,
{
}

proof fn lemma_fresh_well_built(t: TypeView)
    requires
        holds_rows(t),
        fresh(t) is Some,
    ensures
        well_built(fresh(t)->0, t),
        store_len(fresh(t)->0) == 0,
{
    match t {
        TypeView::Struct(fields) => {
            lemma_fresh_struct(fields);
            let children = fresh(t)->0->Struct_children;
            assert forall|i: int| 0 <= i < fields.len() implies same_kind(
                #[trigger] children[i],
                fields[i].data_type,
            ) && store_len(children[i]) == 0 by {
                assert(is_scalar(fields[i].data_type));
                lemma_fresh_scalar(fields[i].data_type);
            }
        },
        _ => {
            lemma_fresh_scalar(t);
        },
    }
}

proof fn lemma_append_holds(
    s: Store,
    rows: Seq<Seq<JsonView>>,
    i: int,
    t: TypeView,
    n: nat,
)
    requires
        holds_rows(t),
        well_built(s, t),
        column_holds(s, rows, i, t, n),
        n < rows.len(),
    ensures
        append_step(s, row_value(rows[n as int], i), t) matches Step::Done(now) ==> well_built(
            now,
            t,
        ) && column_holds(now, rows, i, t, n + 1),
{
    let value = row_value(rows[n as int], i);
    match t {
        TypeView::Struct(fields) => {
            lemma_struct_step_adds_a_struct(s, value, fields);
        },
        _ => {
            lemma_scalar_step_adds_a_cell(s, value, t);
        },
    }
    match append_step(s, value, t) {
        Step::Done(now) => {
            assert forall|j: int| 0 <= j < n + 1 implies #[trigger] value_at(
                now,
                j,
                row_value(rows[j], i),
                t,
            ) by {
                if j < n {
                    assert(value_at(s, j, row_value(rows[j], i), t));
                }
            }
        },
        _ => {},
    }
}

/// Whether no two fields have one name.
pub open spec fn distinct_names(fields: Seq<FieldView>) -> bool {
    forall|i: int, j: int|
        0 <= i < j < fields.len() ==> (#[trigger] fields[i]).name != (#[trigger] fields[j]).name
}

/// Finishing takes the builder of each field, so all fields have names of their own.
pub proof fn lemma_finished(builders: Map<Seq<char>, Store>, fields: Seq<FieldView>, k: nat)
    requires
        k <= fields.len(),
    ensures
        finish_step(builders, fields, k) matches ColumnsStep::Done(_, columns) ==> {
            &&& columns.len() == k
            &&& forall|i: int|
                0 <= i < k ==> builders.contains_key((#[trigger] fields[i]).name) && columns[i]
                    == builders[fields[i].name]
            &&& distinct_names(fields.take(k as int))
        },
    decreases k,
{
    if k > 0 {
        lemma_finished(builders, fields, (k - 1) as nat);
        lemma_left(builders, fields, (k - 1) as nat);
        match finish_step(builders, fields, k) {
            ColumnsStep::Done(_, columns) => {
                let left = finish_step(builders, fields, (k - 1) as nat)->Done_0;
                let name = fields[k - 1].name;
                assert(left.contains_key(name));
                assert(!names_before(fields, k - 1, name));
                let now = fields.take(k as int);
                let before = fields.take(k - 1);
                let earlier = finish_step(builders, fields, (k - 1) as nat)->Done_1;
                assert forall|i: int| 0 <= i < k implies builders.contains_key(
                    (#[trigger] fields[i]).name,
                ) && columns[i] == builders[fields[i].name] by {
                    if i < k - 1 {
                        assert(columns[i] == earlier[i]);
                    }
                }
                assert forall|i: int, j: int| 0 <= i < j < now.len() implies (
                #[trigger] now[i]).name != (#[trigger] now[j]).name by {
                    if j == k - 1 {
                        assert(fields[i].name != name) by {
                            if fields[i].name == name {
                                assert(names_before(fields, k - 1, name));
                            }
                        }
                    } else {
                        assert(before[i] == now[i]);
                        assert(before[j] == now[j]);
                    }
                }
            },
            _ => {},
        }
    }
}

/// With names of their own, the fields of a row go to builders of their own.
pub proof fn lemma_row_by_columns(
    builders: Map<Seq<char>, Store>,
    row: Seq<JsonView>,
    fields: Seq<FieldView>,
    k: nat,
)
    requires
        k <= fields.len(),
        distinct_names(fields),
        forall|i: int| 0 <= i < fields.len() ==> builders.contains_key((#[trigger] fields[i]).name),
    ensures
        row_step(builders, row, fields, k) matches BuildersStep::Done(now) ==> {
            &&& forall|i: int|
                0 <= i < fields.len() ==> now.contains_key((#[trigger] fields[i]).name)
            &&& forall|i: int|
                0 <= i < k ==> append_step(
                    builders[(#[trigger] fields[i]).name],
                    row_value(row, i),
                    fields[i].data_type,
                ) == Step::Done(now[fields[i].name])
            &&& forall|i: int|
                k <= i < fields.len() ==> now[(#[trigger] fields[i]).name]
                    == builders[fields[i].name]
        },
    decreases k,
{
    if k > 0 {
        lemma_row_by_columns(builders, row, fields, (k - 1) as nat);
        match row_step(builders, row, fields, k) {
            BuildersStep::Done(now) => {
                let before = row_step(builders, row, fields, (k - 1) as nat)->Done_0;
                let name = fields[k - 1].name;
                assert(before.contains_key(name));
                assert(before[name] == builders[name]);
                assert forall|i: int| 0 <= i < fields.len() && i != k - 1 implies now[(
                #[trigger] fields[i]).name] == before[fields[i].name] by {
                    if i < k - 1 {
                        assert(fields[i].name != fields[k - 1].name);
                    } else {
                        assert(fields[k - 1].name != fields[i].name);
                    }
                }
            },
            _ => {},
        }
    }
}

/// With names of their own, the fields have new builders of their own.
pub proof fn lemma_fresh_by_columns(fields: Seq<FieldView>, k: nat)
    requires
        k <= fields.len(),
        distinct_names(fields),
    ensures
        fresh_builders(fields, k) matches Some(builders) ==> forall|i: int|
            0 <= i < k ==> builders.contains_key((#[trigger] fields[i]).name) && fresh(
                fields[i].data_type,
            ) == Some(builders[fields[i].name]),
    decreases k,
{
    if k > 0 {
        lemma_fresh_by_columns(fields, (k - 1) as nat);
        match fresh_builders(fields, k) {
            Some(builders) => {
                let before = fresh_builders(fields, (k - 1) as nat)->0;
                assert forall|i: int| 0 <= i < k implies builders.contains_key(
                    (#[trigger] fields[i]).name,
                ) && fresh(fields[i].data_type) == Some(builders[fields[i].name]) by {
                    if i < k - 1 {
                        assert(fields[i].name != fields[k - 1].name);
                        assert(before.contains_key(fields[i].name));
                    }
                }
            },
            None => {},
        }
    }
}

/// With names of their own, the columns hold the rows that were appended.
pub proof fn lemma_rows_by_columns(
    builders: Map<Seq<char>, Store>,
    rows: Seq<Seq<JsonView>>,
    fields: Seq<FieldView>,
    n: nat,
)
    requires
        n <= rows.len(),
        distinct_names(fields),
        fresh_builders(fields, fields.len()) == Some(builders),
    ensures
        rows_step(builders, rows, fields, n) matches BuildersStep::Done(now) ==> forall|i: int|
            0 <= i < fields.len() ==> now.contains_key((#[trigger] fields[i]).name) && (holds_rows(
                fields[i].data_type,
            ) ==> well_built(now[fields[i].name], fields[i].data_type) && column_holds(
                now[fields[i].name],
                rows,
                i,
                fields[i].data_type,
                n,
            )),
    decreases n,
{
    lemma_fresh_by_columns(fields, fields.len());
    if n == 0 {
        assert forall|i: int| 0 <= i < fields.len() implies builders.contains_key(
            (#[trigger] fields[i]).name,
        ) && (holds_rows(fields[i].data_type) ==> well_built(
            builders[fields[i].name],
            fields[i].data_type,
        ) && column_holds(builders[fields[i].name], rows, i, fields[i].data_type, 0)) by {
            if holds_rows(fields[i].data_type) {
                lemma_fresh_well_built(fields[i].data_type);
            }
        }
    } else {
        lemma_rows_by_columns(builders, rows, fields, (n - 1) as nat);
        match rows_step(builders, rows, fields, n) {
            BuildersStep::Done(now) => {
                let before = rows_step(builders, rows, fields, (n - 1) as nat)->Done_0;
                lemma_row_by_columns(before, rows[n - 1], fields, fields.len());
                assert forall|i: int| 0 <= i < fields.len() implies now.contains_key(
                    (#[trigger] fields[i]).name,
                ) && (holds_rows(fields[i].data_type) ==> well_built(
                    now[fields[i].name],
                    fields[i].data_type,
                ) && column_holds(now[fields[i].name], rows, i, fields[i].data_type, n)) by {
                    if holds_rows(fields[i].data_type) {
                        lemma_append_holds(
                            before[fields[i].name],
                            rows,
                            i,
                            fields[i].data_type,
                            (n - 1) as nat,
                        );
                    }
                }
            },
            _ => {},
        }
    }
}

/// The fields are those of the columns, in their order.
pub proof fn lemma_schema_by_columns(columns: Seq<ColumnView>, k: nat)
    requires
        k <= columns.len(),
    ensures
        schema_reading(columns, k) matches SchemaReading::Fields(fields) ==> fields.len() == k
            && forall|i: int|
            0 <= i < k ==> (#[trigger] fields[i]).name == columns[i].name && fields[i].nullable
                && trino_type(columns[i].trino_type) == TypeReading::Type(fields[i].data_type),
    decreases k,
{
    if k > 0 {
        lemma_schema_by_columns(columns, (k - 1) as nat);
    }
}

/// A record batch has a column for each column of the result, in their order, under its name
/// and with its type, and all of one length.
pub proof fn lemma_batches_have_the_columns(rows: Seq<Seq<JsonView>>, columns: Seq<ColumnView>)
    ensures
        conversion(rows, columns) matches Outcome::Batch(fields, stores) ==> {
            &&& fields.len() == columns.len()
            &&& stores.len() == columns.len()
            &&& forall|i: int|
                0 <= i < columns.len() ==> {
                    &&& (#[trigger] fields[i]).name == columns[i].name
                    &&& trino_type(columns[i].trino_type) == TypeReading::Type(fields[i].data_type)
                    &&& store_type(stores[i]) == fields[i].data_type
                    &&& store_len(stores[i]) == store_len(stores[0])
                }
        },
{
    lemma_schema_by_columns(columns, columns.len());
    match conversion(rows, columns) {
        Outcome::Batch(fields, stores) => {
            if rows.len() > 0 || columns.len() > 0 {
                assert(batch_fits(fields, stores));
            }
        },
        _ => {},
    }
}

/// A record batch of rows with a column that is not of lists has as many rows as they are, and in
/// that column a value for each of them, in their order: the one that the row's value in that place
/// gives. A short row gives nulls.
pub proof fn lemma_batches_hold_the_rows(
    rows: Seq<Seq<JsonView>>,
    columns: Seq<ColumnView>,
    i: int,
)
    requires
        rows.len() > 0,
        0 <= i < columns.len(),
        conversion(rows, columns) is Batch,
        !(conversion(rows, columns)->Batch_0[i].data_type is List),
    ensures
        row_count(conversion(rows, columns)->Batch_1) == rows.len(),
        column_holds(
            conversion(rows, columns)->Batch_1[i],
            rows,
            i,
            conversion(rows, columns)->Batch_0[i].data_type,
            rows.len(),
        ),
{
    lemma_schema_by_columns(columns, columns.len());
    lemma_trino_types_are_flat(columns[i].trino_type);
    let fields = conversion(rows, columns)->Batch_0;
    let builders = fresh_builders(fields, fields.len())->0;
    let filled = rows_step(builders, rows, fields, rows.len())->Done_0;
    lemma_finished(filled, fields, fields.len());
    assert(fields.take(fields.len() as int) =~= fields);
    lemma_rows_by_columns(builders, rows, fields, rows.len());
}

/// Rows never become a record batch where two columns have one name.
pub proof fn lemma_names_must_differ(
    rows: Seq<Seq<JsonView>>,
    columns: Seq<ColumnView>,
    i: int,
    j: int,
)
    requires
        rows.len() > 0,
        0 <= i < j < columns.len(),
        columns[i].name == columns[j].name,
    ensures
        conversion(rows, columns) !is Batch,
{
    lemma_schema_by_columns(columns, columns.len());
    match conversion(rows, columns) {
        Outcome::Batch(fields, _) => {
            let builders = fresh_builders(fields, fields.len())->0;
            let filled = rows_step(builders, rows, fields, rows.len())->Done_0;
            lemma_finished(filled, fields, fields.len());
            assert(fields.take(fields.len() as int) =~= fields);
            assert(fields[i].name != fields[j].name);
        },
        _ => {},
    }
}

/// No rows become a record batch without rows, whatever the columns, and also without any.
pub proof fn lemma_no_rows_no_cells(columns: Seq<ColumnView>)
    ensures
        conversion(seq![], columns) matches Outcome::Batch(_, stores) ==> {
            &&& stores.len() == columns.len()
            &&& row_count(stores) == 0
            &&& forall|i: int| 0 <= i < stores.len() ==> store_len(#[trigger] stores[i]) == 0
        },
{
    lemma_batches_have_the_columns(seq![], columns);
    lemma_schema_by_columns(columns, columns.len());
    match conversion(seq![], columns) {
        Outcome::Batch(fields, stores) => {
            assert forall|i: int| 0 <= i < stores.len() implies store_len(#[trigger] stores[i])
                == 0 by {
                lemma_trino_types_are_flat(columns[i].trino_type);
                lemma_empty_len(fields[i].data_type);
                assert(stores == empty_children(fields));
            }
        },
        _ => {},
    }
}

proof fn lemma_empty_len(t: TypeView)
    requires
        is_flat(t),
        empty_store(t) is Some,
    ensures
        store_len(empty_store(t)->0) == 0,
{
    match t {
        TypeView::Struct(fields) => {
            let children = empty_children(fields);
            assert(children.len() > 0);
            assert(is_scalar(fields[0].data_type));
            assert(empty_store(fields[0].data_type) is Some);
            assert(store_len(empty_store(fields[0].data_type)->0) == 0);
            assert(children[0] == empty_store(fields[0].data_type)->0);
        },
        _ => {},
    }
}

} // verus!
