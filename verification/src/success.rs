//! When rows become a record batch.

use crate::builder::batch_fits;
use crate::columns::{
    cell_at, column_holds, distinct_names, even_children, holds_rows, lemma_children_grow,
    lemma_finished, lemma_row_by_columns, lemma_rows_by_columns, lemma_schema_by_columns, value_at,
    well_built,
};
use crate::flat::{is_flat, is_plain, is_scalar, lemma_plain, lemma_trino_types_are_flat, same_kind};
use crate::json::JsonView;
use crate::rows::{
    conversion, finish_step, fresh, fresh_builders, lemma_left, names_before, room_for, row_step,
    row_value, rows_step, schema_reading,
};
use crate::schema::{trino_type, TypeReading};
use crate::store::{binary_bytes, child_fits, finishable, store_len, store_type, text_bytes, Store};
use crate::types::{ColumnView, FieldView, TimeUnit, TypeView};
use crate::values::{
    append_step, binary_cell, children_step, date_cell, decimal128_cell, decimal256_cell,
    field_value, lemma_text_bytes_sum, scalar_step, text_cell, time_cell, timestamp_cell,
};
use vstd::prelude::*;

verus! {

/// Whether a value can be read for a type without parts: a text must be what a date, a time, a
/// timestamp or a decimal number is read from.
pub open spec fn readable(value: Option<JsonView>, t: TypeView) -> bool {
    match t {
        TypeView::Date32 => date_cell(value) is Cell,
        TypeView::Time64(TimeUnit::Nanosecond) => time_cell(value) is Cell,
        TypeView::Timestamp(TimeUnit::Microsecond, _) => timestamp_cell(value) is Cell,
        TypeView::Decimal128(_, _) => decimal128_cell(value) is Cell,
        TypeView::Decimal256(_, _) => decimal256_cell(value) is Cell,
        _ => true,
    }
}

/// Values as cells of text.
pub open spec fn text_cells(values: Seq<Option<JsonView>>) -> Seq<Option<Seq<char>>> {
    Seq::new(values.len(), |j: int| text_cell(values[j]))
}

/// Values as cells of bytes.
pub open spec fn binary_cells(values: Seq<Option<JsonView>>) -> Seq<Option<Seq<u8>>> {
    Seq::new(values.len(), |j: int| binary_cell(values[j]))
}

/// Whether a column of a type without parts can hold some values: each can be read, and the
/// texts or bytes together take no more than a column of them can count.
pub open spec fn holdable(values: Seq<Option<JsonView>>, t: TypeView) -> bool {
    &&& forall|j: int| 0 <= j < values.len() ==> readable(#[trigger] values[j], t)
    &&& t is Utf8 ==> text_bytes(text_cells(values)) <= i32::MAX
    &&& t is Binary ==> binary_bytes(binary_cells(values)) <= i32::MAX
    &&& values.len() <= usize::MAX
}

/// The values that rows have in the `i`-th place.
pub open spec fn column_values(rows: Seq<Seq<JsonView>>, i: int) -> Seq<Option<JsonView>> {
    Seq::new(rows.len(), |j: int| row_value(rows[j], i))
}

/// The values that some values have for the `c`-th field of a struct.
pub open spec fn field_values(
    values: Seq<Option<JsonView>>,
    fields: Seq<FieldView>,
    c: int,
) -> Seq<Option<JsonView>> {
    Seq::new(values.len(), |j: int| field_value(values[j], fields[c], c))
}

/// Whether a column of a type can hold some values, a struct by its fields, and room for them can
/// be asked for. There are no lists among such types, and no timestamps with a time zone.
pub open spec fn can_hold(values: Seq<Option<JsonView>>, t: TypeView) -> bool {
    &&& fresh(t) is Some
    &&& room_for(t, values.len() as int)
    &&& match t {
        TypeView::Struct(fields) => forall|c: int|
            0 <= c < fields.len() ==> is_plain((#[trigger] fields[c]).data_type) && holdable(
                field_values(values, fields, c),
                fields[c].data_type,
            ),
        TypeView::List(_) => false,
        _ => is_plain(t) && holdable(values, t),
    }
}

/// Bytes take the room of one part and of the other.
pub proof fn lemma_binary_bytes_sum(a: Seq<Option<Seq<u8>>>, b: Seq<Option<Seq<u8>>>)
    ensures
        binary_bytes(a + b) == binary_bytes(a) + binary_bytes(b),
    decreases b.len(),
{
    if b.len() == 0 {
        assert(a + b =~= a);
    } else {
        assert((a + b).drop_last() =~= a + b.drop_last());
        lemma_binary_bytes_sum(a, b.drop_last());
    }
}

/// A column that holds the values so far takes the next one.
proof fn lemma_scalar_goes_on(s: Store, values: Seq<Option<JsonView>>, t: TypeView, n: int)
    requires
        is_scalar(t),
        is_plain(t),
        same_kind(s, t),
        holdable(values, t),
        0 <= n < values.len(),
        store_len(s) == n,
        forall|j: int| 0 <= j < n ==> #[trigger] cell_at(s, j, values[j], t),
    ensures
        scalar_step(s, values[n], t) is Done,
{
    assert(readable(values[n], t));
    match s {
        Store::Utf8(cells) => {
            let all = text_cells(values);
            let now = cells.push(text_cell(values[n]));
            assert forall|j: int| 0 <= j < n implies cells[j] == all[j] by {
                assert(cell_at(s, j, values[j], t));
            }
            assert(now =~= all.take(n + 1));
            assert(all =~= all.take(n + 1) + all.skip(n + 1));
            lemma_text_bytes_sum(all.take(n + 1), all.skip(n + 1));
        },
        Store::Binary(cells) => {
            let all = binary_cells(values);
            let now = cells.push(binary_cell(values[n]));
            assert forall|j: int| 0 <= j < n implies cells[j] == all[j] by {
                assert(cell_at(s, j, values[j], t));
            }
            assert(now =~= all.take(n + 1));
            assert(all =~= all.take(n + 1) + all.skip(n + 1));
            lemma_binary_bytes_sum(all.take(n + 1), all.skip(n + 1));
        },
        _ => {},
    }
}

proof fn lemma_children_go_on(
    children: Seq<Store>,
    values: Seq<Option<JsonView>>,
    fields: Seq<FieldView>,
    k: nat,
    n: int,
)
    requires
        k <= fields.len(),
        0 <= n < values.len(),
        even_children(children, fields, n as nat),
        can_hold(values, TypeView::Struct(fields)),
        forall|j: int, c: int|
            0 <= j < n && 0 <= c < fields.len() ==> #[trigger] cell_at(
                children[c],
                j,
                field_value(values[j], fields[c], c),
                fields[c].data_type,
            ),
    ensures
        children_step(children, values[n], fields, k) is Done,
    decreases k,
{
    if k > 0 {
        lemma_children_go_on(children, values, fields, (k - 1) as nat, n);
        lemma_children_grow(children, values[n], fields, (k - 1) as nat, n as nat);
        let c = k - 1;
        let part = field_values(values, fields, c);
        let now = children_step(children, values[n], fields, (k - 1) as nat)->Done_0;
        assert(now[c] == children[c]);
        assert(is_plain(fields[c].data_type));
        assert forall|j: int| 0 <= j < n implies #[trigger] cell_at(
            children[c],
            j,
            part[j],
            fields[c].data_type,
        ) by {
            assert(cell_at(
                children[c],
                j,
                field_value(values[j], fields[c], c),
                fields[c].data_type,
            ));
        }
        assert(same_kind(children[c], fields[c].data_type));
        lemma_scalar_goes_on(children[c], part, fields[c].data_type, n);
    }
}

/// A column that holds the rows so far takes the next one.
proof fn lemma_column_goes_on(
    s: Store,
    rows: Seq<Seq<JsonView>>,
    i: int,
    t: TypeView,
    n: int,
)
    requires
        holds_rows(t),
        can_hold(column_values(rows, i), t),
        well_built(s, t),
        0 <= n < rows.len(),
        column_holds(s, rows, i, t, n as nat),
    ensures
        append_step(s, row_value(rows[n], i), t) is Done,
{
    let values = column_values(rows, i);
    assert forall|j: int| 0 <= j < n implies #[trigger] value_at(s, j, values[j], t) by {
        assert(value_at(s, j, row_value(rows[j], i), t));
    }
    match t {
        TypeView::Struct(fields) => {
            let children = s->Struct_children;
            assert forall|j: int, c: int|
                0 <= j < n && 0 <= c < fields.len() implies #[trigger] cell_at(
                children[c],
                j,
                field_value(values[j], fields[c], c),
                fields[c].data_type,
            ) by {
                assert(value_at(s, j, values[j], t));
            }
            lemma_children_go_on(children, values, fields, fields.len(), n);
        },
        _ => {
            assert forall|j: int| 0 <= j < n implies #[trigger] cell_at(s, j, values[j], t) by {
                assert(value_at(s, j, values[j], t));
            }
            lemma_scalar_goes_on(s, values, t, n);
        },
    }
}

/// Whether fields have names of their own, and types whose columns can hold what rows have for
/// them.
pub open spec fn can_hold_all(rows: Seq<Seq<JsonView>>, fields: Seq<FieldView>) -> bool {
    &&& distinct_names(fields)
    &&& forall|i: int|
        0 <= i < fields.len() ==> is_flat((#[trigger] fields[i]).data_type) && fields[i].nullable
            && can_hold(column_values(rows, i), fields[i].data_type)
}

proof fn lemma_fresh_for_all(rows: Seq<Seq<JsonView>>, fields: Seq<FieldView>, k: nat)
    requires
        k <= fields.len(),
        can_hold_all(rows, fields),
    ensures
        fresh_builders(fields, k) is Some,
    decreases k,
{
    if k > 0 {
        lemma_fresh_for_all(rows, fields, (k - 1) as nat);
        assert(can_hold(column_values(rows, k - 1), fields[k - 1].data_type));
    }
}

proof fn lemma_row_goes_on(
    builders: Map<Seq<char>, Store>,
    rows: Seq<Seq<JsonView>>,
    fields: Seq<FieldView>,
    k: nat,
    n: int,
)
    requires
        k <= fields.len(),
        0 <= n < rows.len(),
        can_hold_all(rows, fields),
        forall|i: int|
            0 <= i < fields.len() ==> builders.contains_key((#[trigger] fields[i]).name)
                && well_built(builders[fields[i].name], fields[i].data_type) && column_holds(
                builders[fields[i].name],
                rows,
                i,
                fields[i].data_type,
                n as nat,
            ),
    ensures
        row_step(builders, rows[n], fields, k) is Done,
    decreases k,
{
    if k > 0 {
        lemma_row_goes_on(builders, rows, fields, (k - 1) as nat, n);
        lemma_row_by_columns(builders, rows[n], fields, (k - 1) as nat);
        let field = fields[k - 1];
        assert(builders.contains_key(field.name));
        lemma_column_goes_on(builders[field.name], rows, k - 1, field.data_type, n);
    }
}

proof fn lemma_rows_go_on(
    builders: Map<Seq<char>, Store>,
    rows: Seq<Seq<JsonView>>,
    fields: Seq<FieldView>,
    n: nat,
)
    requires
        n <= rows.len(),
        can_hold_all(rows, fields),
        fresh_builders(fields, fields.len()) == Some(builders),
    ensures
        rows_step(builders, rows, fields, n) is Done,
    decreases n,
{
    if n > 0 {
        lemma_rows_go_on(builders, rows, fields, (n - 1) as nat);
        lemma_rows_by_columns(builders, rows, fields, (n - 1) as nat);
        let now = rows_step(builders, rows, fields, (n - 1) as nat)->Done_0;
        assert forall|i: int| 0 <= i < fields.len() implies now.contains_key(
            (#[trigger] fields[i]).name,
        ) && well_built(now[fields[i].name], fields[i].data_type) && column_holds(
            now[fields[i].name],
            rows,
            i,
            fields[i].data_type,
            (n - 1) as nat,
        ) by {
            assert(holds_rows(fields[i].data_type));
        }
        lemma_row_goes_on(now, rows, fields, fields.len(), n - 1);
    }
}

/// A column that holds all rows can be finished, and has its type.
proof fn lemma_column_finishes(s: Store, values: Seq<Option<JsonView>>, t: TypeView)
    requires
        is_flat(t),
        can_hold(values, t),
        well_built(s, t),
    ensures
        finishable(s),
        store_type(s) == t,
{
    match t {
        TypeView::Struct(fields) => {
            let children = s->Struct_children;
            let validity = s->Struct_validity;
            assert forall|c: int| 0 <= c < children.len() implies finishable(
                #[trigger] children[c],
            ) && child_fits(fields[c], children[c], validity) by {
                assert(is_plain(fields[c].data_type));
                assert(same_kind(children[c], fields[c].data_type));
                lemma_plain(children[c], fields[c].data_type);
            }
        },
        _ => {
            lemma_plain(s, t);
        },
    }
}

proof fn lemma_all_finish(
    builders: Map<Seq<char>, Store>,
    rows: Seq<Seq<JsonView>>,
    fields: Seq<FieldView>,
    k: nat,
)
    requires
        k <= fields.len(),
        can_hold_all(rows, fields),
        forall|i: int|
            0 <= i < fields.len() ==> builders.contains_key((#[trigger] fields[i]).name)
                && well_built(builders[fields[i].name], fields[i].data_type),
    ensures
        finish_step(builders, fields, k) is Done,
    decreases k,
{
    if k > 0 {
        lemma_all_finish(builders, rows, fields, (k - 1) as nat);
        lemma_left(builders, fields, (k - 1) as nat);
        let field = fields[k - 1];
        assert(builders.contains_key(field.name));
        assert(!names_before(fields, k - 1, field.name)) by {
            if names_before(fields, k - 1, field.name) {
                let i = choose|i: int| 0 <= i < k - 1 && (#[trigger] fields[i]).name == field.name;
                assert(fields[i].name != fields[k - 1].name);
            }
        }
        let left = finish_step(builders, fields, (k - 1) as nat)->Done_0;
        assert(left.contains_key(field.name));
        lemma_column_finishes(
            builders[field.name],
            column_values(rows, k - 1),
            field.data_type,
        );
    }
}

/// Whether the columns of a result have names of their own and types that are supported, and can
/// hold what the rows have for them.
pub open spec fn convertible(rows: Seq<Seq<JsonView>>, columns: Seq<ColumnView>) -> bool {
    &&& columns.len() > 0
    &&& forall|i: int, j: int|
        0 <= i < j < columns.len() ==> (#[trigger] columns[i]).name != (#[trigger] columns[j]).name
    &&& forall|i: int|
        0 <= i < columns.len() ==> (trino_type(
            (#[trigger] columns[i]).trino_type,
        ) matches TypeReading::Type(t) && can_hold(column_values(rows, i), t))
}

proof fn lemma_schema_is_read(rows: Seq<Seq<JsonView>>, columns: Seq<ColumnView>, k: nat)
    requires
        k <= columns.len(),
        convertible(rows, columns),
    ensures
        schema_reading(columns, k) is Fields,
    decreases k,
{
    if k > 0 {
        lemma_schema_is_read(rows, columns, (k - 1) as nat);
        assert(trino_type(columns[k - 1].trino_type) is Type);
    }
}

/// Rows become a record batch wherever the columns have names of their own, types that are
/// supported and are neither lists nor timestamps with a time zone, and values that can be read
/// and counted.
pub proof fn lemma_convertible_rows_become_a_batch(
    rows: Seq<Seq<JsonView>>,
    columns: Seq<ColumnView>,
)
    requires
        0 < rows.len(),
        convertible(rows, columns),
    ensures
        conversion(rows, columns) is Batch,
{
    lemma_schema_is_read(rows, columns, columns.len());
    lemma_schema_by_columns(columns, columns.len());
    let fields = schema_reading(columns, columns.len())->Fields_0;
    assert(can_hold_all(rows, fields)) by {
        assert forall|i: int, j: int| 0 <= i < j < fields.len() implies (#[trigger] fields[i]).name
            != (#[trigger] fields[j]).name by {
            assert(columns[i].name != columns[j].name);
        }
        assert forall|i: int| 0 <= i < fields.len() implies is_flat(
            (#[trigger] fields[i]).data_type,
        ) && fields[i].nullable && can_hold(column_values(rows, i), fields[i].data_type) by {
            assert(trino_type(columns[i].trino_type) is Type);
            lemma_trino_types_are_flat(columns[i].trino_type);
        }
    }
    lemma_fresh_for_all(rows, fields, fields.len());
    let builders = fresh_builders(fields, fields.len())->0;
    lemma_rows_go_on(builders, rows, fields, rows.len());
    lemma_rows_by_columns(builders, rows, fields, rows.len());
    let filled = rows_step(builders, rows, fields, rows.len())->Done_0;
    assert forall|i: int| 0 <= i < fields.len() implies filled.contains_key(
        (#[trigger] fields[i]).name,
    ) && well_built(filled[fields[i].name], fields[i].data_type) && column_holds(
        filled[fields[i].name],
        rows,
        i,
        fields[i].data_type,
        rows.len(),
    ) by {
        assert(holds_rows(fields[i].data_type));
    }
    lemma_all_finish(filled, rows, fields, fields.len());
    lemma_finished(filled, fields, fields.len());
    let stores = finish_step(filled, fields, fields.len())->Done_1;
    assert forall|i: int| 0 <= i < stores.len() implies {
        &&& store_len(#[trigger] stores[i]) == rows.len()
        &&& store_type(stores[i]) == fields[i].data_type
    } by {
        assert(stores[i] == filled[fields[i].name]);
        lemma_column_finishes(stores[i], column_values(rows, i), fields[i].data_type);
    }
    assert(batch_fits(fields, stores)) by {
        assert(store_len(stores[0]) == rows.len());
        assert forall|i: int| 0 <= i < stores.len() implies {
            &&& store_len(#[trigger] stores[i]) == store_len(stores[0])
            &&& store_type(stores[i]) == fields[i].data_type
            &&& fields[i].nullable || !crate::store::has_nulls(stores[i])
        } by {
            assert(fields[i].nullable);
        }
    }
}

} // verus!
