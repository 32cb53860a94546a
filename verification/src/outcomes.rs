//! When rows become a record batch, and what they become otherwise.

use crate::builder::{batch_fault, batch_fits, decimal128_fault, decimal256_fault, row_count};
use crate::columns::{
    distinct_names, lemma_finished, lemma_fresh_by_columns, lemma_row_by_columns,
    lemma_rows_by_columns, lemma_schema_by_columns,
};
use crate::decimal::text_decimal;
use crate::flat::{is_flat, is_plain, is_scalar, lemma_trino_types_are_flat, same_kind};
use crate::json::JsonView;
use crate::rows::{
    cell_width, conversion, empty_children, empty_store, finish_step, fresh, fresh_builders,
    lemma_first_fault, lemma_fresh_struct, lemma_left, lemma_row_stuck, lemma_rows_stuck,
    names_before, room_for, row_step, rows_step, schema_of, schema_reading, BuildersStep,
    ColumnsStep, Outcome, SchemaReading,
};
use crate::schema::{trino_type, TypeReading};
use crate::store::{binary_bytes, finishable, item_field, store_len, store_type, text_bytes, Store};
use crate::success::{
    binary_cells, can_hold, column_values, convertible, field_values, holdable,
    lemma_convertible_rows_become_a_batch, readable, text_cells,
};
use crate::temporal::{read_date, read_datetime, read_rfc3339, read_time};
use crate::trino::ErrorView;
use crate::types::{ColumnView, FieldView, TimeUnit, TypeView};
use crate::values::{append_step, children_step, field_value, scalar_step, struct_step, Step};
use vstd::prelude::*;

verus! {

/// Room can be asked for as long as the rows take no more than the machine can address: 32 bytes
/// for a cell at most, and four times as many for a list.
pub proof fn lemma_there_is_room(t: TypeView, n: int)
    requires
        is_flat(t),
        0 <= n,
        n * 128 + 256 <= isize::MAX,
    ensures
        room_for(t, n),
{
    match t {
        TypeView::List(item) => {
            lemma_room_for_cells(item.data_type, n * 4);
        },
        TypeView::Struct(fields) => {
            assert forall|i: int| 0 <= i < fields.len() implies room_for(
                (#[trigger] fields[i]).data_type,
                n,
            ) by {
                lemma_room_for_cells(fields[i].data_type, n);
            }
        },
        _ => {
            lemma_room_for_cells(t, n);
        },
    }
}

proof fn lemma_room_for_cells(t: TypeView, n: int)
    requires
        is_scalar(t),
        0 <= n,
        n * 32 + 256 <= isize::MAX,
    ensures
        room_for(t, n),
{
    let width = cell_width(t);
    assert(n * width <= n * 32) by (nonlinear_arith)
        requires
            0 <= n,
            0 <= width <= 32,
    ;
}

/// Whether a decimal type is one that Arrow has: its precision is from 1 to 38, or to 76 with 256
/// bits, and its scale is not above it.
pub open spec fn is_sized(t: TypeView) -> bool {
    match t {
        TypeView::Decimal128(precision, scale) => 1 <= precision <= 38 && scale <= precision,
        TypeView::Decimal256(precision, scale) => 1 <= precision <= 76 && scale <= precision,
        _ => true,
    }
}

/// There is a builder for every type without parts, but for the decimal types that Arrow has not.
/// It is of the kind that its type needs, and has no cells.
pub proof fn lemma_builders_are_there(t: TypeView)
    requires
        is_scalar(t),
    ensures
        is_sized(t) <==> fresh(t) is Some,
        fresh(t) matches Some(s) ==> store_len(s) == 0 && same_kind(s, t),
{
}

/// Whether each text among some values is read as what a type needs: a date, a time of day, a
/// timestamp or a decimal number. Other types need nothing.
pub open spec fn all_read(values: Seq<Option<JsonView>>, t: TypeView) -> bool {
    forall|j: int|
        0 <= j < values.len() ==> (#[trigger] values[j] matches Some(JsonView::Text(s))
            ==> reads_as(s, t))
}

/// Whether a text is read as what a type needs.
pub open spec fn reads_as(s: Seq<char>, t: TypeView) -> bool {
    match t {
        TypeView::Date32 => read_date(s) is Some,
        TypeView::Time64(TimeUnit::Nanosecond) => read_time(s) is Some,
        TypeView::Timestamp(TimeUnit::Microsecond, _) => read_rfc3339(s) is Some || read_datetime(
            s,
        ) is Some,
        TypeView::Decimal128(_, _) | TypeView::Decimal256(_, _) => text_decimal(s) is Some,
        _ => true,
    }
}

/// Whether a column of a type without parts takes some values: their texts can be read, and they
/// take no more than 2147483647 bytes where there is text or bytes.
pub open spec fn are_taken(values: Seq<Option<JsonView>>, t: TypeView) -> bool {
    &&& is_scalar(t)
    &&& is_sized(t)
    &&& t is Timestamp ==> t == TypeView::Timestamp(TimeUnit::Microsecond, None)
    &&& t is Time64 ==> t == TypeView::Time64(TimeUnit::Nanosecond)
    &&& all_read(values, t)
    &&& t is Utf8 ==> text_bytes(text_cells(values)) <= 2_147_483_647
    &&& t is Binary ==> binary_bytes(binary_cells(values)) <= 2_147_483_647
}

/// Whether a column of a type takes some values, a struct by its fields.
pub open spec fn are_taken_by(values: Seq<Option<JsonView>>, t: TypeView) -> bool {
    match t {
        TypeView::Struct(parts) => forall|c: int|
            0 <= c < parts.len() ==> are_taken(
                field_values(values, parts, c),
                (#[trigger] parts[c]).data_type,
            ),
        _ => are_taken(values, t),
    }
}

proof fn lemma_taken_is_holdable(values: Seq<Option<JsonView>>, t: TypeView)
    requires
        are_taken(values, t),
        values.len() * 128 + 256 <= isize::MAX,
    ensures
        holdable(values, t),
        fresh(t) is Some,
{
    lemma_builders_are_there(t);
    assert forall|j: int| 0 <= j < values.len() implies readable(#[trigger] values[j], t) by {
        match values[j] {
            Some(JsonView::Text(s)) => {
                assert(reads_as(s, t));
            },
            _ => {},
        }
    }
}

/// Rows become a record batch wherever the columns have names of their own, types that are neither
/// lists nor timestamps with a time zone nor decimal types that Arrow has not, and texts that can
/// be read, and wherever all of it can be addressed and counted. Nothing else is asked of the rows:
/// values of other kinds, nulls and short rows are taken too.
pub proof fn lemma_rows_become_a_batch(rows: Seq<Seq<JsonView>>, columns: Seq<ColumnView>)
    requires
        rows.len() > 0,
        rows.len() * 128 + 256 <= isize::MAX,
        columns.len() > 0,
        forall|i: int, j: int|
            0 <= i < j < columns.len() ==> (#[trigger] columns[i]).name != (
            #[trigger] columns[j]).name,
        forall|i: int|
            0 <= i < columns.len() ==> (trino_type(
                (#[trigger] columns[i]).trino_type,
            ) matches TypeReading::Type(t) && are_taken_by(column_values(rows, i), t)),
    ensures
        conversion(rows, columns) is Batch,
{
    assert forall|i: int| 0 <= i < columns.len() implies (trino_type(
        (#[trigger] columns[i]).trino_type,
    ) matches TypeReading::Type(t) && can_hold(column_values(rows, i), t)) by {
        let t = trino_type(columns[i].trino_type)->Type_0;
        let values = column_values(rows, i);
        lemma_trino_types_are_flat(columns[i].trino_type);
        lemma_there_is_room(t, rows.len() as int);
        match t {
            TypeView::Struct(parts) => {
                assert forall|c: int| 0 <= c < parts.len() implies fresh(
                    (#[trigger] parts[c]).data_type,
                ) is Some && holdable(field_values(values, parts, c), parts[c].data_type) by {
                    lemma_taken_is_holdable(field_values(values, parts, c), parts[c].data_type);
                }
                lemma_fresh_struct(parts);
            },
            _ => {
                lemma_taken_is_holdable(values, t);
            },
        }
    }
    assert(convertible(rows, columns));
    lemma_convertible_rows_become_a_batch(rows, columns);
}

/// The first column whose type name says no type is the one that is refused, with what of the name
/// is not supported, whatever the rows.
pub proof fn lemma_unsupported_columns_are_refused(
    rows: Seq<Seq<JsonView>>,
    columns: Seq<ColumnView>,
    i: int,
)
    requires
        0 <= i < columns.len(),
        forall|k: int| 0 <= k < i ==> trino_type((#[trigger] columns[k]).trino_type) is Type,
    ensures
        trino_type(columns[i].trino_type) matches TypeReading::Unsupported(name) ==> conversion(
            rows,
            columns,
        ) == Outcome::Failed(ErrorView::UnsupportedTrinoType(name)),
        trino_type(columns[i].trino_type) is Malformed ==> conversion(rows, columns) is Broken,
{
    lemma_first_types(columns, i as nat);
    lemma_stops(columns, (i + 1) as nat, columns.len());
}

proof fn lemma_first_types(columns: Seq<ColumnView>, k: nat)
    requires
        k <= columns.len(),
        forall|j: int| 0 <= j < k ==> trino_type((#[trigger] columns[j]).trino_type) is Type,
    ensures
        schema_reading(columns, k) is Fields,
    decreases k,
{
    if k > 0 {
        lemma_first_types(columns, (k - 1) as nat);
        assert(trino_type(columns[k - 1].trino_type) is Type);
    }
}

proof fn lemma_stops(columns: Seq<ColumnView>, k: nat, n: nat)
    requires
        k <= n,
    ensures
        schema_reading(columns, k) !is Fields ==> schema_reading(columns, n) == schema_reading(
            columns,
            k,
        ),
    decreases n - k,
{
    if k < n {
        lemma_stops(columns, k, (n - 1) as nat);
    }
}

/// Nothing becomes a record batch without fields, columns and rows. Rows without columns are
/// refused.
pub proof fn lemma_nothing_becomes_nothing(rows: Seq<Seq<JsonView>>)
    ensures
        conversion(seq![], seq![]) == Outcome::Batch(seq![], seq![]),
        rows.len() > 0 ==> conversion(rows, seq![]) == Outcome::Failed(
            ErrorView::FailedToBuildRecordBatch(batch_fault(seq![], seq![])),
        ),
{
    let none = Seq::<ColumnView>::empty();
    if rows.len() > 0 {
        assert(schema_of(none) == SchemaReading::Fields(seq![]));
        let fields = Seq::<FieldView>::empty();
        let start = Map::<Seq<char>, Store>::empty();
        assert(fresh_builders(fields, 0) == Some(start));
        lemma_rows_without_fields(start, rows, rows.len());
        assert(finish_step(start, fields, 0) is Done);
        assert(!batch_fits(fields, seq![]));
    }
}

proof fn lemma_rows_without_fields(
    start: Map<Seq<char>, Store>,
    rows: Seq<Seq<JsonView>>,
    n: nat,
)
    ensures
        rows_step(start, rows, seq![], n) == BuildersStep::Done(start),
    decreases n,
{
    if n > 0 {
        lemma_rows_without_fields(start, rows, (n - 1) as nat);
    }
}

/// Whether a column without cells has its own type: a decimal column has the precision and scale
/// that Arrow gives one, 38 and 10, or 76 and 10 with 256 bits.
pub open spec fn is_typed_without_cells(t: TypeView) -> bool {
    match t {
        TypeView::Decimal128(precision, scale) => precision == 38 && scale == 10,
        TypeView::Decimal256(precision, scale) => precision == 76 && scale == 10,
        TypeView::Timestamp(unit, zone) => unit is Microsecond && zone is None,
        TypeView::Time64(unit) => unit is Nanosecond,
        TypeView::List(_) | TypeView::Struct(_) | TypeView::MapOf(_, _) => false,
        _ => true,
    }
}

/// Without rows the columns of a result become a record batch, with as many columns, as long as
/// each has a type of which there is a column without cells.
pub proof fn lemma_no_rows_become_a_batch(columns: Seq<ColumnView>)
    requires
        columns.len() > 0,
        forall|i: int|
            0 <= i < columns.len() ==> (trino_type(
                (#[trigger] columns[i]).trino_type,
            ) matches TypeReading::Type(t) && is_typed_without_cells(t)),
    ensures
        conversion(seq![], columns) is Batch,
{
    lemma_first_types(columns, columns.len());
    lemma_schema_by_columns(columns, columns.len());
    let fields = schema_of(columns)->Fields_0;
    let stores = empty_children(fields);
    assert forall|i: int| 0 <= i < fields.len() implies {
        &&& empty_store((#[trigger] fields[i]).data_type) is Some
        &&& stores[i] == empty_store(fields[i].data_type)->0
        &&& store_type(stores[i]) == fields[i].data_type
        &&& store_len(stores[i]) == 0
        &&& fields[i].nullable
    } by {
        assert(trino_type(columns[i].trino_type) is Type);
    }
    assert(batch_fits(fields, stores)) by {
        assert forall|i: int| 0 <= i < stores.len() implies {
            &&& store_len(#[trigger] stores[i]) == store_len(stores[0])
            &&& store_type(stores[i]) == fields[i].data_type
            &&& fields[i].nullable || !crate::store::has_nulls(stores[i])
        } by {
            assert(empty_store(fields[i].data_type) is Some);
            assert(empty_store(fields[0].data_type) is Some);
        }
    }
}

proof fn lemma_same_rows(
    start: Map<Seq<char>, Store>,
    a: Seq<Seq<JsonView>>,
    b: Seq<Seq<JsonView>>,
    fields: Seq<FieldView>,
    n: nat,
)
    requires
        n <= a.len(),
        n <= b.len(),
        forall|j: int| 0 <= j < n ==> a[j] == b[j],
    ensures
        rows_step(start, a, fields, n) == rows_step(start, b, fields, n),
    decreases n,
{
    if n > 0 {
        lemma_same_rows(start, a, b, fields, (n - 1) as nat);
        assert(a[n - 1] == b[n - 1]);
    }
}

proof fn lemma_same_values(
    now: Map<Seq<char>, Store>,
    a: Seq<JsonView>,
    b: Seq<JsonView>,
    fields: Seq<FieldView>,
    k: nat,
)
    requires
        a.len() == b.len(),
        forall|c: int| 0 <= c < k && c < a.len() ==> a[c] == b[c],
    ensures
        row_step(now, a, fields, k) == row_step(now, b, fields, k),
    decreases k,
{
    if k > 0 {
        lemma_same_values(now, a, b, fields, (k - 1) as nat);
        if k - 1 < a.len() {
            assert(a[k - 1] == b[k - 1]);
        }
    }
}

/// The error of a text that is not what a type needs.
pub open spec fn text_fault(s: Seq<char>, t: TypeView) -> ErrorView {
    match t {
        TypeView::Date32 => ErrorView::InvalidDateValue(s),
        TypeView::Time64(_) => ErrorView::InvalidTimeValue(s),
        TypeView::Timestamp(_, _) => ErrorView::InvalidTimestampValue(s),
        _ => ErrorView::FailedToParseDecimal(s),
    }
}

/// A text that is not the date, the time of day, the timestamp or the decimal number that its
/// column needs is refused, with the text, wherever the rows before it and the values before it in
/// its row are taken: whatever comes behind it. With a null in its place the rows up to it would be
/// a record batch.
#[verifier::spinoff_prover]
#[verifier::rlimit(50)]
pub proof fn lemma_bad_texts_are_refused(
    xs: Seq<Seq<JsonView>>,
    row: Seq<JsonView>,
    ys: Seq<Seq<JsonView>>,
    columns: Seq<ColumnView>,
    i: int,
    s: Seq<char>,
)
    requires
        0 <= i < columns.len(),
        i < row.len(),
        row[i] == JsonView::Text(s),
        conversion(xs.push(row.update(i, JsonView::Null)), columns) is Batch,
        (xs.len() + 1 + ys.len()) * 128 + 256 <= isize::MAX,
        ({
            let blank = row.update(i, JsonView::Null);
            let t = conversion(xs.push(blank), columns)->Batch_0[i].data_type;
            !(t is List) && !reads_as(s, t)
        }),
    ensures
        conversion(xs.push(row) + ys, columns) == Outcome::Failed(
            text_fault(
                s,
                conversion(xs.push(row.update(i, JsonView::Null)), columns)->Batch_0[i].data_type,
            ),
        ),
{
    let blank = row.update(i, JsonView::Null);
    let zs = xs.push(blank);
    let all = xs.push(row) + ys;
    let n = xs.len();
    let fields = conversion(zs, columns)->Batch_0;
    let m = fields.len();
    let t = fields[i].data_type;
    lemma_schema_by_columns(columns, columns.len());
    let start = fresh_builders(fields, m)->0;
    let filled = rows_step(start, zs, fields, zs.len())->Done_0;
    lemma_finished(filled, fields, m);
    assert(fields.take(m as int) =~= fields);
    lemma_rows_stuck(start, zs, fields, n, zs.len());
    lemma_rows_by_columns(start, zs, fields, n);
    lemma_same_rows(start, zs, all, fields, n);
    let now = rows_step(start, zs, fields, n)->Done_0;
    assert(zs[n as int] == blank);
    assert(all[n as int] == row);
    lemma_row_stuck(now, blank, fields, i as nat, m);
    lemma_row_stuck(now, blank, fields, (i + 1) as nat, m);
    lemma_same_values(now, row, blank, fields, i as nat);
    assert forall|k: int| 0 <= k < fields.len() implies now.contains_key(
        (#[trigger] fields[k]).name,
    ) by {}
    lemma_row_by_columns(now, blank, fields, i as nat);
    let before = row_step(now, blank, fields, i as nat)->Done_0;
    assert(before.contains_key(fields[i].name));
    let store = before[fields[i].name];
    assert(append_step(store, Some(JsonView::Null), t) is Done);
    assert(append_step(store, Some(JsonView::Text(s)), t) == Step::Failed(
        store,
        text_fault(s, t),
    ));
    lemma_row_stuck(now, row, fields, (i + 1) as nat, m);
    assert(rows_step(start, all, fields, n + 1) is Failed);
    lemma_rows_stuck(start, all, fields, n + 1, all.len());
    assert forall|k: int| 0 <= k < fields.len() implies room_for(
        (#[trigger] fields[k]).data_type,
        all.len() as int,
    ) by {
        lemma_trino_types_are_flat(columns[k].trino_type);
        lemma_there_is_room(fields[k].data_type, all.len() as int);
    }
}

/// A column of lists takes no values: it has no rows, and so the record batch has none.
pub proof fn lemma_lists_stay_empty(rows: Seq<Seq<JsonView>>, columns: Seq<ColumnView>, i: int)
    requires
        rows.len() > 0,
        0 <= i < columns.len(),
        conversion(rows, columns) is Batch,
        conversion(rows, columns)->Batch_0[i].data_type is List,
    ensures
        store_len(conversion(rows, columns)->Batch_1[i]) == 0,
        row_count(conversion(rows, columns)->Batch_1) == 0,
{
    lemma_schema_by_columns(columns, columns.len());
    let fields = conversion(rows, columns)->Batch_0;
    let stores = conversion(rows, columns)->Batch_1;
    let start = fresh_builders(fields, fields.len())->0;
    let filled = rows_step(start, rows, fields, rows.len())->Done_0;
    lemma_finished(filled, fields, fields.len());
    assert(fields.take(fields.len() as int) =~= fields);
    lemma_list_column(start, rows, fields, rows.len(), i);
    assert(batch_fits(fields, stores));
    assert(stores[i] == filled[fields[i].name]);
    assert(store_len(stores[i]) == store_len(stores[0]));
}

proof fn lemma_list_column(
    start: Map<Seq<char>, Store>,
    rows: Seq<Seq<JsonView>>,
    fields: Seq<FieldView>,
    n: nat,
    i: int,
)
    requires
        n <= rows.len(),
        distinct_names(fields),
        fresh_builders(fields, fields.len()) == Some(start),
        0 <= i < fields.len(),
        fields[i].data_type is List,
    ensures
        rows_step(start, rows, fields, n) matches BuildersStep::Done(now) ==> now.contains_key(
            fields[i].name,
        ) && now[fields[i].name] is List,
    decreases n,
{
    lemma_fresh_by_columns(fields, fields.len());
    if n > 0 {
        lemma_list_column(start, rows, fields, (n - 1) as nat, i);
        lemma_rows_by_columns(start, rows, fields, (n - 1) as nat);
        match rows_step(start, rows, fields, (n - 1) as nat) {
            BuildersStep::Done(now) => {
                lemma_row_by_columns(now, rows[n - 1], fields, fields.len());
            },
            _ => {},
        }
    }
}

/// A record batch has no timestamps with a time zone: Arrow refuses columns that say they have one.
pub proof fn lemma_no_zones_in_batches(rows: Seq<Seq<JsonView>>, columns: Seq<ColumnView>, i: int)
    requires
        0 <= i < columns.len(),
        trino_type(columns[i].trino_type) matches TypeReading::Type(
            TypeView::Timestamp(_, Some(_)),
        ),
    ensures
        conversion(rows, columns) !is Batch,
{
    lemma_schema_by_columns(columns, columns.len());
    if conversion(rows, columns) is Batch {
        let fields = conversion(rows, columns)->Batch_0;
        let stores = conversion(rows, columns)->Batch_1;
        assert(batch_fits(fields, stores));
        assert(store_type(stores[i]) == fields[i].data_type);
    }
}

/// Rows never become a record batch where one column is of lists and another is not: lists take no
/// values.
pub proof fn lemma_lists_stand_alone(
    rows: Seq<Seq<JsonView>>,
    columns: Seq<ColumnView>,
    i: int,
    k: int,
)
    requires
        rows.len() > 0,
        0 <= i < columns.len(),
        0 <= k < columns.len(),
        trino_type(columns[i].trino_type) matches TypeReading::Type(TypeView::List(_)),
        !(trino_type(columns[k].trino_type) matches TypeReading::Type(TypeView::List(_))),
    ensures
        conversion(rows, columns) !is Batch,
{
    if conversion(rows, columns) is Batch {
        lemma_schema_by_columns(columns, columns.len());
        lemma_lists_stay_empty(rows, columns, i);
        crate::cells::lemma_fields_follow_the_columns(rows, columns, k);
    }
}

/// Each value of a row goes to the builder that has the name of its column, and no value where the
/// row is too short. A column without a builder is passed over. What one value does is done before
/// the next.
#[verifier::spinoff_prover]
#[verifier::rlimit(50)]
pub proof fn lemma_values_go_to_their_builders(
    builders: Map<Seq<char>, Store>,
    row: Seq<JsonView>,
    fields: Seq<FieldView>,
    k: nat,
    now: Map<Seq<char>, Store>,
)
    requires
        k < fields.len(),
        row_step(builders, row, fields, k) == BuildersStep::Done(now),
    ensures
        row_step(builders, row, fields, 0) == BuildersStep::Done(builders),
        ({
            let name = fields[k as int].name;
            let t = fields[k as int].data_type;
            let next = row_step(builders, row, fields, k + 1);
            &&& !now.contains_key(name) ==> next == BuildersStep::Done(now)
            &&& now.contains_key(name) && k < row.len() ==> match append_step(
                now[name],
                Some(row[k as int]),
                t,
            ) {
                Step::Done(s) => next == BuildersStep::Done(now.insert(name, s)),
                Step::Failed(s, e) => next == BuildersStep::Failed(now.insert(name, s), e),
                Step::Broken => next is Broken,
            }
            &&& now.contains_key(name) && k >= row.len() ==> match append_step(now[name], None, t) {
                Step::Done(s) => next == BuildersStep::Done(now.insert(name, s)),
                Step::Failed(s, e) => next == BuildersStep::Failed(now.insert(name, s), e),
                Step::Broken => next is Broken,
            }
        }),
{
}

/// The columns of a record batch come from the builders that have the names of the fields, in the
/// order of the fields. A field whose builder is not there is named by the error.
pub proof fn lemma_columns_come_from_their_builders(
    builders: Map<Seq<char>, Store>,
    fields: Seq<FieldView>,
    k: nat,
    left: Map<Seq<char>, Store>,
    columns: Seq<Store>,
)
    requires
        k < fields.len(),
        finish_step(builders, fields, k) == ColumnsStep::Done(left, columns),
    ensures
        ({
            let name = fields[k as int].name;
            let next = finish_step(builders, fields, k + 1);
            &&& !left.contains_key(name) ==> next == ColumnsStep::Failed(
                ErrorView::FailedToFindFieldInSchema(name),
            )
            &&& left.contains_key(name) && finishable(left[name]) ==> next == ColumnsStep::Done(
                left.remove(name),
                columns.push(left[name]),
            )
            &&& left.contains_key(name) && !finishable(left[name]) ==> next is Broken
        }),
        finish_step(builders, fields, 0) == ColumnsStep::Done(builders, seq![]),
{
}

/// Whether a type is a list whose items have no parts, and are neither timestamps with a time zone
/// nor decimal numbers that Arrow has not.
pub open spec fn is_plain_list(t: TypeView) -> bool {
    t matches TypeView::List(item) && item.name == "item"@ && item.nullable && is_sized(
        item.data_type,
    ) && is_scalar(item.data_type) && is_plain(item.data_type)
}

proof fn lemma_lists_wait(
    start: Map<Seq<char>, Store>,
    row: Seq<JsonView>,
    fields: Seq<FieldView>,
    k: nat,
)
    requires
        k <= fields.len(),
        forall|i: int|
            0 <= i < fields.len() ==> start.contains_key((#[trigger] fields[i]).name)
                && start[fields[i].name] is List && fields[i].data_type is List,
    ensures
        row_step(start, row, fields, k) == BuildersStep::Done(start),
    decreases k,
{
    if k > 0 {
        lemma_lists_wait(start, row, fields, (k - 1) as nat);
        let name = fields[k - 1].name;
        assert(start[name] is List);
        assert(start.insert(name, start[name]) =~= start);
    }
}

proof fn lemma_rows_of_lists_wait(
    start: Map<Seq<char>, Store>,
    rows: Seq<Seq<JsonView>>,
    fields: Seq<FieldView>,
    n: nat,
)
    requires
        n <= rows.len(),
        forall|i: int|
            0 <= i < fields.len() ==> start.contains_key((#[trigger] fields[i]).name)
                && start[fields[i].name] is List && fields[i].data_type is List,
    ensures
        rows_step(start, rows, fields, n) == BuildersStep::Done(start),
    decreases n,
{
    if n > 0 {
        lemma_rows_of_lists_wait(start, rows, fields, (n - 1) as nat);
        lemma_lists_wait(start, rows[n - 1], fields, fields.len());
    }
}

proof fn lemma_lists_finish(start: Map<Seq<char>, Store>, fields: Seq<FieldView>, k: nat)
    requires
        k <= fields.len(),
        distinct_names(fields),
        forall|i: int|
            0 <= i < fields.len() ==> start.contains_key((#[trigger] fields[i]).name) && finishable(
                start[fields[i].name],
            ),
    ensures
        finish_step(start, fields, k) is Done,
    decreases k,
{
    if k > 0 {
        lemma_lists_finish(start, fields, (k - 1) as nat);
        lemma_left(start, fields, (k - 1) as nat);
        let field = fields[k - 1];
        assert(start.contains_key(field.name));
        assert(!names_before(fields, k - 1, field.name)) by {
            if names_before(fields, k - 1, field.name) {
                let i = choose|i: int| 0 <= i < k - 1 && (#[trigger] fields[i]).name == field.name;
                assert(fields[i].name != fields[k - 1].name);
            }
        }
    }
}

/// Rows whose columns are all of lists become a record batch, without rows.
pub proof fn lemma_lists_alone_become_a_batch(rows: Seq<Seq<JsonView>>, columns: Seq<ColumnView>)
    requires
        rows.len() > 0,
        rows.len() * 128 + 256 <= isize::MAX,
        columns.len() > 0,
        forall|i: int, j: int|
            0 <= i < j < columns.len() ==> (#[trigger] columns[i]).name != (
            #[trigger] columns[j]).name,
        forall|i: int|
            0 <= i < columns.len() ==> (trino_type(
                (#[trigger] columns[i]).trino_type,
            ) matches TypeReading::Type(t) && is_plain_list(t)),
    ensures
        conversion(rows, columns) matches Outcome::Batch(_, stores) && row_count(
            stores,
        ) == 0,
{
    lemma_first_types(columns, columns.len());
    lemma_schema_by_columns(columns, columns.len());
    let fields = schema_of(columns)->Fields_0;
    let m = fields.len();
    assert(distinct_names(fields)) by {
        assert forall|i: int, j: int| 0 <= i < j < fields.len() implies (#[trigger] fields[i]).name
            != (#[trigger] fields[j]).name by {
            assert(columns[i].name != columns[j].name);
        }
    }
    assert forall|i: int| 0 <= i < fields.len() implies is_plain_list(
        (#[trigger] fields[i]).data_type,
    ) && fresh(fields[i].data_type) is Some && room_for(
        fields[i].data_type,
        rows.len() as int,
    ) by {
        assert(trino_type(columns[i].trino_type) is Type);
        lemma_trino_types_are_flat(columns[i].trino_type);
        lemma_there_is_room(fields[i].data_type, rows.len() as int);
        let item = fields[i].data_type->List_0;
        lemma_builders_are_there(item.data_type);
    }
    lemma_all_fresh(fields, m);
    let start = fresh_builders(fields, m)->0;
    lemma_fresh_by_columns(fields, m);
    assert forall|i: int| 0 <= i < fields.len() implies {
        let s = start[(#[trigger] fields[i]).name];
        &&& start.contains_key(fields[i].name)
        &&& s is List
        &&& finishable(s)
        &&& store_type(s) == fields[i].data_type
        &&& fields[i].data_type is List
    } by {
        let t = fields[i].data_type;
        assert(is_plain_list(t));
        assert(fresh(t) == Some(start[fields[i].name]));
        let item = t->List_0;
        let items = fresh(item.data_type)->0;
        lemma_builders_are_there(item.data_type);
        lemma_new_items(item.data_type);
        assert(store_type(Store::List(Box::new(items))) == TypeView::List(
            Box::new(item_field(store_type(items))),
        ));
        assert(item_field(item.data_type) == *item);
    }
    lemma_rows_of_lists_wait(start, rows, fields, rows.len());
    lemma_lists_finish(start, fields, m);
    lemma_finished(start, fields, m);
    let stores = finish_step(start, fields, m)->Done_1;
    assert forall|i: int| 0 <= i < stores.len() implies {
        &&& store_len(#[trigger] stores[i]) == 0
        &&& store_type(stores[i]) == fields[i].data_type
        &&& fields[i].nullable
    } by {
        assert(stores[i] == start[fields[i].name]);
    }
    assert(store_len(stores[0]) == 0);
    assert(batch_fits(fields, stores));
}

proof fn lemma_new_items(t: TypeView)
    requires
        is_scalar(t),
        is_plain(t),
        fresh(t) is Some,
    ensures
        finishable(fresh(t)->0),
        store_type(fresh(t)->0) == t,
{
}

proof fn lemma_all_fresh(fields: Seq<FieldView>, k: nat)
    requires
        k <= fields.len(),
        forall|i: int| 0 <= i < fields.len() ==> fresh((#[trigger] fields[i]).data_type) is Some,
    ensures
        fresh_builders(fields, k) is Some,
    decreases k,
{
    if k > 0 {
        lemma_all_fresh(fields, (k - 1) as nat);
        assert(fresh(fields[k - 1].data_type) is Some);
    }
}

/// A new builder for a list has one for its items, a new builder for a struct one for each of its
/// fields, in their order, and a new builder for a map one for its keys and one for its values.
pub proof fn lemma_builders_have_their_parts(t: TypeView)
    ensures
        t matches TypeView::List(item) ==> (fresh(t) is Some <==> fresh(item.data_type) is Some),
        t matches TypeView::List(item) ==> (fresh(t) matches Some(s) ==> s == Store::List(
            Box::new(fresh(item.data_type)->0),
        )),
        t matches TypeView::Struct(fields) ==> (fresh(t) matches Some(s) ==> (
        s matches Store::Struct { fields: own, children, validity } && own == fields
            && validity.len() == 0 && children.len() == fields.len() && forall|c: int|
            0 <= c < fields.len() ==> fresh((#[trigger] fields[c]).data_type) == Some(
                children[c],
            ))),
        t matches TypeView::MapOf(entries, _) ==> (entries.data_type matches TypeView::Struct(
            fields,
        ) ==> (fields.len() == 2 && fresh(t) is Some ==> (fresh(t) matches Some(
            Store::MapOf(keys, values),
        ) && fresh(fields[0].data_type) == Some(*keys) && fresh(fields[1].data_type) == Some(
            *values,
        )))),
{
    match t {
        TypeView::Struct(fields) => {
            lemma_fresh_struct(fields);
        },
        _ => {},
    }
}

/// The first column whose type is a decimal type that Arrow has not is refused, with what Arrow
/// says of its precision and scale.
pub proof fn lemma_unsized_decimals_are_refused(
    rows: Seq<Seq<JsonView>>,
    columns: Seq<ColumnView>,
    i: int,
)
    requires
        rows.len() > 0,
        0 <= i < columns.len(),
        forall|k: int|
            0 <= k < columns.len() ==> trino_type((#[trigger] columns[k]).trino_type) is Type,
        forall|k: int|
            0 <= k < i ==> fresh(trino_type((#[trigger] columns[k]).trino_type)->Type_0) is Some,
        !is_sized(trino_type(columns[i].trino_type)->Type_0),
    ensures
        ({
            let e = match trino_type(columns[i].trino_type)->Type_0 {
                TypeView::Decimal128(precision, scale) => decimal128_fault(precision, scale),
                TypeView::Decimal256(precision, scale) => decimal256_fault(precision, scale),
                _ => arbitrary(),
            };
            conversion(rows, columns) == Outcome::Failed(ErrorView::FailedToBuildRecordBatch(e))
        }),
{
    lemma_first_types(columns, columns.len());
    lemma_schema_by_columns(columns, columns.len());
    let fields = schema_of(columns)->Fields_0;
    assert forall|k: int| 0 <= k < i implies fresh((#[trigger] fields[k]).data_type) is Some by {
        assert(trino_type(columns[k].trino_type) is Type);
    }
    assert(trino_type(columns[i].trino_type) is Type);
    lemma_first_fault(fields, 0, i as nat);
    lemma_no_builders(fields, i, fields.len());
}

proof fn lemma_no_builders(fields: Seq<FieldView>, i: int, k: nat)
    requires
        0 <= i < k <= fields.len(),
        fresh(fields[i].data_type) is None,
    ensures
        fresh_builders(fields, k) is None,
    decreases k,
{
    if i < k - 1 {
        lemma_no_builders(fields, i, (k - 1) as nat);
    }
}

proof fn lemma_children_stop(
    children: Seq<Store>,
    value: Option<JsonView>,
    parts: Seq<FieldView>,
    k: nat,
    n: nat,
)
    requires
        k <= n,
    ensures
        children_step(children, value, parts, k) !is Done ==> children_step(
            children,
            value,
            parts,
            n,
        ) == children_step(children, value, parts, k),
    decreases n - k,
{
    if k < n {
        lemma_children_stop(children, value, parts, k, (n - 1) as nat);
    }
}

proof fn lemma_same_parts(
    children: Seq<Store>,
    v: Option<JsonView>,
    w: Option<JsonView>,
    parts: Seq<FieldView>,
    k: nat,
)
    requires
        k <= parts.len(),
        forall|c: int|
            0 <= c < k ==> field_value(v, #[trigger] parts[c], c) == field_value(w, parts[c], c),
    ensures
        children_step(children, v, parts, k) == children_step(children, w, parts, k),
    decreases k,
{
    if k > 0 {
        lemma_same_parts(children, v, w, parts, (k - 1) as nat);
        assert(field_value(v, parts[k - 1], k - 1) == field_value(w, parts[k - 1], k - 1));
    }
}

/// A text in a list of values for a struct that is not what its field needs is refused, with the
/// text, where a null in its place would be taken, whatever comes behind it. The struct is not
/// there then.
pub proof fn lemma_bad_texts_in_structs_are_refused(
    store: Store,
    items: Seq<JsonView>,
    parts: Seq<FieldView>,
    c: int,
    s: Seq<char>,
)
    requires
        0 <= c < parts.len(),
        c < items.len(),
        items[c] == JsonView::Text(s),
        is_scalar(parts[c].data_type),
        !reads_as(s, parts[c].data_type),
        struct_step(
            store,
            Some(JsonView::Array(items.update(c, JsonView::Null))),
            parts,
        ) is Done,
    ensures
        struct_step(store, Some(JsonView::Array(items)), parts) matches Step::Failed(now, e) && e
            == text_fault(s, parts[c].data_type) && store_len(now) == store_len(store),
{
    let v = Some(JsonView::Array(items));
    let w = Some(JsonView::Array(items.update(c, JsonView::Null)));
    let children = store->Struct_children;
    let t = parts[c].data_type;
    lemma_children_stop(children, w, parts, c as nat, parts.len());
    lemma_children_stop(children, w, parts, (c + 1) as nat, parts.len());
    lemma_same_parts(children, v, w, parts, c as nat);
    let now = children_step(children, w, parts, c as nat)->Done_0;
    assert(field_value(w, parts[c], c) == Some(JsonView::Null));
    assert(field_value(v, parts[c], c) == Some(JsonView::Text(s)));
    assert(scalar_step(now[c], Some(JsonView::Null), t) is Done);
    assert(scalar_step(now[c], Some(JsonView::Text(s)), t) == Step::Failed(
        now[c],
        text_fault(s, t),
    ));
    lemma_children_stop(children, v, parts, (c + 1) as nat, parts.len());
}

/// A column without cells has its type: a decimal column has the precision and scale that Arrow
/// gives one, a list has texts for items, and a struct has its fields.
pub proof fn lemma_columns_without_cells(t: TypeView)
    ensures
        is_typed_without_cells(t) ==> (empty_store(t) matches Some(s) && store_type(s) == t
            && store_len(s) == 0),
        t matches TypeView::Decimal128(_, _) ==> (empty_store(t) matches Some(s) && store_type(s)
            == TypeView::Decimal128(38, 10) && store_len(s) == 0),
        t matches TypeView::Decimal256(_, _) ==> (empty_store(t) matches Some(s) && store_type(s)
            == TypeView::Decimal256(76, 10) && store_len(s) == 0),
        t matches TypeView::List(_) ==> (empty_store(t) matches Some(s) && store_type(s)
            == TypeView::List(Box::new(item_field(TypeView::Utf8))) && store_len(s) == 0),
        t matches TypeView::Struct(fields) ==> (empty_store(t) matches Some(s) ==> store_type(s)
            == t),
{
    match t {
        TypeView::List(_) => {
            let items = Store::Utf8(seq![]);
            assert(store_type(items) == TypeView::Utf8);
        },
        _ => {},
    }
}

} // verus!
