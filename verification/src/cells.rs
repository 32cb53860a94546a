//! What each cell of a record batch says of the JSON value that it was made of.

use crate::builder::{row_count, single_of_double};
use crate::columns::{
    cell_at, column_holds, lemma_batches_have_the_columns, lemma_batches_hold_the_rows,
    lemma_finished, lemma_rows_by_columns, lemma_schema_by_columns, struct_at, value_at, well_built,
};
use crate::encoding::base64_bytes;
use crate::flat::{is_scalar, lemma_trino_types_are_flat, same_kind};
use crate::json::{json_text, member, JsonView};
use crate::number::decimal_text;
use crate::rows::{conversion, fresh_builders, row_value, rows_step};
use crate::schema::{trino_type, TypeReading};
use crate::store::{store_len, Store};
use crate::types::{ColumnView, FieldView, TimeUnit, TypeView};
use crate::values::{
    date_cell, decimal128_cell, decimal256_cell, field_value, time_cell, timestamp_cell, Reading,
};
use vstd::prelude::*;
use vstd::utf8::encode_utf8;

verus! {

/// A record batch has a field for each column of the result, in their order: the `i`-th has the
/// name of the `i`-th column, the type that its type name says, and takes nulls. The batch has as
/// many columns, and, unless all are lists, as many rows as there were.
pub proof fn lemma_fields_follow_the_columns(
    rows: Seq<Seq<JsonView>>,
    columns: Seq<ColumnView>,
    i: int,
)
    requires
        conversion(rows, columns) is Batch,
        0 <= i < columns.len(),
    ensures
        ({
            let fields = conversion(rows, columns)->Batch_0;
            let stores = conversion(rows, columns)->Batch_1;
            &&& fields.len() == columns.len()
            &&& stores.len() == columns.len()
            &&& fields[i].name == columns[i].name
            &&& trino_type(columns[i].trino_type) == TypeReading::Type(fields[i].data_type)
            &&& fields[i].nullable
            &&& rows.len() > 0 && !(fields[i].data_type is List) ==> store_len(stores[i])
                == rows.len() && row_count(stores) == rows.len()
        }),
{
    lemma_batches_have_the_columns(rows, columns);
    lemma_schema_by_columns(columns, columns.len());
    if rows.len() > 0 && !(conversion(rows, columns)->Batch_0[i].data_type is List) {
        lemma_batches_hold_the_rows(rows, columns, i);
    }
}

/// The cell of a record batch in the `j`-th row and the `i`-th column is the one that the `i`-th
/// value of the `j`-th row gives, for every `i` and `j`, and the one that no value gives where the
/// row is shorter.
pub proof fn lemma_cells_come_from_their_values(
    rows: Seq<Seq<JsonView>>,
    columns: Seq<ColumnView>,
    i: int,
    j: int,
)
    requires
        conversion(rows, columns) is Batch,
        0 <= i < columns.len(),
        0 <= j < rows.len(),
        !(conversion(rows, columns)->Batch_0[i].data_type is List),
    ensures
        ({
            let t = conversion(rows, columns)->Batch_0[i].data_type;
            let s = conversion(rows, columns)->Batch_1[i];
            &&& i < rows[j].len() ==> value_at(s, j, Some(rows[j][i]), t)
            &&& i >= rows[j].len() ==> value_at(s, j, None, t)
        }),
{
    lemma_batches_hold_the_rows(rows, columns, i);
    let t = conversion(rows, columns)->Batch_0[i].data_type;
    let s = conversion(rows, columns)->Batch_1[i];
    assert(column_holds(s, rows, i, t, rows.len()));
    assert(value_at(s, j, row_value(rows[j], i), t));
}

/// Whether the `j`-th cell of a column of a type without parts is what a value says. A flag gives
/// a flag, an integer in the range of the type that integer, a number with a fraction that number,
/// any value but a null its text, and a text the bytes that it writes. Anything else gives a null.
pub open spec fn says(s: Store, j: int, value: Option<JsonView>, t: TypeView) -> bool {
    &&& t is Boolean ==> (s matches Store::Boolean(cells) && cells[j] == (match value {
        Some(JsonView::Bool(b)) => Some(b),
        _ => None,
    }))
    &&& t is Int8 ==> (s matches Store::Int8(cells) && whole_number(
        cells[j] is Some,
        cells[j]->0 as int,
        value,
        -128,
        127,
    ))
    &&& t is Int16 ==> (s matches Store::Int16(cells) && whole_number(
        cells[j] is Some,
        cells[j]->0 as int,
        value,
        -32_768,
        32_767,
    ))
    &&& t is Int32 ==> (s matches Store::Int32(cells) && whole_number(
        cells[j] is Some,
        cells[j]->0 as int,
        value,
        -2_147_483_648,
        2_147_483_647,
    ))
    &&& t is Int64 ==> (s matches Store::Int64(cells) && whole_number(
        cells[j] is Some,
        cells[j]->0 as int,
        value,
        -9_223_372_036_854_775_808,
        9_223_372_036_854_775_807,
    ))
    &&& t is Float32 ==> (s matches Store::Float32(cells) && cells[j] == (match value {
        Some(JsonView::Float(bits)) => Some(single_of_double(bits)),
        _ => None,
    }))
    &&& t is Float64 ==> (s matches Store::Float64(cells) && cells[j] == (match value {
        Some(JsonView::Float(bits)) => Some(bits),
        _ => None,
    }))
    &&& t is Utf8 ==> (s matches Store::Utf8(cells) && is_text_of(cells[j], value))
    &&& t is LargeUtf8 ==> (s matches Store::LargeUtf8(cells) && is_text_of(cells[j], value))
    &&& t is Binary ==> (s matches Store::Binary(cells) && cells[j] == (match value {
        Some(JsonView::Text(text)) => match base64_bytes(text) {
            Some(bytes) => Some(bytes),
            None => Some(encode_utf8(text)),
        },
        _ => None,
    }))
}

/// Whether a cell is there just for an integer of a range, and is that integer.
pub open spec fn whole_number(
    there: bool,
    cell: int,
    value: Option<JsonView>,
    min: int,
    max: int,
) -> bool {
    match value {
        Some(JsonView::Integer(n)) => there == (min <= n <= max) && (there ==> cell == n),
        _ => !there,
    }
}

/// Whether a cell is the text of a value: a text as it is, a flag as `true` or `false`, an integer
/// in decimal, anything else as JSON; and a null for a null and for no value.
pub open spec fn is_text_of(cell: Option<Seq<char>>, value: Option<JsonView>) -> bool {
    match value {
        None => cell is None,
        Some(JsonView::Null) => cell is None,
        Some(JsonView::Text(text)) => cell == Some(text),
        Some(JsonView::Bool(b)) => cell == Some(
            if b {
                "true"@
            } else {
                "false"@
            },
        ),
        Some(JsonView::Integer(n)) => cell == Some(
            if n < 0 {
                seq!['-'] + decimal_text((-n) as nat)
            } else {
                decimal_text(n as nat)
            },
        ),
        Some(other) => cell == Some(json_text(other)),
    }
}

/// The cells of a column without parts say what their values say.
pub proof fn lemma_cells_say_their_values(s: Store, j: int, value: Option<JsonView>, t: TypeView)
    requires
        is_scalar(t),
        same_kind(s, t),
        cell_at(s, j, value, t),
    ensures
        says(s, j, value, t),
{
}

/// The columns of a record batch of rows are of the kinds of their types, inside too.
proof fn lemma_columns_are_of_their_kinds(
    rows: Seq<Seq<JsonView>>,
    columns: Seq<ColumnView>,
    i: int,
)
    requires
        conversion(rows, columns) is Batch,
        rows.len() > 0,
        0 <= i < columns.len(),
        !(conversion(rows, columns)->Batch_0[i].data_type is List),
    ensures
        well_built(
            conversion(rows, columns)->Batch_1[i],
            conversion(rows, columns)->Batch_0[i].data_type,
        ),
{
    lemma_schema_by_columns(columns, columns.len());
    lemma_trino_types_are_flat(columns[i].trino_type);
    let fields = conversion(rows, columns)->Batch_0;
    let builders = fresh_builders(fields, fields.len())->0;
    let filled = rows_step(builders, rows, fields, rows.len())->Done_0;
    lemma_finished(filled, fields, fields.len());
    assert(fields.take(fields.len() as int) =~= fields);
    lemma_rows_by_columns(builders, rows, fields, rows.len());
    assert(filled.contains_key(fields[i].name));
}

/// In a record batch, the cell in the `j`-th row and the `i`-th column says what the `i`-th value
/// of the `j`-th row says, and is a null where the row is shorter.
pub proof fn lemma_batches_say_what_the_rows_say(
    rows: Seq<Seq<JsonView>>,
    columns: Seq<ColumnView>,
    i: int,
    j: int,
)
    requires
        conversion(rows, columns) is Batch,
        0 <= i < columns.len(),
        0 <= j < rows.len(),
        is_scalar(conversion(rows, columns)->Batch_0[i].data_type),
    ensures
        ({
            let t = conversion(rows, columns)->Batch_0[i].data_type;
            let s = conversion(rows, columns)->Batch_1[i];
            &&& store_len(s) == rows.len()
            &&& i < rows[j].len() ==> says(s, j, Some(rows[j][i]), t)
            &&& i >= rows[j].len() ==> says(s, j, None, t)
        }),
{
    lemma_fields_follow_the_columns(rows, columns, i);
    lemma_cells_come_from_their_values(rows, columns, i, j);
    lemma_columns_are_of_their_kinds(rows, columns, i);
    let t = conversion(rows, columns)->Batch_0[i].data_type;
    let s = conversion(rows, columns)->Batch_1[i];
    if i < rows[j].len() {
        lemma_cells_say_their_values(s, j, Some(rows[j][i]), t);
    } else {
        lemma_cells_say_their_values(s, j, None, t);
    }
}

/// An integer column has the row's own number in every row whose value is a number that fits, in
/// whichever place the column stands.
pub proof fn lemma_integers_come_through(
    rows: Seq<Seq<JsonView>>,
    columns: Seq<ColumnView>,
    i: int,
    j: int,
    n: int,
)
    requires
        conversion(rows, columns) is Batch,
        0 <= i < columns.len(),
        0 <= j < rows.len(),
        i < rows[j].len(),
        rows[j][i] == JsonView::Integer(n),
    ensures
        ({
            let t = conversion(rows, columns)->Batch_0[i].data_type;
            let s = conversion(rows, columns)->Batch_1[i];
            &&& t is Int8 && -128 <= n <= 127 ==> s->Int8_0[j] == Some(n as i8)
            &&& t is Int16 && -32_768 <= n <= 32_767 ==> s->Int16_0[j] == Some(n as i16)
            &&& t is Int32 && -2_147_483_648 <= n <= 2_147_483_647 ==> s->Int32_0[j] == Some(
                n as i32,
            )
            &&& t is Int64 && -9_223_372_036_854_775_808 <= n <= 9_223_372_036_854_775_807
                ==> s->Int64_0[j] == Some(n as i64)
        }),
{
    if is_scalar(conversion(rows, columns)->Batch_0[i].data_type) {
        lemma_batches_say_what_the_rows_say(rows, columns, i, j);
    }
}

/// Texts come through as they are, in columns of text and of JSON.
pub proof fn lemma_texts_come_through(
    rows: Seq<Seq<JsonView>>,
    columns: Seq<ColumnView>,
    i: int,
    j: int,
    text: Seq<char>,
)
    requires
        conversion(rows, columns) is Batch,
        0 <= i < columns.len(),
        0 <= j < rows.len(),
        i < rows[j].len(),
        rows[j][i] == JsonView::Text(text),
    ensures
        ({
            let t = conversion(rows, columns)->Batch_0[i].data_type;
            let s = conversion(rows, columns)->Batch_1[i];
            &&& t is Utf8 ==> s->Utf8_0[j] == Some(text)
            &&& t is LargeUtf8 ==> s->LargeUtf8_0[j] == Some(text)
        }),
{
    if is_scalar(conversion(rows, columns)->Batch_0[i].data_type) {
        lemma_batches_say_what_the_rows_say(rows, columns, i, j);
    }
}

/// The place of the first member with a name.
pub open spec fn is_first_member(
    members: Seq<(Seq<char>, JsonView)>,
    name: Seq<char>,
    k: int,
) -> bool {
    &&& 0 <= k < members.len()
    &&& members[k].0 == name
    &&& forall|l: int| 0 <= l < k ==> (#[trigger] members[l]).0 != name
}

/// An object has a member under a name just where one of its members has that name: the first of
/// them.
pub proof fn lemma_members_are_found_by_name(
    members: Seq<(Seq<char>, JsonView)>,
    name: Seq<char>,
    k: int,
)
    ensures
        is_first_member(members, name, k) ==> member(members, name) == Some(members[k].1),
        (forall|l: int| 0 <= l < members.len() ==> (#[trigger] members[l]).0 != name)
            ==> member(members, name) is None,
    decreases members.len(),
{
    if members.len() > 0 {
        let rest = members.drop_first();
        lemma_members_are_found_by_name(rest, name, k - 1);
        assert(forall|l: int| 0 <= l < rest.len() ==> (#[trigger] rest[l]) == members[l + 1]);
        if is_first_member(members, name, k) && k > 0 {
            assert(members[0].0 != name);
            assert(is_first_member(rest, name, k - 1)) by {
                assert forall|l: int| 0 <= l < k - 1 implies (#[trigger] rest[l]).0 != name by {
                    assert(members[l + 1].0 != name);
                }
            }
        }
        if forall|l: int| 0 <= l < members.len() ==> (#[trigger] members[l]).0 != name {
            assert(members[0].0 != name);
            assert forall|l: int| 0 <= l < rest.len() implies (#[trigger] rest[l]).0 != name by {
                assert(members[l + 1].0 != name);
            }
        }
    }
}

/// A column of structs has a struct in every row whose value is an object or a list, and a null in
/// the others. Of an object, each field has the member of its name; of a list, the item in its
/// place; a null where there is none.
pub proof fn lemma_structs_come_from_their_values(
    rows: Seq<Seq<JsonView>>,
    columns: Seq<ColumnView>,
    i: int,
    j: int,
    parts: Seq<FieldView>,
    c: int,
)
    requires
        conversion(rows, columns) is Batch,
        0 <= i < columns.len(),
        0 <= j < rows.len(),
        conversion(rows, columns)->Batch_0[i].data_type == TypeView::Struct(parts),
        0 <= c < parts.len(),
    ensures
        conversion(rows, columns)->Batch_1[i] matches Store::Struct { children, validity, .. } && {
            let t = parts[c].data_type;
            &&& children.len() == parts.len()
            &&& validity.len() == rows.len()
            &&& i < rows[j].len() ==> match rows[j][i] {
                JsonView::Object(members) => validity[j] && match member(members, parts[c].name) {
                    Some(v) => cell_at(children[c], j, Some(v), t) && says(
                        children[c],
                        j,
                        Some(v),
                        t,
                    ),
                    None => cell_at(children[c], j, None, t) && says(children[c], j, None, t),
                },
                JsonView::Array(items) => validity[j] && if c < items.len() {
                    cell_at(children[c], j, Some(items[c]), t) && says(
                        children[c],
                        j,
                        Some(items[c]),
                        t,
                    )
                } else {
                    cell_at(children[c], j, None, t) && says(children[c], j, None, t)
                },
                _ => !validity[j] && cell_at(children[c], j, None, t) && says(
                    children[c],
                    j,
                    None,
                    t,
                ),
            }
            &&& i >= rows[j].len() ==> !validity[j] && cell_at(children[c], j, None, t) && says(
                children[c],
                j,
                None,
                t,
            )
        },
{
    lemma_fields_follow_the_columns(rows, columns, i);
    lemma_cells_come_from_their_values(rows, columns, i, j);
    lemma_columns_are_of_their_kinds(rows, columns, i);
    lemma_trino_types_are_flat(columns[i].trino_type);
    let s = conversion(rows, columns)->Batch_1[i];
    let value = if i < rows[j].len() {
        Some(rows[j][i])
    } else {
        None
    };
    assert(struct_at(s, j, value, parts));
    let children = s->Struct_children;
    let part = field_value(value, parts[c], c);
    assert(cell_at(children[c], j, part, parts[c].data_type));
    assert(is_scalar(parts[c].data_type));
    assert(same_kind(children[c], parts[c].data_type));
    lemma_cells_say_their_values(children[c], j, part, parts[c].data_type);
}

/// Columns of dates, times of day, timestamps and decimal numbers have, in the `j`-th row, the cell
/// that the `i`-th value of the `j`-th row is read as.
pub proof fn lemma_read_cells_come_through(
    rows: Seq<Seq<JsonView>>,
    columns: Seq<ColumnView>,
    i: int,
    j: int,
)
    requires
        conversion(rows, columns) is Batch,
        0 <= i < columns.len(),
        0 <= j < rows.len(),
    ensures
        ({
            let t = conversion(rows, columns)->Batch_0[i].data_type;
            let s = conversion(rows, columns)->Batch_1[i];
            let value = if i < rows[j].len() {
                Some(rows[j][i])
            } else {
                None
            };
            &&& t is Date32 ==> (s matches Store::Date32(cells) && Reading::Cell(
                cells[j],
            ) == date_cell(value))
            &&& t == TypeView::Time64(TimeUnit::Nanosecond) ==> (s matches Store::Time64(cells)
                && Reading::Cell(cells[j]) == time_cell(value))
            &&& (t matches TypeView::Timestamp(TimeUnit::Microsecond, _)) ==> (
            s matches Store::Timestamp(cells) && Reading::Cell(cells[j])
                == timestamp_cell(value))
            &&& (t matches TypeView::Decimal128(p, q) ==> (s matches Store::Decimal128 {
                precision,
                scale,
                cells,
            } && precision == p && scale == q && Reading::Cell(cells[j])
                == decimal128_cell(value)))
            &&& (t matches TypeView::Decimal256(p, q) ==> (s matches Store::Decimal256 {
                precision,
                scale,
                cells,
            } && precision == p && scale == q && Reading::Cell(cells[j])
                == decimal256_cell(value)))
            &&& t is Null ==> s == Store::Null(rows.len())
        }),
{
    let t = conversion(rows, columns)->Batch_0[i].data_type;
    if is_scalar(t) {
        lemma_fields_follow_the_columns(rows, columns, i);
        lemma_batches_have_the_columns(rows, columns);
        lemma_cells_come_from_their_values(rows, columns, i, j);
    }
}

} // verus!
