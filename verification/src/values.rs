//! How a JSON value becomes a cell of a column.

use crate::builder::{
    binary_size, builder_store, cell_single, end_list, end_map, is_date32, is_decimal128,
    is_decimal256, is_time64, is_timestamp, map_fault, new_null, new_text_list, new_text_map,
    null_size, push_binary, push_boolean, push_date32, push_decimal128, push_decimal256,
    push_float32, push_float64, push_int16, push_int32, push_int64, push_int8, push_large_utf8,
    push_list_item, push_map_key, push_map_value, push_null, push_struct, push_time64,
    push_timestamp, push_utf8, pushed, struct_width, swap_field, text_list_size, text_map_size,
    utf8_size, ColumnBuilder,
};
use crate::decimal::{
    decimal_integer, in_range, integer_part, low_bytes, parse_decimal, text_decimal, to_decimal_256,
};
use crate::encoding::{base64_bytes, base64_decode};
use crate::json::{json_items, lemma_array_view, member, written, JsonNumber, JsonValue, JsonView};
use crate::store::{
    binary_bytes, cell_bytes, text_bytes, with_binary, with_boolean, with_date32, with_decimal128,
    with_decimal256, with_float32, with_float64, with_int16, with_int32, with_int64, with_int8,
    with_large_utf8, with_null, with_time64, with_timestamp, with_utf8, Store,
};
use crate::temporal::{
    parse_date, parse_datetime, parse_rfc3339, parse_time, read_date, read_datetime, read_rfc3339,
    read_time,
};
use crate::trino::{Error, ErrorView};
use crate::types::{fields_view, lemma_struct_view, DataType, Field, FieldView, TimeUnit, TypeView};
use vstd::prelude::*;
use vstd::utf8::encode_utf8;

verus! {

/// The value of an optional JSON value.
pub open spec fn optional(value: Option<&JsonValue>) -> Option<JsonView> {
    match value {
        Some(v) => Some(v@),
        None => None,
    }
}

/// A flag; anything else is a null.
pub open spec fn boolean_cell(value: Option<JsonView>) -> Option<bool> {
    match value {
        Some(JsonView::Bool(b)) => Some(b),
        _ => None,
    }
}

/// An integer of the range; anything else is a null.
pub open spec fn integer_cell(value: Option<JsonView>, min: int, max: int) -> Option<int> {
    match value {
        Some(JsonView::Integer(n)) => if min <= n <= max {
            Some(n)
        } else {
            None
        },
        _ => None,
    }
}

/// A number with a fraction, by its bits; anything else is a null, an integer too.
pub open spec fn float_cell(value: Option<JsonView>) -> Option<u64> {
    match value {
        Some(JsonView::Float(bits)) => Some(bits),
        _ => None,
    }
}

/// A value as text: a text as it is, anything else as JSON.
pub open spec fn value_text(value: JsonView) -> Seq<char> {
    match value {
        JsonView::Text(s) => s,
        other => written(other),
    }
}

/// Any value but a null, as text.
pub open spec fn text_cell(value: Option<JsonView>) -> Option<Seq<char>> {
    match value {
        None | Some(JsonView::Null) => None,
        Some(v) => Some(value_text(v)),
    }
}

/// The bytes of a text: those that it writes in Base64, or its own where it is not that.
pub open spec fn binary_cell(value: Option<JsonView>) -> Option<Seq<u8>> {
    match value {
        Some(JsonView::Text(s)) => match base64_bytes(s) {
            Some(bytes) => Some(bytes),
            None => Some(encode_utf8(s)),
        },
        _ => None,
    }
}

/// What a text that must be read gives: a cell or an error.
pub enum Reading<T> {
    Cell(Option<T>),
    Failed(ErrorView),
}

/// A date; anything that is not a text is a null.
pub open spec fn date_cell(value: Option<JsonView>) -> Reading<i32> {
    match value {
        Some(JsonView::Text(s)) => match read_date(s) {
            Some(days) => Reading::Cell(Some(days)),
            None => Reading::Failed(ErrorView::InvalidDateValue(s)),
        },
        _ => Reading::Cell(None),
    }
}

/// A time of day in nanoseconds since midnight.
pub open spec fn nanos_of_day(seconds: u32, nanos: u32) -> int {
    seconds * 1_000_000_000 + nanos
}

/// A time of day; anything that is not a text is a null.
pub open spec fn time_cell(value: Option<JsonView>) -> Reading<i64> {
    match value {
        Some(JsonView::Text(s)) => match read_time(s) {
            Some((seconds, nanos)) => Reading::Cell(Some(nanos_of_day(seconds, nanos) as i64)),
            None => Reading::Failed(ErrorView::InvalidTimeValue(s)),
        },
        _ => Reading::Cell(None),
    }
}

/// A timestamp, in the way of RFC 3339 or without a time zone; anything that is not a text is a
/// null.
pub open spec fn timestamp_cell(value: Option<JsonView>) -> Reading<i64> {
    match value {
        Some(JsonView::Text(s)) => match read_rfc3339(s) {
            Some(micros) => Reading::Cell(Some(micros)),
            None => match read_datetime(s) {
                Some(micros) => Reading::Cell(Some(micros)),
                None => Reading::Failed(ErrorView::InvalidTimestampValue(s)),
            },
        },
        _ => Reading::Cell(None),
    }
}

/// The integer part of a decimal number, a null where 128 bits do not hold it; anything that is
/// not a text is a null.
pub open spec fn decimal128_cell(value: Option<JsonView>) -> Reading<i128> {
    match value {
        Some(JsonView::Text(s)) => match text_decimal(s) {
            Some((n, scale)) => Reading::Cell(in_range(integer_part(n, scale))),
            None => Reading::Failed(ErrorView::FailedToParseDecimal(s)),
        },
        _ => Reading::Cell(None),
    }
}

/// The integer of a decimal number without its scale, by its 32 lowest bytes; anything that is
/// not a text is a null.
pub open spec fn decimal256_cell(value: Option<JsonView>) -> Reading<Seq<u8>> {
    match value {
        Some(JsonView::Text(s)) => match text_decimal(s) {
            Some((n, _)) => Reading::Cell(Some(low_bytes(n, 32))),
            None => Reading::Failed(ErrorView::FailedToParseDecimal(s)),
        },
        _ => Reading::Cell(None),
    }
}

/// What appending a value does to a column: the column after it; an error, and the column then;
/// or nothing, where Arrow could not hold or count what would be in it.
pub enum Step {
    Done(Store),
    Failed(Store, ErrorView),
    Broken,
}

/// A step to a column of the right kind, or the error that it is of another.
pub open spec fn kind_step(store: Store, after: Option<Store>, expected: Seq<char>) -> Step {
    match after {
        Some(s) => Step::Done(s),
        None => Step::Failed(store, ErrorView::BuilderDowncastError(expected)),
    }
}

/// A step to a column of text: its offsets count up to `i32::MAX` bytes.
pub open spec fn text_step(store: Store, cell: Option<Seq<char>>, expected: Seq<char>) -> Step {
    match store {
        Store::Utf8(cells) => if cell is Some && text_bytes(cells.push(cell)) > i32::MAX {
            Step::Broken
        } else {
            Step::Done(Store::Utf8(cells.push(cell)))
        },
        _ => Step::Failed(store, ErrorView::BuilderDowncastError(expected)),
    }
}

/// A step to a column of bytes: its offsets count up to `i32::MAX` bytes.
pub open spec fn binary_step(store: Store, cell: Option<Seq<u8>>) -> Step {
    match store {
        Store::Binary(cells) => if cell is Some && binary_bytes(cells.push(cell)) > i32::MAX {
            Step::Broken
        } else {
            Step::Done(Store::Binary(cells.push(cell)))
        },
        _ => Step::Failed(store, ErrorView::BuilderDowncastError("BinaryBuilder"@)),
    }
}

/// A step to a column of nulls: they are counted up to `usize::MAX`.
pub open spec fn null_step(store: Store) -> Step {
    match store {
        Store::Null(n) => if n < usize::MAX {
            Step::Done(Store::Null(n + 1))
        } else {
            Step::Broken
        },
        _ => Step::Failed(store, ErrorView::BuilderDowncastError("NullBuilder"@)),
    }
}

/// A step of a column whose cells are read from text.
pub open spec fn reading_step<T>(
    store: Store,
    reading: Reading<T>,
    after: spec_fn(Option<T>) -> Option<Store>,
    expected: Seq<char>,
) -> Step {
    if after(None) is None {
        Step::Failed(store, ErrorView::BuilderDowncastError(expected))
    } else {
        match reading {
            Reading::Cell(cell) => kind_step(store, after(cell), expected),
            Reading::Failed(e) => Step::Failed(store, e),
        }
    }
}

/// What appending a value to a column of a type without parts does. A type that has parts, or
/// that no builder has, is written as text.
pub open spec fn scalar_step(store: Store, value: Option<JsonView>, data_type: TypeView) -> Step {
    match data_type {
        TypeView::Boolean => kind_step(
            store,
            with_boolean(store, boolean_cell(value)),
            "BooleanBuilder"@,
        ),
        TypeView::Int8 => kind_step(store, with_int8(store, int8_cell(value)), "Int8Builder"@),
        TypeView::Int16 => kind_step(store, with_int16(store, int16_cell(value)), "Int16Builder"@),
        TypeView::Int32 => kind_step(store, with_int32(store, int32_cell(value)), "Int32Builder"@),
        TypeView::Int64 => kind_step(store, with_int64(store, int64_cell(value)), "Int64Builder"@),
        TypeView::Float32 => kind_step(
            store,
            with_float32(store, cell_single(float_cell(value))),
            "Float32Builder"@,
        ),
        TypeView::Float64 => kind_step(
            store,
            with_float64(store, float_cell(value)),
            "Float64Builder"@,
        ),
        TypeView::Utf8 => text_step(store, text_cell(value), "StringBuilder"@),
        TypeView::LargeUtf8 => kind_step(
            store,
            with_large_utf8(store, text_cell(value)),
            "LargeStringBuilder"@,
        ),
        TypeView::Binary => binary_step(store, binary_cell(value)),
        TypeView::Date32 => reading_step(
            store,
            date_cell(value),
            |cell: Option<i32>| with_date32(store, cell),
            "Date32Builder"@,
        ),
        TypeView::Time64(TimeUnit::Nanosecond) => reading_step(
            store,
            time_cell(value),
            |cell: Option<i64>| with_time64(store, cell),
            "Time64NanosecondBuilder"@,
        ),
        TypeView::Timestamp(TimeUnit::Microsecond, _) => reading_step(
            store,
            timestamp_cell(value),
            |cell: Option<i64>| with_timestamp(store, cell),
            "TimestampMicrosecondBuilder"@,
        ),
        TypeView::Decimal128(_, _) => reading_step(
            store,
            decimal128_cell(value),
            |cell: Option<i128>| with_decimal128(store, cell),
            "Decimal128Builder"@,
        ),
        TypeView::Decimal256(_, _) => reading_step(
            store,
            decimal256_cell(value),
            |cell: Option<Seq<u8>>| with_decimal256(store, cell),
            "Decimal256Builder"@,
        ),
        TypeView::Null => null_step(store),
        _ => text_step(store, text_cell(value), "StringBuilder (fallback)"@),
    }
}

/// An integer of eight bits; anything else is a null.
pub open spec fn int8_cell(value: Option<JsonView>) -> Option<i8> {
    match integer_cell(value, i8::MIN as int, i8::MAX as int) {
        Some(n) => Some(n as i8),
        None => None,
    }
}

/// An integer of sixteen bits; anything else is a null.
pub open spec fn int16_cell(value: Option<JsonView>) -> Option<i16> {
    match integer_cell(value, i16::MIN as int, i16::MAX as int) {
        Some(n) => Some(n as i16),
        None => None,
    }
}

/// An integer of 32 bits; anything else is a null.
pub open spec fn int32_cell(value: Option<JsonView>) -> Option<i32> {
    match integer_cell(value, i32::MIN as int, i32::MAX as int) {
        Some(n) => Some(n as i32),
        None => None,
    }
}

/// An integer of 64 bits; anything else is a null.
pub open spec fn int64_cell(value: Option<JsonView>) -> Option<i64> {
    match integer_cell(value, i64::MIN as int, i64::MAX as int) {
        Some(n) => Some(n as i64),
        None => None,
    }
}

/// The items of a list, as text: a null is written as JSON too.
pub open spec fn item_texts(items: Seq<JsonView>) -> Seq<Option<Seq<char>>> {
    Seq::new(items.len(), |i: int| Some(value_text(items[i])))
}

/// What appending a value to a column of lists does. A list column whose items are of any type
/// takes nothing.
pub open spec fn list_step(store: Store, value: Option<JsonView>) -> Step {
    match store {
        Store::TextList { items, slots } => {
            let (all, valid) = match value {
                Some(JsonView::Array(a)) => (items + item_texts(a), true),
                _ => (items, false),
            };
            if text_bytes(all) > i32::MAX || all.len() > i32::MAX {
                Step::Broken
            } else {
                Step::Done(Store::TextList { items: all, slots: slots.push((all.len(), valid)) })
            }
        },
        _ => Step::Done(store),
    }
}

/// The entry that one item of a list of pairs gives: an object with two members gives their
/// values.
pub open spec fn pair_entry(item: JsonView) -> Option<(Seq<char>, Seq<char>)> {
    match item {
        JsonView::Object(members) => if members.len() == 2 {
            Some((value_text(members[0].1), value_text(members[1].1)))
        } else {
            None
        },
        _ => None,
    }
}

/// The entries that a list of pairs gives.
pub open spec fn pair_entries(items: Seq<JsonView>) -> Seq<(Seq<char>, Seq<char>)>
    decreases items.len(),
{
    if items.len() == 0 {
        seq![]
    } else {
        let before = pair_entries(items.drop_last());
        match pair_entry(items.last()) {
            Some(entry) => before.push(entry),
            None => before,
        }
    }
}

/// The entries of a map: the members of an object, or a list of pairs.
pub open spec fn map_entries(value: Option<JsonView>) -> Option<Seq<(Seq<char>, Seq<char>)>> {
    match value {
        Some(JsonView::Object(members)) => Some(
            Seq::new(members.len(), |i: int| (members[i].0, value_text(members[i].1))),
        ),
        Some(JsonView::Array(items)) => Some(pair_entries(items)),
        _ => None,
    }
}

/// The keys of entries, as cells.
pub open spec fn entry_keys(entries: Seq<(Seq<char>, Seq<char>)>) -> Seq<Option<Seq<char>>> {
    Seq::new(entries.len(), |i: int| Some(entries[i].0))
}

/// The values of entries, as cells.
pub open spec fn entry_values(entries: Seq<(Seq<char>, Seq<char>)>) -> Seq<Option<Seq<char>>> {
    Seq::new(entries.len(), |i: int| Some(entries[i].1))
}

/// What appending a value to a column of maps does. A map column whose entries are of any type
/// takes nothing.
pub open spec fn map_step(store: Store, value: Option<JsonView>) -> Step {
    match store {
        Store::TextMap { keys, values, slots } => {
            let entries = match map_entries(value) {
                Some(entries) => entries,
                None => seq![],
            };
            let all_keys = keys + entry_keys(entries);
            let all_values = values + entry_values(entries);
            if text_bytes(all_keys) > i32::MAX || text_bytes(all_values) > i32::MAX
                || all_keys.len() > i32::MAX {
                Step::Broken
            } else if all_keys.len() != all_values.len() {
                Step::Failed(
                    Store::TextMap { keys: all_keys, values: all_values, slots },
                    ErrorView::FailedToBuildRecordBatch(
                        map_fault(all_keys.len(), all_values.len()),
                    ),
                )
            } else {
                Step::Done(
                    Store::TextMap {
                        keys: all_keys,
                        values: all_values,
                        slots: slots.push((all_keys.len(), map_entries(value) is Some)),
                    },
                )
            }
        },
        _ => Step::Done(store),
    }
}

/// The value of a struct's `i`-th field: by its name out of an object, by its place out of a
/// list.
pub open spec fn field_value(
    value: Option<JsonView>,
    field: FieldView,
    i: int,
) -> Option<JsonView> {
    match value {
        Some(JsonView::Object(members)) => member(members, field.name),
        Some(JsonView::Array(items)) => if i < items.len() {
            Some(items[i])
        } else {
            None
        },
        _ => None,
    }
}

/// What appending to the columns of a struct does.
pub enum ChildrenStep {
    Done(Seq<Store>),
    Failed(Seq<Store>, ErrorView),
    Broken,
}

/// What appending the first `k` fields of a value to the columns of a struct does.
pub open spec fn children_step(
    children: Seq<Store>,
    value: Option<JsonView>,
    fields: Seq<FieldView>,
    k: nat,
) -> ChildrenStep
    decreases k,
{
    if k == 0 {
        ChildrenStep::Done(children)
    } else {
        match children_step(children, value, fields, (k - 1) as nat) {
            ChildrenStep::Done(now) => if k > now.len() {
                ChildrenStep::Broken
            } else {
                let field = fields[k - 1];
                match scalar_step(
                    now[k - 1],
                    field_value(value, field, k - 1),
                    field.data_type,
                ) {
                    Step::Done(s) => ChildrenStep::Done(now.update(k - 1, s)),
                    Step::Failed(s, e) => ChildrenStep::Failed(now.update(k - 1, s), e),
                    Step::Broken => ChildrenStep::Broken,
                }
            },
            other => other,
        }
    }
}

/// What appending a value to a column of structs does.
pub open spec fn struct_step(
    store: Store,
    value: Option<JsonView>,
    fields: Seq<FieldView>,
) -> Step {
    match store {
        Store::Struct { fields: own, children, validity } => match children_step(
            children,
            value,
            fields,
            fields.len(),
        ) {
            ChildrenStep::Done(now) => Step::Done(
                Store::Struct {
                    fields: own,
                    children: now,
                    validity: validity.push(is_struct_value(value)),
                },
            ),
            ChildrenStep::Failed(now, e) => Step::Failed(
                Store::Struct { fields: own, children: now, validity },
                e,
            ),
            ChildrenStep::Broken => Step::Broken,
        },
        _ => Step::Failed(store, ErrorView::BuilderDowncastError("StructBuilder"@)),
    }
}

/// Whether a value is one that a struct is made of.
pub open spec fn is_struct_value(value: Option<JsonView>) -> bool {
    match value {
        Some(JsonView::Object(_)) | Some(JsonView::Array(_)) => true,
        _ => false,
    }
}

/// What appending a value to a column of a type does.
pub open spec fn append_step(store: Store, value: Option<JsonView>, data_type: TypeView) -> Step {
    match data_type {
        TypeView::List(_) => list_step(store, value),
        TypeView::Struct(fields) => struct_step(store, value, fields),
        TypeView::MapOf(_, _) => map_step(store, value),
        _ => scalar_step(store, value, data_type),
    }
}

/// Why a value was not appended.
pub enum Halt {
    Failed(Error),
    /// Arrow could not hold or count what would be in the column.
    Broken,
}

/// Whether a result, and the column that it leaves, are what a step says.
pub open spec fn stepped(step: Step, r: Result<(), Halt>, now: Store) -> bool {
    match step {
        Step::Done(s) => r is Ok && now == s,
        Step::Failed(s, e) => (r matches Err(Halt::Failed(error)) && error@ == e) && now == s,
        Step::Broken => r matches Err(Halt::Broken),
    }
}

fn downcast(expected: &str) -> (r: Halt)
    ensures
        r matches Halt::Failed(e) && e@ == ErrorView::BuilderDowncastError(expected@),
{
    Halt::Failed(Error::BuilderDowncastError { expected: expected.to_owned() })
}

/// A flag or a null.
fn boolean_of(value: Option<&JsonValue>) -> (r: Option<bool>)
    ensures
        r == boolean_cell(optional(value)),
{
    match value {
        Some(JsonValue::Bool(b)) => Some(*b),
        _ => None,
    }
}

/// An integer of the range, or a null.
fn integer_of(value: Option<&JsonValue>, min: i64, max: i64) -> (r: Option<i64>)
    ensures
        match r {
            Some(n) => integer_cell(optional(value), min as int, max as int) == Some(n as int),
            None => integer_cell(optional(value), min as int, max as int) is None,
        },
{
    match value {
        Some(JsonValue::Number(JsonNumber::Unsigned(n))) => {
            if *n <= i64::MAX as u64 && min <= *n as i64 && *n as i64 <= max {
                Some(*n as i64)
            } else {
                None
            }
        },
        Some(JsonValue::Number(JsonNumber::Signed(n))) => {
            if min <= *n && *n <= max {
                Some(*n)
            } else {
                None
            }
        },
        _ => None,
    }
}

/// A number with a fraction, by its bits, or a null.
fn float_of(value: Option<&JsonValue>) -> (r: Option<u64>)
    ensures
        r == float_cell(optional(value)),
        r matches Some(bits) ==> crate::json::is_finite(bits),
{
    match value {
        Some(JsonValue::Number(JsonNumber::Float(f))) => Some(f.to_bits()),
        _ => None,
    }
}

/// A value as text.
fn text_of(value: &JsonValue) -> (r: String)
    ensures
        r@ == value_text(value@),
{
    match value {
        JsonValue::Text(s) => s.clone(),
        other => other.to_json_text(),
    }
}

/// Any value but a null, as text.
fn text_or_null(value: Option<&JsonValue>) -> (r: Option<String>)
    ensures
        text_cell(optional(value)) == crate::types::option_text(r),
{
    match value {
        None => None,
        Some(JsonValue::Null) => None,
        Some(v) => Some(text_of(v)),
    }
}

/// Appends an integer, or a null for anything else. `false`, and nothing done, for a builder of
/// another kind.
pub fn append_int8_value(builder: &mut ColumnBuilder, value: Option<&JsonValue>) -> (r: bool)
    ensures
        pushed(
            builder_store(*old(builder)),
            with_int8(builder_store(*old(builder)), int8_cell(optional(value))),
            r,
            builder_store(*final(builder)),
        ),
{
    let cell: Option<i8> = match integer_of(value, i8::MIN as i64, i8::MAX as i64) {
        Some(n) => Some(n as i8),
        None => None,
    };
    push_int8(builder, cell)
}

/// Appends an integer, or a null for anything else. `false`, and nothing done, for a builder of
/// another kind.
pub fn append_int16_value(builder: &mut ColumnBuilder, value: Option<&JsonValue>) -> (r: bool)
    ensures
        pushed(
            builder_store(*old(builder)),
            with_int16(builder_store(*old(builder)), int16_cell(optional(value))),
            r,
            builder_store(*final(builder)),
        ),
{
    let cell: Option<i16> = match integer_of(value, i16::MIN as i64, i16::MAX as i64) {
        Some(n) => Some(n as i16),
        None => None,
    };
    push_int16(builder, cell)
}

/// Appends an integer, or a null for anything else. `false`, and nothing done, for a builder of
/// another kind.
pub fn append_int32_value(builder: &mut ColumnBuilder, value: Option<&JsonValue>) -> (r: bool)
    ensures
        pushed(
            builder_store(*old(builder)),
            with_int32(builder_store(*old(builder)), int32_cell(optional(value))),
            r,
            builder_store(*final(builder)),
        ),
{
    let cell: Option<i32> = match integer_of(value, i32::MIN as i64, i32::MAX as i64) {
        Some(n) => Some(n as i32),
        None => None,
    };
    push_int32(builder, cell)
}

/// Appends an integer, or a null for anything else. `false`, and nothing done, for a builder of
/// another kind.
pub fn append_int64_value(builder: &mut ColumnBuilder, value: Option<&JsonValue>) -> (r: bool)
    ensures
        pushed(
            builder_store(*old(builder)),
            with_int64(builder_store(*old(builder)), int64_cell(optional(value))),
            r,
            builder_store(*final(builder)),
        ),
{
    let cell: Option<i64> = match integer_of(value, i64::MIN, i64::MAX) {
        Some(n) => Some(n),
        None => None,
    };
    push_int64(builder, cell)
}

/// Appends a number with a fraction, as the nearest single, or a null for anything else.
/// `false`, and nothing done, for a builder of another kind.
pub fn append_float32_value(builder: &mut ColumnBuilder, value: Option<&JsonValue>) -> (r: bool)
    ensures
        pushed(
            builder_store(*old(builder)),
            with_float32(builder_store(*old(builder)), cell_single(float_cell(optional(value)))),
            r,
            builder_store(*final(builder)),
        ),
{
    push_float32(builder, float_of(value))
}

/// Appends a number with a fraction, or a null for anything else. `false`, and nothing done, for
/// a builder of another kind.
pub fn append_float64_value(builder: &mut ColumnBuilder, value: Option<&JsonValue>) -> (r: bool)
    ensures
        pushed(
            builder_store(*old(builder)),
            with_float64(builder_store(*old(builder)), float_cell(optional(value))),
            r,
            builder_store(*final(builder)),
        ),
{
    push_float64(builder, float_of(value))
}

/// Appends any value as text.
pub fn append_string_value(
    builder: &mut ColumnBuilder,
    value: Option<&JsonValue>,
    expected: &str,
) -> (r: Result<(), Halt>)
    ensures
        stepped(
            text_step(builder_store(*old(builder)), text_cell(optional(value)), expected@),
            r,
            builder_store(*final(builder)),
        ),
{
    let used = match utf8_size(builder) {
        Some(used) => used,
        None => return Err(downcast(expected)),
    };
    let cell = text_or_null(value);
    let ghost cells = builder_store(*builder)->Utf8_0;
    match &cell {
        Some(text) => {
            let more: usize = text.as_str().as_bytes().len();
            proof {
                assert(cells.push(Some(text@)).drop_last() =~= cells);
            }
            if more > i32::MAX as usize - used {
                return Err(Halt::Broken);
            }
            push_utf8(builder, Some(text.as_str()));
        },
        None => {
            push_utf8(builder, None);
        },
    }
    Ok(())
}

/// Appends any value as text. `false`, and nothing done, for a builder of another kind.
pub fn append_large_string_value(builder: &mut ColumnBuilder, value: Option<&JsonValue>) -> (r:
    bool)
    ensures
        pushed(
            builder_store(*old(builder)),
            with_large_utf8(builder_store(*old(builder)), text_cell(optional(value))),
            r,
            builder_store(*final(builder)),
        ),
{
    match text_or_null(value) {
        Some(text) => push_large_utf8(builder, Some(text.as_str())),
        None => push_large_utf8(builder, None),
    }
}

/// Appends the bytes of a text, or a null for anything else.
pub fn append_binary_value(builder: &mut ColumnBuilder, value: Option<&JsonValue>) -> (r: Result<
    (),
    Halt,
>)
    ensures
        stepped(
            binary_step(builder_store(*old(builder)), binary_cell(optional(value))),
            r,
            builder_store(*final(builder)),
        ),
{
    let used = match binary_size(builder) {
        Some(used) => used,
        None => return Err(downcast("BinaryBuilder")),
    };
    let ghost cells = builder_store(*builder)->Binary_0;
    match value {
        Some(JsonValue::Text(s)) => {
            let decoded = base64_decode(s.as_str());
            let bytes: &[u8] = match &decoded {
                Some(bytes) => bytes.as_slice(),
                None => s.as_str().as_bytes(),
            };
            let more: usize = bytes.len();
            proof {
                assert(cells.push(Some(bytes@)).drop_last() =~= cells);
            }
            if more > i32::MAX as usize - used {
                return Err(Halt::Broken);
            }
            push_binary(builder, Some(bytes));
        },
        _ => {
            push_binary(builder, None);
        },
    }
    Ok(())
}

/// Appends a date, or a null for anything that is not a text.
pub fn append_date32_value(builder: &mut ColumnBuilder, value: Option<&JsonValue>) -> (r: Result<
    (),
    Halt,
>)
    ensures
        stepped(
            scalar_step(builder_store(*old(builder)), optional(value), TypeView::Date32),
            r,
            builder_store(*final(builder)),
        ),
{
    if !is_date32(builder) {
        return Err(downcast("Date32Builder"));
    }
    let cell: Option<i32> = match value {
        Some(JsonValue::Text(s)) => match parse_date(s.as_str(), "%Y-%m-%d") {
            Some(days) => Some(days),
            None => return Err(Halt::Failed(Error::InvalidDateValue { value: s.clone() })),
        },
        _ => None,
    };
    push_date32(builder, cell);
    Ok(())
}

/// Appends a time of day, or a null for anything that is not a text.
pub fn append_time64_value(builder: &mut ColumnBuilder, value: Option<&JsonValue>) -> (r: Result<
    (),
    Halt,
>)
    ensures
        stepped(
            scalar_step(
                builder_store(*old(builder)),
                optional(value),
                TypeView::Time64(TimeUnit::Nanosecond),
            ),
            r,
            builder_store(*final(builder)),
        ),
{
    if !is_time64(builder) {
        return Err(downcast("Time64NanosecondBuilder"));
    }
    let cell: Option<i64> = match value {
        Some(JsonValue::Text(s)) => match parse_time(s.as_str(), "%H:%M:%S%.f") {
            Some((seconds, nanos)) => Some(seconds as i64 * 1_000_000_000 + nanos as i64),
            None => return Err(Halt::Failed(Error::InvalidTimeValue { value: s.clone() })),
        },
        _ => None,
    };
    push_time64(builder, cell);
    Ok(())
}

/// Appends a timestamp, or a null for anything that is not a text.
pub fn append_timestamp_value(builder: &mut ColumnBuilder, value: Option<&JsonValue>) -> (r: Result<
    (),
    Halt,
>)
    ensures
        forall|zone: Option<Seq<char>>|
            stepped(
                #[trigger] scalar_step(
                    builder_store(*old(builder)),
                    optional(value),
                    TypeView::Timestamp(TimeUnit::Microsecond, zone),
                ),
                r,
                builder_store(*final(builder)),
            ),
{
    if !is_timestamp(builder) {
        return Err(downcast("TimestampMicrosecondBuilder"));
    }
    let cell: Option<i64> = match value {
        Some(JsonValue::Text(s)) => match parse_rfc3339(s.as_str()) {
            Some(micros) => Some(micros),
            None => match parse_datetime(s.as_str(), "%Y-%m-%d %H:%M:%S%.f") {
                Some(micros) => Some(micros),
                None => return Err(
                    Halt::Failed(Error::InvalidTimestampValue { value: s.clone() }),
                ),
            },
        },
        _ => None,
    };
    push_timestamp(builder, cell);
    Ok(())
}

/// Appends the integer part of a decimal number, or a null for anything that is not a text.
pub fn append_decimal128_value(builder: &mut ColumnBuilder, value: Option<&JsonValue>) -> (r:
    Result<(), Halt>)
    ensures
        forall|precision: u8, scale: i8|
            stepped(
                #[trigger] scalar_step(
                    builder_store(*old(builder)),
                    optional(value),
                    TypeView::Decimal128(precision, scale),
                ),
                r,
                builder_store(*final(builder)),
            ),
{
    if !is_decimal128(builder) {
        return Err(downcast("Decimal128Builder"));
    }
    let cell: Option<i128> = match value {
        Some(JsonValue::Text(s)) => match parse_decimal(s.as_str()) {
            Some(decimal) => decimal_integer(&decimal),
            None => return Err(Halt::Failed(Error::FailedToParseDecimal { value: s.clone() })),
        },
        _ => None,
    };
    push_decimal128(builder, cell);
    Ok(())
}

/// Appends the integer of a decimal number without its scale, or a null for anything that is not
/// a text.
pub fn append_decimal256_value(builder: &mut ColumnBuilder, value: Option<&JsonValue>) -> (r:
    Result<(), Halt>)
    ensures
        forall|precision: u8, scale: i8|
            stepped(
                #[trigger] scalar_step(
                    builder_store(*old(builder)),
                    optional(value),
                    TypeView::Decimal256(precision, scale),
                ),
                r,
                builder_store(*final(builder)),
            ),
{
    if !is_decimal256(builder) {
        return Err(downcast("Decimal256Builder"));
    }
    let cell: Option<[u8; 32]> = match value {
        Some(JsonValue::Text(s)) => match parse_decimal(s.as_str()) {
            Some(decimal) => Some(to_decimal_256(&decimal)),
            None => return Err(Halt::Failed(Error::FailedToParseDecimal { value: s.clone() })),
        },
        _ => None,
    };
    push_decimal256(builder, cell);
    Ok(())
}

/// Appends a value to a column of a type without parts.
pub fn append_scalar_value(
    builder: &mut ColumnBuilder,
    value: Option<&JsonValue>,
    data_type: &DataType,
) -> (r: Result<(), Halt>)
    ensures
        stepped(
            scalar_step(builder_store(*old(builder)), optional(value), data_type@),
            r,
            builder_store(*final(builder)),
        ),
{
    match data_type {
        DataType::Boolean => {
            if !push_boolean(builder, boolean_of(value)) {
                return Err(downcast("BooleanBuilder"));
            }
        },
        DataType::Int8 => {
            if !append_int8_value(builder, value) {
                return Err(downcast("Int8Builder"));
            }
        },
        DataType::Int16 => {
            if !append_int16_value(builder, value) {
                return Err(downcast("Int16Builder"));
            }
        },
        DataType::Int32 => {
            if !append_int32_value(builder, value) {
                return Err(downcast("Int32Builder"));
            }
        },
        DataType::Int64 => {
            if !append_int64_value(builder, value) {
                return Err(downcast("Int64Builder"));
            }
        },
        DataType::Float32 => {
            if !append_float32_value(builder, value) {
                return Err(downcast("Float32Builder"));
            }
        },
        DataType::Float64 => {
            if !append_float64_value(builder, value) {
                return Err(downcast("Float64Builder"));
            }
        },
        DataType::Utf8 => {
            return append_string_value(builder, value, "StringBuilder");
        },
        DataType::LargeUtf8 => {
            if !append_large_string_value(builder, value) {
                return Err(downcast("LargeStringBuilder"));
            }
        },
        DataType::Binary => {
            return append_binary_value(builder, value);
        },
        DataType::Date32 => {
            return append_date32_value(builder, value);
        },
        DataType::Time64(TimeUnit::Nanosecond) => {
            return append_time64_value(builder, value);
        },
        DataType::Timestamp(TimeUnit::Microsecond, _) => {
            return append_timestamp_value(builder, value);
        },
        DataType::Decimal128(_, _) => {
            return append_decimal128_value(builder, value);
        },
        DataType::Decimal256(_, _) => {
            return append_decimal256_value(builder, value);
        },
        DataType::Null => {
            return append_null_value(builder);
        },
        _ => {
            return append_string_value(builder, value, "StringBuilder (fallback)");
        },
    }
    Ok(())
}

/// Appends a null to a column of nulls.
fn append_null_value(builder: &mut ColumnBuilder) -> (r: Result<(), Halt>)
    ensures
        stepped(
            null_step(builder_store(*old(builder))),
            r,
            builder_store(*final(builder)),
        ),
{
    match null_size(builder) {
        Some(n) => {
            if n == usize::MAX {
                return Err(Halt::Broken);
            }
            push_null(builder);
            Ok(())
        },
        None => Err(downcast("NullBuilder")),
    }
}

/// Texts take the bytes of one part and of the other.
pub proof fn lemma_text_bytes_sum(a: Seq<Option<Seq<char>>>, b: Seq<Option<Seq<char>>>)
    ensures
        text_bytes(a + b) == text_bytes(a) + text_bytes(b),
    decreases b.len(),
{
    if b.len() == 0 {
        assert(a + b =~= a);
    } else {
        assert((a + b).drop_last() =~= a + b.drop_last());
        lemma_text_bytes_sum(a, b.drop_last());
    }
}

proof fn lemma_text_bytes_push(a: Seq<Option<Seq<char>>>, cell: Option<Seq<char>>)
    ensures
        text_bytes(a.push(cell)) == text_bytes(a) + cell_bytes(cell),
{
    assert(a.push(cell).drop_last() =~= a);
}

/// A builder for a column of lists of texts.
pub fn text_list_builder() -> (r: ColumnBuilder)
    ensures
        builder_store(r) == (Store::TextList { items: seq![], slots: seq![] }),
{
    new_text_list()
}

/// A builder for a column of maps from text to text.
pub fn text_map_builder() -> (r: ColumnBuilder)
    ensures
        builder_store(r) == (Store::TextMap { keys: seq![], values: seq![], slots: seq![] }),
{
    new_text_map()
}

/// Appends a list to a column of lists of texts, or a null for anything else. Nothing is done
/// for another column.
pub fn append_list_value(builder: &mut ColumnBuilder, value: Option<&JsonValue>) -> (r: Result<
    (),
    Halt,
>)
    ensures
        stepped(
            list_step(builder_store(*old(builder)), optional(value)),
            r,
            builder_store(*final(builder)),
        ),
{
    let (mut used, count) = match text_list_size(builder) {
        Some(size) => size,
        None => return Ok(()),
    };
    let ghost items = builder_store(*builder)->TextList_items;
    let ghost slots = builder_store(*builder)->TextList_slots;
    match value {
        Some(JsonValue::Array(arr)) => {
            let ghost more = item_texts(json_items(arr@));
            proof {
                lemma_array_view(*arr);
                assert(items + more.take(0) =~= items);
            }
            for i in 0..arr.len()
                invariant
                    optional(value) == Some(JsonView::Array(json_items(arr@))),
                    more == item_texts(json_items(arr@)),
                    builder_store(*old(builder)) == (Store::TextList { items, slots }),
                    builder_store(*builder) == (Store::TextList {
                        items: items + more.take(i as int),
                        slots,
                    }),
                    used == text_bytes(items + more.take(i as int)),
                    used <= i32::MAX,
            {
                let text = text_of(&arr[i]);
                let size: usize = text.as_str().as_bytes().len();
                proof {
                    assert(more.take(i + 1) =~= more.take(i as int).push(Some(text@)));
                    assert((items + more.take(i as int)).push(Some(text@)) =~= items + more.take(
                        i + 1,
                    ));
                    lemma_text_bytes_push(items + more.take(i as int), Some(text@));
                    assert(items + more =~= (items + more.take(i + 1)) + more.skip(i + 1));
                    lemma_text_bytes_sum(items + more.take(i + 1), more.skip(i + 1));
                }
                if size > i32::MAX as usize - used {
                    return Err(Halt::Broken);
                }
                push_list_item(builder, text.as_str());
                used = used + size;
            }
            assert(more.take(arr@.len() as int) =~= more);
            if count as u128 + arr.len() as u128 > i32::MAX as u128 {
                return Err(Halt::Broken);
            }
            end_list(builder, true);
        },
        _ => {
            if count > i32::MAX as usize {
                return Err(Halt::Broken);
            }
            end_list(builder, false);
        },
    }
    Ok(())
}

/// Entries, as their texts.
pub open spec fn entries_view(entries: Seq<(String, String)>) -> Seq<(Seq<char>, Seq<char>)> {
    Seq::new(entries.len(), |i: int| (entries[i].0@, entries[i].1@))
}

/// The entries of a map, as text.
fn entries_of(value: Option<&JsonValue>) -> (r: Option<Vec<(String, String)>>)
    ensures
        match r {
            Some(entries) => map_entries(optional(value)) == Some(entries_view(entries@)),
            None => map_entries(optional(value)) is None,
        },
{
    match value {
        Some(JsonValue::Object(members)) => {
            let mut entries: Vec<(String, String)> = Vec::new();
            let n: usize = members.len();
            for i in 0..n
                invariant
                    n == members@.len(),
                    entries@.len() == i,
                    forall|j: int|
                        0 <= j < i ==> (#[trigger] entries@[j]).0@ == members@[j].0
                            && entries@[j].1@ == value_text(members@[j].1),
            {
                let text = text_of(members.value_at(i));
                entries.push((members.name_at(i).clone(), text));
            }
            assert(entries_view(entries@) =~= map_entries(optional(value))->0);
            Some(entries)
        },
        Some(JsonValue::Array(items)) => {
            let mut entries: Vec<(String, String)> = Vec::new();
            let ghost views = json_items(items@);
            proof {
                lemma_array_view(*items);
                assert(entries_view(entries@) =~= pair_entries(views.take(0)));
            }
            for i in 0..items.len()
                invariant
                    views == json_items(items@),
                    entries_view(entries@) == pair_entries(views.take(i as int)),
            {
                let ghost before = entries_view(entries@);
                proof {
                    assert(views.take(i + 1).drop_last() =~= views.take(i as int));
                    assert(views.take(i + 1).last() == items@[i as int]@);
                }
                match &items[i] {
                    JsonValue::Object(members) => {
                        if members.len() == 2 {
                            let key = text_of(members.value_at(0));
                            let text = text_of(members.value_at(1));
                            entries.push((key, text));
                            assert(entries_view(entries@) =~= before.push((key@, text@)));
                        }
                    },
                    _ => {},
                }
            }
            assert(views.take(items@.len() as int) =~= views);
            Some(entries)
        },
        _ => None,
    }
}

/// Appends a map to a column of maps from text to text, or a null for anything that is no map.
/// Nothing is done for another column.
pub fn append_map_value(builder: &mut ColumnBuilder, value: Option<&JsonValue>) -> (r: Result<
    (),
    Halt,
>)
    ensures
        stepped(
            map_step(builder_store(*old(builder)), optional(value)),
            r,
            builder_store(*final(builder)),
        ),
{
    let (mut keys_used, mut values_used, count) = match text_map_size(builder) {
        Some(size) => size,
        None => return Ok(()),
    };
    let ghost keys = builder_store(*builder)->TextMap_keys;
    let ghost values = builder_store(*builder)->TextMap_values;
    let ghost slots = builder_store(*builder)->TextMap_slots;
    let (entries, valid) = match entries_of(value) {
        Some(entries) => (entries, true),
        None => (Vec::new(), false),
    };
    let ghost more_keys = entry_keys(entries_view(entries@));
    let ghost more_values = entry_values(entries_view(entries@));
    proof {
        assert(entries_view(entries@) =~= (match map_entries(optional(value)) {
            Some(e) => e,
            None => seq![],
        }));
        assert(keys + more_keys.take(0) =~= keys);
        assert(values + more_values.take(0) =~= values);
    }
    for i in 0..entries.len()
        invariant
            more_keys == entry_keys(entries_view(entries@)),
            more_values == entry_values(entries_view(entries@)),
            entries_view(entries@) == (match map_entries(optional(value)) {
                Some(e) => e,
                None => seq![],
            }),
            builder_store(*old(builder)) == (Store::TextMap { keys, values, slots }),
            builder_store(*builder) == (Store::TextMap {
                keys: keys + more_keys.take(i as int),
                values: values + more_values.take(i as int),
                slots,
            }),
            keys_used == text_bytes(keys + more_keys.take(i as int)),
            keys_used <= i32::MAX,
            values_used == text_bytes(values + more_values.take(i as int)),
            values_used <= i32::MAX,
    {
        let key = entries[i].0.as_str();
        let text = entries[i].1.as_str();
        let key_size: usize = key.as_bytes().len();
        let text_size: usize = text.as_bytes().len();
        proof {
            lemma_entry_room(keys, more_keys, i as int, key@);
            lemma_entry_room(values, more_values, i as int, text@);
        }
        if key_size > i32::MAX as usize - keys_used || text_size > i32::MAX as usize - values_used {
            return Err(Halt::Broken);
        }
        push_map_key(builder, key);
        push_map_value(builder, text);
        keys_used = keys_used + key_size;
        values_used = values_used + text_size;
    }
    assert(more_keys.take(entries@.len() as int) =~= more_keys);
    assert(more_values.take(entries@.len() as int) =~= more_values);
    if count as u128 + entries.len() as u128 > i32::MAX as u128 {
        return Err(Halt::Broken);
    }
    match end_map(builder, valid) {
        Ok(()) => Ok(()),
        Err(source) => Err(Halt::Failed(Error::FailedToBuildRecordBatch { source })),
    }
}

proof fn lemma_entry_room(
    cells: Seq<Option<Seq<char>>>,
    more: Seq<Option<Seq<char>>>,
    i: int,
    text: Seq<char>,
)
    requires
        0 <= i < more.len(),
        more[i] == Some(text),
    ensures
        (cells + more.take(i)).push(Some(text)) == cells + more.take(i + 1),
        text_bytes(cells + more.take(i + 1)) == text_bytes(cells + more.take(i)) + cell_bytes(
            Some(text),
        ),
        text_bytes(cells + more.take(i + 1)) <= text_bytes(cells + more),
{
    assert((cells + more.take(i)).push(Some(text)) =~= cells + more.take(i + 1));
    lemma_text_bytes_push(cells + more.take(i), Some(text));
    assert(cells + more =~= (cells + more.take(i + 1)) + more.skip(i + 1));
    lemma_text_bytes_sum(cells + more.take(i + 1), more.skip(i + 1));
}

/// The value of a struct's `i`-th field.
fn field_value_of<'a>(value: Option<&'a JsonValue>, field: &Field, i: usize) -> (r: Option<
    &'a JsonValue,
>)
    ensures
        optional(r) == field_value(optional(value), field@, i as int),
{
    match value {
        Some(JsonValue::Object(members)) => members.get(field.name.as_str()),
        Some(JsonValue::Array(items)) => {
            proof {
                lemma_array_view(*items);
            }
            if i < items.len() {
                Some(&items[i])
            } else {
                None
            }
        },
        _ => None,
    }
}

/// Whether a result, and the columns of the struct that it leaves, are what a step of one column
/// says.
pub open spec fn child_stepped(
    before: Store,
    i: int,
    step: Step,
    r: Result<(), Halt>,
    now: Store,
) -> bool {
    match before {
        Store::Struct { fields, children, validity } => match step {
            Step::Done(s) => r is Ok && now == (Store::Struct {
                fields,
                children: children.update(i, s),
                validity,
            }),
            Step::Failed(s, e) => (r matches Err(Halt::Failed(error)) && error@ == e) && now == (
            Store::Struct { fields, children: children.update(i, s), validity }),
            Step::Broken => r matches Err(Halt::Broken),
        },
        _ => true,
    }
}

/// Appends a value to one column of a struct.
pub fn append_to_struct_field_builder(
    builder: &mut ColumnBuilder,
    field_index: usize,
    value: Option<&JsonValue>,
    field_data_type: &DataType,
) -> (r: Result<(), Halt>)
    requires
        builder_store(*old(builder)) matches Store::Struct { children, .. } && field_index
            < children.len(),
    ensures
        child_stepped(
            builder_store(*old(builder)),
            field_index as int,
            scalar_step(
                builder_store(*old(builder))->Struct_children[field_index as int],
                optional(value),
                field_data_type@,
            ),
            r,
            builder_store(*final(builder)),
        ),
{
    let ghost children = builder_store(*builder)->Struct_children;
    let mut column = new_null();
    swap_field(builder, field_index, &mut column);
    let r = append_scalar_value(&mut column, value, field_data_type);
    let ghost now = builder_store(column);
    swap_field(builder, field_index, &mut column);
    assert(builder_store(*builder)->Struct_children =~= children.update(field_index as int, now));
    r
}

/// Appends a struct, or a null for anything that no struct is made of.
pub fn append_struct_value(
    builder: &mut ColumnBuilder,
    value: Option<&JsonValue>,
    fields: &Vec<Field>,
) -> (r: Result<(), Halt>)
    ensures
        stepped(
            struct_step(builder_store(*old(builder)), optional(value), fields_view(fields@)),
            r,
            builder_store(*final(builder)),
        ),
{
    let width = match struct_width(builder) {
        Some(width) => width,
        None => return Err(downcast("StructBuilder")),
    };
    let ghost own = builder_store(*builder)->Struct_fields;
    let ghost children = builder_store(*builder)->Struct_children;
    let ghost validity = builder_store(*builder)->Struct_validity;
    for i in 0..fields.len()
        invariant
            builder_store(*old(builder)) == (Store::Struct { fields: own, children, validity }),
            width == children.len(),
            builder_store(*builder) matches Store::Struct {
                fields: f,
                children: now,
                validity: v,
            } && f == own && v == validity && now.len() == width && children_step(
                children,
                optional(value),
                fields_view(fields@),
                i as nat,
            ) == ChildrenStep::Done(now),
    {
        proof {
            lemma_children_stuck(
                children,
                optional(value),
                fields_view(fields@),
                (i + 1) as nat,
                fields@.len(),
            );
        }
        if i >= width {
            return Err(Halt::Broken);
        }
        let field = &fields[i];
        let part = field_value_of(value, field, i);
        match append_to_struct_field_builder(builder, i, part, &field.data_type) {
            Ok(()) => {},
            Err(halt) => return Err(halt),
        }
    }
    let valid = match value {
        Some(JsonValue::Object(_)) => true,
        Some(JsonValue::Array(_)) => true,
        _ => false,
    };
    push_struct(builder, valid);
    Ok(())
}

/// What stops the filling of a struct's columns stops it for good.
proof fn lemma_children_stuck(
    children: Seq<Store>,
    value: Option<JsonView>,
    fields: Seq<FieldView>,
    k: nat,
    n: nat,
)
    requires
        k <= n,
    ensures
        children_step(children, value, fields, k) !is Done ==> children_step(
            children,
            value,
            fields,
            n,
        ) == children_step(children, value, fields, k),
    decreases n - k,
{
    if k < n {
        lemma_children_stuck(children, value, fields, k, (n - 1) as nat);
    }
}

/// Appends a struct by its fields.
pub fn append_struct_value_with_fields(
    builder: &mut ColumnBuilder,
    value: Option<&JsonValue>,
    fields: &Vec<Field>,
) -> (r: Result<(), Halt>)
    ensures
        stepped(
            struct_step(builder_store(*old(builder)), optional(value), fields_view(fields@)),
            r,
            builder_store(*final(builder)),
        ),
{
    append_struct_value(builder, value, fields)
}

/// Appends a value to a column of a type.
pub fn append_value_to_builder(
    builder: &mut ColumnBuilder,
    value: Option<&JsonValue>,
    data_type: &DataType,
) -> (r: Result<(), Halt>)
    ensures
        stepped(
            append_step(builder_store(*old(builder)), optional(value), data_type@),
            r,
            builder_store(*final(builder)),
        ),
{
    match data_type {
        DataType::List(_) => append_list_value(builder, value),
        DataType::Struct(fields) => {
            proof {
                lemma_struct_view(*fields);
            }
            append_struct_value(builder, value, fields)
        },
        DataType::MapOf(_, _) => append_map_value(builder, value),
        _ => append_scalar_value(builder, value, data_type),
    }
}

/// A column after one more null. A column of lists, structs or maps stays as it is.
pub open spec fn with_any_null(s: Store) -> Store {
    match s {
        Store::Boolean(_) => with_boolean(s, None)->0,
        Store::Int8(_) => with_int8(s, None)->0,
        Store::Int16(_) => with_int16(s, None)->0,
        Store::Int32(_) => with_int32(s, None)->0,
        Store::Int64(_) => with_int64(s, None)->0,
        Store::Float32(_) => with_float32(s, None)->0,
        Store::Float64(_) => with_float64(s, None)->0,
        Store::Utf8(_) => with_utf8(s, None)->0,
        Store::LargeUtf8(_) => with_large_utf8(s, None)->0,
        Store::Binary(_) => with_binary(s, None)->0,
        Store::Date32(_) => with_date32(s, None)->0,
        Store::Time64(_) => with_time64(s, None)->0,
        Store::Timestamp(_) => with_timestamp(s, None)->0,
        Store::Decimal128 { .. } => with_decimal128(s, None)->0,
        Store::Decimal256 { .. } => with_decimal256(s, None)->0,
        Store::Null(_) => with_null(s)->0,
        _ => s,
    }
}

/// Appends a null, whatever the kind of the column.
pub fn append_null_to_any_builder(builder: &mut ColumnBuilder)
    requires
        builder_store(*old(builder)) matches Store::Null(n) ==> n < usize::MAX,
    ensures
        builder_store(*final(builder)) == with_any_null(builder_store(*old(builder))),
{
    let _appended = push_boolean(builder, None) || push_int8(builder, None) || push_int16(
        builder,
        None,
    ) || push_int32(builder, None) || push_int64(builder, None) || push_float32(builder, None)
        || push_float64(builder, None) || push_utf8(builder, None) || push_large_utf8(builder, None)
        || push_binary(builder, None) || push_date32(builder, None) || push_time64(builder, None)
        || push_timestamp(builder, None) || push_decimal128(builder, None) || push_decimal256(
        builder,
        None,
    ) || push_null(builder);
}

} // verus!
