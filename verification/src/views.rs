//! What the values of the library stand for, and what its results say of them.

use crate::builder::{
    batch_columns, batch_fields, batch_rows, builder_store, pushed, row_count, Batch, ColumnBuilder,
};
use crate::json::{json_items, JsonNumber, JsonObject, JsonValue, JsonView};
use crate::rows::{builders_stepped, came_out, is_fresh, rows_view, BuildersStep, Outcome};
use crate::schema::{answers, reads, texts, TypeFault, TypeReading};
use crate::store::Store;
use crate::trino::{Error, ErrorView};
use crate::trinodbpool::text;
use crate::types::{
    columns_view, fields_view, option_text, ColumnView, DataType, Field, FieldView, TimeUnit,
    TrinoColumn, TypeView,
};
use crate::values::{child_stepped, entries_view, optional, stepped, Halt, Step};
use vstd::prelude::*;

verus! {

/// A JSON value stands for what it holds: a number for the number itself, a text for its
/// characters, an array for its items in their order.
pub proof fn lemma_json_values_are_whole(
    b: bool,
    n: u64,
    m: i64,
    s: String,
    items: Vec<JsonValue>,
    members: JsonObject,
)
    ensures
        JsonValue::Null@ == JsonView::Null,
        JsonValue::Bool(b)@ == JsonView::Bool(b),
        JsonValue::Number(JsonNumber::Unsigned(n))@ == JsonView::Integer(n as int),
        JsonValue::Number(JsonNumber::Signed(m))@ == JsonView::Integer(m as int),
        JsonValue::Text(s)@ == JsonView::Text(s@),
        JsonValue::Array(items)@ matches JsonView::Array(a) && a.len() == items@.len()
            && forall|i: int| 0 <= i < a.len() ==> (#[trigger] a[i]) == items@[i]@,
        JsonValue::Object(members)@ == JsonView::Object(members@),
{
}

/// Rows stand for their values, each in its place.
pub proof fn lemma_rows_are_whole(rows: Seq<Vec<JsonValue>>, i: int, j: int)
    ensures
        rows_view(rows).len() == rows.len(),
        0 <= j < rows.len() ==> rows_view(rows)[j].len() == rows[j]@.len(),
        0 <= j < rows.len() && 0 <= i < rows[j]@.len() ==> rows_view(rows)[j][i] == rows[j]@[i]@,
        0 <= j < rows.len() && 0 <= i < rows[j]@.len() ==> json_items(rows[j]@)[i] == rows[j]@[i]@,
{
}

/// An optional value stands for the value, where there is one.
pub proof fn lemma_optional_values_are_whole(value: &JsonValue)
    ensures
        optional(Some(value)) == Some(value@),
        optional(None) is None,
{
}

/// The types of columns stand for themselves.
pub proof fn lemma_types_are_whole(
    unit: TimeUnit,
    zone: String,
    precision: u8,
    scale: i8,
    item: std::sync::Arc<Field>,
    fields: Vec<Field>,
    sorted: bool,
)
    ensures
        DataType::Null@ is Null,
        DataType::Boolean@ is Boolean,
        DataType::Int8@ is Int8,
        DataType::Int16@ is Int16,
        DataType::Int32@ is Int32,
        DataType::Int64@ is Int64,
        DataType::Float32@ is Float32,
        DataType::Float64@ is Float64,
        DataType::Utf8@ is Utf8,
        DataType::LargeUtf8@ is LargeUtf8,
        DataType::Binary@ is Binary,
        DataType::Date32@ is Date32,
        DataType::Time64(unit)@ == TypeView::Time64(unit),
        DataType::Timestamp(unit, None)@ == TypeView::Timestamp(unit, None),
        DataType::Timestamp(unit, Some(zone))@ == TypeView::Timestamp(unit, Some(zone@)),
        DataType::Decimal128(precision, scale)@ == TypeView::Decimal128(precision, scale),
        DataType::Decimal256(precision, scale)@ == TypeView::Decimal256(precision, scale),
        DataType::List(item)@ == TypeView::List(Box::new(item@)),
        DataType::MapOf(item, sorted)@ == TypeView::MapOf(Box::new(item@), sorted),
        DataType::Struct(fields)@ matches TypeView::Struct(parts) && parts.len() == fields@.len()
            && forall|i: int| 0 <= i < parts.len() ==> (#[trigger] parts[i]) == fields@[i]@,
{
}

/// Fields and columns stand for their names, types and whether they take nulls, each in its place.
pub proof fn lemma_fields_are_whole(
    field: Field,
    column: TrinoColumn,
    fields: Seq<Field>,
    columns: Seq<TrinoColumn>,
    i: int,
)
    ensures
        field@.name == field.name@,
        field@.data_type == field.data_type@,
        field@.nullable == field.nullable,
        column@ == (ColumnView { name: column.name@, trino_type: column.trino_type@ }),
        fields_view(fields).len() == fields.len(),
        0 <= i < fields.len() ==> fields_view(fields)[i] == fields[i]@,
        columns_view(columns).len() == columns.len(),
        0 <= i < columns.len() ==> columns_view(columns)[i] == columns[i]@,
{
}

/// Errors stand for their kinds and for what they hold.
pub proof fn lemma_errors_are_whole(s: String, url: String, n: u16)
    ensures
        (Error::UnsupportedTrinoType { trino_type: s })@ == ErrorView::UnsupportedTrinoType(s@),
        (Error::InvalidDateValue { value: s })@ == ErrorView::InvalidDateValue(s@),
        (Error::InvalidTimeValue { value: s })@ == ErrorView::InvalidTimeValue(s@),
        (Error::InvalidTimestampValue { value: s })@ == ErrorView::InvalidTimestampValue(s@),
        (Error::FailedToParseDecimal { value: s })@ == ErrorView::FailedToParseDecimal(s@),
        (Error::BuilderDowncastError { expected: s })@ == ErrorView::BuilderDowncastError(s@),
        (Error::FailedToFindFieldInSchema { column_name: s })@
            == ErrorView::FailedToFindFieldInSchema(s@),
        crate::trinoconn::Error::AuthenticationFailedError@
            == crate::trinoconn::ErrorView::AuthenticationFailedError,
        (crate::trinoconn::Error::TrinoServerError { status_code: n, message: s })@
            == crate::trinoconn::ErrorView::TrinoServerError(n, s@),
        (crate::trinoconn::Error::UnsupportedDataTypeError { column_name: s, data_type: url })@
            == crate::trinoconn::ErrorView::UnsupportedDataTypeError(s@, url@),
        (crate::trinoconn::Error::MissingField { field: s })@
            == crate::trinoconn::ErrorView::MissingField(s@),
        (crate::trinoconn::Error::InvalidUrl { url })@ == crate::trinoconn::ErrorView::InvalidUrl(
            url@,
        ),
        crate::trinodbpool::Error::AuthenticationFailedError@
            == crate::trinodbpool::ErrorView::AuthenticationFailedError,
        (crate::trinodbpool::Error::InvalidTrinoUrl { url })@
            == crate::trinodbpool::ErrorView::InvalidTrinoUrl(url@),
        (crate::trinodbpool::Error::MissingRequiredParameter { parameter_name: s })@
            == crate::trinodbpool::ErrorView::MissingRequiredParameter(s@),
        (crate::trinodbpool::Error::TrinoServerError { status_code: n, message: s })@
            == crate::trinodbpool::ErrorView::TrinoServerError(n, s@),
        (crate::trinodbpool::Error::InvalidAuthConfig { details: s })@
            == crate::trinodbpool::ErrorView::InvalidAuthConfig(s@),
{
}

/// A result that is what an outcome says is a record batch with those fields, those columns and as
/// many rows as they have, or the error, or nothing, each just where the outcome is that.
pub proof fn lemma_results_are_the_outcomes(outcome: Outcome, r: Result<Batch, Halt>)
    requires
        came_out(outcome, r),
    ensures
        outcome is Batch <==> r is Ok,
        outcome matches Outcome::Batch(fields, columns) ==> batch_fields(r->Ok_0) == fields
            && batch_columns(r->Ok_0) == columns && batch_rows(r->Ok_0) == row_count(columns),
        outcome matches Outcome::Failed(e) ==> (r matches Err(Halt::Failed(error)) && error@ == e),
        outcome is Broken <==> (r matches Err(Halt::Broken)),
{
}

/// A result that is what a step says leaves the column that the step says, or the error and the
/// column with it.
pub proof fn lemma_results_are_the_steps(step: Step, r: Result<(), Halt>, now: Store)
    requires
        stepped(step, r, now),
    ensures
        step is Done <==> r is Ok,
        step matches Step::Done(s) ==> now == s,
        step matches Step::Failed(s, e) ==> now == s && (r matches Err(Halt::Failed(error))
            && error@ == e),
        step is Broken <==> (r matches Err(Halt::Broken)),
{
}

/// A push leaves a column of the right kind with what was pushed, and one of another kind as it
/// was.
pub proof fn lemma_pushes_are_the_steps(before: Store, after: Option<Store>, r: bool, now: Store)
    requires
        pushed(before, after, r, now),
    ensures
        r <==> after is Some,
        r ==> now == after->0,
        !r ==> now == before,
{
}

/// Builders that are what a step says are those that the step says.
pub proof fn lemma_builders_are_the_steps(
    step: BuildersStep,
    r: Result<(), Halt>,
    now: Map<Seq<char>, Store>,
)
    requires
        builders_stepped(step, r, now),
    ensures
        step is Done <==> r is Ok,
        step matches BuildersStep::Done(m) ==> now == m,
        step matches BuildersStep::Failed(m, e) ==> now == m && (r matches Err(Halt::Failed(error))
            && error@ == e),
        step is Broken <==> (r matches Err(Halt::Broken)),
{
}

/// A step of one column of a struct leaves the other columns, the fields and the structs as they
/// are.
pub proof fn lemma_child_steps_leave_the_others(
    fields: Seq<FieldView>,
    children: Seq<Store>,
    validity: Seq<bool>,
    i: int,
    step: Step,
    r: Result<(), Halt>,
    now: Store,
)
    requires
        0 <= i < children.len(),
        child_stepped(Store::Struct { fields, children, validity }, i, step, r, now),
    ensures
        step is Done <==> r is Ok,
        step matches Step::Done(s) ==> (now matches Store::Struct {
            fields: f,
            children: c,
            validity: v,
        } && f == fields && v == validity && c.len() == children.len() && c[i] == s && (forall|
            k: int,
        |
            0 <= k < c.len() && k != i ==> (#[trigger] c[k]) == children[k])),
{
}

/// A type is read just where the reading is that type, and an error comes just where the reading
/// has none.
pub proof fn lemma_types_are_the_readings(
    r: Result<DataType, TypeFault>,
    a: Result<DataType, Error>,
    reading: TypeReading,
)
    ensures
        reads(r, reading) ==> (r is Ok <==> reading is Type) && (r matches Ok(t) ==> reading
            == TypeReading::Type(t@)) && (r matches Err(TypeFault::Unsupported(name)) ==> reading
            == TypeReading::Unsupported(name@)),
        answers(a, reading) ==> (a is Ok <==> reading is Type) && (a matches Ok(t) ==> reading
            == TypeReading::Type(t@)) && (a matches Err(e) ==> (
        reading matches TypeReading::Unsupported(name) && e@ == ErrorView::UnsupportedTrinoType(
            name,
        ))),
{
}

/// A new builder has what a new builder for its type has.
pub proof fn lemma_builders_are_new(r: Result<ColumnBuilder, Error>, t: TypeView)
    requires
        is_fresh(r, t),
    ensures
        r is Ok <==> crate::rows::fresh(t) is Some,
        r matches Ok(b) ==> crate::rows::fresh(t) == Some(builder_store(b)),
{
}

/// Lists of texts and optional texts stand for their characters, each in its place.
pub proof fn lemma_texts_are_whole(
    strings: Seq<String>,
    entries: Seq<(String, String)>,
    s: String,
    i: int,
)
    ensures
        texts(strings).len() == strings.len(),
        0 <= i < strings.len() ==> texts(strings)[i] == strings[i]@,
        entries_view(entries).len() == entries.len(),
        0 <= i < entries.len() ==> entries_view(entries)[i] == (entries[i].0@, entries[i].1@),
        option_text(Some(s)) == Some(s@),
        option_text(None) is None,
        text(Some(s)) == Some(s@),
        text(None) is None,
{
}

/// A pool asks for the next page after 50 milliseconds, and a record batch has 4000 rows at most. A
/// status has three digits.
pub proof fn lemma_constants(status: u16)
    ensures
        crate::trinoconn::POLL_MILLIS == 50,
        crate::trinoconn::CHUNK_SIZE == 4_000,
        crate::trinodbpool::is_status(status) <==> 100 <= status <= 999,
{
}

} // verus!
