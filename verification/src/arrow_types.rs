//! Column types as Arrow has them.

use crate::types::{fields_view, DataType, Field, FieldView, TimeUnit, TypeView};
use arrow::datatypes::DataType as ArrowType;
use arrow::datatypes::Field as ArrowField;
use arrow::datatypes::Fields as ArrowFields;
use arrow::datatypes::TimeUnit as ArrowUnit;
use std::sync::Arc;
use vstd::prelude::*;

verus! {

#[verifier::external_type_specification]
#[verifier::external_body]
pub struct ExArrowType(ArrowType);

#[verifier::external_type_specification]
#[verifier::external_body]
pub struct ExArrowField(ArrowField);

/// What an Arrow type says.
pub uninterp spec fn arrow_type_view(t: ArrowType) -> TypeView;

/// What an Arrow field says.
pub uninterp spec fn arrow_field_view(f: ArrowField) -> FieldView;

/// What a list of Arrow fields says.
pub open spec fn arrow_fields_view(fields: Seq<ArrowField>) -> Seq<FieldView> {
    Seq::new(fields.len(), |i: int| arrow_field_view(fields[i]))
}

/// Arrow's `DataType::Null`.
#[verifier::external_body]
fn arrow_null() -> (r: ArrowType)
    ensures
        arrow_type_view(r) == TypeView::Null,
{
    ArrowType::Null
}

/// Arrow's `DataType::Boolean`.
#[verifier::external_body]
fn arrow_boolean() -> (r: ArrowType)
    ensures
        arrow_type_view(r) == TypeView::Boolean,
{
    ArrowType::Boolean
}

/// Arrow's `DataType::Int8`.
#[verifier::external_body]
fn arrow_int8() -> (r: ArrowType)
    ensures
        arrow_type_view(r) == TypeView::Int8,
{
    ArrowType::Int8
}

/// Arrow's `DataType::Int16`.
#[verifier::external_body]
fn arrow_int16() -> (r: ArrowType)
    ensures
        arrow_type_view(r) == TypeView::Int16,
{
    ArrowType::Int16
}

/// Arrow's `DataType::Int32`.
#[verifier::external_body]
fn arrow_int32() -> (r: ArrowType)
    ensures
        arrow_type_view(r) == TypeView::Int32,
{
    ArrowType::Int32
}

/// Arrow's `DataType::Int64`.
#[verifier::external_body]
fn arrow_int64() -> (r: ArrowType)
    ensures
        arrow_type_view(r) == TypeView::Int64,
{
    ArrowType::Int64
}

/// Arrow's `DataType::Float32`.
#[verifier::external_body]
fn arrow_float32() -> (r: ArrowType)
    ensures
        arrow_type_view(r) == TypeView::Float32,
{
    ArrowType::Float32
}

/// Arrow's `DataType::Float64`.
#[verifier::external_body]
fn arrow_float64() -> (r: ArrowType)
    ensures
        arrow_type_view(r) == TypeView::Float64,
{
    ArrowType::Float64
}

/// Arrow's `DataType::Utf8`.
#[verifier::external_body]
fn arrow_utf8() -> (r: ArrowType)
    ensures
        arrow_type_view(r) == TypeView::Utf8,
{
    ArrowType::Utf8
}

/// Arrow's `DataType::LargeUtf8`.
#[verifier::external_body]
fn arrow_large_utf8() -> (r: ArrowType)
    ensures
        arrow_type_view(r) == TypeView::LargeUtf8,
{
    ArrowType::LargeUtf8
}

/// Arrow's `DataType::Binary`.
#[verifier::external_body]
fn arrow_binary() -> (r: ArrowType)
    ensures
        arrow_type_view(r) == TypeView::Binary,
{
    ArrowType::Binary
}

/// Arrow's `DataType::Date32`.
#[verifier::external_body]
fn arrow_date32() -> (r: ArrowType)
    ensures
        arrow_type_view(r) == TypeView::Date32,
{
    ArrowType::Date32
}

/// Arrow's `DataType::Time64` in microseconds.
#[verifier::external_body]
fn arrow_time64_micros() -> (r: ArrowType)
    ensures
        arrow_type_view(r) == TypeView::Time64(TimeUnit::Microsecond),
{
    ArrowType::Time64(ArrowUnit::Microsecond)
}

/// Arrow's `DataType::Time64` in nanoseconds.
#[verifier::external_body]
fn arrow_time64_nanos() -> (r: ArrowType)
    ensures
        arrow_type_view(r) == TypeView::Time64(TimeUnit::Nanosecond),
{
    ArrowType::Time64(ArrowUnit::Nanosecond)
}

/// The text of a time zone, where there is one.
pub open spec fn zone_text(zone: Option<&str>) -> Option<Seq<char>> {
    match zone {
        Some(z) => Some(z@),
        None => None,
    }
}

/// Arrow's `DataType::Timestamp` in microseconds, with a time zone by its name.
#[verifier::external_body]
fn arrow_timestamp_micros(zone: Option<&str>) -> (r: ArrowType)
    ensures
        arrow_type_view(r) == TypeView::Timestamp(TimeUnit::Microsecond, zone_text(zone)),
{
    ArrowType::Timestamp(ArrowUnit::Microsecond, zone.map(Arc::from))
}

/// Arrow's `DataType::Timestamp` in nanoseconds, with a time zone by its name.
#[verifier::external_body]
fn arrow_timestamp_nanos(zone: Option<&str>) -> (r: ArrowType)
    ensures
        arrow_type_view(r) == TypeView::Timestamp(TimeUnit::Nanosecond, zone_text(zone)),
{
    ArrowType::Timestamp(ArrowUnit::Nanosecond, zone.map(Arc::from))
}

/// Arrow's `DataType::Decimal128`.
#[verifier::external_body]
fn arrow_decimal128(precision: u8, scale: i8) -> (r: ArrowType)
    ensures
        arrow_type_view(r) == TypeView::Decimal128(precision, scale),
{
    ArrowType::Decimal128(precision, scale)
}

/// Arrow's `DataType::Decimal256`.
#[verifier::external_body]
fn arrow_decimal256(precision: u8, scale: i8) -> (r: ArrowType)
    ensures
        arrow_type_view(r) == TypeView::Decimal256(precision, scale),
{
    ArrowType::Decimal256(precision, scale)
}

/// Arrow's `DataType::List`.
#[verifier::external_body]
fn arrow_list(item: ArrowField) -> (r: ArrowType)
    ensures
        arrow_type_view(r) == TypeView::List(Box::new(arrow_field_view(item))),
{
    ArrowType::List(Arc::new(item))
}

/// Arrow's `DataType::Struct`.
#[verifier::external_body]
fn arrow_struct(fields: Vec<ArrowField>) -> (r: ArrowType)
    ensures
        arrow_type_view(r) == TypeView::Struct(arrow_fields_view(fields@)),
{
    ArrowType::Struct(ArrowFields::from(fields))
}

/// Arrow's `DataType::Map`.
#[verifier::external_body]
fn arrow_map(entries: ArrowField, sorted: bool) -> (r: ArrowType)
    ensures
        arrow_type_view(r) == TypeView::MapOf(Box::new(arrow_field_view(entries)), sorted),
{
    ArrowType::Map(Arc::new(entries), sorted)
}

/// Arrow's `Field::new`.
#[verifier::external_body]
fn arrow_field(name: &str, data_type: ArrowType, nullable: bool) -> (r: ArrowField)
    ensures
        arrow_field_view(r) == (FieldView {
            name: name@,
            data_type: arrow_type_view(data_type),
            nullable,
        }),
{
    ArrowField::new(name, data_type, nullable)
}

/// The text of an optional string, borrowed.
fn borrowed(s: &Option<String>) -> (r: Option<&str>)
    ensures
        zone_text(r) == crate::types::option_text(*s),
{
    match s {
        Some(t) => Some(t.as_str()),
        None => None,
    }
}

/// A column type as Arrow has it.
pub fn to_arrow_type(t: &DataType) -> (r: ArrowType)
    ensures
        arrow_type_view(r) == t@,
    decreases t, 0nat,
{
    match t {
        DataType::Null => arrow_null(),
        DataType::Boolean => arrow_boolean(),
        DataType::Int8 => arrow_int8(),
        DataType::Int16 => arrow_int16(),
        DataType::Int32 => arrow_int32(),
        DataType::Int64 => arrow_int64(),
        DataType::Float32 => arrow_float32(),
        DataType::Float64 => arrow_float64(),
        DataType::Utf8 => arrow_utf8(),
        DataType::LargeUtf8 => arrow_large_utf8(),
        DataType::Binary => arrow_binary(),
        DataType::Date32 => arrow_date32(),
        DataType::Time64(TimeUnit::Microsecond) => arrow_time64_micros(),
        DataType::Time64(TimeUnit::Nanosecond) => arrow_time64_nanos(),
        DataType::Timestamp(TimeUnit::Microsecond, zone) => arrow_timestamp_micros(borrowed(zone)),
        DataType::Timestamp(TimeUnit::Nanosecond, zone) => arrow_timestamp_nanos(borrowed(zone)),
        DataType::Decimal128(precision, scale) => arrow_decimal128(*precision, *scale),
        DataType::Decimal256(precision, scale) => arrow_decimal256(*precision, *scale),
        DataType::List(item) => arrow_list(to_arrow_field(item)),
        DataType::Struct(fields) => {
            let mut out: Vec<ArrowField> = Vec::new();
            for i in 0..fields.len()
                invariant
                    t == DataType::Struct(*fields),
                    out@.len() == i,
                    forall|j: int|
                        0 <= j < i ==> arrow_field_view(#[trigger] out@[j]) == fields@[j]@,
            {
                assert(decreases_to!(t => t->Struct_0));
                assert(decreases_to!(fields@ => fields@[i as int]));
                out.push(to_arrow_field(&fields[i]));
            }
            proof {
                crate::types::lemma_struct_view(*fields);
                assert(arrow_fields_view(out@) =~= fields_view(fields@));
            }
            arrow_struct(out)
        },
        DataType::MapOf(entries, sorted) => arrow_map(to_arrow_field(entries), *sorted),
    }
}

/// A field as Arrow has it.
pub fn to_arrow_field(f: &Field) -> (r: ArrowField)
    ensures
        arrow_field_view(r) == f@,
    decreases f, 0nat,
{
    let data_type = to_arrow_type(&f.data_type);
    arrow_field(f.name.as_str(), data_type, f.nullable)
}

/// A list of fields as Arrow has them.
pub fn to_arrow_fields(fields: &Vec<Field>) -> (r: Vec<ArrowField>)
    ensures
        arrow_fields_view(r@) == fields_view(fields@),
{
    let mut out: Vec<ArrowField> = Vec::new();
    for i in 0..fields.len()
        invariant
            out@.len() == i,
            forall|j: int| 0 <= j < i ==> arrow_field_view(#[trigger] out@[j]) == fields@[j]@,
    {
        out.push(to_arrow_field(&fields[i]));
    }
    assert(arrow_fields_view(out@) =~= fields_view(fields@));
    out
}

} // verus!
