//! Arrow's column builders, and the columns that they finish.

use crate::arrow_types::arrow_fields_view;
use crate::store::{
    binary_bytes, cell_bytes, child_fits, finishable, has_nulls, store_len, store_type, text_bytes,
    with_binary, with_boolean, with_date32, with_decimal128, with_decimal256, with_float32,
    with_float64, with_int16, with_int32, with_int64, with_int8, with_large_utf8, with_null,
    with_struct, with_time64, with_timestamp, with_utf8, Store,
};
use crate::types::FieldView;
use arrow::array::{
    ArrayBuilder, ArrayRef, BinaryBuilder, BooleanBuilder, Date32Builder, Decimal128Builder,
    Decimal256Builder, Float32Builder, Float64Builder, Int16Builder, Int32Builder, Int64Builder,
    Int8Builder, LargeStringBuilder, ListBuilder, MapBuilder, NullBuilder, RecordBatch,
    StringBuilder, StructArray, StructBuilder, Time64NanosecondBuilder, TimestampMicrosecondBuilder,
};
use arrow::datatypes::i256;
use arrow::datatypes::Field as ArrowField;
use arrow::datatypes::Fields as ArrowFields;
use arrow::datatypes::{ArrowPrimitiveType, Float32Type, Float64Type, Schema};
use arrow::error::ArrowError;
use std::sync::Arc;
use vstd::prelude::*;

verus! {

/// A builder of one column.
#[verifier::external_body]
pub struct ColumnBuilder(Box<dyn ArrayBuilder>);

/// A finished column.
#[verifier::external_body]
pub struct ColumnArray(ArrayRef);

/// A record batch.
#[verifier::external_body]
pub struct Batch(pub RecordBatch);

/// The cells that a builder has taken.
pub uninterp spec fn builder_store(b: ColumnBuilder) -> Store;

/// The cells of a column.
pub uninterp spec fn array_store(a: ColumnArray) -> Store;

/// The fields of a record batch.
pub uninterp spec fn batch_fields(b: Batch) -> Seq<FieldView>;

/// The columns of a record batch.
pub uninterp spec fn batch_columns(b: Batch) -> Seq<Store>;

/// How many rows a record batch has.
pub uninterp spec fn batch_rows(b: Batch) -> nat;

/// What Arrow says of columns that make up no record batch.
pub uninterp spec fn batch_fault(fields: Seq<FieldView>, columns: Seq<Store>) -> ArrowError;

/// What Arrow says of a precision and a scale that it does not take for 128 bits.
pub uninterp spec fn decimal128_fault(precision: u8, scale: i8) -> ArrowError;

/// What Arrow says of a precision and a scale that it does not take for 256 bits.
pub uninterp spec fn decimal256_fault(precision: u8, scale: i8) -> ArrowError;

/// What Arrow says of a map with so many keys, and another count of values.
pub uninterp spec fn map_fault(keys: nat, values: nat) -> ArrowError;

/// The cells of several builders.
pub open spec fn builder_stores(builders: Seq<ColumnBuilder>) -> Seq<Store> {
    Seq::new(builders.len(), |i: int| builder_store(builders[i]))
}

/// The cells of several columns.
pub open spec fn array_stores(arrays: Seq<ColumnArray>) -> Seq<Store> {
    Seq::new(arrays.len(), |i: int| array_store(arrays[i]))
}

/// Whether room for so many cells of so many bytes can be asked for. Arrow rounds the size up to
/// whole lines of its own.
pub open spec fn has_room(capacity: int, width: int) -> bool {
    capacity * width + 256 <= isize::MAX
}

/// A builder's cells after one more, where the builder is of the right kind.
pub open spec fn pushed(before: Store, after: Option<Store>, r: bool, now: Store) -> bool {
    match after {
        Some(s) => r && now == s,
        None => !r && now == before,
    }
}

/// `BooleanBuilder::with_capacity`: a builder without cells.
#[verifier::external_body]
pub(crate) fn new_boolean(capacity: usize) -> (r: ColumnBuilder)
    requires
        has_room(capacity as int, 1),
    ensures
        builder_store(r) == Store::Boolean(seq![]),
{
    ColumnBuilder(Box::new(BooleanBuilder::with_capacity(capacity)))
}

/// `BooleanBuilder::append_option`: puts one cell at the end. `false`, and nothing done, for
/// another builder.
#[verifier::external_body]
pub(crate) fn push_boolean(b: &mut ColumnBuilder, cell: Option<bool>) -> (r: bool)
    ensures
        pushed(
            builder_store(*old(b)),
            with_boolean(builder_store(*old(b)), cell),
            r,
            builder_store(*final(b)),
        ),
{
    match b.0.as_any_mut().downcast_mut::<BooleanBuilder>() {
        Some(builder) => {
            builder.append_option(cell);
            true
        },
        None => false,
    }
}

/// `Int8Builder::with_capacity`: a builder without cells.
#[verifier::external_body]
pub(crate) fn new_int8(capacity: usize) -> (r: ColumnBuilder)
    requires
        has_room(capacity as int, 1),
    ensures
        builder_store(r) == Store::Int8(seq![]),
{
    ColumnBuilder(Box::new(Int8Builder::with_capacity(capacity)))
}

/// `Int8Builder::append_option`: puts one cell at the end. `false`, and nothing done, for another
/// builder.
#[verifier::external_body]
pub(crate) fn push_int8(b: &mut ColumnBuilder, cell: Option<i8>) -> (r: bool)
    ensures
        pushed(
            builder_store(*old(b)),
            with_int8(builder_store(*old(b)), cell),
            r,
            builder_store(*final(b)),
        ),
{
    match b.0.as_any_mut().downcast_mut::<Int8Builder>() {
        Some(builder) => {
            builder.append_option(cell);
            true
        },
        None => false,
    }
}

/// `Int16Builder::with_capacity`: a builder without cells.
#[verifier::external_body]
pub(crate) fn new_int16(capacity: usize) -> (r: ColumnBuilder)
    requires
        has_room(capacity as int, 2),
    ensures
        builder_store(r) == Store::Int16(seq![]),
{
    ColumnBuilder(Box::new(Int16Builder::with_capacity(capacity)))
}

/// `Int16Builder::append_option`: puts one cell at the end. `false`, and nothing done, for another
/// builder.
#[verifier::external_body]
pub(crate) fn push_int16(b: &mut ColumnBuilder, cell: Option<i16>) -> (r: bool)
    ensures
        pushed(
            builder_store(*old(b)),
            with_int16(builder_store(*old(b)), cell),
            r,
            builder_store(*final(b)),
        ),
{
    match b.0.as_any_mut().downcast_mut::<Int16Builder>() {
        Some(builder) => {
            builder.append_option(cell);
            true
        },
        None => false,
    }
}

/// `Int32Builder::with_capacity`: a builder without cells.
#[verifier::external_body]
pub(crate) fn new_int32(capacity: usize) -> (r: ColumnBuilder)
    requires
        has_room(capacity as int, 4),
    ensures
        builder_store(r) == Store::Int32(seq![]),
{
    ColumnBuilder(Box::new(Int32Builder::with_capacity(capacity)))
}

/// `Int32Builder::append_option`: puts one cell at the end. `false`, and nothing done, for another
/// builder.
#[verifier::external_body]
pub(crate) fn push_int32(b: &mut ColumnBuilder, cell: Option<i32>) -> (r: bool)
    ensures
        pushed(
            builder_store(*old(b)),
            with_int32(builder_store(*old(b)), cell),
            r,
            builder_store(*final(b)),
        ),
{
    match b.0.as_any_mut().downcast_mut::<Int32Builder>() {
        Some(builder) => {
            builder.append_option(cell);
            true
        },
        None => false,
    }
}

/// `Int64Builder::with_capacity`: a builder without cells.
#[verifier::external_body]
pub(crate) fn new_int64(capacity: usize) -> (r: ColumnBuilder)
    requires
        has_room(capacity as int, 8),
    ensures
        builder_store(r) == Store::Int64(seq![]),
{
    ColumnBuilder(Box::new(Int64Builder::with_capacity(capacity)))
}

/// `Int64Builder::append_option`: puts one cell at the end. `false`, and nothing done, for another
/// builder.
#[verifier::external_body]
pub(crate) fn push_int64(b: &mut ColumnBuilder, cell: Option<i64>) -> (r: bool)
    ensures
        pushed(
            builder_store(*old(b)),
            with_int64(builder_store(*old(b)), cell),
            r,
            builder_store(*final(b)),
        ),
{
    match b.0.as_any_mut().downcast_mut::<Int64Builder>() {
        Some(builder) => {
            builder.append_option(cell);
            true
        },
        None => false,
    }
}

/// `Date32Builder::with_capacity`: a builder without cells.
#[verifier::external_body]
pub(crate) fn new_date32(capacity: usize) -> (r: ColumnBuilder)
    requires
        has_room(capacity as int, 4),
    ensures
        builder_store(r) == Store::Date32(seq![]),
{
    ColumnBuilder(Box::new(Date32Builder::with_capacity(capacity)))
}

/// `Date32Builder::append_option`: puts one cell at the end. `false`, and nothing done, for another
/// builder.
#[verifier::external_body]
pub(crate) fn push_date32(b: &mut ColumnBuilder, cell: Option<i32>) -> (r: bool)
    ensures
        pushed(
            builder_store(*old(b)),
            with_date32(builder_store(*old(b)), cell),
            r,
            builder_store(*final(b)),
        ),
{
    match b.0.as_any_mut().downcast_mut::<Date32Builder>() {
        Some(builder) => {
            builder.append_option(cell);
            true
        },
        None => false,
    }
}

/// `Time64NanosecondBuilder::with_capacity`: a builder without cells.
#[verifier::external_body]
pub(crate) fn new_time64(capacity: usize) -> (r: ColumnBuilder)
    requires
        has_room(capacity as int, 8),
    ensures
        builder_store(r) == Store::Time64(seq![]),
{
    ColumnBuilder(Box::new(Time64NanosecondBuilder::with_capacity(capacity)))
}

/// `Time64NanosecondBuilder::append_option`: puts one cell at the end. `false`, and nothing done,
/// for another builder.
#[verifier::external_body]
pub(crate) fn push_time64(b: &mut ColumnBuilder, cell: Option<i64>) -> (r: bool)
    ensures
        pushed(
            builder_store(*old(b)),
            with_time64(builder_store(*old(b)), cell),
            r,
            builder_store(*final(b)),
        ),
{
    match b.0.as_any_mut().downcast_mut::<Time64NanosecondBuilder>() {
        Some(builder) => {
            builder.append_option(cell);
            true
        },
        None => false,
    }
}

/// `TimestampMicrosecondBuilder::with_capacity`: a builder without cells.
#[verifier::external_body]
pub(crate) fn new_timestamp(capacity: usize) -> (r: ColumnBuilder)
    requires
        has_room(capacity as int, 8),
    ensures
        builder_store(r) == Store::Timestamp(seq![]),
{
    ColumnBuilder(Box::new(TimestampMicrosecondBuilder::with_capacity(capacity)))
}

/// `TimestampMicrosecondBuilder::append_option`: puts one cell at the end. `false`, and nothing
/// done, for another builder.
#[verifier::external_body]
pub(crate) fn push_timestamp(b: &mut ColumnBuilder, cell: Option<i64>) -> (r: bool)
    ensures
        pushed(
            builder_store(*old(b)),
            with_timestamp(builder_store(*old(b)), cell),
            r,
            builder_store(*final(b)),
        ),
{
    match b.0.as_any_mut().downcast_mut::<TimestampMicrosecondBuilder>() {
        Some(builder) => {
            builder.append_option(cell);
            true
        },
        None => false,
    }
}

/// Whether a builder is a `Date32Builder`.
#[verifier::external_body]
pub(crate) fn is_date32(b: &ColumnBuilder) -> (r: bool)
    ensures
        r == (builder_store(*b) is Date32),
{
    b.0.as_any().is::<Date32Builder>()
}

/// Whether a builder is a `Time64NanosecondBuilder`.
#[verifier::external_body]
pub(crate) fn is_time64(b: &ColumnBuilder) -> (r: bool)
    ensures
        r == (builder_store(*b) is Time64),
{
    b.0.as_any().is::<Time64NanosecondBuilder>()
}

/// Whether a builder is a `TimestampMicrosecondBuilder`.
#[verifier::external_body]
pub(crate) fn is_timestamp(b: &ColumnBuilder) -> (r: bool)
    ensures
        r == (builder_store(*b) is Timestamp),
{
    b.0.as_any().is::<TimestampMicrosecondBuilder>()
}

/// Whether a builder is a `Decimal128Builder`.
#[verifier::external_body]
pub(crate) fn is_decimal128(b: &ColumnBuilder) -> (r: bool)
    ensures
        r == (builder_store(*b) is Decimal128),
{
    b.0.as_any().is::<Decimal128Builder>()
}

/// Whether a builder is a `Decimal256Builder`.
#[verifier::external_body]
pub(crate) fn is_decimal256(b: &ColumnBuilder) -> (r: bool)
    ensures
        r == (builder_store(*b) is Decimal256),
{
    b.0.as_any().is::<Decimal256Builder>()
}

/// The bits of the single that `as` makes of the double with some bits: the nearest one, an
/// infinity where the double is too large.
pub uninterp spec fn single_of_double(bits: u64) -> u32;

/// The single of an optional double, both by their bits.
pub open spec fn cell_single(cell: Option<u64>) -> Option<u32> {
    match cell {
        Some(bits) => Some(single_of_double(bits)),
        None => None,
    }
}

/// `Float32Builder::with_capacity`: a builder without cells.
#[verifier::external_body]
pub(crate) fn new_float32(capacity: usize) -> (r: ColumnBuilder)
    requires
        has_room(capacity as int, 4),
    ensures
        builder_store(r) == Store::Float32(seq![]),
{
    ColumnBuilder(Box::new(Float32Builder::with_capacity(capacity)))
}

/// `Float32Builder::append_option`: puts one cell at the end, the single nearest to a finite
/// double. `false`, and nothing done, for another builder.
#[verifier::external_body]
pub(crate) fn push_float32(b: &mut ColumnBuilder, cell: Option<u64>) -> (r: bool)
    requires
        cell matches Some(bits) ==> crate::json::is_finite(bits),
    ensures
        pushed(
            builder_store(*old(b)),
            with_float32(
                builder_store(*old(b)),
                match cell {
                    Some(bits) => Some(single_of_double(bits)),
                    None => None,
                },
            ),
            r,
            builder_store(*final(b)),
        ),
{
    match b.0.as_any_mut().downcast_mut::<Float32Builder>() {
        Some(builder) => {
            let double = cell.map(<Float64Type as ArrowPrimitiveType>::Native::from_bits);
            builder.append_option(double.map(|d| d as <Float32Type as ArrowPrimitiveType>::Native));
            true
        },
        None => false,
    }
}

/// `Float64Builder::with_capacity`: a builder without cells.
#[verifier::external_body]
pub(crate) fn new_float64(capacity: usize) -> (r: ColumnBuilder)
    requires
        has_room(capacity as int, 8),
    ensures
        builder_store(r) == Store::Float64(seq![]),
{
    ColumnBuilder(Box::new(Float64Builder::with_capacity(capacity)))
}

/// `Float64Builder::append_option`: puts one cell at the end. `false`, and nothing done, for
/// another builder.
#[verifier::external_body]
pub(crate) fn push_float64(b: &mut ColumnBuilder, cell: Option<u64>) -> (r: bool)
    ensures
        pushed(
            builder_store(*old(b)),
            with_float64(builder_store(*old(b)), cell),
            r,
            builder_store(*final(b)),
        ),
{
    match b.0.as_any_mut().downcast_mut::<Float64Builder>() {
        Some(builder) => {
            builder.append_option(cell.map(<Float64Type as ArrowPrimitiveType>::Native::from_bits));
            true
        },
        None => false,
    }
}

/// The text of an optional cell.
pub open spec fn cell_text(cell: Option<&str>) -> Option<Seq<char>> {
    match cell {
        Some(s) => Some(s@),
        None => None,
    }
}

/// The bytes of an optional cell.
pub open spec fn cell_content(cell: Option<&[u8]>) -> Option<Seq<u8>> {
    match cell {
        Some(s) => Some(s@),
        None => None,
    }
}

/// `StringBuilder::with_capacity`: a builder without cells.
#[verifier::external_body]
pub(crate) fn new_utf8(capacity: usize, bytes: usize) -> (r: ColumnBuilder)
    requires
        has_room(capacity as int, 4),
        has_room(bytes as int, 1),
    ensures
        builder_store(r) == Store::Utf8(seq![]),
{
    ColumnBuilder(Box::new(StringBuilder::with_capacity(capacity, bytes)))
}

/// `StringBuilder::append_option`: puts one cell at the end. `false`, and nothing done, for another
/// builder. The offsets count up to `i32::MAX` bytes.
#[verifier::external_body]
pub(crate) fn push_utf8(b: &mut ColumnBuilder, cell: Option<&str>) -> (r: bool)
    requires
        builder_store(*old(b)) matches Store::Utf8(cells) ==> cell is Some ==> text_bytes(
            cells.push(cell_text(cell)),
        ) <= i32::MAX,
    ensures
        pushed(
            builder_store(*old(b)),
            with_utf8(builder_store(*old(b)), cell_text(cell)),
            r,
            builder_store(*final(b)),
        ),
{
    match b.0.as_any_mut().downcast_mut::<StringBuilder>() {
        Some(builder) => {
            builder.append_option(cell);
            true
        },
        None => false,
    }
}

/// `StringBuilder::values_slice`: how many bytes the cells take. Each append has kept them within
/// what the offsets can count. `None` for another builder.
#[verifier::external_body]
pub(crate) fn utf8_size(b: &ColumnBuilder) -> (r: Option<usize>)
    ensures
        match builder_store(*b) {
            Store::Utf8(cells) => r == Some(text_bytes(cells) as usize) && text_bytes(cells)
                <= i32::MAX,
            _ => r is None,
        },
{
    match b.0.as_any().downcast_ref::<StringBuilder>() {
        Some(builder) => Some(builder.values_slice().len()),
        None => None,
    }
}

/// `LargeStringBuilder::with_capacity`: a builder without cells.
#[verifier::external_body]
pub(crate) fn new_large_utf8(capacity: usize, bytes: usize) -> (r: ColumnBuilder)
    requires
        has_room(capacity as int, 8),
        has_room(bytes as int, 1),
    ensures
        builder_store(r) == Store::LargeUtf8(seq![]),
{
    ColumnBuilder(Box::new(LargeStringBuilder::with_capacity(capacity, bytes)))
}

/// `LargeStringBuilder::append_option`: puts one cell at the end. `false`, and nothing done, for
/// another builder.
#[verifier::external_body]
pub(crate) fn push_large_utf8(b: &mut ColumnBuilder, cell: Option<&str>) -> (r: bool)
    ensures
        pushed(
            builder_store(*old(b)),
            with_large_utf8(builder_store(*old(b)), cell_text(cell)),
            r,
            builder_store(*final(b)),
        ),
{
    match b.0.as_any_mut().downcast_mut::<LargeStringBuilder>() {
        Some(builder) => {
            builder.append_option(cell);
            true
        },
        None => false,
    }
}

/// `BinaryBuilder::with_capacity`: a builder without cells.
#[verifier::external_body]
pub(crate) fn new_binary(capacity: usize, bytes: usize) -> (r: ColumnBuilder)
    requires
        has_room(capacity as int, 4),
        has_room(bytes as int, 1),
    ensures
        builder_store(r) == Store::Binary(seq![]),
{
    ColumnBuilder(Box::new(BinaryBuilder::with_capacity(capacity, bytes)))
}

/// `BinaryBuilder::append_option`: puts one cell at the end. `false`, and nothing done, for another
/// builder. The offsets count up to `i32::MAX` bytes.
#[verifier::external_body]
pub(crate) fn push_binary(b: &mut ColumnBuilder, cell: Option<&[u8]>) -> (r: bool)
    requires
        builder_store(*old(b)) matches Store::Binary(cells) ==> cell is Some ==> binary_bytes(
            cells.push(cell_content(cell)),
        ) <= i32::MAX,
    ensures
        pushed(
            builder_store(*old(b)),
            with_binary(builder_store(*old(b)), cell_content(cell)),
            r,
            builder_store(*final(b)),
        ),
{
    match b.0.as_any_mut().downcast_mut::<BinaryBuilder>() {
        Some(builder) => {
            builder.append_option(cell);
            true
        },
        None => false,
    }
}

/// `BinaryBuilder::values_slice`: how many bytes the cells take. Each append has kept them within
/// what the offsets can count. `None` for another builder.
#[verifier::external_body]
pub(crate) fn binary_size(b: &ColumnBuilder) -> (r: Option<usize>)
    ensures
        match builder_store(*b) {
            Store::Binary(cells) => r == Some(binary_bytes(cells) as usize) && binary_bytes(cells)
                <= i32::MAX,
            _ => r is None,
        },
{
    match b.0.as_any().downcast_ref::<BinaryBuilder>() {
        Some(builder) => Some(builder.values_slice().len()),
        None => None,
    }
}

/// The precisions and scales that Arrow takes for a decimal type.
pub open spec fn decimal_fits(precision: u8, scale: i8, max: int) -> bool {
    &&& 1 <= precision <= max
    &&& scale <= max
    &&& scale > 0 ==> scale <= precision
}

/// `Decimal128Builder::with_capacity`: a builder without cells, of precision 38 and scale 10.
#[verifier::external_body]
pub(crate) fn new_decimal128(capacity: usize) -> (r: ColumnBuilder)
    requires
        has_room(capacity as int, 16),
    ensures
        builder_store(r) == (Store::Decimal128 { precision: 38, scale: 10, cells: seq![] }),
{
    ColumnBuilder(Box::new(Decimal128Builder::with_capacity(capacity)))
}

/// `Decimal128Builder::with_precision_and_scale` on a builder without cells: that precision and
/// scale, where Arrow takes them, and otherwise an error that tells of the two.
#[verifier::external_body]
pub(crate) fn sized_decimal128(capacity: usize, precision: u8, scale: i8) -> (r: Result<
    ColumnBuilder,
    ArrowError,
>)
    requires
        has_room(capacity as int, 16),
    ensures
        match r {
            Ok(b) => decimal_fits(precision, scale, 38) && builder_store(b) == (Store::Decimal128 {
                precision,
                scale,
                cells: seq![],
            }),
            Err(e) => !decimal_fits(precision, scale, 38) && e == decimal128_fault(
                precision,
                scale,
            ),
        },
{
    match Decimal128Builder::with_capacity(capacity).with_precision_and_scale(precision, scale) {
        Ok(builder) => Ok(ColumnBuilder(Box::new(builder))),
        Err(e) => Err(e),
    }
}

/// `Decimal128Builder::append_option`: puts one cell at the end. `false`, and nothing done, for
/// another builder.
#[verifier::external_body]
pub(crate) fn push_decimal128(b: &mut ColumnBuilder, cell: Option<i128>) -> (r: bool)
    ensures
        pushed(
            builder_store(*old(b)),
            with_decimal128(builder_store(*old(b)), cell),
            r,
            builder_store(*final(b)),
        ),
{
    match b.0.as_any_mut().downcast_mut::<Decimal128Builder>() {
        Some(builder) => {
            builder.append_option(cell);
            true
        },
        None => false,
    }
}

/// The bytes of an optional word.
pub open spec fn cell_word(cell: Option<[u8; 32]>) -> Option<Seq<u8>> {
    match cell {
        Some(w) => Some(w@),
        None => None,
    }
}

/// `Decimal256Builder::with_capacity`: a builder without cells, of precision 76 and scale 10.
#[verifier::external_body]
pub(crate) fn new_decimal256(capacity: usize) -> (r: ColumnBuilder)
    requires
        has_room(capacity as int, 32),
    ensures
        builder_store(r) == (Store::Decimal256 { precision: 76, scale: 10, cells: seq![] }),
{
    ColumnBuilder(Box::new(Decimal256Builder::with_capacity(capacity)))
}

/// `Decimal256Builder::with_precision_and_scale` on a builder without cells: that precision and
/// scale, where Arrow takes them, and otherwise an error that tells of the two.
#[verifier::external_body]
pub(crate) fn sized_decimal256(capacity: usize, precision: u8, scale: i8) -> (r: Result<
    ColumnBuilder,
    ArrowError,
>)
    requires
        has_room(capacity as int, 32),
    ensures
        match r {
            Ok(b) => decimal_fits(precision, scale, 76) && builder_store(b) == (Store::Decimal256 {
                precision,
                scale,
                cells: seq![],
            }),
            Err(e) => !decimal_fits(precision, scale, 76) && e == decimal256_fault(
                precision,
                scale,
            ),
        },
{
    match Decimal256Builder::with_capacity(capacity).with_precision_and_scale(precision, scale) {
        Ok(builder) => Ok(ColumnBuilder(Box::new(builder))),
        Err(e) => Err(e),
    }
}

/// `Decimal256Builder::append_option` with `i256::from_le_bytes`: puts one cell at the end.
/// `false`, and nothing done, for another builder.
#[verifier::external_body]
pub(crate) fn push_decimal256(b: &mut ColumnBuilder, cell: Option<[u8; 32]>) -> (r: bool)
    ensures
        pushed(
            builder_store(*old(b)),
            with_decimal256(builder_store(*old(b)), cell_word(cell)),
            r,
            builder_store(*final(b)),
        ),
{
    match b.0.as_any_mut().downcast_mut::<Decimal256Builder>() {
        Some(builder) => {
            builder.append_option(cell.map(i256::from_le_bytes));
            true
        },
        None => false,
    }
}

/// `NullBuilder::new`: a builder without cells.
#[verifier::external_body]
pub(crate) fn new_null() -> (r: ColumnBuilder)
    ensures
        builder_store(r) == Store::Null(0),
{
    ColumnBuilder(Box::new(NullBuilder::new()))
}

/// `NullBuilder::append_null`: counts one more null. `false`, and nothing done, for another
/// builder. The count is a `usize`.
#[verifier::external_body]
pub(crate) fn push_null(b: &mut ColumnBuilder) -> (r: bool)
    requires
        builder_store(*old(b)) matches Store::Null(n) ==> n < usize::MAX,
    ensures
        pushed(
            builder_store(*old(b)),
            with_null(builder_store(*old(b))),
            r,
            builder_store(*final(b)),
        ),
{
    match b.0.as_any_mut().downcast_mut::<NullBuilder>() {
        Some(builder) => {
            builder.append_null();
            true
        },
        None => false,
    }
}

/// `NullBuilder::len`: how many nulls a builder has counted. `None` for another builder.
#[verifier::external_body]
pub(crate) fn null_size(b: &ColumnBuilder) -> (r: Option<usize>)
    ensures
        match builder_store(*b) {
            Store::Null(n) => r == Some(n as usize) && n <= usize::MAX,
            _ => r is None,
        },
{
    match b.0.as_any().downcast_ref::<NullBuilder>() {
        Some(builder) => Some(builder.len()),
        None => None,
    }
}

/// `ArrayBuilder::len`: how many cells a builder has taken.
#[verifier::external_body]
pub(crate) fn builder_len(b: &ColumnBuilder) -> (r: usize)
    ensures
        r == store_len(builder_store(*b)),
{
    b.0.len()
}

/// `ListBuilder::new` over a builder that is known only as a builder.
#[verifier::external_body]
pub(crate) fn new_list(items: ColumnBuilder) -> (r: ColumnBuilder)
    requires
        store_len(builder_store(items)) == 0,
    ensures
        builder_store(r) == Store::List(Box::new(builder_store(items))),
{
    ColumnBuilder(Box::new(ListBuilder::new(items.0)))
}

/// `MapBuilder::new` over builders that are known only as builders.
#[verifier::external_body]
pub(crate) fn new_map(keys: ColumnBuilder, values: ColumnBuilder) -> (r: ColumnBuilder)
    requires
        store_len(builder_store(keys)) == 0,
    ensures
        builder_store(r) == Store::MapOf(
            Box::new(builder_store(keys)),
            Box::new(builder_store(values)),
        ),
{
    ColumnBuilder(Box::new(MapBuilder::new(None, keys.0, values.0)))
}

/// `StructBuilder::new`.
#[verifier::external_body]
pub(crate) fn new_struct(fields: Vec<ArrowField>, children: Vec<ColumnBuilder>) -> (r:
    ColumnBuilder)
    ensures
        builder_store(r) == (Store::Struct {
            fields: arrow_fields_view(fields@),
            children: builder_stores(children@),
            validity: seq![],
        }),
{
    let builders = children.into_iter().map(|c| c.0).collect();
    ColumnBuilder(Box::new(StructBuilder::new(ArrowFields::from(fields), builders)))
}

/// `StructBuilder::num_fields`: how many columns a struct builder has. `None` for another builder.
#[verifier::external_body]
pub(crate) fn struct_width(b: &ColumnBuilder) -> (r: Option<usize>)
    ensures
        match builder_store(*b) {
            Store::Struct { children, .. } => r == Some(children.len() as usize) && children.len()
                <= usize::MAX,
            _ => r is None,
        },
{
    match b.0.as_any().downcast_ref::<StructBuilder>() {
        Some(builder) => Some(builder.num_fields()),
        None => None,
    }
}

/// `StructBuilder::field_builders_mut`: the builder of one column changes places with another
/// builder. Nothing is done for a builder that is not of structs.
#[verifier::external_body]
pub(crate) fn swap_field(b: &mut ColumnBuilder, i: usize, other: &mut ColumnBuilder)
    requires
        builder_store(*old(b)) matches Store::Struct { children, .. } ==> i < children.len(),
    ensures
        match builder_store(*old(b)) {
            Store::Struct { fields, children, validity } => builder_store(*final(b))
                == (Store::Struct {
                fields,
                children: children.update(i as int, builder_store(*old(other))),
                validity,
            }) && builder_store(*final(other)) == children[i as int],
            _ => builder_store(*final(b)) == builder_store(*old(b)) && builder_store(*final(other))
                == builder_store(*old(other)),
        },
{
    if let Some(builder) = b.0.as_any_mut().downcast_mut::<StructBuilder>() {
        std::mem::swap(&mut builder.field_builders_mut()[i], &mut other.0);
    }
}

/// `StructBuilder::append`: marks one more struct as there or not. `false`, and nothing done, for
/// another builder.
#[verifier::external_body]
pub(crate) fn push_struct(b: &mut ColumnBuilder, valid: bool) -> (r: bool)
    ensures
        pushed(
            builder_store(*old(b)),
            with_struct(builder_store(*old(b)), valid),
            r,
            builder_store(*final(b)),
        ),
{
    match b.0.as_any_mut().downcast_mut::<StructBuilder>() {
        Some(builder) => {
            builder.append(valid);
            true
        },
        None => false,
    }
}

/// `ListBuilder::new` over a `StringBuilder`.
#[verifier::external_body]
pub(crate) fn new_text_list() -> (r: ColumnBuilder)
    ensures
        builder_store(r) == (Store::TextList { items: seq![], slots: seq![] }),
{
    ColumnBuilder(Box::new(ListBuilder::new(StringBuilder::new())))
}

/// `ListBuilder::values_ref`: how many bytes the items take, which each append has kept within what
/// the offsets can count, and how many items there are. `None` for another builder.
#[verifier::external_body]
pub(crate) fn text_list_size(b: &ColumnBuilder) -> (r: Option<(usize, usize)>)
    ensures
        match builder_store(*b) {
            Store::TextList { items, .. } => r == Some(
                (text_bytes(items) as usize, items.len() as usize),
            ) && text_bytes(items) <= i32::MAX && items.len() <= usize::MAX,
            _ => r is None,
        },
{
    match b.0.as_any().downcast_ref::<ListBuilder<StringBuilder>>() {
        Some(builder) => Some(
            (builder.values_ref().values_slice().len(), builder.values_ref().len()),
        ),
        None => None,
    }
}

/// `ListBuilder::values` and `StringBuilder::append_value`: puts one text into the list that is
/// being filled. The offsets count up to `i32::MAX` bytes. Nothing is done for another builder.
#[verifier::external_body]
pub(crate) fn push_list_item(b: &mut ColumnBuilder, item: &str)
    requires
        builder_store(*old(b)) matches Store::TextList { items, .. } ==> text_bytes(items)
            + cell_bytes(Some(item@)) <= i32::MAX,
    ensures
        builder_store(*final(b)) == (match builder_store(*old(b)) {
            Store::TextList { items, slots } => Store::TextList {
                items: items.push(Some(item@)),
                slots,
            },
            other => other,
        }),
{
    if let Some(builder) = b.0.as_any_mut().downcast_mut::<ListBuilder<StringBuilder>>() {
        builder.values().append_value(item);
    }
}

/// `ListBuilder::append`: ends the list that is being filled. The offsets count up to `i32::MAX`
/// items. Nothing is done for another builder.
#[verifier::external_body]
pub(crate) fn end_list(b: &mut ColumnBuilder, valid: bool)
    requires
        builder_store(*old(b)) matches Store::TextList { items, .. } ==> items.len() <= i32::MAX,
    ensures
        builder_store(*final(b)) == (match builder_store(*old(b)) {
            Store::TextList { items, slots } => Store::TextList {
                items,
                slots: slots.push((items.len(), valid)),
            },
            other => other,
        }),
{
    if let Some(builder) = b.0.as_any_mut().downcast_mut::<ListBuilder<StringBuilder>>() {
        builder.append(valid);
    }
}

/// `MapBuilder::new` over two `StringBuilder`s.
#[verifier::external_body]
pub(crate) fn new_text_map() -> (r: ColumnBuilder)
    ensures
        builder_store(r) == (Store::TextMap { keys: seq![], values: seq![], slots: seq![] }),
{
    ColumnBuilder(Box::new(MapBuilder::new(None, StringBuilder::new(), StringBuilder::new())))
}

/// `MapBuilder::entries`: how many bytes the keys and the values take, which each append has kept
/// within what the offsets can count, and how many keys there are. `None` for another builder.
#[verifier::external_body]
pub(crate) fn text_map_size(b: &mut ColumnBuilder) -> (r: Option<(usize, usize, usize)>)
    ensures
        builder_store(*final(b)) == builder_store(*old(b)),
        match builder_store(*old(b)) {
            Store::TextMap { keys, values, .. } => r == Some(
                (text_bytes(keys) as usize, text_bytes(values) as usize, keys.len() as usize),
            ) && text_bytes(keys) <= i32::MAX && text_bytes(values) <= i32::MAX && keys.len()
                <= usize::MAX,
            _ => r is None,
        },
{
    match b.0.as_any_mut().downcast_mut::<MapBuilder<StringBuilder, StringBuilder>>() {
        Some(builder) => {
            let (keys, values) = builder.entries();
            Some((keys.values_slice().len(), values.values_slice().len(), keys.len()))
        },
        None => None,
    }
}

/// `MapBuilder::keys` and `StringBuilder::append_value`: puts one key into the map that is being
/// filled. The offsets count up to `i32::MAX` bytes. Nothing is done for another builder.
#[verifier::external_body]
pub(crate) fn push_map_key(b: &mut ColumnBuilder, key: &str)
    requires
        builder_store(*old(b)) matches Store::TextMap { keys, .. } ==> text_bytes(keys)
            + cell_bytes(Some(key@)) <= i32::MAX,
    ensures
        builder_store(*final(b)) == (match builder_store(*old(b)) {
            Store::TextMap { keys, values, slots } => Store::TextMap {
                keys: keys.push(Some(key@)),
                values,
                slots,
            },
            other => other,
        }),
{
    if let Some(builder) = b.0.as_any_mut().downcast_mut::<
        MapBuilder<StringBuilder, StringBuilder>,
    >() {
        builder.keys().append_value(key);
    }
}

/// `MapBuilder::values` and `StringBuilder::append_value`: puts one value into the map that is
/// being filled. The offsets count up to `i32::MAX` bytes. Nothing is done for another builder.
#[verifier::external_body]
pub(crate) fn push_map_value(b: &mut ColumnBuilder, value: &str)
    requires
        builder_store(*old(b)) matches Store::TextMap { values, .. } ==> text_bytes(values)
            + cell_bytes(Some(value@)) <= i32::MAX,
    ensures
        builder_store(*final(b)) == (match builder_store(*old(b)) {
            Store::TextMap { keys, values, slots } => Store::TextMap {
                keys,
                values: values.push(Some(value@)),
                slots,
            },
            other => other,
        }),
{
    if let Some(builder) = b.0.as_any_mut().downcast_mut::<
        MapBuilder<StringBuilder, StringBuilder>,
    >() {
        builder.values().append_value(value);
    }
}

/// `MapBuilder::append`: ends the map that is being filled, unless it has more keys than values or
/// more values than keys: the error then tells of the two counts. The offsets count up to
/// `i32::MAX` keys. Nothing is done for another builder.
#[verifier::external_body]
pub(crate) fn end_map(b: &mut ColumnBuilder, valid: bool) -> (r: Result<(), ArrowError>)
    requires
        builder_store(*old(b)) matches Store::TextMap { keys, .. } ==> keys.len() <= i32::MAX,
    ensures
        match builder_store(*old(b)) {
            Store::TextMap { keys, values, slots } => if keys.len() == values.len() {
                r is Ok && builder_store(*final(b)) == (Store::TextMap {
                    keys,
                    values,
                    slots: slots.push((keys.len(), valid)),
                })
            } else {
                r == Err::<(), ArrowError>(map_fault(keys.len(), values.len())) && builder_store(
                    *final(b),
                ) == builder_store(*old(b))
            },
            other => r is Ok && builder_store(*final(b)) == other,
        },
{
    match b.0.as_any_mut().downcast_mut::<MapBuilder<StringBuilder, StringBuilder>>() {
        Some(builder) => builder.append(valid),
        None => Ok(()),
    }
}

/// `ArrayBuilder::finish`: the column of the cells that a builder has taken. It panics where a
/// struct's columns do not fit it, or a map has a key that is null.
#[verifier::external_body]
pub(crate) fn finish(b: ColumnBuilder) -> (r: ColumnArray)
    requires
        finishable(builder_store(b)),
    ensures
        array_store(r) == builder_store(b),
{
    let mut builder = b.0;
    ColumnArray(builder.finish())
}

/// A column of structs that are all there.
pub open spec fn whole_struct(fields: Seq<FieldView>, children: Seq<Store>) -> Store {
    Store::Struct {
        fields,
        children,
        validity: Seq::new(store_len(children[0]), |i: int| true),
    }
}

/// Whether columns make up a column of structs that are all there. There must be one.
pub open spec fn struct_fits(fields: Seq<FieldView>, children: Seq<Store>) -> bool {
    &&& children.len() > 0
    &&& fields.len() == children.len()
    &&& forall|i: int|
        0 <= i < children.len() ==> child_fits(
            #[trigger] fields[i],
            children[i],
            Seq::new(store_len(children[0]), |i: int| true),
        )
}

/// `StructArray::try_new` without a null buffer.
#[verifier::external_body]
pub(crate) fn struct_array(fields: Vec<ArrowField>, arrays: Vec<ColumnArray>) -> (r: Result<
    ColumnArray,
    ArrowError,
>)
    ensures
        match r {
            Ok(a) => struct_fits(arrow_fields_view(fields@), array_stores(arrays@)) && array_store(
                a,
            ) == whole_struct(arrow_fields_view(fields@), array_stores(arrays@)),
            Err(_) => !struct_fits(arrow_fields_view(fields@), array_stores(arrays@)),
        },
{
    let columns = arrays.into_iter().map(|a| a.0).collect();
    match StructArray::try_new(ArrowFields::from(fields), columns, None) {
        Ok(array) => Ok(ColumnArray(Arc::new(array))),
        Err(e) => Err(e),
    }
}

/// Whether columns make up a record batch: there is one for each field and at least one, all are of
/// one length, each has its field's type, and none has a null in a field that takes none.
pub open spec fn batch_fits(fields: Seq<FieldView>, columns: Seq<Store>) -> bool {
    &&& columns.len() > 0
    &&& fields.len() == columns.len()
    &&& forall|i: int|
        0 <= i < columns.len() ==> {
            &&& store_len(#[trigger] columns[i]) == store_len(columns[0])
            &&& store_type(columns[i]) == fields[i].data_type
            &&& fields[i].nullable || !has_nulls(columns[i])
        }
}

/// How many rows columns have. Without columns there are none.
pub open spec fn row_count(columns: Seq<Store>) -> nat {
    if columns.len() == 0 {
        0
    } else {
        store_len(columns[0])
    }
}

/// Whether a record batch has these fields and these columns, and as many rows as they.
pub open spec fn holds(b: Batch, fields: Seq<FieldView>, columns: Seq<Store>) -> bool {
    &&& batch_fields(b) == fields
    &&& batch_columns(b) == columns
    &&& batch_rows(b) == row_count(columns)
}

/// `RecordBatch::try_new` with `Schema::new`: the columns and as many rows as the first has, where
/// the columns make up a record batch, and otherwise an error that tells of the first thing amiss.
#[verifier::external_body]
pub(crate) fn try_batch(fields: Vec<ArrowField>, arrays: Vec<ColumnArray>) -> (r: Result<
    Batch,
    ArrowError,
>)
    ensures
        match r {
            Ok(b) => batch_fits(arrow_fields_view(fields@), array_stores(arrays@)) && holds(
                b,
                arrow_fields_view(fields@),
                array_stores(arrays@),
            ),
            Err(e) => !batch_fits(arrow_fields_view(fields@), array_stores(arrays@)) && e
                == batch_fault(arrow_fields_view(fields@), array_stores(arrays@)),
        },
{
    let columns = arrays.into_iter().map(|a| a.0).collect();
    match RecordBatch::try_new(Arc::new(Schema::new(fields)), columns) {
        Ok(batch) => Ok(Batch(batch)),
        Err(e) => Err(e),
    }
}

/// `RecordBatch::new_empty` with `Schema::empty`: no fields, no columns and no rows.
#[verifier::external_body]
pub(crate) fn empty_batch() -> (r: Batch)
    ensures
        batch_fields(r) == Seq::<FieldView>::empty(),
        batch_columns(r) == Seq::<Store>::empty(),
        batch_rows(r) == 0,
{
    Batch(RecordBatch::new_empty(Arc::new(Schema::empty())))
}

} // verus!
