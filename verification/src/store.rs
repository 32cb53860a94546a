//! What column builders and columns hold, as mathematical values.

use crate::types::{FieldView, TimeUnit, TypeView};
use vstd::prelude::*;
use vstd::utf8::encode_utf8;

verus! {

/// The cells of a column, `None` for a null.
pub enum Store {
    Boolean(Seq<Option<bool>>),
    Int8(Seq<Option<i8>>),
    Int16(Seq<Option<i16>>),
    Int32(Seq<Option<i32>>),
    Int64(Seq<Option<i64>>),
    /// By their bits.
    Float32(Seq<Option<u32>>),
    /// By their bits.
    Float64(Seq<Option<u64>>),
    Utf8(Seq<Option<Seq<char>>>),
    LargeUtf8(Seq<Option<Seq<char>>>),
    Binary(Seq<Option<Seq<u8>>>),
    /// Days since 1970-01-01.
    Date32(Seq<Option<i32>>),
    /// Nanoseconds since midnight.
    Time64(Seq<Option<i64>>),
    /// Microseconds since 1970-01-01T00:00:00Z.
    Timestamp(Seq<Option<i64>>),
    Decimal128 { precision: u8, scale: i8, cells: Seq<Option<i128>> },
    /// Each cell by its 32 bytes, the lowest first.
    Decimal256 { precision: u8, scale: i8, cells: Seq<Option<Seq<u8>>> },
    /// Nothing but nulls: how many.
    Null(nat),
    /// Lists over items of any type, without a list so far.
    List(Box<Store>),
    /// Lists of texts: the items of all lists, and for each list where it ends and whether it is
    /// one.
    TextList { items: Seq<Option<Seq<char>>>, slots: Seq<(nat, bool)> },
    /// Structs: the fields, their columns, and which structs are there.
    Struct { fields: Seq<FieldView>, children: Seq<Store>, validity: Seq<bool> },
    /// Maps over keys and values of any type, without a map so far.
    MapOf(Box<Store>, Box<Store>),
    /// Maps from text to text, in the way of `TextList`.
    TextMap {
        keys: Seq<Option<Seq<char>>>,
        values: Seq<Option<Seq<char>>>,
        slots: Seq<(nat, bool)>,
    },
}

/// How many bytes the texts of a column take.
pub open spec fn text_bytes(cells: Seq<Option<Seq<char>>>) -> nat
    decreases cells.len(),
{
    if cells.len() == 0 {
        0
    } else {
        text_bytes(cells.drop_last()) + cell_bytes(cells.last())
    }
}

/// How many bytes the text of a cell takes.
pub open spec fn cell_bytes(cell: Option<Seq<char>>) -> nat {
    match cell {
        Some(s) => encode_utf8(s).len(),
        None => 0,
    }
}

/// How many bytes the cells of a binary column take.
pub open spec fn binary_bytes(cells: Seq<Option<Seq<u8>>>) -> nat
    decreases cells.len(),
{
    if cells.len() == 0 {
        0
    } else {
        binary_bytes(cells.drop_last()) + match cells.last() {
            Some(b) => b.len(),
            None => 0,
        }
    }
}

/// A nullable list item of some type.
pub open spec fn item_field(data_type: TypeView) -> FieldView {
    FieldView { name: "item"@, data_type, nullable: true }
}

/// The entries of a map, as the type of a finished column names them.
pub open spec fn entries_field(keys: TypeView, values: TypeView) -> FieldView {
    FieldView {
        name: "entries"@,
        data_type: TypeView::Struct(
            seq![
                FieldView { name: "keys"@, data_type: keys, nullable: false },
                FieldView { name: "values"@, data_type: values, nullable: true },
            ],
        ),
        nullable: false,
    }
}

/// The type of a finished column.
pub open spec fn store_type(s: Store) -> TypeView
    decreases s,
{
    match s {
        Store::Boolean(_) => TypeView::Boolean,
        Store::Int8(_) => TypeView::Int8,
        Store::Int16(_) => TypeView::Int16,
        Store::Int32(_) => TypeView::Int32,
        Store::Int64(_) => TypeView::Int64,
        Store::Float32(_) => TypeView::Float32,
        Store::Float64(_) => TypeView::Float64,
        Store::Utf8(_) => TypeView::Utf8,
        Store::LargeUtf8(_) => TypeView::LargeUtf8,
        Store::Binary(_) => TypeView::Binary,
        Store::Date32(_) => TypeView::Date32,
        Store::Time64(_) => TypeView::Time64(TimeUnit::Nanosecond),
        Store::Timestamp(_) => TypeView::Timestamp(TimeUnit::Microsecond, None),
        Store::Decimal128 { precision, scale, .. } => TypeView::Decimal128(precision, scale),
        Store::Decimal256 { precision, scale, .. } => TypeView::Decimal256(precision, scale),
        Store::Null(_) => TypeView::Null,
        Store::List(items) => TypeView::List(Box::new(item_field(store_type(*items)))),
        Store::TextList { .. } => TypeView::List(Box::new(item_field(TypeView::Utf8))),
        Store::Struct { fields, .. } => TypeView::Struct(fields),
        Store::MapOf(keys, values) => TypeView::MapOf(
            Box::new(entries_field(store_type(*keys), store_type(*values))),
            false,
        ),
        Store::TextMap { .. } => TypeView::MapOf(
            Box::new(entries_field(TypeView::Utf8, TypeView::Utf8)),
            false,
        ),
    }
}

/// How many cells a column has.
pub open spec fn store_len(s: Store) -> nat {
    match s {
        Store::Boolean(cells) => cells.len(),
        Store::Int8(cells) => cells.len(),
        Store::Int16(cells) => cells.len(),
        Store::Int32(cells) => cells.len(),
        Store::Int64(cells) => cells.len(),
        Store::Float32(cells) => cells.len(),
        Store::Float64(cells) => cells.len(),
        Store::Utf8(cells) => cells.len(),
        Store::LargeUtf8(cells) => cells.len(),
        Store::Binary(cells) => cells.len(),
        Store::Date32(cells) => cells.len(),
        Store::Time64(cells) => cells.len(),
        Store::Timestamp(cells) => cells.len(),
        Store::Decimal128 { cells, .. } => cells.len(),
        Store::Decimal256 { cells, .. } => cells.len(),
        Store::Null(n) => n,
        Store::List(_) => 0,
        Store::TextList { slots, .. } => slots.len(),
        Store::Struct { validity, .. } => validity.len(),
        Store::MapOf(_, _) => 0,
        Store::TextMap { slots, .. } => slots.len(),
    }
}

/// Whether the `i`-th cell is a null.
pub open spec fn null_at(s: Store, i: int) -> bool {
    match s {
        Store::Boolean(cells) => cells[i] is None,
        Store::Int8(cells) => cells[i] is None,
        Store::Int16(cells) => cells[i] is None,
        Store::Int32(cells) => cells[i] is None,
        Store::Int64(cells) => cells[i] is None,
        Store::Float32(cells) => cells[i] is None,
        Store::Float64(cells) => cells[i] is None,
        Store::Utf8(cells) => cells[i] is None,
        Store::LargeUtf8(cells) => cells[i] is None,
        Store::Binary(cells) => cells[i] is None,
        Store::Date32(cells) => cells[i] is None,
        Store::Time64(cells) => cells[i] is None,
        Store::Timestamp(cells) => cells[i] is None,
        Store::Decimal128 { cells, .. } => cells[i] is None,
        Store::Decimal256 { cells, .. } => cells[i] is None,
        Store::Null(_) => true,
        Store::List(_) => false,
        Store::TextList { slots, .. } => !slots[i].1,
        Store::Struct { validity, .. } => !validity[i],
        Store::MapOf(_, _) => false,
        Store::TextMap { slots, .. } => !slots[i].1,
    }
}

/// Whether a column marks one of its cells as null. A column of nulls alone marks none.
pub open spec fn has_nulls(s: Store) -> bool {
    !(s is Null) && exists|i: int| 0 <= i < store_len(s) && #[trigger] null_at(s, i)
}

/// Whether the column of a struct's field can stand in it: it has the field's type, it is as
/// long as the struct's column, and it has a null in a field that takes none only where there is
/// no struct.
pub open spec fn child_fits(field: FieldView, child: Store, validity: Seq<bool>) -> bool {
    &&& store_type(child) == field.data_type
    &&& store_len(child) == validity.len()
    &&& field.nullable || forall|j: int|
        0 <= j < validity.len() && #[trigger] null_at(child, j) ==> !validity[j]
}

/// Whether a builder can be finished.
pub open spec fn finishable(s: Store) -> bool
    decreases s,
{
    match s {
        Store::List(items) => finishable(*items),
        Store::Struct { fields, children, validity } => {
            &&& fields.len() == children.len()
            &&& forall|i: int|
                0 <= i < children.len() ==> finishable(#[trigger] children[i]) && child_fits(
                    fields[i],
                    children[i],
                    validity,
                )
        },
        Store::MapOf(keys, values) => {
            &&& finishable(*keys)
            &&& finishable(*values)
            &&& store_len(*keys) == store_len(*values)
            &&& forall|i: int| 0 <= i < store_len(*keys) ==> !#[trigger] null_at(*keys, i)
        },
        Store::TextMap { keys, values, .. } => {
            &&& keys.len() == values.len()
            &&& forall|i: int| 0 <= i < keys.len() ==> (#[trigger] keys[i]) is Some
        },
        _ => true,
    }
}

/// A column of `Boolean` cells after one more, where it is one.
pub open spec fn with_boolean(s: Store, cell: Option<bool>) -> Option<Store> {
    match s {
        Store::Boolean(cells) => Some(Store::Boolean(cells.push(cell))),
        _ => None,
    }
}

/// A column of `Int8` cells after one more, where it is one.
pub open spec fn with_int8(s: Store, cell: Option<i8>) -> Option<Store> {
    match s {
        Store::Int8(cells) => Some(Store::Int8(cells.push(cell))),
        _ => None,
    }
}

/// A column of `Int16` cells after one more, where it is one.
pub open spec fn with_int16(s: Store, cell: Option<i16>) -> Option<Store> {
    match s {
        Store::Int16(cells) => Some(Store::Int16(cells.push(cell))),
        _ => None,
    }
}

/// A column of `Int32` cells after one more, where it is one.
pub open spec fn with_int32(s: Store, cell: Option<i32>) -> Option<Store> {
    match s {
        Store::Int32(cells) => Some(Store::Int32(cells.push(cell))),
        _ => None,
    }
}

/// A column of `Int64` cells after one more, where it is one.
pub open spec fn with_int64(s: Store, cell: Option<i64>) -> Option<Store> {
    match s {
        Store::Int64(cells) => Some(Store::Int64(cells.push(cell))),
        _ => None,
    }
}

/// A column of `Float32` cells after one more, where it is one.
pub open spec fn with_float32(s: Store, cell: Option<u32>) -> Option<Store> {
    match s {
        Store::Float32(cells) => Some(Store::Float32(cells.push(cell))),
        _ => None,
    }
}

/// A column of `Float64` cells after one more, where it is one.
pub open spec fn with_float64(s: Store, cell: Option<u64>) -> Option<Store> {
    match s {
        Store::Float64(cells) => Some(Store::Float64(cells.push(cell))),
        _ => None,
    }
}

/// A column of `Utf8` cells after one more, where it is one.
pub open spec fn with_utf8(s: Store, cell: Option<Seq<char>>) -> Option<Store> {
    match s {
        Store::Utf8(cells) => Some(Store::Utf8(cells.push(cell))),
        _ => None,
    }
}

/// A column of `LargeUtf8` cells after one more, where it is one.
pub open spec fn with_large_utf8(s: Store, cell: Option<Seq<char>>) -> Option<Store> {
    match s {
        Store::LargeUtf8(cells) => Some(Store::LargeUtf8(cells.push(cell))),
        _ => None,
    }
}

/// A column of `Binary` cells after one more, where it is one.
pub open spec fn with_binary(s: Store, cell: Option<Seq<u8>>) -> Option<Store> {
    match s {
        Store::Binary(cells) => Some(Store::Binary(cells.push(cell))),
        _ => None,
    }
}

/// A column of `Date32` cells after one more, where it is one.
pub open spec fn with_date32(s: Store, cell: Option<i32>) -> Option<Store> {
    match s {
        Store::Date32(cells) => Some(Store::Date32(cells.push(cell))),
        _ => None,
    }
}

/// A column of `Time64` cells after one more, where it is one.
pub open spec fn with_time64(s: Store, cell: Option<i64>) -> Option<Store> {
    match s {
        Store::Time64(cells) => Some(Store::Time64(cells.push(cell))),
        _ => None,
    }
}

/// A column of `Timestamp` cells after one more, where it is one.
pub open spec fn with_timestamp(s: Store, cell: Option<i64>) -> Option<Store> {
    match s {
        Store::Timestamp(cells) => Some(Store::Timestamp(cells.push(cell))),
        _ => None,
    }
}

/// A column of `Decimal128` cells after one more, where it is one.
pub open spec fn with_decimal128(s: Store, cell: Option<i128>) -> Option<Store> {
    match s {
        Store::Decimal128 { precision, scale, cells } => Some(
            Store::Decimal128 { precision, scale, cells: cells.push(cell) },
        ),
        _ => None,
    }
}

/// A column of `Decimal256` cells after one more, where it is one.
pub open spec fn with_decimal256(s: Store, cell: Option<Seq<u8>>) -> Option<Store> {
    match s {
        Store::Decimal256 { precision, scale, cells } => Some(
            Store::Decimal256 { precision, scale, cells: cells.push(cell) },
        ),
        _ => None,
    }
}

/// A column of nulls after one more, where it is one.
pub open spec fn with_null(s: Store) -> Option<Store> {
    match s {
        Store::Null(n) => Some(Store::Null(n + 1)),
        _ => None,
    }
}

/// A column of structs after one more is marked as there or not, where it is one.
pub open spec fn with_struct(s: Store, valid: bool) -> Option<Store> {
    match s {
        Store::Struct { fields, children, validity } => Some(
            Store::Struct { fields, children, validity: validity.push(valid) },
        ),
        _ => None,
    }
}

} // verus!
