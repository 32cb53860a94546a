//! The column types that Trino types map to, and the columns that carry them.

use std::sync::Arc;
use vstd::prelude::*;

verus! {

/// The unit of a time of day or a timestamp.
#[derive(Debug, Clone, Copy, PartialEq, Eq, Structural)]
pub enum TimeUnit {
    Microsecond,
    Nanosecond,
}

/// The type of a column.
#[derive(Debug, PartialEq)]
pub enum DataType {
    Null,
    Boolean,
    Int8,
    Int16,
    Int32,
    Int64,
    Float32,
    Float64,
    Utf8,
    LargeUtf8,
    Binary,
    Date32,
    Time64(TimeUnit),
    /// A timestamp, with the name of its time zone where it has one.
    Timestamp(TimeUnit, Option<String>),
    /// Precision and scale.
    Decimal128(u8, i8),
    /// Precision and scale.
    Decimal256(u8, i8),
    List(Arc<Field>),
    Struct(Vec<Field>),
    /// The entries, and whether their keys are sorted.
    MapOf(Arc<Field>, bool),
}

/// A named column of some type.
#[derive(Debug, PartialEq)]
pub struct Field {
    pub name: String,
    pub data_type: DataType,
    pub nullable: bool,
}

/// A column as Trino describes it.
#[derive(Debug)]
pub struct TrinoColumn {
    pub name: String,
    pub trino_type: String,
}

impl Clone for TrinoColumn {
    fn clone(&self) -> (r: TrinoColumn)
        ensures
            r == *self,
    {
        TrinoColumn { name: self.name.clone(), trino_type: self.trino_type.clone() }
    }
}

/// The mathematical value of a `DataType`.
pub enum TypeView {
    Null,
    Boolean,
    Int8,
    Int16,
    Int32,
    Int64,
    Float32,
    Float64,
    Utf8,
    LargeUtf8,
    Binary,
    Date32,
    Time64(TimeUnit),
    Timestamp(TimeUnit, Option<Seq<char>>),
    Decimal128(u8, i8),
    Decimal256(u8, i8),
    List(Box<FieldView>),
    Struct(Seq<FieldView>),
    MapOf(Box<FieldView>, bool),
}

/// The mathematical value of a `Field`.
pub struct FieldView {
    pub name: Seq<char>,
    pub data_type: TypeView,
    pub nullable: bool,
}

/// The mathematical value of a `TrinoColumn`.
pub struct ColumnView {
    pub name: Seq<char>,
    pub trino_type: Seq<char>,
}

/// The text of an optional string.
pub open spec fn option_text(s: Option<String>) -> Option<Seq<char>> {
    match s {
        Some(t) => Some(t@),
        None => None,
    }
}

impl DataType {
    pub open spec fn view(&self) -> TypeView
        decreases self,
    {
        match self {
            DataType::Null => TypeView::Null,
            DataType::Boolean => TypeView::Boolean,
            DataType::Int8 => TypeView::Int8,
            DataType::Int16 => TypeView::Int16,
            DataType::Int32 => TypeView::Int32,
            DataType::Int64 => TypeView::Int64,
            DataType::Float32 => TypeView::Float32,
            DataType::Float64 => TypeView::Float64,
            DataType::Utf8 => TypeView::Utf8,
            DataType::LargeUtf8 => TypeView::LargeUtf8,
            DataType::Binary => TypeView::Binary,
            DataType::Date32 => TypeView::Date32,
            DataType::Time64(unit) => TypeView::Time64(*unit),
            DataType::Timestamp(unit, zone) => TypeView::Timestamp(*unit, option_text(*zone)),
            DataType::Decimal128(precision, scale) => TypeView::Decimal128(*precision, *scale),
            DataType::Decimal256(precision, scale) => TypeView::Decimal256(*precision, *scale),
            DataType::List(item) => TypeView::List(Box::new(item.view())),
            DataType::Struct(fields) => TypeView::Struct(
                Seq::new(
                    fields@.len(),
                    |i: int|
                        if 0 <= i < fields@.len() {
                            fields@[i].view()
                        } else {
                            arbitrary()
                        },
                ),
            ),
            DataType::MapOf(entries, sorted) => TypeView::MapOf(Box::new(entries.view()), *sorted),
        }
    }
}

impl Field {
    pub open spec fn view(&self) -> FieldView
        decreases self,
    {
        FieldView { name: self.name@, data_type: self.data_type.view(), nullable: self.nullable }
    }
}

impl TrinoColumn {
    pub open spec fn view(&self) -> ColumnView {
        ColumnView { name: self.name@, trino_type: self.trino_type@ }
    }
}

/// The values of a list of fields.
pub open spec fn fields_view(fields: Seq<Field>) -> Seq<FieldView> {
    Seq::new(fields.len(), |i: int| fields[i]@)
}

/// The values of a list of columns.
pub open spec fn columns_view(columns: Seq<TrinoColumn>) -> Seq<ColumnView> {
    Seq::new(columns.len(), |i: int| columns[i]@)
}

/// The value of a struct type is made of the values of its fields.
pub proof fn lemma_struct_view(fields: Vec<Field>)
    ensures
        DataType::Struct(fields)@ == TypeView::Struct(fields_view(fields@)),
{
    assert(DataType::Struct(fields)@->Struct_0 =~= fields_view(fields@));
}

impl Field {
    /// A field.
    pub fn new(name: &str, data_type: DataType, nullable: bool) -> (r: Field)
        ensures
            r@ == (FieldView { name: name@, data_type: data_type@, nullable }),
    {
        Field { name: name.to_owned(), data_type, nullable }
    }
}

} // verus!
