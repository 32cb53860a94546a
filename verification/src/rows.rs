//! How rows of JSON values become a record batch.

use crate::arrow_types::to_arrow_fields;
use crate::builder::{
    array_store, array_stores, batch_fault, batch_fits, builder_len, builder_store, builder_stores,
    decimal128_fault, decimal256_fault, decimal_fits, empty_batch, finish, has_room, holds,
    new_binary, new_boolean, new_date32, new_decimal128, new_decimal256, new_float32, new_float64,
    new_int16, new_int32, new_int64, new_int8, new_large_utf8, new_list, new_map, new_null,
    new_struct, new_time64, new_timestamp, new_utf8, sized_decimal128, sized_decimal256,
    struct_array, struct_fits, swap_field, try_batch, whole_struct, Batch, ColumnArray,
    ColumnBuilder,
};
use crate::builder_map::BuilderMap;
use crate::flat::{
    built_for, is_flat, is_plain, is_scalar, lemma_append_keeps, lemma_fresh_built, lemma_plain,
    lemma_trino_types_are_flat, same_kind,
};
use crate::json::{json_items, JsonValue, JsonView};
use crate::schema::{read_type, trino_type, TypeFault, TypeReading};
use crate::store::{child_fits, finishable, store_len, Store};
use crate::text::{same_text, to_lowercase};
use crate::trino::{Error, ErrorView};
use crate::types::{
    columns_view, fields_view, lemma_struct_view, ColumnView, DataType, Field, FieldView, TimeUnit,
    TrinoColumn, TypeView,
};
use crate::values::{append_step, optional, Halt, Step};
use arrow::error::ArrowError;
use vstd::prelude::*;

verus! {

/// What the columns of a result say: the fields of the record batch, an error, or a type name
/// whose parentheses close before they open.
pub enum SchemaReading {
    Fields(Seq<FieldView>),
    Failed(ErrorView),
    Malformed,
}

/// What the first `k` columns say.
pub open spec fn schema_reading(columns: Seq<ColumnView>, k: nat) -> SchemaReading
    decreases k,
{
    if k == 0 {
        SchemaReading::Fields(seq![])
    } else {
        match schema_reading(columns, (k - 1) as nat) {
            SchemaReading::Fields(before) => {
                let column = columns[k - 1];
                match trino_type(column.trino_type) {
                    TypeReading::Type(data_type) => SchemaReading::Fields(
                        before.push(FieldView { name: column.name, data_type, nullable: true }),
                    ),
                    TypeReading::Unsupported(name) => SchemaReading::Failed(
                        ErrorView::UnsupportedTrinoType(name),
                    ),
                    TypeReading::Malformed => SchemaReading::Malformed,
                }
            },
            other => other,
        }
    }
}

/// The fields of the record batch for some columns.
pub open spec fn schema_of(columns: Seq<ColumnView>) -> SchemaReading {
    schema_reading(columns, columns.len())
}

proof fn lemma_schema_stuck(columns: Seq<ColumnView>, k: nat, n: nat)
    requires
        k <= n,
    ensures
        schema_reading(columns, k) !is Fields ==> schema_reading(columns, n) == schema_reading(
            columns,
            k,
        ),
    decreases n - k,
{
    if k < n {
        lemma_schema_stuck(columns, k, (n - 1) as nat);
    }
}

/// Reads the types of the columns.
fn read_schema(columns: &Vec<TrinoColumn>) -> (r: Result<Vec<Field>, TypeFault>)
    ensures
        match r {
            Ok(fields) => schema_of(columns_view(columns@)) == SchemaReading::Fields(
                fields_view(fields@),
            ),
            Err(TypeFault::Unsupported(name)) => schema_of(columns_view(columns@))
                == SchemaReading::Failed(ErrorView::UnsupportedTrinoType(name@)),
            Err(TypeFault::Malformed) => schema_of(columns_view(columns@)) is Malformed,
        },
{
    let mut fields: Vec<Field> = Vec::new();
    assert(fields_view(fields@) =~= seq![]);
    for i in 0..columns.len()
        invariant
            schema_reading(columns_view(columns@), i as nat) == SchemaReading::Fields(
                fields_view(fields@),
            ),
    {
        proof {
            lemma_schema_stuck(columns_view(columns@), (i + 1) as nat, columns@.len());
        }
        let column = &columns[i];
        let normalized_type = to_lowercase(column.trino_type.as_str());
        match read_type(normalized_type.as_str(), column.trino_type.as_str()) {
            Ok(data_type) => {
                let ghost before = fields_view(fields@);
                fields.push(Field::new(column.name.as_str(), data_type, true));
                assert(fields_view(fields@) =~= before.push(fields@.last()@));
            },
            Err(fault) => return Err(fault),
        }
    }
    Ok(fields)
}

/// The fields of the record batch for some columns.
pub fn build_schema_from_columns(columns: &Vec<TrinoColumn>) -> (r: Result<Vec<Field>, Error>)
    requires
        !(schema_of(columns_view(columns@)) is Malformed),
    ensures
        match r {
            Ok(fields) => schema_of(columns_view(columns@)) == SchemaReading::Fields(
                fields_view(fields@),
            ),
            Err(e) => schema_of(columns_view(columns@)) == SchemaReading::Failed(e@),
        },
{
    match read_schema(columns) {
        Ok(fields) => Ok(fields),
        Err(TypeFault::Unsupported(trino_type)) => Err(Error::UnsupportedTrinoType { trino_type }),
        Err(TypeFault::Malformed) => vstd::pervasive::unreached(),
    }
}

/// The fields of the record batch for some columns, whatever the columns: `None` where a type
/// name's parentheses close before they open.
pub fn try_build_schema_from_columns(columns: &Vec<TrinoColumn>) -> (r: Option<
    Result<Vec<Field>, Error>,
>)
    ensures
        match r {
            Some(Ok(fields)) => schema_of(columns_view(columns@)) == SchemaReading::Fields(
                fields_view(fields@),
            ),
            Some(Err(e)) => schema_of(columns_view(columns@)) == SchemaReading::Failed(e@),
            None => schema_of(columns_view(columns@)) is Malformed,
        },
{
    match read_schema(columns) {
        Err(TypeFault::Malformed) => None,
        _ => Some(build_schema_from_columns(columns)),
    }
}

/// The cells of a new builder for a type: none. No builder takes a decimal type whose precision
/// and scale Arrow refuses.
pub open spec fn fresh(t: TypeView) -> Option<Store>
    decreases t,
{
    match t {
        TypeView::Boolean => Some(Store::Boolean(seq![])),
        TypeView::Int8 => Some(Store::Int8(seq![])),
        TypeView::Int16 => Some(Store::Int16(seq![])),
        TypeView::Int32 => Some(Store::Int32(seq![])),
        TypeView::Int64 => Some(Store::Int64(seq![])),
        TypeView::Float32 => Some(Store::Float32(seq![])),
        TypeView::Float64 => Some(Store::Float64(seq![])),
        TypeView::Utf8 => Some(Store::Utf8(seq![])),
        TypeView::LargeUtf8 => Some(Store::LargeUtf8(seq![])),
        TypeView::Binary => Some(Store::Binary(seq![])),
        TypeView::Date32 => Some(Store::Date32(seq![])),
        TypeView::Time64(TimeUnit::Nanosecond) => Some(Store::Time64(seq![])),
        TypeView::Timestamp(TimeUnit::Microsecond, _) => Some(Store::Timestamp(seq![])),
        TypeView::Decimal128(precision, scale) => if decimal_fits(precision, scale, 38) {
            Some(Store::Decimal128 { precision, scale, cells: seq![] })
        } else {
            None
        },
        TypeView::Decimal256(precision, scale) => if decimal_fits(precision, scale, 76) {
            Some(Store::Decimal256 { precision, scale, cells: seq![] })
        } else {
            None
        },
        TypeView::List(item) => match fresh(item.data_type) {
            Some(items) => Some(Store::List(Box::new(items))),
            None => None,
        },
        TypeView::Struct(fields) => if forall|i: int|
            0 <= i < fields.len() ==> fresh((#[trigger] fields[i]).data_type) is Some {
            Some(
                Store::Struct {
                    fields,
                    children: Seq::new(
                        fields.len(),
                        |i: int|
                            if 0 <= i < fields.len() {
                                fresh(fields[i].data_type)->0
                            } else {
                                arbitrary()
                            },
                    ),
                    validity: seq![],
                },
            )
        } else {
            None
        },
        TypeView::MapOf(entries, _) => match entries.data_type {
            TypeView::Struct(fields) => if fields.len() == 2 {
                match (fresh(fields[0].data_type), fresh(fields[1].data_type)) {
                    (Some(keys), Some(values)) => Some(
                        Store::MapOf(Box::new(keys), Box::new(values)),
                    ),
                    _ => None,
                }
            } else {
                Some(Store::Utf8(seq![]))
            },
            _ => Some(Store::Utf8(seq![])),
        },
        TypeView::Null => Some(Store::Null(0)),
        _ => Some(Store::Utf8(seq![])),
    }
}

/// What Arrow says of a type for which there is no new builder.
pub open spec fn fresh_fault(t: TypeView) -> ArrowError
    decreases t, 0nat,
{
    match t {
        TypeView::Decimal128(precision, scale) => decimal128_fault(precision, scale),
        TypeView::Decimal256(precision, scale) => decimal256_fault(precision, scale),
        TypeView::List(item) => fresh_fault(item.data_type),
        TypeView::Struct(fields) => first_fault(fields, 0),
        TypeView::MapOf(entries, _) => match entries.data_type {
            TypeView::Struct(fields) => first_fault(fields, 0),
            _ => arbitrary(),
        },
        _ => arbitrary(),
    }
}

/// What Arrow says of the first field from the `i`-th on that there is no new builder for.
pub open spec fn first_fault(fields: Seq<FieldView>, i: nat) -> ArrowError
    decreases fields, fields.len() - i,
{
    if i >= fields.len() {
        arbitrary()
    } else if fresh(fields[i as int].data_type) is None {
        fresh_fault(fields[i as int].data_type)
    } else {
        first_fault(fields, i + 1)
    }
}

pub(crate) proof fn lemma_first_fault(fields: Seq<FieldView>, k: nat, i: nat)
    requires
        k <= i < fields.len(),
        forall|j: int| k <= j < i ==> fresh((#[trigger] fields[j]).data_type) is Some,
        fresh(fields[i as int].data_type) is None,
    ensures
        first_fault(fields, k) == fresh_fault(fields[i as int].data_type),
    decreases i - k,
{
    if k < i {
        lemma_first_fault(fields, k + 1, i);
    }
}

/// How many bytes a builder asks for a cell of a type without parts. Texts and bytes have an offset
/// there.
pub open spec fn cell_width(t: TypeView) -> int {
    match t {
        TypeView::Null => 0,
        TypeView::Boolean | TypeView::Int8 => 1,
        TypeView::Int16 => 2,
        TypeView::Int64 | TypeView::Float64 | TypeView::LargeUtf8 => 8,
        TypeView::Time64(TimeUnit::Nanosecond) => 8,
        TypeView::Timestamp(TimeUnit::Microsecond, _) => 8,
        TypeView::Decimal128(_, _) => 16,
        TypeView::Decimal256(_, _) => 32,
        _ => 4,
    }
}

/// Whether builders for a type can be asked for with room for so many cells. A list has four
/// items at a guess.
pub open spec fn room_for(t: TypeView, capacity: int) -> bool
    decreases t,
{
    match t {
        TypeView::List(item) => capacity * 4 <= usize::MAX && room_for(
            item.data_type,
            capacity * 4,
        ),
        TypeView::Struct(fields) => forall|i: int|
            0 <= i < fields.len() ==> room_for((#[trigger] fields[i]).data_type, capacity),
        TypeView::MapOf(entries, _) => match entries.data_type {
            TypeView::Struct(fields) => if fields.len() == 2 {
                room_for(fields[0].data_type, capacity) && room_for(fields[1].data_type, capacity)
            } else {
                has_room(capacity, 4)
            },
            _ => has_room(capacity, 4),
        },
        _ => has_room(capacity, cell_width(t)),
    }
}

/// A new builder has no cells.
proof fn lemma_fresh_is_empty(t: TypeView)
    ensures
        fresh(t) matches Some(s) ==> store_len(s) == 0,
{
}

/// Whether a builder, or the error in its place, is what a new builder for a type is.
pub open spec fn is_fresh(r: Result<ColumnBuilder, Error>, t: TypeView) -> bool {
    match r {
        Ok(b) => fresh(t) == Some(builder_store(b)),
        Err(e) => fresh(t) is None && e@ == ErrorView::FailedToBuildRecordBatch(fresh_fault(t)),
    }
}

/// A builder for the type of a field.
pub fn create_arrow_builder_for_field(field: &Field, capacity: usize) -> (r: Result<
    ColumnBuilder,
    Error,
>)
    requires
        room_for(field.data_type@, capacity as int),
    ensures
        is_fresh(r, field.data_type@),
    decreases field,
{
    match &field.data_type {
        DataType::Boolean => Ok(new_boolean(capacity)),
        DataType::Int8 => Ok(new_int8(capacity)),
        DataType::Int16 => Ok(new_int16(capacity)),
        DataType::Int32 => Ok(new_int32(capacity)),
        DataType::Int64 => Ok(new_int64(capacity)),
        DataType::Float32 => Ok(new_float32(capacity)),
        DataType::Float64 => Ok(new_float64(capacity)),
        DataType::Utf8 => Ok(new_utf8(capacity, 1024)),
        DataType::LargeUtf8 => Ok(new_large_utf8(capacity, 1024)),
        DataType::Binary => Ok(new_binary(capacity, 1024)),
        DataType::Date32 => Ok(new_date32(capacity)),
        DataType::Time64(TimeUnit::Nanosecond) => Ok(new_time64(capacity)),
        DataType::Timestamp(TimeUnit::Microsecond, _) => Ok(new_timestamp(capacity)),
        DataType::Decimal128(precision, scale) => match sized_decimal128(
            capacity,
            *precision,
            *scale,
        ) {
            Ok(builder) => Ok(builder),
            Err(source) => Err(Error::FailedToBuildRecordBatch { source }),
        },
        DataType::Decimal256(precision, scale) => match sized_decimal256(
            capacity,
            *precision,
            *scale,
        ) {
            Ok(builder) => Ok(builder),
            Err(source) => Err(Error::FailedToBuildRecordBatch { source }),
        },
        DataType::List(item) => {
            proof {
                lemma_fresh_is_empty(item.data_type@);
                assert(item@.data_type == item.data_type@);
            }
            match create_arrow_builder_for_field(item, capacity * 4) {
                Ok(items) => Ok(new_list(items)),
                Err(e) => Err(e),
            }
        },
        DataType::Struct(fields) => {
            proof {
                lemma_struct_view(*fields);
            }
            let ghost views = fields_view(fields@);
            let mut children: Vec<ColumnBuilder> = Vec::new();
            for i in 0..fields.len()
                invariant
                    field.data_type == DataType::Struct(*fields),
                    views == fields_view(fields@),
                    field.data_type@ == TypeView::Struct(views),
                    room_for(field.data_type@, capacity as int),
                    children@.len() == i,
                    forall|j: int|
                        0 <= j < i ==> fresh(views[j].data_type) == Some(
                            builder_store(#[trigger] children@[j]),
                        ),
            {
                assert(decreases_to!(field => field.data_type));
                assert(decreases_to!(field.data_type => field.data_type->Struct_0));
                assert(decreases_to!(fields@ => fields@[i as int]));
                assert(views[i as int] == fields@[i as int]@);
                match create_arrow_builder_for_field(&fields[i], capacity) {
                    Ok(child) => children.push(child),
                    Err(e) => {
                        proof {
                            lemma_fresh_struct(views);
                            assert forall|j: int| 0 <= j < i implies fresh(
                                (#[trigger] views[j]).data_type,
                            ) is Some by {
                                assert(fresh(views[j].data_type) == Some(
                                    builder_store(children@[j]),
                                ));
                            }
                            lemma_first_fault(views, 0, i as nat);
                        }
                        return Err(e);
                    },
                }
            }
            proof {
                lemma_fresh_struct(views);
                assert forall|i: int| 0 <= i < views.len() implies fresh(
                    (#[trigger] views[i]).data_type,
                ) is Some by {
                    assert(fresh(views[i].data_type) == Some(builder_store(children@[i])));
                }
                assert(builder_stores(children@) =~= Seq::new(
                    views.len(),
                    |i: int| fresh(views[i].data_type)->0,
                ));
            }
            Ok(new_struct(to_arrow_fields(fields), children))
        },
        DataType::MapOf(entries, _) => match &entries.data_type {
            DataType::Struct(fields) => {
                proof {
                    lemma_struct_view(*fields);
                    assert(entries@.data_type == entries.data_type@);
                }
                if fields.len() == 2 {
                    assert(fields_view(fields@)[0] == fields@[0]@);
                    assert(fields_view(fields@)[1] == fields@[1]@);
                    assert(decreases_to!(field => field.data_type));
                    assert(decreases_to!(field.data_type => field.data_type->MapOf_0));
                    assert(decreases_to!(entries.data_type => entries.data_type->Struct_0));
                    assert(decreases_to!(fields@ => fields@[0]));
                    assert(decreases_to!(fields@ => fields@[1]));
                    proof {
                        lemma_fresh_is_empty(fields@[0].data_type@);
                    }
                    let keys = match create_arrow_builder_for_field(&fields[0], capacity) {
                        Ok(keys) => keys,
                        Err(e) => {
                            proof {
                                lemma_first_fault(fields_view(fields@), 0, 0);
                            }
                            return Err(e);
                        },
                    };
                    let values = match create_arrow_builder_for_field(&fields[1], capacity) {
                        Ok(values) => values,
                        Err(e) => {
                            proof {
                                lemma_first_fault(fields_view(fields@), 0, 1);
                            }
                            return Err(e);
                        },
                    };
                    Ok(new_map(keys, values))
                } else {
                    Ok(new_utf8(capacity, 1024))
                }
            },
            _ => {
                proof {
                    assert(entries@.data_type == entries.data_type@);
                    assert(entries.data_type@ !is Struct);
                }
                Ok(new_utf8(capacity, 1024))
            },
        },
        DataType::Null => Ok(new_null()),
        _ => Ok(new_utf8(capacity, 1024)),
    }
}

/// A new builder of structs has a new builder for each field, where there is one for each.
pub proof fn lemma_fresh_struct(fields: Seq<FieldView>)
    ensures
        match fresh(TypeView::Struct(fields)) {
            Some(s) => s == (Store::Struct {
                fields,
                children: Seq::new(fields.len(), |i: int| fresh(fields[i].data_type)->0),
                validity: seq![],
            }) && forall|i: int|
                0 <= i < fields.len() ==> fresh((#[trigger] fields[i]).data_type) is Some,
            None => exists|i: int|
                0 <= i < fields.len() && fresh((#[trigger] fields[i]).data_type) is None,
        },
{
    match fresh(TypeView::Struct(fields)) {
        Some(s) => {
            assert(s->Struct_children =~= Seq::new(
                fields.len(),
                |i: int| fresh(fields[i].data_type)->0,
            ));
        },
        None => {},
    }
}

/// The columns of a struct's fields without cells.
pub open spec fn empty_children(fields: Seq<FieldView>) -> Seq<Store>
    decreases fields,
{
    Seq::new(
        fields.len(),
        |i: int|
            if 0 <= i < fields.len() {
                empty_store(fields[i].data_type)->0
            } else {
                arbitrary()
            },
    )
}

/// A column of a type without cells. A decimal column has the precision and scale that Arrow
/// gives one. There is no column of structs whose columns would not fit its fields.
pub open spec fn empty_store(t: TypeView) -> Option<Store>
    decreases t,
{
    match t {
        TypeView::Boolean => Some(Store::Boolean(seq![])),
        TypeView::Int8 => Some(Store::Int8(seq![])),
        TypeView::Int16 => Some(Store::Int16(seq![])),
        TypeView::Int32 => Some(Store::Int32(seq![])),
        TypeView::Int64 => Some(Store::Int64(seq![])),
        TypeView::Float32 => Some(Store::Float32(seq![])),
        TypeView::Float64 => Some(Store::Float64(seq![])),
        TypeView::Utf8 => Some(Store::Utf8(seq![])),
        TypeView::LargeUtf8 => Some(Store::LargeUtf8(seq![])),
        TypeView::Binary => Some(Store::Binary(seq![])),
        TypeView::Date32 => Some(Store::Date32(seq![])),
        TypeView::Time64(TimeUnit::Nanosecond) => Some(Store::Time64(seq![])),
        TypeView::Timestamp(TimeUnit::Microsecond, _) => Some(Store::Timestamp(seq![])),
        TypeView::Decimal128(_, _) => Some(
            Store::Decimal128 { precision: 38, scale: 10, cells: seq![] },
        ),
        TypeView::Decimal256(_, _) => Some(
            Store::Decimal256 { precision: 76, scale: 10, cells: seq![] },
        ),
        TypeView::List(_) => Some(Store::List(Box::new(Store::Utf8(seq![])))),
        TypeView::Struct(fields) => if (forall|i: int|
            0 <= i < fields.len() ==> empty_store((#[trigger] fields[i]).data_type) is Some)
            && struct_fits(fields, empty_children(fields)) {
            Some(whole_struct(fields, empty_children(fields)))
        } else {
            None
        },
        TypeView::MapOf(entries, _) => match entries.data_type {
            TypeView::Struct(fields) => if fields.len() == 2 {
                Some(
                    Store::MapOf(
                        Box::new(Store::Utf8(seq![])),
                        Box::new(Store::Utf8(seq![])),
                    ),
                )
            } else {
                Some(Store::Utf8(seq![]))
            },
            _ => Some(Store::Utf8(seq![])),
        },
        TypeView::Null => Some(Store::Null(0)),
        _ => Some(Store::Utf8(seq![])),
    }
}

/// A column of a type without cells, where there is one.
pub fn empty_array(data_type: &DataType) -> (r: Option<ColumnArray>)
    ensures
        match r {
            Some(a) => empty_store(data_type@) == Some(array_store(a)),
            None => empty_store(data_type@) is None,
        },
    decreases data_type,
{
    let builder = match data_type {
        DataType::Boolean => new_boolean(1024),
        DataType::Int8 => new_int8(1024),
        DataType::Int16 => new_int16(1024),
        DataType::Int32 => new_int32(1024),
        DataType::Int64 => new_int64(1024),
        DataType::Float32 => new_float32(1024),
        DataType::Float64 => new_float64(1024),
        DataType::Utf8 => new_utf8(1024, 1024),
        DataType::LargeUtf8 => new_large_utf8(1024, 1024),
        DataType::Binary => new_binary(1024, 1024),
        DataType::Date32 => new_date32(1024),
        DataType::Time64(TimeUnit::Nanosecond) => new_time64(1024),
        DataType::Timestamp(TimeUnit::Microsecond, _) => new_timestamp(1024),
        DataType::Decimal128(_, _) => new_decimal128(1024),
        DataType::Decimal256(_, _) => new_decimal256(1024),
        DataType::List(_) => new_list(new_utf8(1024, 1024)),
        DataType::Struct(fields) => {
            let mut arrays: Vec<ColumnArray> = Vec::new();
            let ghost views = fields_view(fields@);
            proof {
                lemma_struct_view(*fields);
            }
            for i in 0..fields.len()
                invariant
                    *data_type == DataType::Struct(*fields),
                    views == fields_view(fields@),
                    data_type@ == TypeView::Struct(views),
                    empty_store(data_type@) is Some ==> forall|i: int|
                        0 <= i < views.len() ==> empty_store((#[trigger] views[i]).data_type)
                            is Some,
                    arrays@.len() == i,
                    forall|j: int|
                        0 <= j < i ==> empty_store(views[j].data_type) == Some(
                            array_store(#[trigger] arrays@[j]),
                        ),
            {
                assert(decreases_to!(data_type => data_type->Struct_0));
                assert(decreases_to!(fields@ => fields@[i as int]));
                assert(views[i as int] == fields@[i as int]@);
                let field = &fields[i];
                match empty_array(&field.data_type) {
                    Some(array) => arrays.push(array),
                    None => return None,
                }
            }
            proof {
                assert forall|i: int| 0 <= i < views.len() implies empty_store(
                    (#[trigger] views[i]).data_type,
                ) is Some by {
                    assert(empty_store(views[i].data_type) == Some(array_store(arrays@[i])));
                }
                assert(array_stores(arrays@) =~= empty_children(views));
            }
            return match struct_array(to_arrow_fields(fields), arrays) {
                Ok(array) => Some(array),
                Err(_) => None,
            };
        },
        DataType::MapOf(entries, _) => match &entries.data_type {
            DataType::Struct(fields) => {
                proof {
                    lemma_struct_view(*fields);
                    assert(entries@.data_type == entries.data_type@);
                }
                if fields.len() == 2 {
                    new_map(new_utf8(1024, 1024), new_utf8(1024, 1024))
                } else {
                    new_utf8(1024, 1024)
                }
            },
            _ => {
                proof {
                    assert(entries@.data_type == entries.data_type@);
                    assert(entries.data_type@ !is Struct);
                }
                new_utf8(1024, 1024)
            },
        },
        DataType::Null => new_null(),
        _ => new_utf8(1024, 1024),
    };
    assert(finishable(Store::Utf8(seq![])));
    Some(finish(builder))
}

/// A column of a type without cells.
pub fn create_empty_array(data_type: &DataType) -> (r: ColumnArray)
    requires
        empty_store(data_type@) is Some,
    ensures
        array_store(r) == empty_store(data_type@)->0,
{
    match empty_array(data_type) {
        Some(array) => array,
        None => vstd::pervasive::unreached(),
    }
}

/// The builders of the first `k` fields by their names, without cells. The last of several
/// fields with one name has it.
pub open spec fn fresh_builders(fields: Seq<FieldView>, k: nat) -> Option<Map<Seq<char>, Store>>
    decreases k,
{
    if k == 0 {
        Some(Map::empty())
    } else {
        match (fresh_builders(fields, (k - 1) as nat), fresh(fields[k - 1].data_type)) {
            (Some(before), Some(s)) => Some(before.insert(fields[k - 1].name, s)),
            _ => None,
        }
    }
}

/// Whether builders for all fields can be asked for with room for so many cells.
pub open spec fn room_for_all(fields: Seq<FieldView>, capacity: int) -> bool {
    forall|i: int| 0 <= i < fields.len() ==> room_for((#[trigger] fields[i]).data_type, capacity)
}

proof fn lemma_fresh_stuck(fields: Seq<FieldView>, k: nat, n: nat)
    requires
        k <= n,
    ensures
        fresh_builders(fields, k) is None ==> fresh_builders(fields, n) is None,
    decreases n - k,
{
    if k < n {
        lemma_fresh_stuck(fields, k, (n - 1) as nat);
    }
}

/// A builder for each field, by its name.
pub fn create_builders(schema: &Vec<Field>, capacity: usize) -> (r: Result<BuilderMap, Error>)
    requires
        room_for_all(fields_view(schema@), capacity as int),
    ensures
        match r {
            Ok(builders) => builders.wf() && fresh_builders(fields_view(schema@), schema@.len())
                == Some(builders@),
            Err(e) => fresh_builders(fields_view(schema@), schema@.len()) is None && e@
                == ErrorView::FailedToBuildRecordBatch(first_fault(fields_view(schema@), 0)),
        },
{
    let mut builders = BuilderMap::new();
    for i in 0..schema.len()
        invariant
            room_for_all(fields_view(schema@), capacity as int),
            builders.wf(),
            fresh_builders(fields_view(schema@), i as nat) == Some(builders@),
            forall|j: int|
                0 <= j < i ==> fresh((#[trigger] fields_view(schema@)[j]).data_type) is Some,
    {
        let field = &schema[i];
        proof {
            lemma_fresh_stuck(fields_view(schema@), (i + 1) as nat, schema@.len());
            assert(fields_view(schema@)[i as int] == field@);
        }
        match create_arrow_builder_for_field(field, capacity) {
            Ok(builder) => builders.insert(field.name.clone(), builder),
            Err(e) => {
                proof {
                    lemma_first_fault(fields_view(schema@), 0, i as nat);
                }
                return Err(e);
            },
        }
    }
    Ok(builders)
}

/// What appending does to the builders of a record batch.
pub enum BuildersStep {
    Done(Map<Seq<char>, Store>),
    Failed(Map<Seq<char>, Store>, ErrorView),
    Broken,
}

/// The value that a row has in the `i`-th column. A short row has none.
pub open spec fn row_value(row: Seq<JsonView>, i: int) -> Option<JsonView> {
    if i < row.len() {
        Some(row[i])
    } else {
        None
    }
}

/// What appending the first `k` values of a row does.
pub open spec fn row_step(
    builders: Map<Seq<char>, Store>,
    row: Seq<JsonView>,
    fields: Seq<FieldView>,
    k: nat,
) -> BuildersStep
    decreases k,
{
    if k == 0 {
        BuildersStep::Done(builders)
    } else {
        match row_step(builders, row, fields, (k - 1) as nat) {
            BuildersStep::Done(now) => {
                let field = fields[k - 1];
                if now.contains_key(field.name) {
                    match append_step(now[field.name], row_value(row, k - 1), field.data_type) {
                        Step::Done(s) => BuildersStep::Done(now.insert(field.name, s)),
                        Step::Failed(s, e) => BuildersStep::Failed(now.insert(field.name, s), e),
                        Step::Broken => BuildersStep::Broken,
                    }
                } else {
                    BuildersStep::Done(now)
                }
            },
            other => other,
        }
    }
}

pub(crate) proof fn lemma_row_stuck(
    builders: Map<Seq<char>, Store>,
    row: Seq<JsonView>,
    fields: Seq<FieldView>,
    k: nat,
    n: nat,
)
    requires
        k <= n,
    ensures
        row_step(builders, row, fields, k) !is Done ==> row_step(builders, row, fields, n)
            == row_step(builders, row, fields, k),
    decreases n - k,
{
    if k < n {
        lemma_row_stuck(builders, row, fields, k, (n - 1) as nat);
    }
}

/// Whether a result, and the builders that it leaves, are what a step says.
pub open spec fn builders_stepped(
    step: BuildersStep,
    r: Result<(), Halt>,
    now: Map<Seq<char>, Store>,
) -> bool {
    match step {
        BuildersStep::Done(m) => r is Ok && now == m,
        BuildersStep::Failed(m, e) => (r matches Err(Halt::Failed(error)) && error@ == e) && now
            == m,
        BuildersStep::Broken => r matches Err(Halt::Broken),
    }
}

/// Appends a row, each value to the builder of its column.
pub fn append_row_to_builders(
    row: &Vec<JsonValue>,
    schema: &Vec<Field>,
    builders: &mut BuilderMap,
) -> (r: Result<(), Halt>)
    requires
        old(builders).wf(),
    ensures
        final(builders).wf(),
        builders_stepped(
            row_step(old(builders)@, json_items(row@), fields_view(schema@), schema@.len()),
            r,
            final(builders)@,
        ),
{
    for i in 0..schema.len()
        invariant
            builders.wf(),
            row_step(old(builders)@, json_items(row@), fields_view(schema@), i as nat)
                == BuildersStep::Done(builders@),
    {
        let field = &schema[i];
        proof {
            lemma_row_stuck(
                old(builders)@,
                json_items(row@),
                fields_view(schema@),
                (i + 1) as nat,
                schema@.len(),
            );
            assert(fields_view(schema@)[i as int] == field@);
        }
        let value = if i < row.len() {
            Some(&row[i])
        } else {
            None
        };
        assert(optional(value) == row_value(json_items(row@), i as int));
        match builders.append(field.name.as_str(), value, &field.data_type) {
            Ok(()) => {},
            Err(halt) => return Err(halt),
        }
    }
    Ok(())
}

/// What finishing builders gives: the columns, and the builders that are left; an error; or
/// nothing, where a builder cannot be finished.
pub enum ColumnsStep {
    Done(Map<Seq<char>, Store>, Seq<Store>),
    Failed(ErrorView),
    Broken,
}

/// What finishing the builders of the first `k` fields gives.
pub open spec fn finish_step(
    builders: Map<Seq<char>, Store>,
    fields: Seq<FieldView>,
    k: nat,
) -> ColumnsStep
    decreases k,
{
    if k == 0 {
        ColumnsStep::Done(builders, seq![])
    } else {
        match finish_step(builders, fields, (k - 1) as nat) {
            ColumnsStep::Done(left, columns) => {
                let name = fields[k - 1].name;
                if !left.contains_key(name) {
                    ColumnsStep::Failed(ErrorView::FailedToFindFieldInSchema(name))
                } else if finishable(left[name]) {
                    ColumnsStep::Done(left.remove(name), columns.push(left[name]))
                } else {
                    ColumnsStep::Broken
                }
            },
            other => other,
        }
    }
}

proof fn lemma_finish_stuck(
    builders: Map<Seq<char>, Store>,
    fields: Seq<FieldView>,
    k: nat,
    n: nat,
)
    requires
        k <= n,
    ensures
        finish_step(builders, fields, k) !is Done ==> finish_step(builders, fields, n)
            == finish_step(builders, fields, k),
    decreases n - k,
{
    if k < n {
        lemma_finish_stuck(builders, fields, k, (n - 1) as nat);
    }
}

/// The columns of the fields, in their order.
pub fn finish_builders(builders: BuilderMap, schema: &Vec<Field>) -> (r: Result<
    Vec<ColumnArray>,
    Error,
>)
    requires
        builders.wf(),
        !(finish_step(builders@, fields_view(schema@), schema@.len()) is Broken),
    ensures
        match finish_step(builders@, fields_view(schema@), schema@.len()) {
            ColumnsStep::Done(_, columns) => r matches Ok(arrays) && array_stores(arrays@)
                == columns,
            ColumnsStep::Failed(e) => r matches Err(error) && error@ == e,
            ColumnsStep::Broken => true,
        },
{
    let ghost fields = fields_view(schema@);
    let mut left = builders;
    let mut arrays: Vec<ColumnArray> = Vec::new();
    assert(array_stores(arrays@) =~= seq![]);
    for i in 0..schema.len()
        invariant
            fields == fields_view(schema@),
            !(finish_step(builders@, fields, schema@.len()) is Broken),
            left.wf(),
            finish_step(builders@, fields, i as nat) == ColumnsStep::Done(
                left@,
                array_stores(arrays@),
            ),
    {
        let field = &schema[i];
        proof {
            lemma_finish_stuck(builders@, fields, (i + 1) as nat, schema@.len());
            assert(fields[i as int] == field@);
        }
        match left.remove(field.name.as_str()) {
            Some(builder) => {
                let ghost before = array_stores(arrays@);
                arrays.push(finish(builder));
                assert(array_stores(arrays@) =~= before.push(array_store(arrays@.last())));
            },
            None => return Err(
                Error::FailedToFindFieldInSchema { column_name: field.name.clone() },
            ),
        }
    }
    Ok(arrays)
}

/// The record batch of some columns.
pub fn build_record_batch(schema: &Vec<Field>, arrays: Vec<ColumnArray>) -> (r: Result<
    Batch,
    Error,
>)
    ensures
        match r {
            Ok(batch) => batch_fits(fields_view(schema@), array_stores(arrays@)) && holds(
                batch,
                fields_view(schema@),
                array_stores(arrays@),
            ),
            Err(e) => !batch_fits(fields_view(schema@), array_stores(arrays@)) && e@
                == ErrorView::FailedToBuildRecordBatch(
                batch_fault(fields_view(schema@), array_stores(arrays@)),
            ),
        },
{
    match try_batch(to_arrow_fields(schema), arrays) {
        Ok(batch) => Ok(batch),
        Err(source) => Err(Error::FailedToBuildRecordBatch { source }),
    }
}

/// The type of the last field with a name.
pub open spec fn named_type(fields: Seq<FieldView>, name: Seq<char>) -> Option<TypeView>
    decreases fields.len(),
{
    if fields.len() == 0 {
        None
    } else if fields.last().name == name {
        Some(fields.last().data_type)
    } else {
        named_type(fields.drop_last(), name)
    }
}

/// Whether each builder is one for the last field with its name.
pub open spec fn builders_match(builders: Map<Seq<char>, Store>, fields: Seq<FieldView>) -> bool {
    forall|name: Seq<char>| #[trigger]
        builders.contains_key(name) ==> (named_type(fields, name) matches Some(t) && built_for(
            builders[name],
            t,
        ))
}

/// Whether all fields have types that nest once at most.
pub open spec fn all_flat(fields: Seq<FieldView>) -> bool {
    forall|i: int|
        0 <= i < fields.len() ==> is_flat((#[trigger] fields[i]).data_type) && fields[i].nullable
}

proof fn lemma_schema_flat(columns: Seq<ColumnView>, k: nat)
    ensures
        schema_reading(columns, k) matches SchemaReading::Fields(fields) ==> all_flat(fields),
    decreases k,
{
    if k > 0 {
        lemma_schema_flat(columns, (k - 1) as nat);
        lemma_trino_types_are_flat(columns[k - 1].trino_type);
    }
}

proof fn lemma_named_flat(fields: Seq<FieldView>, name: Seq<char>)
    requires
        all_flat(fields),
    ensures
        named_type(fields, name) matches Some(t) ==> is_flat(t),
    decreases fields.len(),
{
    if fields.len() > 0 {
        assert(is_flat(fields[fields.len() - 1].data_type));
        assert forall|i: int| 0 <= i < fields.drop_last().len() implies is_flat(
            (#[trigger] fields.drop_last()[i]).data_type,
        ) && fields.drop_last()[i].nullable by {
            assert(fields[i] == fields.drop_last()[i]);
        }
        lemma_named_flat(fields.drop_last(), name);
    }
}

proof fn lemma_fresh_match(fields: Seq<FieldView>, k: nat)
    requires
        all_flat(fields),
        k <= fields.len(),
    ensures
        fresh_builders(fields, k) matches Some(builders) ==> builders_match(
            builders,
            fields.take(k as int),
        ),
    decreases k,
{
    if k > 0 {
        lemma_fresh_match(fields, (k - 1) as nat);
        let now = fields.take(k as int);
        assert(now.drop_last() =~= fields.take(k - 1));
        assert(now.last() == fields[k - 1]);
        assert(is_flat(fields[k - 1].data_type));
        match fresh_builders(fields, k) {
            Some(builders) => {
                lemma_fresh_built(fields[k - 1].data_type);
                let before = fresh_builders(fields, (k - 1) as nat)->0;
                assert forall|name: Seq<char>| #[trigger] builders.contains_key(name) implies (
                named_type(now, name) matches Some(t) && built_for(builders[name], t)) by {
                    if name != fields[k - 1].name {
                        assert(before.contains_key(name));
                    }
                }
            },
            None => {},
        }
    }
}

proof fn lemma_row_match(
    builders: Map<Seq<char>, Store>,
    row: Seq<JsonView>,
    fields: Seq<FieldView>,
    k: nat,
    own: Seq<FieldView>,
)
    requires
        builders_match(builders, own),
    ensures
        row_step(builders, row, fields, k) matches BuildersStep::Done(now) ==> builders_match(
            now,
            own,
        ),
    decreases k,
{
    if k > 0 {
        lemma_row_match(builders, row, fields, (k - 1) as nat, own);
        match row_step(builders, row, fields, (k - 1) as nat) {
            BuildersStep::Done(now) => {
                let field = fields[k - 1];
                if now.contains_key(field.name) {
                    lemma_append_keeps(
                        now[field.name],
                        row_value(row, k - 1),
                        field.data_type,
                        named_type(own, field.name)->0,
                    );
                    match row_step(builders, row, fields, k) {
                        BuildersStep::Done(after) => {
                            assert forall|name: Seq<char>| #[trigger]
                                after.contains_key(name) implies (named_type(
                                own,
                                name,
                            ) matches Some(t) && built_for(after[name], t)) by {
                                assert(now.contains_key(name));
                            }
                        },
                        _ => {},
                    }
                }
            },
            _ => {},
        }
    }
}

/// The values of several rows.
pub open spec fn rows_view(rows: Seq<Vec<JsonValue>>) -> Seq<Seq<JsonView>> {
    Seq::new(rows.len(), |i: int| json_items(rows[i]@))
}

/// What appending the first `k` rows does.
pub open spec fn rows_step(
    builders: Map<Seq<char>, Store>,
    rows: Seq<Seq<JsonView>>,
    fields: Seq<FieldView>,
    k: nat,
) -> BuildersStep
    decreases k,
{
    if k == 0 {
        BuildersStep::Done(builders)
    } else {
        match rows_step(builders, rows, fields, (k - 1) as nat) {
            BuildersStep::Done(now) => row_step(now, rows[k - 1], fields, fields.len()),
            other => other,
        }
    }
}

/// What stops the appending of rows stops it for good.
pub proof fn lemma_rows_stuck(
    builders: Map<Seq<char>, Store>,
    rows: Seq<Seq<JsonView>>,
    fields: Seq<FieldView>,
    k: nat,
    n: nat,
)
    requires
        k <= n,
    ensures
        rows_step(builders, rows, fields, k) !is Done ==> rows_step(builders, rows, fields, n)
            == rows_step(builders, rows, fields, k),
    decreases n - k,
{
    if k < n {
        lemma_rows_stuck(builders, rows, fields, k, (n - 1) as nat);
    }
}

/// Whether a finished column of the kind that a type calls for is of that very type.
fn plain_type(t: &DataType) -> (r: bool)
    ensures
        r == is_plain(t@),
{
    match t {
        DataType::Timestamp(TimeUnit::Microsecond, None) => true,
        DataType::Timestamp(_, _) => false,
        DataType::Time64(TimeUnit::Microsecond) => false,
        _ => true,
    }
}

/// Whether a builder for a type can be finished.
fn can_finish(builder: &mut ColumnBuilder, data_type: &DataType) -> (r: bool)
    requires
        is_flat(data_type@),
        built_for(builder_store(*old(builder)), data_type@),
    ensures
        builder_store(*final(builder)) == builder_store(*old(builder)),
        r == finishable(builder_store(*old(builder))),
{
    match data_type {
        DataType::Struct(fields) => {
            let ghost s = builder_store(*builder);
            let ghost own = fields_view(fields@);
            let ghost children = s->Struct_children;
            proof {
                lemma_struct_view(*fields);
            }
            let n: usize = builder_len(builder);
            let mut column = new_null();
            for i in 0..fields.len()
                invariant
                    own == fields_view(fields@),
                    data_type@ == TypeView::Struct(own),
                    is_flat(data_type@),
                    built_for(s, data_type@),
                    s matches Store::Struct { children: c, validity: v, .. } && c == children && n
                        == v.len(),
                    builder_store(*old(builder)) == s,
                    builder_store(*builder) == s,
                    forall|j: int|
                        0 <= j < i ==> finishable(#[trigger] children[j]) && child_fits(
                            own[j],
                            children[j],
                            s->Struct_validity,
                        ),
            {
                proof {
                    assert(own[i as int] == fields@[i as int]@);
                    assert(is_scalar(own[i as int].data_type));
                    assert(same_kind(children[i as int], own[i as int].data_type));
                    lemma_plain(children[i as int], own[i as int].data_type);
                }
                let ghost spare = builder_store(column);
                swap_field(builder, i, &mut column);
                let len: usize = builder_len(&column);
                swap_field(builder, i, &mut column);
                proof {
                    assert(children.update(i as int, spare).update(i as int, children[i as int])
                        =~= children);
                }
                let field = &fields[i];
                if !plain_type(&field.data_type) || len != n {
                    assert(!child_fits(
                        own[i as int],
                        children[i as int],
                        s->Struct_validity,
                    ));
                    return false;
                }
            }
            true
        },
        DataType::List(item) => {
            proof {
                assert(item@.data_type == item.data_type@);
                lemma_plain(*(builder_store(*builder)->List_0), item.data_type@);
            }
            true
        },
        _ => {
            proof {
                lemma_plain(builder_store(*builder), data_type@);
            }
            true
        },
    }
}

/// Whether one of the first `k` fields has a name.
pub open spec fn names_before(fields: Seq<FieldView>, k: int, name: Seq<char>) -> bool {
    exists|i: int| 0 <= i < k && (#[trigger] fields[i]).name == name
}

/// The builders that are left are those that no field before has taken.
pub proof fn lemma_left(builders: Map<Seq<char>, Store>, fields: Seq<FieldView>, k: nat)
    requires
        k <= fields.len(),
    ensures
        finish_step(builders, fields, k) matches ColumnsStep::Done(left, _) ==> forall|
            name: Seq<char>,
        | #[trigger]
            left.contains_key(name) <==> builders.contains_key(name) && !names_before(
                fields,
                k as int,
                name,
            ),
        finish_step(builders, fields, k) matches ColumnsStep::Done(left, _) ==> forall|
            name: Seq<char>,
        | #[trigger] left.contains_key(name) ==> left[name] == builders[name],
    decreases k,
{
    if k > 0 {
        lemma_left(builders, fields, (k - 1) as nat);
        match finish_step(builders, fields, k) {
            ColumnsStep::Done(left, _) => {
                let before = finish_step(builders, fields, (k - 1) as nat)->Done_0;
                assert forall|name: Seq<char>| #[trigger] left.contains_key(name) <==>
                    builders.contains_key(name) && !names_before(fields, k as int, name) by {
                    if names_before(fields, k as int, name) && !names_before(
                        fields,
                        k - 1,
                        name,
                    ) {
                        let i = choose|i: int| 0 <= i < k && (#[trigger] fields[i]).name == name;
                        assert(i == k - 1);
                    }
                    if names_before(fields, k - 1, name) {
                        let i = choose|i: int|
                            0 <= i < k - 1 && (#[trigger] fields[i]).name == name;
                        assert(fields[i].name == name);
                        assert(names_before(fields, k as int, name));
                    }
                    if name == fields[k - 1].name {
                        assert(names_before(fields, k as int, name));
                    }
                    assert(left == before.remove(fields[k - 1].name));
                    assert(before.contains_key(name) <==> builders.contains_key(name)
                        && !names_before(fields, k - 1, name));
                }
                assert forall|name: Seq<char>| #[trigger] left.contains_key(name) implies left[name]
                    == builders[name] by {
                    assert(before.contains_key(name));
                }
            },
            _ => {},
        }
    }
}

/// The place of the last field with a name.
fn last_named(schema: &Vec<Field>, name: &str) -> (r: Option<usize>)
    ensures
        match r {
            Some(i) => i < schema@.len() && named_type(fields_view(schema@), name@) == Some(
                schema@[i as int].data_type@,
            ),
            None => named_type(fields_view(schema@), name@) is None,
        },
{
    let ghost fields = fields_view(schema@);
    let mut i: usize = schema.len();
    assert(fields.take(i as int) =~= fields);
    while i > 0
        invariant
            fields == fields_view(schema@),
            i <= schema@.len(),
            named_type(fields, name@) == named_type(fields.take(i as int), name@),
        decreases i,
    {
        i = i - 1;
        assert(fields.take(i + 1).last() == schema@[i as int]@);
        assert(fields.take(i + 1).drop_last() =~= fields.take(i as int));
        if same_text(schema[i].name.as_str(), name) {
            return Some(i);
        }
    }
    None
}

/// Whether one of the first `k` fields has a name.
fn named_before(schema: &Vec<Field>, k: usize, name: &str) -> (r: bool)
    requires
        k <= schema@.len(),
    ensures
        r == names_before(fields_view(schema@), k as int, name@),
{
    for i in 0..k
        invariant
            k <= schema@.len(),
            !names_before(fields_view(schema@), i as int, name@),
    {
        let ghost fields = fields_view(schema@);
        assert(fields[i as int] == schema@[i as int]@);
        if same_text(schema[i].name.as_str(), name) {
            assert(fields[i as int].name == name@);
            return true;
        }
        assert(!names_before(fields, i + 1, name@)) by {
            if names_before(fields, i + 1, name@) {
                let j = choose|j: int| 0 <= j < i + 1 && (#[trigger] fields[j]).name == name@;
                assert(fields[j].name == name@);
                assert(names_before(fields, i as int, name@));
            }
        }
    }
    false
}

/// Whether builders for some fields can be finished.
fn can_finish_all(builders: &mut BuilderMap, schema: &Vec<Field>) -> (r: bool)
    requires
        old(builders).wf(),
        all_flat(fields_view(schema@)),
        builders_match(old(builders)@, fields_view(schema@)),
    ensures
        final(builders).wf(),
        final(builders)@ == old(builders)@,
        r == !(finish_step(old(builders)@, fields_view(schema@), schema@.len()) is Broken),
{
    let ghost fields = fields_view(schema@);
    let ghost all = builders@;
    for i in 0..schema.len()
        invariant
            fields == fields_view(schema@),
            all_flat(fields),
            builders_match(all, fields),
            builders.wf(),
            old(builders)@ == all,
            builders@ == all,
            finish_step(all, fields, i as nat) is Done,
    {
        let field = &schema[i];
        let ghost left = finish_step(all, fields, i as nat)->Done_0;
        proof {
            lemma_finish_stuck(all, fields, (i + 1) as nat, schema@.len());
            lemma_left(all, fields, i as nat);
            assert(fields[i as int] == field@);
        }
        if named_before(schema, i, field.name.as_str()) {
            assert(!left.contains_key(field.name@));
            return true;
        }
        match builders.remove(field.name.as_str()) {
            None => {
                assert(!left.contains_key(field.name@));
                return true;
            },
            Some(builder) => {
                let mut builder = builder;
                assert(left.contains_key(field.name@));
                assert(all.contains_key(field.name@));
                let ok = match last_named(schema, field.name.as_str()) {
                    Some(last) => {
                        proof {
                            lemma_named_flat(fields, field.name@);
                        }
                        let typed = &schema[last];
                        can_finish(&mut builder, &typed.data_type)
                    },
                    None => false,
                };
                builders.insert(field.name.clone(), builder);
                assert(builders@ =~= all);
                if !ok {
                    return false;
                }
            },
        }
    }
    true
}

/// What rows become: a record batch with its fields and columns, an error, or nothing, where
/// Arrow could not hold or count what would be in it.
pub enum Outcome {
    Batch(Seq<FieldView>, Seq<Store>),
    Failed(ErrorView),
    Broken,
}

/// The record batch of some columns, where they make one up.
pub open spec fn batch_of(fields: Seq<FieldView>, columns: Seq<Store>) -> Outcome {
    if batch_fits(fields, columns) {
        Outcome::Batch(fields, columns)
    } else {
        Outcome::Failed(ErrorView::FailedToBuildRecordBatch(batch_fault(fields, columns)))
    }
}

/// What no rows become.
pub open spec fn empty_outcome(fields: Seq<FieldView>) -> Outcome {
    if forall|i: int|
        0 <= i < fields.len() ==> empty_store((#[trigger] fields[i]).data_type) is Some {
        batch_of(fields, empty_children(fields))
    } else {
        Outcome::Broken
    }
}

/// What rows with values become.
pub open spec fn filled_outcome(rows: Seq<Seq<JsonView>>, fields: Seq<FieldView>) -> Outcome {
    match fresh_builders(fields, fields.len()) {
        None => Outcome::Failed(ErrorView::FailedToBuildRecordBatch(first_fault(fields, 0))),
        Some(builders) => if !room_for_all(fields, rows.len() as int) {
            Outcome::Broken
        } else {
            match rows_step(builders, rows, fields, rows.len()) {
                BuildersStep::Failed(_, e) => Outcome::Failed(e),
                BuildersStep::Broken => Outcome::Broken,
                BuildersStep::Done(filled) => match finish_step(filled, fields, fields.len()) {
                    ColumnsStep::Failed(e) => Outcome::Failed(e),
                    ColumnsStep::Broken => Outcome::Broken,
                    ColumnsStep::Done(_, columns) => batch_of(fields, columns),
                },
            }
        },
    }
}

/// What rows and columns become.
pub open spec fn conversion(rows: Seq<Seq<JsonView>>, columns: Seq<ColumnView>) -> Outcome {
    if rows.len() == 0 && columns.len() == 0 {
        Outcome::Batch(seq![], seq![])
    } else {
        match schema_of(columns) {
            SchemaReading::Malformed => Outcome::Broken,
            SchemaReading::Failed(e) => Outcome::Failed(e),
            SchemaReading::Fields(fields) => if rows.len() == 0 {
                empty_outcome(fields)
            } else {
                filled_outcome(rows, fields)
            },
        }
    }
}

/// Whether a result is what an outcome says.
pub open spec fn came_out(outcome: Outcome, r: Result<Batch, Halt>) -> bool {
    match outcome {
        Outcome::Batch(fields, columns) => r matches Ok(batch) && holds(batch, fields, columns),
        Outcome::Failed(e) => r matches Err(Halt::Failed(error)) && error@ == e,
        Outcome::Broken => r matches Err(Halt::Broken),
    }
}

/// How many bytes a builder asks for a cell of a type without parts.
fn width_of(t: &DataType) -> (r: usize)
    ensures
        r == cell_width(t@),
        r <= 32,
{
    match t {
        DataType::Null => 0,
        DataType::Boolean | DataType::Int8 => 1,
        DataType::Int16 => 2,
        DataType::Int64 | DataType::Float64 | DataType::LargeUtf8 => 8,
        DataType::Time64(TimeUnit::Nanosecond) => 8,
        DataType::Timestamp(TimeUnit::Microsecond, _) => 8,
        DataType::Decimal128(_, _) => 16,
        DataType::Decimal256(_, _) => 32,
        _ => 4,
    }
}

/// Whether room for so many cells of so many bytes can be asked for.
fn room_of(capacity: usize, width: usize) -> (r: bool)
    requires
        width <= 32,
    ensures
        r == has_room(capacity as int, width as int),
{
    assert(0 <= capacity * width <= usize::MAX * 32) by (nonlinear_arith)
        requires
            width <= 32,
            capacity <= usize::MAX,
    ;
    capacity as u128 * width as u128 + 256 <= isize::MAX as u128
}

/// Whether builders for a type can be asked for with room for so many cells.
fn type_has_room(t: &DataType, capacity: usize) -> (r: bool)
    ensures
        r == room_for(t@, capacity as int),
    decreases t,
{
    match t {
        DataType::List(item) => {
            assert(item@.data_type == item.data_type@);
            capacity <= usize::MAX / 4 && type_has_room(&item.data_type, capacity * 4)
        },
        DataType::Struct(fields) => {
            let ghost views = fields_view(fields@);
            proof {
                lemma_struct_view(*fields);
            }
            for i in 0..fields.len()
                invariant
                    *t == DataType::Struct(*fields),
                    views == fields_view(fields@),
                    t@ == TypeView::Struct(views),
                    forall|j: int|
                        0 <= j < i ==> room_for((#[trigger] views[j]).data_type, capacity as int),
            {
                assert(decreases_to!(t => t->Struct_0));
                assert(decreases_to!(fields@ => fields@[i as int]));
                assert(views[i as int] == fields@[i as int]@);
                let field = &fields[i];
                if !type_has_room(&field.data_type, capacity) {
                    return false;
                }
            }
            true
        },
        DataType::MapOf(entries, _) => match &entries.data_type {
            DataType::Struct(fields) => {
                proof {
                    lemma_struct_view(*fields);
                    assert(entries@.data_type == entries.data_type@);
                }
                if fields.len() == 2 {
                    assert(fields_view(fields@)[0] == fields@[0]@);
                    assert(fields_view(fields@)[1] == fields@[1]@);
                    assert(decreases_to!(t => t->MapOf_0));
                    assert(decreases_to!(entries.data_type => entries.data_type->Struct_0));
                    assert(decreases_to!(fields@ => fields@[0]));
                    assert(decreases_to!(fields@ => fields@[1]));
                    let keys = &fields[0];
                    let values = &fields[1];
                    type_has_room(&keys.data_type, capacity) && type_has_room(
                        &values.data_type,
                        capacity,
                    )
                } else {
                    room_of(capacity, 4)
                }
            },
            _ => {
                proof {
                    assert(entries@.data_type == entries.data_type@);
                    assert(entries.data_type@ !is Struct);
                }
                room_of(capacity, 4)
            },
        },
        _ => room_of(capacity, width_of(t)),
    }
}

/// Whether builders for all fields can be asked for with room for so many cells.
fn all_have_room(schema: &Vec<Field>, capacity: usize) -> (r: bool)
    ensures
        r == room_for_all(fields_view(schema@), capacity as int),
{
    for i in 0..schema.len()
        invariant
            forall|j: int|
                0 <= j < i ==> room_for(
                    (#[trigger] fields_view(schema@)[j]).data_type,
                    capacity as int,
                ),
    {
        let field = &schema[i];
        assert(fields_view(schema@)[i as int] == field@);
        if !type_has_room(&field.data_type, capacity) {
            return false;
        }
    }
    true
}

/// Less room can be asked for where more can.
pub proof fn lemma_less_room(t: TypeView, less: int, more: int)
    requires
        0 <= less <= more,
        room_for(t, more),
    ensures
        room_for(t, less),
    decreases t,
{
    match t {
        TypeView::List(item) => {
            lemma_less_room(item.data_type, less * 4, more * 4);
        },
        TypeView::Struct(fields) => {
            assert forall|i: int| 0 <= i < fields.len() implies room_for(
                (#[trigger] fields[i]).data_type,
                less,
            ) by {
                assert(room_for(fields[i].data_type, more));
                lemma_less_room(fields[i].data_type, less, more);
            }
        },
        TypeView::MapOf(entries, _) => match entries.data_type {
            TypeView::Struct(fields) => {
                if fields.len() == 2 {
                    lemma_less_room(fields[0].data_type, less, more);
                    lemma_less_room(fields[1].data_type, less, more);
                }
            },
            _ => {},
        },
        _ => {
            let width = cell_width(t);
            assert(less * width <= more * width) by (nonlinear_arith)
                requires
                    0 <= less <= more,
                    0 <= width,
            ;
        },
    }
}

/// Room for no cells can always be asked for.
proof fn lemma_no_room_needed(t: TypeView)
    ensures
        room_for(t, 0),
    decreases t,
{
    match t {
        TypeView::List(item) => {
            lemma_no_room_needed(item.data_type);
        },
        TypeView::Struct(fields) => {
            assert forall|i: int| 0 <= i < fields.len() implies room_for(
                (#[trigger] fields[i]).data_type,
                0,
            ) by {
                lemma_no_room_needed(fields[i].data_type);
            }
        },
        TypeView::MapOf(entries, _) => match entries.data_type {
            TypeView::Struct(fields) => {
                if fields.len() == 2 {
                    lemma_no_room_needed(fields[0].data_type);
                    lemma_no_room_needed(fields[1].data_type);
                }
            },
            _ => {},
        },
        _ => {},
    }
}

fn convert_no_rows(schema: &Vec<Field>) -> (r: Result<Batch, Halt>)
    ensures
        came_out(empty_outcome(fields_view(schema@)), r),
{
    let ghost fields = fields_view(schema@);
    let mut arrays: Vec<ColumnArray> = Vec::new();
    for i in 0..schema.len()
        invariant
            fields == fields_view(schema@),
            arrays@.len() == i,
            forall|j: int|
                0 <= j < i ==> empty_store(fields[j].data_type) == Some(
                    array_store(#[trigger] arrays@[j]),
                ),
    {
        let field = &schema[i];
        assert(fields[i as int] == field@);
        match empty_array(&field.data_type) {
            Some(array) => arrays.push(array),
            None => return Err(Halt::Broken),
        }
    }
    proof {
        assert forall|i: int| 0 <= i < fields.len() implies empty_store(
            (#[trigger] fields[i]).data_type,
        ) is Some by {
            assert(empty_store(fields[i].data_type) == Some(array_store(arrays@[i])));
        }
        assert(array_stores(arrays@) =~= empty_children(fields));
    }
    match build_record_batch(schema, arrays) {
        Ok(batch) => Ok(batch),
        Err(e) => Err(Halt::Failed(e)),
    }
}

fn convert_some_rows(rows: &[Vec<JsonValue>], schema: &Vec<Field>) -> (r: Result<Batch, Halt>)
    requires
        all_flat(fields_view(schema@)),
    ensures
        came_out(filled_outcome(rows_view(rows@), fields_view(schema@)), r),
{
    let ghost fields = fields_view(schema@);
    proof {
        lemma_fresh_match(fields, fields.len());
        assert(fields.take(fields.len() as int) =~= fields);
    }
    if !all_have_room(schema, rows.len()) {
        proof {
            assert forall|i: int| 0 <= i < fields.len() implies room_for(
                (#[trigger] fields[i]).data_type,
                0,
            ) by {
                lemma_no_room_needed(fields[i].data_type);
            }
        }
        return match create_builders(schema, 0) {
            Ok(_) => Err(Halt::Broken),
            Err(e) => Err(Halt::Failed(e)),
        };
    }
    let mut builders = match create_builders(schema, rows.len()) {
        Ok(builders) => builders,
        Err(e) => return Err(Halt::Failed(e)),
    };
    let ghost start = builders@;
    for i in 0..rows.len()
        invariant
            fields == fields_view(schema@),
            fresh_builders(fields, fields.len()) == Some(start),
            room_for_all(fields, rows@.len() as int),
            builders.wf(),
            builders_match(builders@, fields),
            rows_step(start, rows_view(rows@), fields, i as nat) == BuildersStep::Done(builders@),
    {
        proof {
            lemma_rows_stuck(start, rows_view(rows@), fields, (i + 1) as nat, rows@.len());
            lemma_row_match(
                builders@,
                json_items(rows@[i as int]@),
                fields,
                fields.len(),
                fields,
            );
        }
        match append_row_to_builders(&rows[i], schema, &mut builders) {
            Ok(()) => {},
            Err(halt) => return Err(halt),
        }
    }
    if !can_finish_all(&mut builders, schema) {
        return Err(Halt::Broken);
    }
    match finish_builders(builders, schema) {
        Ok(arrays) => match build_record_batch(schema, arrays) {
            Ok(batch) => Ok(batch),
            Err(e) => Err(Halt::Failed(e)),
        },
        Err(e) => Err(Halt::Failed(e)),
    }
}

/// Turns rows into a record batch.
pub fn convert_rows(rows: &[Vec<JsonValue>], columns: &Vec<TrinoColumn>) -> (r: Result<Batch, Halt>)
    ensures
        came_out(conversion(rows_view(rows@), columns_view(columns@)), r),
{
    if rows.len() == 0 && columns.len() == 0 {
        let batch = empty_batch();
        return Ok(batch);
    }
    let schema = match read_schema(columns) {
        Ok(schema) => schema,
        Err(TypeFault::Unsupported(trino_type)) => return Err(
            Halt::Failed(Error::UnsupportedTrinoType { trino_type }),
        ),
        Err(TypeFault::Malformed) => return Err(Halt::Broken),
    };
    proof {
        lemma_schema_flat(columns_view(columns@), columns@.len());
    }
    if rows.len() == 0 {
        convert_no_rows(&schema)
    } else {
        convert_some_rows(rows, &schema)
    }
}

/// Turns rows into a record batch.
pub fn rows_to_arrow(rows: &[Vec<JsonValue>], columns: &Vec<TrinoColumn>) -> (r: Result<
    Batch,
    Error,
>)
    requires
        !(conversion(rows_view(rows@), columns_view(columns@)) is Broken),
    ensures
        match conversion(rows_view(rows@), columns_view(columns@)) {
            Outcome::Batch(fields, columns) => r matches Ok(batch) && holds(batch, fields, columns),
            Outcome::Failed(e) => r matches Err(error) && error@ == e,
            Outcome::Broken => true,
        },
{
    match convert_rows(rows, columns) {
        Ok(batch) => Ok(batch),
        Err(Halt::Failed(e)) => Err(e),
        Err(Halt::Broken) => vstd::pervasive::unreached(),
    }
}

/// Turns rows into a record batch, whatever the rows and columns: `None` where Arrow could not
/// hold or count what would be in it, or a type name's parentheses close before they open.
pub fn try_rows_to_arrow(rows: &[Vec<JsonValue>], columns: &Vec<TrinoColumn>) -> (r: Option<
    Result<Batch, Error>,
>)
    ensures
        match conversion(rows_view(rows@), columns_view(columns@)) {
            Outcome::Batch(fields, columns) => r matches Some(Ok(batch)) && holds(
                batch,
                fields,
                columns,
            ),
            Outcome::Failed(e) => r matches Some(Err(error)) && error@ == e,
            Outcome::Broken => r is None,
        },
{
    match convert_rows(rows, columns) {
        Err(Halt::Broken) => None,
        _ => Some(rows_to_arrow(rows, columns)),
    }
}

} // verus!
