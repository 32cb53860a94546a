//! Types that nest once at most, as all types of Trino columns do, and the builders for them.

use crate::schema::{
    fields_reading, split_outside, trino_type, type_reading, Brackets, FieldsReading, TypeReading,
};
use crate::store::{finishable, store_type, Store};
use crate::types::{FieldView, TimeUnit, TypeView};
use crate::rows::{fresh, lemma_fresh_struct};
use crate::values::{append_step, children_step, scalar_step, ChildrenStep, Step};
use crate::json::JsonView;
use vstd::prelude::*;

verus! {

/// Whether a type has no parts.
pub open spec fn is_scalar(t: TypeView) -> bool {
    match t {
        TypeView::List(_) | TypeView::Struct(_) | TypeView::MapOf(_, _) => false,
        _ => true,
    }
}

/// Whether a type nests once at most: the items of a list, and the fields of a struct, have no
/// parts. All fields take nulls, and no type is a map.
pub open spec fn is_flat(t: TypeView) -> bool {
    match t {
        TypeView::List(item) => is_scalar(item.data_type) && item.nullable,
        TypeView::Struct(fields) => forall|i: int|
            0 <= i < fields.len() ==> is_scalar((#[trigger] fields[i]).data_type)
                && fields[i].nullable,
        TypeView::MapOf(_, _) => false,
        _ => true,
    }
}

proof fn lemma_fields_flat(inner: Seq<char>, k: nat)
    ensures
        fields_reading(inner, k, true) matches FieldsReading::Fields(fields) ==> is_flat(
            TypeView::Struct(fields),
        ),
    decreases k,
{
    if 0 < k <= split_outside(inner, ',').len() {
        lemma_fields_flat(inner, (k - 1) as nat);
    }
}

proof fn lemma_reading_flat(n: Seq<char>, shown: Seq<char>)
    ensures
        type_reading(n, shown) matches TypeReading::Type(t) ==> is_flat(t),
{
    match crate::schema::outer_brackets(n) {
        Brackets::Inside(inner) => {
            lemma_fields_flat(inner, split_outside(inner, ',').len());
        },
        _ => {},
    }
}

/// The type of a Trino column nests once at most: what would nest deeper is text.
pub proof fn lemma_trino_types_are_flat(name: Seq<char>)
    ensures
        trino_type(name) matches TypeReading::Type(t) ==> is_flat(t),
{
    lemma_reading_flat(crate::text::folded(name), name);
}

/// Whether a column is of the kind that a type without parts calls for.
pub open spec fn same_kind(s: Store, t: TypeView) -> bool {
    match t {
        TypeView::Boolean => s is Boolean,
        TypeView::Int8 => s is Int8,
        TypeView::Int16 => s is Int16,
        TypeView::Int32 => s is Int32,
        TypeView::Int64 => s is Int64,
        TypeView::Float32 => s is Float32,
        TypeView::Float64 => s is Float64,
        TypeView::Utf8 => s is Utf8,
        TypeView::LargeUtf8 => s is LargeUtf8,
        TypeView::Binary => s is Binary,
        TypeView::Date32 => s is Date32,
        TypeView::Time64(TimeUnit::Nanosecond) => s is Time64,
        TypeView::Timestamp(TimeUnit::Microsecond, _) => s is Timestamp,
        TypeView::Decimal128(p, c) => s matches Store::Decimal128 { precision, scale, .. }
            && precision == p && scale == c,
        TypeView::Decimal256(p, c) => s matches Store::Decimal256 { precision, scale, .. }
            && precision == p && scale == c,
        TypeView::Null => s is Null,
        _ => s is Utf8,
    }
}

/// Whether a column is one that a builder for a type makes.
pub open spec fn built_for(s: Store, t: TypeView) -> bool {
    match t {
        TypeView::List(item) => s matches Store::List(items) && same_kind(*items, item.data_type),
        TypeView::Struct(own) => {
            &&& s matches Store::Struct { fields, children, .. }
            &&& fields == own
            &&& children.len() == own.len()
            &&& forall|i: int|
                0 <= i < own.len() ==> same_kind(#[trigger] children[i], own[i].data_type)
        },
        _ => same_kind(s, t),
    }
}

/// Whether a finished column of the kind that a type calls for is of that very type. A
/// timestamp column has no time zone.
pub open spec fn is_plain(t: TypeView) -> bool {
    match t {
        TypeView::Timestamp(TimeUnit::Microsecond, None) => true,
        TypeView::Timestamp(_, _) => false,
        TypeView::Time64(TimeUnit::Microsecond) => false,
        _ => true,
    }
}

/// A column of the kind that a type calls for is of that very type just where the type is plain.
pub proof fn lemma_plain(s: Store, t: TypeView)
    requires
        is_scalar(t),
        same_kind(s, t),
    ensures
        (store_type(s) == t) == is_plain(t),
        finishable(s),
{
}

proof fn lemma_fresh_scalar(t: TypeView)
    requires
        is_scalar(t),
        fresh(t) is Some,
    ensures
        same_kind(fresh(t)->0, t),
{
}

/// A new builder is one for its type.
pub proof fn lemma_fresh_built(t: TypeView)
    requires
        is_flat(t),
        fresh(t) is Some,
    ensures
        built_for(fresh(t)->0, t),
{
    match t {
        TypeView::Struct(fields) => {
            lemma_fresh_struct(fields);
            let children = fresh(t)->0->Struct_children;
            assert forall|i: int| 0 <= i < fields.len() implies same_kind(
                #[trigger] children[i],
                fields[i].data_type,
            ) by {
                lemma_fresh_scalar(fields[i].data_type);
            }
        },
        TypeView::List(item) => {
            lemma_fresh_scalar(item.data_type);
        },
        _ => {},
    }
}

/// Appending keeps the kind of a column of a type without parts.
pub proof fn lemma_scalar_step_keeps(s: Store, value: Option<JsonView>, u: TypeView, t: TypeView)
    requires
        same_kind(s, t),
    ensures
        scalar_step(s, value, u) matches Step::Done(now) ==> same_kind(now, t),
{
}

proof fn lemma_children_step_keeps(
    children: Seq<Store>,
    value: Option<JsonView>,
    fields: Seq<FieldView>,
    k: nat,
    own: Seq<FieldView>,
)
    requires
        children.len() == own.len(),
        forall|i: int| 0 <= i < own.len() ==> same_kind(#[trigger] children[i], own[i].data_type),
    ensures
        children_step(children, value, fields, k) matches ChildrenStep::Done(now) ==> now.len()
            == own.len() && forall|i: int|
            0 <= i < own.len() ==> same_kind(#[trigger] now[i], own[i].data_type),
    decreases k,
{
    if k > 0 {
        lemma_children_step_keeps(children, value, fields, (k - 1) as nat, own);
        match children_step(children, value, fields, (k - 1) as nat) {
            ChildrenStep::Done(now) => {
                if k <= now.len() {
                    let field = fields[k - 1];
                    let part = crate::values::field_value(value, field, k - 1);
                    lemma_scalar_step_keeps(
                        now[k - 1],
                        part,
                        field.data_type,
                        own[k - 1].data_type,
                    );
                }
            },
            _ => {},
        }
    }
}

/// Appending keeps the kind of a column, whatever the value and the type that it is appended
/// for.
pub proof fn lemma_append_keeps(s: Store, value: Option<JsonView>, u: TypeView, t: TypeView)
    requires
        built_for(s, t),
    ensures
        append_step(s, value, u) matches Step::Done(now) ==> built_for(now, t),
{
    match (s, u) {
        (Store::Struct { children, .. }, TypeView::Struct(fields)) => {
            match t {
                TypeView::Struct(own) => {
                    lemma_children_step_keeps(children, value, fields, fields.len(), own);
                },
                _ => {},
            }
        },
        _ => {},
    }
}

} // verus!
