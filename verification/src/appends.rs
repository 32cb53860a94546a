//! What one more value does to a column.

use crate::cells::is_text_of;
use crate::flat::{is_scalar, same_kind};
use crate::json::JsonView;
use crate::store::{binary_bytes, null_at, store_len, store_type, text_bytes, Store};
use crate::trino::ErrorView;
use crate::types::{TimeUnit, TypeView};
use crate::values::{
    append_step, binary_cell, entry_keys, entry_values, item_texts, list_step, map_entries,
    map_step, pair_entries, text_cell, value_text, with_any_null, Step,
};
use vstd::prelude::*;
use vstd::utf8::encode_utf8;

verus! {

/// The text of a value that is not a null.
pub open spec fn has_text(text: Seq<char>, value: JsonView) -> bool {
    match value {
        JsonView::Null => text == "null"@,
        _ => is_text_of(Some(text), Some(value)),
    }
}

proof fn lemma_value_text(value: JsonView)
    ensures
        has_text(value_text(value), value),
{
}

/// A list puts the texts of its items behind those that are there, in their order, and ends there;
/// a null among them is written as text too. Anything else ends a list that is a null, and has no
/// items. Nothing that was there changes.
pub proof fn lemma_lists_are_appended(
    items: Seq<Option<Seq<char>>>,
    slots: Seq<(nat, bool)>,
    value: Option<JsonView>,
)
    ensures
        list_step(Store::TextList { items, slots }, value) matches Step::Done(now) ==> (
        now matches Store::TextList { items: all, slots: ends } && {
            let added = match value {
                Some(JsonView::Array(a)) => a.len(),
                _ => 0,
            };
            &&& all.len() == items.len() + added
            &&& forall|k: int| 0 <= k < items.len() ==> (#[trigger] all[k]) == items[k]
            &&& value matches Some(JsonView::Array(a)) ==> forall|k: int|
                0 <= k < a.len() ==> (#[trigger] all[items.len() + k]) is Some && has_text(
                    all[items.len() + k]->0,
                    a[k],
                )
            &&& ends == slots.push((all.len(), value matches Some(JsonView::Array(_))))
        }),
        list_step(Store::TextList { items, slots }, value) !is Failed,
        !(value matches Some(JsonView::Array(_))) && text_bytes(items) <= i32::MAX && items.len()
            <= i32::MAX ==> list_step(Store::TextList { items, slots }, value) is Done,
        value matches Some(JsonView::Array(a)) ==> text_bytes(items + item_texts(a)) <= i32::MAX
            && items.len() + a.len() <= i32::MAX ==> list_step(
            Store::TextList { items, slots },
            value,
        ) is Done,
{
    match value {
        Some(JsonView::Array(a)) => {
            let all = items + item_texts(a);
            assert forall|k: int| 0 <= k < a.len() implies (#[trigger] all[items.len() + k]) is Some
                && has_text(all[items.len() + k]->0, a[k]) by {
                assert(all[items.len() + k] == item_texts(a)[k]);
                lemma_value_text(a[k]);
            }
        },
        _ => {},
    }
}

/// An object puts the names of its members behind the keys that are there, in their order, and the
/// texts of their values behind the values, and ends there. Anything that is no object and no list
/// ends a map that is a null, and has no entries. Nothing that was there changes.
pub proof fn lemma_maps_are_appended(
    keys: Seq<Option<Seq<char>>>,
    values: Seq<Option<Seq<char>>>,
    slots: Seq<(nat, bool)>,
    value: Option<JsonView>,
)
    requires
        keys.len() == values.len(),
    ensures
        map_step(Store::TextMap { keys, values, slots }, value) !is Failed,
        map_step(Store::TextMap { keys, values, slots }, value) matches Step::Done(now) ==> (
        now matches Store::TextMap { keys: all, values: texts, slots: ends } && {
            &&& all.len() == texts.len()
            &&& all.len() >= keys.len()
            &&& forall|k: int| 0 <= k < keys.len() ==> (#[trigger] all[k]) == keys[k]
            &&& forall|k: int| 0 <= k < values.len() ==> (#[trigger] texts[k]) == values[k]
            &&& ends == slots.push(
                (all.len(), value matches Some(JsonView::Object(_)) || value matches Some(
                    JsonView::Array(_),
                )),
            )
            &&& value matches Some(JsonView::Object(members)) ==> {
                &&& all.len() == keys.len() + members.len()
                &&& forall|k: int|
                    0 <= k < members.len() ==> (#[trigger] all[keys.len() + k]) == Some(
                        members[k].0,
                    )
                &&& forall|k: int|
                    0 <= k < members.len() ==> (#[trigger] texts[keys.len() + k]) is Some
                        && has_text(texts[keys.len() + k]->0, members[k].1)
            }
            &&& value matches Some(JsonView::Array(items)) ==> {
                &&& all.len() == keys.len() + pair_entries(items).len()
                &&& forall|k: int|
                    0 <= k < pair_entries(items).len() ==> (#[trigger] all[keys.len() + k]) == Some(
                        pair_entries(items)[k].0,
                    )
                &&& forall|k: int|
                    0 <= k < pair_entries(items).len() ==> (#[trigger] texts[keys.len() + k])
                        == Some(pair_entries(items)[k].1)
            }
            &&& !(value matches Some(JsonView::Object(_))) && !(value matches Some(
                JsonView::Array(_),
            )) ==> all.len() == keys.len()
        }),
{
    let entries = match map_entries(value) {
        Some(entries) => entries,
        None => seq![],
    };
    let all = keys + entry_keys(entries);
    let texts = values + entry_values(entries);
    match value {
        Some(JsonView::Object(members)) => {
            assert forall|k: int| 0 <= k < members.len() implies (#[trigger] all[keys.len() + k])
                == Some(members[k].0) by {
                assert(all[keys.len() + k] == entry_keys(entries)[k]);
            }
            assert forall|k: int| 0 <= k < members.len() implies (#[trigger] texts[keys.len()
                + k]) is Some && has_text(texts[keys.len() + k]->0, members[k].1) by {
                assert(texts[keys.len() + k] == entry_values(entries)[k]);
                lemma_value_text(members[k].1);
            }
        },
        Some(JsonView::Array(items)) => {
            assert forall|k: int| 0 <= k < entries.len() implies (#[trigger] all[keys.len() + k])
                == Some(entries[k].0) by {
                assert(all[keys.len() + k] == entry_keys(entries)[k]);
            }
            assert forall|k: int| 0 <= k < entries.len() implies (#[trigger] texts[keys.len() + k])
                == Some(entries[k].1) by {
                assert(texts[keys.len() + k] == entry_values(entries)[k]);
            }
        },
        _ => {},
    }
}

/// Whether an item of a list of pairs is a pair: an object of two members.
pub open spec fn is_pair(item: JsonView) -> bool {
    item matches JsonView::Object(members) && members.len() == 2
}

/// A list of pairs has the entries of its first items, and one more where the last item is an
/// object of two members: the text of the first is the key, the text of the second the value.
/// Other items give none.
pub proof fn lemma_pairs_are_entries(items: Seq<JsonView>, item: JsonView)
    ensures
        pair_entries(seq![]).len() == 0,
        !is_pair(item) ==> pair_entries(items.push(item)) == pair_entries(items),
        item matches JsonView::Object(members) && members.len() == 2 ==> {
            let all = pair_entries(items.push(item));
            &&& all.len() == pair_entries(items).len() + 1
            &&& all.drop_last() == pair_entries(items)
            &&& has_text(all.last().0, item->Object_0[0].1)
            &&& has_text(all.last().1, item->Object_0[1].1)
        },
{
    assert(items.push(item).drop_last() =~= items);
    match item {
        JsonView::Object(members) => {
            if members.len() == 2 {
                lemma_value_text(members[0].1);
                lemma_value_text(members[1].1);
                let all = pair_entries(items.push(item));
                assert(all.drop_last() =~= pair_entries(items));
            }
        },
        _ => {},
    }
}

/// A null that is put into a column of any kind without parts comes behind the cells that are
/// there, and changes none of them. Lists, structs and maps stay as they are.
pub proof fn lemma_nulls_are_appended(s: Store)
    ensures
        ({
            let now = with_any_null(s);
            let whole = s is List || s is TextList || s is Struct || s is MapOf || s is TextMap;
            &&& whole ==> now == s
            &&& !whole ==> store_len(now) == store_len(s) + 1 && null_at(now, store_len(s) as int)
            &&& store_type(now) == store_type(s)
            &&& s matches Store::Boolean(cells) ==> now->Boolean_0 == cells.push(None)
            &&& s matches Store::Int8(cells) ==> now->Int8_0 == cells.push(None)
            &&& s matches Store::Int16(cells) ==> now->Int16_0 == cells.push(None)
            &&& s matches Store::Int32(cells) ==> now->Int32_0 == cells.push(None)
            &&& s matches Store::Int64(cells) ==> now->Int64_0 == cells.push(None)
            &&& s matches Store::Float32(cells) ==> now->Float32_0 == cells.push(None)
            &&& s matches Store::Float64(cells) ==> now->Float64_0 == cells.push(None)
            &&& s matches Store::Utf8(cells) ==> now->Utf8_0 == cells.push(None)
            &&& s matches Store::LargeUtf8(cells) ==> now->LargeUtf8_0 == cells.push(None)
            &&& s matches Store::Binary(cells) ==> now->Binary_0 == cells.push(None)
            &&& s matches Store::Date32(cells) ==> now->Date32_0 == cells.push(None)
            &&& s matches Store::Time64(cells) ==> now->Time64_0 == cells.push(None)
            &&& s matches Store::Timestamp(cells) ==> now->Timestamp_0 == cells.push(None)
            &&& s matches Store::Decimal128 { cells, .. } ==> now->Decimal128_cells == cells.push(
                None,
            )
            &&& s matches Store::Decimal256 { cells, .. } ==> now->Decimal256_cells == cells.push(
                None,
            )
        }),
{
}

/// The kind of builder that a type without parts needs, as an error names it.
pub open spec fn builder_name(t: TypeView) -> Seq<char> {
    match t {
        TypeView::Boolean => "BooleanBuilder"@,
        TypeView::Int8 => "Int8Builder"@,
        TypeView::Int16 => "Int16Builder"@,
        TypeView::Int32 => "Int32Builder"@,
        TypeView::Int64 => "Int64Builder"@,
        TypeView::Float32 => "Float32Builder"@,
        TypeView::Float64 => "Float64Builder"@,
        TypeView::Utf8 => "StringBuilder"@,
        TypeView::LargeUtf8 => "LargeStringBuilder"@,
        TypeView::Binary => "BinaryBuilder"@,
        TypeView::Date32 => "Date32Builder"@,
        TypeView::Time64(TimeUnit::Nanosecond) => "Time64NanosecondBuilder"@,
        TypeView::Timestamp(TimeUnit::Microsecond, _) => "TimestampMicrosecondBuilder"@,
        TypeView::Decimal128(_, _) => "Decimal128Builder"@,
        TypeView::Decimal256(_, _) => "Decimal256Builder"@,
        TypeView::Null => "NullBuilder"@,
        TypeView::Struct(_) => "StructBuilder"@,
        _ => "StringBuilder (fallback)"@,
    }
}

/// Whether a column is of the kind that a type needs, whatever its precision and scale.
pub open spec fn is_kind(s: Store, t: TypeView) -> bool {
    match t {
        TypeView::Decimal128(_, _) => s is Decimal128,
        TypeView::Decimal256(_, _) => s is Decimal256,
        TypeView::Struct(_) => s is Struct,
        _ => same_kind(s, t),
    }
}

/// A column of another kind than the type needs takes nothing: the error names the kind that it
/// would take, and the column stays as it is.
pub proof fn lemma_other_kinds_are_refused(s: Store, value: Option<JsonView>, t: TypeView)
    requires
        !(t is List),
        !(t is MapOf),
        !is_kind(s, t),
    ensures
        append_step(s, value, t) == Step::Failed(
            s,
            ErrorView::BuilderDowncastError(builder_name(t)),
        ),
{
}

/// A column of the kind that its type needs takes every value, but for texts that are no date,
/// time, timestamp or decimal number where there must be one, whose error names the text and leaves
/// the column as it is, and for more than Arrow can count: 2147483647 bytes of text.
pub proof fn lemma_columns_take_values(s: Store, value: Option<JsonView>, t: TypeView)
    requires
        is_scalar(t),
        is_kind(s, t),
    ensures
        match append_step(s, value, t) {
            Step::Done(now) => store_len(now) == store_len(s) + 1,
            Step::Failed(now, e) => now == s && (value matches Some(JsonView::Text(text))
                && match t {
                TypeView::Date32 => e == ErrorView::InvalidDateValue(text),
                TypeView::Time64(TimeUnit::Nanosecond) => e == ErrorView::InvalidTimeValue(text),
                TypeView::Timestamp(TimeUnit::Microsecond, _) => e
                    == ErrorView::InvalidTimestampValue(text),
                TypeView::Decimal128(_, _) | TypeView::Decimal256(_, _) => e
                    == ErrorView::FailedToParseDecimal(text),
                _ => false,
            }),
            Step::Broken => match s {
                Store::Utf8(cells) => text_bytes(cells.push(text_cell(value))) > 2_147_483_647,
                Store::Binary(cells) => binary_bytes(cells.push(binary_cell(value)))
                    > 2_147_483_647,
                Store::Null(n) => n >= usize::MAX,
                _ => false,
            },
        },
{
}

/// Texts and bytes take the bytes of each of their cells. A text takes those of its UTF-8 form, a
/// null takes none.
pub proof fn lemma_bytes_are_counted(
    texts: Seq<Option<Seq<char>>>,
    text: Seq<char>,
    cells: Seq<Option<Seq<u8>>>,
    bytes: Seq<u8>,
)
    ensures
        text_bytes(seq![]) == 0,
        text_bytes(texts.push(Some(text))) == text_bytes(texts) + encode_utf8(text).len(),
        text_bytes(texts.push(None)) == text_bytes(texts),
        binary_bytes(seq![]) == 0,
        binary_bytes(cells.push(Some(bytes))) == binary_bytes(cells) + bytes.len(),
        binary_bytes(cells.push(None)) == binary_bytes(cells),
{
    assert(texts.push(Some(text)).drop_last() =~= texts);
    assert(texts.push(None).drop_last() =~= texts);
    assert(cells.push(Some(bytes)).drop_last() =~= cells);
    assert(cells.push(None).drop_last() =~= cells);
}

} // verus!
