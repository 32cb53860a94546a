//! What one builder holds after many values.

use crate::columns::{cell_at, value_at};
use crate::flat::same_kind;
use crate::json::JsonView;
use crate::rows::{fresh, lemma_fresh_struct};
use crate::store::{null_at, store_len, Store};
use crate::types::{FieldView, TypeView};
use crate::values::{
    append_step, children_step, field_value, is_struct_value, scalar_step, struct_step,
    ChildrenStep, Step,
};
use vstd::prelude::*;

verus! {

/// What appending the first `n` of some values, one after the other, does to a column of a type.
pub open spec fn append_run(
    start: Store,
    values: Seq<Option<JsonView>>,
    t: TypeView,
    n: nat,
) -> Step
    decreases n,
{
    if n == 0 {
        Step::Done(start)
    } else {
        match append_run(start, values, t, (n - 1) as nat) {
            Step::Done(now) => append_step(now, values[n - 1], t),
            other => other,
        }
    }
}

/// The first `k` cells of a column that is neither of lists nor of maps.
pub open spec fn first_cells(s: Store, k: nat) -> Store
    decreases s,
{
    let n = k as int;
    match s {
        Store::Boolean(cells) => Store::Boolean(cells.take(n)),
        Store::Int8(cells) => Store::Int8(cells.take(n)),
        Store::Int16(cells) => Store::Int16(cells.take(n)),
        Store::Int32(cells) => Store::Int32(cells.take(n)),
        Store::Int64(cells) => Store::Int64(cells.take(n)),
        Store::Float32(cells) => Store::Float32(cells.take(n)),
        Store::Float64(cells) => Store::Float64(cells.take(n)),
        Store::Utf8(cells) => Store::Utf8(cells.take(n)),
        Store::LargeUtf8(cells) => Store::LargeUtf8(cells.take(n)),
        Store::Binary(cells) => Store::Binary(cells.take(n)),
        Store::Date32(cells) => Store::Date32(cells.take(n)),
        Store::Time64(cells) => Store::Time64(cells.take(n)),
        Store::Timestamp(cells) => Store::Timestamp(cells.take(n)),
        Store::Decimal128 { precision, scale, cells } => Store::Decimal128 {
            precision,
            scale,
            cells: cells.take(n),
        },
        Store::Decimal256 { precision, scale, cells } => Store::Decimal256 {
            precision,
            scale,
            cells: cells.take(n),
        },
        Store::Null(_) => Store::Null(k),
        Store::Struct { fields, children, validity } => Store::Struct {
            fields,
            children: Seq::new(
                children.len(),
                |i: int|
                    if 0 <= i < children.len() {
                        first_cells(children[i], k)
                    } else {
                        arbitrary()
                    },
            ),
            validity: validity.take(n),
        },
        _ => s,
    }
}

/// The first `k` cells of several columns.
spec fn all_first(children: Seq<Store>, k: nat) -> Seq<Store> {
    Seq::new(children.len(), |i: int| first_cells(children[i], k))
}

proof fn lemma_first_of_struct(
    fields: Seq<FieldView>,
    children: Seq<Store>,
    validity: Seq<bool>,
    k: nat,
)
    ensures
        first_cells(Store::Struct { fields, children, validity }, k) == (Store::Struct {
            fields,
            children: all_first(children, k),
            validity: validity.take(k as int),
        }),
{
    let first = first_cells(Store::Struct { fields, children, validity }, k);
    assert(first->Struct_children =~= all_first(children, k));
}

/// Whether a value is missing or null.
pub open spec fn is_missing(value: Option<JsonView>) -> bool {
    value is None || value == Some(JsonView::Null)
}

broadcast proof fn lemma_take_before_push<A>(s: Seq<A>, x: A, n: int)
    requires
        n == s.len(),
    ensures
        #[trigger] s.push(x).take(n) == s,
{
    assert(s.push(x).take(n) =~= s);
}

broadcast proof fn lemma_take_of_take<A>(s: Seq<A>, n: int, k: int)
    requires
        0 <= k <= n <= s.len(),
    ensures
        #[trigger] s.take(n).take(k) == s.take(k),
{
    assert(s.take(n).take(k) =~= s.take(k));
}

broadcast proof fn lemma_take_all<A>(s: Seq<A>, n: int)
    requires
        n == s.len(),
    ensures
        #[trigger] s.take(n) == s,
{
    assert(s.take(n) =~= s);
}

proof fn lemma_scalar_step(s: Store, value: Option<JsonView>, t: TypeView, n: nat)
    requires
        same_kind(s, t),
        store_len(s) == n,
    ensures
        scalar_step(s, value, t) matches Step::Done(now) ==> {
            &&& same_kind(now, t)
            &&& store_len(now) == n + 1
            &&& cell_at(now, n as int, value, t)
            &&& first_cells(now, n) == s
            &&& is_missing(value) ==> null_at(now, n as int)
            &&& forall|j: int, v: Option<JsonView>|
                0 <= j < n && cell_at(s, j, v, t) ==> #[trigger] cell_at(now, j, v, t)
            &&& forall|j: int| 0 <= j < n && null_at(s, j) ==> #[trigger] null_at(now, j)
        },
{
    broadcast use lemma_take_before_push;

}

proof fn lemma_first_of_first(s: Store, t: TypeView, k: nat, n: nat)
    requires
        same_kind(s, t),
        k <= n <= store_len(s),
    ensures
        first_cells(first_cells(s, n), k) == first_cells(s, k),
        n == store_len(s) ==> first_cells(s, n) == s,
{
    broadcast use {lemma_take_of_take, lemma_take_all};

    reveal_with_fuel(first_cells, 2);
}

/// Whether columns are of the kinds that the types of fields call for, with `n` cells each.
spec fn kinds_of(children: Seq<Store>, fields: Seq<FieldView>, n: nat) -> bool {
    &&& children.len() == fields.len()
    &&& forall|i: int|
        0 <= i < fields.len() ==> same_kind(#[trigger] children[i], fields[i].data_type)
            && store_len(children[i]) == n
}

/// Whether a column is of the kind that a type calls for, inside too, with `n` cells.
spec fn kind_of(s: Store, t: TypeView, n: nat) -> bool {
    match t {
        TypeView::Struct(fields) => s matches Store::Struct { fields: own, children, validity }
            && own == fields && validity.len() == n && kinds_of(children, fields, n),
        _ => same_kind(s, t) && store_len(s) == n,
    }
}

/// Whether a column without parts has one more cell, which a value gives, and `n` as they were.
spec fn cell_added(
    before: Store,
    now: Store,
    value: Option<JsonView>,
    t: TypeView,
    n: nat,
) -> bool {
    &&& same_kind(now, t)
    &&& store_len(now) == n + 1
    &&& cell_at(now, n as int, value, t)
    &&& first_cells(now, n) == before
    &&& forall|j: int, v: Option<JsonView>|
        0 <= j < n && cell_at(before, j, v, t) ==> #[trigger] cell_at(now, j, v, t)
}

proof fn lemma_children_step(
    children: Seq<Store>,
    value: Option<JsonView>,
    fields: Seq<FieldView>,
    k: nat,
    n: nat,
)
    requires
        k <= fields.len(),
        kinds_of(children, fields, n),
    ensures
        children_step(children, value, fields, k) matches ChildrenStep::Done(now) ==> {
            &&& now.len() == children.len()
            &&& forall|i: int|
                0 <= i < k ==> cell_added(
                    children[i],
                    #[trigger] now[i],
                    field_value(value, fields[i], i),
                    fields[i].data_type,
                    n,
                )
            &&& forall|i: int| k <= i < now.len() ==> (#[trigger] now[i]) == children[i]
        },
    decreases k,
{
    if k > 0 {
        lemma_children_step(children, value, fields, (k - 1) as nat, n);
        match children_step(children, value, fields, (k - 1) as nat) {
            ChildrenStep::Done(before) => {
                let c = k - 1;
                assert(before[c] == children[c]);
                assert(same_kind(children[c], fields[c].data_type));
                lemma_scalar_step(
                    children[c],
                    field_value(value, fields[c], c),
                    fields[c].data_type,
                    n,
                );
            },
            _ => {},
        }
    }
}

proof fn lemma_append(s: Store, value: Option<JsonView>, t: TypeView, n: nat)
    requires
        !(t is List),
        !(t is MapOf),
        kind_of(s, t, n),
    ensures
        append_step(s, value, t) matches Step::Done(now) ==> {
            &&& kind_of(now, t, n + 1)
            &&& value_at(now, n as int, value, t)
            &&& first_cells(now, n) == s
            &&& is_missing(value) ==> null_at(now, n as int)
            &&& forall|j: int, v: Option<JsonView>|
                0 <= j < n && value_at(s, j, v, t) ==> #[trigger] value_at(now, j, v, t)
            &&& forall|j: int| 0 <= j < n && null_at(s, j) ==> #[trigger] null_at(now, j)
        },
{
    match t {
        TypeView::Struct(fields) => {
            let children = s->Struct_children;
            let validity = s->Struct_validity;
            lemma_children_step(children, value, fields, fields.len(), n);
            match struct_step(s, value, fields) {
                Step::Done(now) => {
                    let after = now->Struct_children;
                    let marks = validity.push(is_struct_value(value));
                    lemma_first_of_struct(fields, after, marks, n);
                    assert(all_first(after, n) =~= children);
                    assert(marks.take(n as int) =~= validity);
                    assert forall|i: int| 0 <= i < fields.len() implies same_kind(
                        #[trigger] after[i],
                        fields[i].data_type,
                    ) && store_len(after[i]) == n + 1 && cell_at(
                        after[i],
                        n as int,
                        field_value(value, fields[i], i),
                        fields[i].data_type,
                    ) by {
                        assert(cell_added(
                            children[i],
                            after[i],
                            field_value(value, fields[i], i),
                            fields[i].data_type,
                            n,
                        ));
                    }
                    assert forall|j: int, v: Option<JsonView>|
                        0 <= j < n && value_at(s, j, v, t) implies #[trigger] value_at(
                        now,
                        j,
                        v,
                        t,
                    ) by {
                        assert forall|i: int| 0 <= i < fields.len() implies cell_at(
                            #[trigger] after[i],
                            j,
                            field_value(v, fields[i], i),
                            fields[i].data_type,
                        ) by {
                            assert(cell_at(
                                children[i],
                                j,
                                field_value(v, fields[i], i),
                                fields[i].data_type,
                            ));
                        }
                    }
                },
                _ => {},
            }
        },
        _ => {
            lemma_scalar_step(s, value, t, n);
        },
    }
}

proof fn lemma_first_of_kind(s: Store, t: TypeView, k: nat, n: nat, len: nat)
    requires
        kind_of(s, t, len),
        k <= n <= len,
    ensures
        first_cells(first_cells(s, n), k) == first_cells(s, k),
        n == len ==> first_cells(s, n) == s,
{
    match t {
        TypeView::Struct(fields) => {
            broadcast use {lemma_take_of_take, lemma_take_all};

            let children = s->Struct_children;
            let validity = s->Struct_validity;
            lemma_first_of_struct(fields, children, validity, n);
            lemma_first_of_struct(fields, children, validity, k);
            lemma_first_of_struct(fields, all_first(children, n), validity.take(n as int), k);
            assert forall|i: int| 0 <= i < children.len() implies first_cells(
                first_cells(#[trigger] children[i], n),
                k,
            ) == first_cells(children[i], k) && (n == len ==> first_cells(children[i], n)
                == children[i]) by {
                lemma_first_of_first(children[i], fields[i].data_type, k, n);
            }
            assert(all_first(all_first(children, n), k) =~= all_first(children, k));
            if n == len {
                assert(all_first(children, n) =~= children);
            }
        },
        _ => {
            lemma_first_of_first(s, t, k, n);
        },
    }
}

/// New columns that take a first value are of the kinds of their types.
proof fn lemma_fresh_children(
    children: Seq<Store>,
    value: Option<JsonView>,
    fields: Seq<FieldView>,
    k: nat,
)
    requires
        k <= fields.len(),
        children.len() == fields.len(),
        forall|i: int|
            0 <= i < fields.len() ==> fresh(fields[i].data_type) == Some(#[trigger] children[i]),
    ensures
        children_step(children, value, fields, k) matches ChildrenStep::Done(now) ==> {
            &&& now.len() == children.len()
            &&& forall|i: int|
                0 <= i < k ==> same_kind(#[trigger] children[i], fields[i].data_type) && store_len(
                    children[i],
                ) == 0
            &&& forall|i: int| k <= i < now.len() ==> (#[trigger] now[i]) == children[i]
        },
    decreases k,
{
    if k > 0 {
        lemma_fresh_children(children, value, fields, (k - 1) as nat);
        match children_step(children, value, fields, k) {
            ChildrenStep::Done(_) => {
                let c = k - 1;
                assert(fresh(fields[c].data_type) == Some(children[c]));
                assert(scalar_step(
                    children[c],
                    field_value(value, fields[c], c),
                    fields[c].data_type,
                ) is Done);
            },
            _ => {},
        }
    }
}

proof fn lemma_fresh_kind(t: TypeView, value: Option<JsonView>)
    requires
        !(t is List),
        !(t is MapOf),
        fresh(t) is Some,
        append_step(fresh(t)->0, value, t) is Done,
    ensures
        kind_of(fresh(t)->0, t, 0),
{
    match t {
        TypeView::Struct(fields) => {
            lemma_fresh_struct(fields);
            let children = fresh(t)->0->Struct_children;
            assert forall|i: int| 0 <= i < fields.len() implies fresh(fields[i].data_type) == Some(
                #[trigger] children[i],
            ) by {
                assert(fresh(fields[i].data_type) is Some);
            }
            lemma_fresh_children(children, value, fields, fields.len());
        },
        _ => {},
    }
}

/// A new column has no cells to leave out.
proof fn lemma_first_of_fresh(t: TypeView)
    requires
        fresh(t) is Some,
    ensures
        first_cells(fresh(t)->0, 0) == fresh(t)->0,
    decreases t,
{
    broadcast use lemma_take_all;

    match t {
        TypeView::Struct(fields) => {
            lemma_fresh_struct(fields);
            let children = fresh(t)->0->Struct_children;
            lemma_first_of_struct(fields, children, seq![], 0);
            assert forall|i: int| 0 <= i < children.len() implies first_cells(
                #[trigger] children[i],
                0,
            ) == children[i] by {
                assert(fresh(fields[i].data_type) is Some);
                lemma_first_of_fresh(fields[i].data_type);
            }
            assert(all_first(children, 0) =~= children);
        },
        _ => {},
    }
}

proof fn lemma_run(start: Store, values: Seq<Option<JsonView>>, t: TypeView, n: nat)
    requires
        !(t is List),
        !(t is MapOf),
        kind_of(start, t, 0),
        n <= values.len(),
    ensures
        append_run(start, values, t, n) matches Step::Done(s) ==> {
            &&& kind_of(s, t, n)
            &&& forall|j: int| 0 <= j < n ==> #[trigger] value_at(s, j, values[j], t)
            &&& forall|j: int| 0 <= j < n && is_missing(values[j]) ==> #[trigger] null_at(s, j)
            &&& forall|k: nat|
                k <= n ==> #[trigger] append_run(start, values, t, k) == Step::Done(
                    first_cells(s, k),
                )
        },
    decreases n,
{
    if n == 0 {
        lemma_first_of_kind(start, t, 0, 0, 0);
    } else {
        let m = (n - 1) as nat;
        lemma_run(start, values, t, m);
        match append_run(start, values, t, n) {
            Step::Done(s) => {
                let before = append_run(start, values, t, m)->Done_0;
                lemma_append(before, values[m as int], t, m);
                assert forall|j: int| 0 <= j < n implies #[trigger] value_at(
                    s,
                    j,
                    values[j],
                    t,
                ) by {
                    if j < m {
                        assert(value_at(before, j, values[j], t));
                    }
                }
                assert forall|j: int| 0 <= j < n && is_missing(values[j]) implies
                    #[trigger] null_at(s, j) by {
                    if j < m {
                        assert(null_at(before, j));
                    }
                }
                assert forall|k: nat| k <= n implies #[trigger] append_run(start, values, t, k)
                    == Step::Done(first_cells(s, k)) by {
                    if k < n {
                        lemma_first_of_kind(s, t, k, m, n);
                    } else {
                        lemma_first_of_kind(s, t, n, n, n);
                    }
                }
            },
            _ => {},
        }
    }
}

/// Values that are appended to a new builder of a type that is neither a list nor a map give it
/// one element each, in their order: the element depends on its value and on the type alone, and
/// is null where the value is missing or null. Each value leaves the elements before it as they
/// were.
pub proof fn lemma_one_element_for_each_value(values: Seq<Option<JsonView>>, t: TypeView)
    requires
        !(t is List),
        !(t is MapOf),
        fresh(t) is Some,
    ensures
        append_run(fresh(t)->0, values, t, values.len()) matches Step::Done(s) ==> {
            &&& store_len(s) == values.len()
            &&& forall|j: int| 0 <= j < values.len() ==> #[trigger] value_at(s, j, values[j], t)
            &&& forall|j: int|
                0 <= j < values.len() && is_missing(values[j]) ==> #[trigger] null_at(s, j)
            &&& forall|k: nat|
                k <= values.len() ==> #[trigger] append_run(fresh(t)->0, values, t, k)
                    == Step::Done(first_cells(s, k))
        },
{
    let start = fresh(t)->0;
    lemma_first_of_fresh(t);
    if values.len() > 0 && append_run(start, values, t, values.len()) is Done {
        lemma_run_starts(start, values, t, values.len());
        lemma_fresh_kind(t, values[0]);
        lemma_run(start, values, t, values.len());
    }
}

/// A run that goes through has taken its first value.
proof fn lemma_run_starts(start: Store, values: Seq<Option<JsonView>>, t: TypeView, n: nat)
    requires
        0 < n <= values.len(),
        append_run(start, values, t, n) is Done,
    ensures
        append_step(start, values[0], t) is Done,
    decreases n,
{
    if n > 1 {
        lemma_run_starts(start, values, t, (n - 1) as nat);
    } else {
        assert(append_run(start, values, t, 0) == Step::Done(start));
    }
}

} // verus!
