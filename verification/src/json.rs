//! JSON values: what Trino sends as the cells of a row.

use crate::number::integer_text;
use crate::text::{lemma_texts_total, lemma_texts_transitive, same_text, text_before, texts_ordered};
use arrow::datatypes::{ArrowPrimitiveType, Float64Type};
use serde_json::Value;
use vstd::prelude::*;

verus! {

/// Whether the bits of a double stand for a finite number.
pub open spec fn is_finite(bits: u64) -> bool {
    bits % 0x8000_0000_0000_0000 < 0x7ff0_0000_0000_0000
}

/// A finite double, by its bits. JSON has no other.
#[derive(Debug, PartialEq)]
pub struct FiniteFloat {
    bits: u64,
}

impl FiniteFloat {
    #[verifier::type_invariant]
    spec fn finite(self) -> bool {
        is_finite(self.bits)
    }

    pub closed spec fn view(&self) -> u64 {
        self.bits
    }

    /// The double of these bits, where it is finite.
    pub fn from_bits(bits: u64) -> (r: Option<FiniteFloat>)
        ensures
            match r {
                Some(f) => is_finite(bits) && f@ == bits,
                None => !is_finite(bits),
            },
    {
        if bits % 0x8000_0000_0000_0000 < 0x7ff0_0000_0000_0000 {
            Some(FiniteFloat { bits })
        } else {
            None
        }
    }

    /// Its bits.
    pub fn to_bits(&self) -> (r: u64)
        ensures
            r == self@,
            is_finite(r),
    {
        proof {
            use_type_invariant(self);
        }
        self.bits
    }
}

/// A JSON number.
#[derive(Debug, PartialEq)]
pub enum JsonNumber {
    Unsigned(u64),
    Signed(i64),
    Float(FiniteFloat),
}

/// A JSON value.
#[derive(Debug, PartialEq)]
pub enum JsonValue {
    Null,
    Bool(bool),
    Number(JsonNumber),
    Text(String),
    Array(Vec<JsonValue>),
    Object(JsonObject),
}

/// The members of a JSON object: each name once, the names in ascending order.
#[derive(Debug, PartialEq)]
pub struct JsonObject {
    entries: Vec<(String, JsonValue)>,
}

/// The mathematical value of a `JsonValue`.
pub enum JsonView {
    Null,
    Bool(bool),
    Integer(int),
    /// By its bits.
    Float(u64),
    Text(Seq<char>),
    Array(Seq<JsonView>),
    Object(Seq<(Seq<char>, JsonView)>),
}

impl JsonNumber {
    pub open spec fn view(&self) -> JsonView {
        match self {
            JsonNumber::Unsigned(n) => JsonView::Integer(*n as int),
            JsonNumber::Signed(n) => JsonView::Integer(*n as int),
            JsonNumber::Float(f) => JsonView::Float(f@),
        }
    }
}

impl JsonValue {
    pub open spec fn view(&self) -> JsonView
        decreases self,
    {
        match self {
            JsonValue::Null => JsonView::Null,
            JsonValue::Bool(b) => JsonView::Bool(*b),
            JsonValue::Number(n) => n@,
            JsonValue::Text(s) => JsonView::Text(s@),
            JsonValue::Array(items) => JsonView::Array(
                Seq::new(
                    items@.len(),
                    |i: int|
                        if 0 <= i < items@.len() {
                            items@[i].view()
                        } else {
                            arbitrary()
                        },
                ),
            ),
            JsonValue::Object(members) => JsonView::Object(members.view()),
        }
    }
}

impl JsonObject {
    pub closed spec fn view(&self) -> Seq<(Seq<char>, JsonView)>
        decreases self,
    {
        Seq::new(
            self.entries@.len(),
            |i: int|
                if 0 <= i < self.entries@.len() {
                    (self.entries@[i].0@, self.entries@[i].1.view())
                } else {
                    arbitrary()
                },
        )
    }

    #[verifier::type_invariant]
    spec fn ordered(self) -> bool {
        forall|i: int, j: int|
            0 <= i < j < self.entries@.len() ==> texts_ordered(
                #[trigger] self.entries@[i].0@,
                #[trigger] self.entries@[j].0@,
            )
    }
}

/// The values of a list of JSON values.
pub open spec fn json_items(items: Seq<JsonValue>) -> Seq<JsonView> {
    Seq::new(items.len(), |i: int| items[i]@)
}

/// The value of an array is that of its items.
pub proof fn lemma_array_view(items: Vec<JsonValue>)
    ensures
        JsonValue::Array(items)@ == JsonView::Array(json_items(items@)),
{
    assert(JsonValue::Array(items)@->Array_0 =~= json_items(items@));
}

/// The member of an object that has a name.
pub open spec fn member(members: Seq<(Seq<char>, JsonView)>, name: Seq<char>) -> Option<JsonView>
    decreases members.len(),
{
    if members.len() == 0 {
        None
    } else if members[0].0 == name {
        Some(members[0].1)
    } else {
        member(members.drop_first(), name)
    }
}

/// The members of an object after one is put in: it takes the place of the one with its name, or
/// goes before the first name that is greater.
pub open spec fn with_member(
    members: Seq<(Seq<char>, JsonView)>,
    name: Seq<char>,
    value: JsonView,
) -> Seq<(Seq<char>, JsonView)>
    decreases members.len(),
{
    if members.len() == 0 || texts_ordered(name, members[0].0) {
        seq![(name, value)] + members
    } else if members[0].0 == name {
        seq![(name, value)] + members.drop_first()
    } else {
        seq![members[0]] + with_member(members.drop_first(), name, value)
    }
}

proof fn lemma_member_skips(members: Seq<(Seq<char>, JsonView)>, name: Seq<char>, n: nat)
    requires
        n <= members.len(),
        forall|j: int| 0 <= j < n ==> (#[trigger] members[j]).0 != name,
    ensures
        member(members, name) == member(members.skip(n as int), name),
    decreases n,
{
    if n == 0 {
        assert(members.skip(0) =~= members);
    } else {
        lemma_member_skips(members.drop_first(), name, (n - 1) as nat);
        assert(members.drop_first().skip(n - 1) =~= members.skip(n as int));
    }
}

proof fn lemma_with_member_skips(
    members: Seq<(Seq<char>, JsonView)>,
    name: Seq<char>,
    value: JsonView,
    n: nat,
)
    requires
        n <= members.len(),
        forall|j: int| 0 <= j < n ==> texts_ordered((#[trigger] members[j]).0, name),
    ensures
        with_member(members, name, value) == members.take(n as int) + with_member(
            members.skip(n as int),
            name,
            value,
        ),
    decreases n,
{
    if n == 0 {
        assert(members.skip(0) =~= members);
        assert(members.take(0) + with_member(members, name, value) =~= with_member(
            members,
            name,
            value,
        ));
    } else {
        lemma_texts_total(members[0].0, name);
        lemma_with_member_skips(members.drop_first(), name, value, (n - 1) as nat);
        assert(members.drop_first().skip(n - 1) =~= members.skip(n as int));
        assert(members.take(n as int) =~= seq![members[0]] + members.drop_first().take(n - 1));
        let rest = with_member(members.skip(n as int), name, value);
        assert(seq![members[0]] + (members.drop_first().take(n - 1) + rest) =~= members.take(
            n as int,
        ) + rest);
    }
}

/// A member that was put in is there, and the others are as they were.
pub proof fn lemma_member_reads_back(
    members: Seq<(Seq<char>, JsonView)>,
    name: Seq<char>,
    value: JsonView,
    other: Seq<char>,
)
    ensures
        member(with_member(members, name, value), name) == Some(value),
        other != name ==> member(with_member(members, name, value), other) == member(
            members,
            other,
        ),
    decreases members.len(),
{
    let now = with_member(members, name, value);
    if members.len() == 0 || texts_ordered(name, members[0].0) {
        assert(now.drop_first() =~= members);
    } else if members[0].0 == name {
        assert(now.drop_first() =~= members.drop_first());
    } else {
        lemma_member_reads_back(members.drop_first(), name, value, other);
        assert(now.drop_first() =~= with_member(members.drop_first(), name, value));
    }
}

impl JsonObject {
    /// The object without members.
    pub fn new() -> (r: JsonObject)
        ensures
            r@ == Seq::<(Seq<char>, JsonView)>::empty(),
    {
        let r = JsonObject { entries: Vec::new() };
        assert(r@ =~= Seq::<(Seq<char>, JsonView)>::empty());
        r
    }

    /// How many members there are.
    pub fn len(&self) -> (r: usize)
        ensures
            r == self@.len(),
    {
        self.entries.len()
    }

    /// The `i`-th name, in ascending order.
    pub fn name_at(&self, i: usize) -> (r: &String)
        requires
            i < self@.len(),
        ensures
            r@ == self@[i as int].0,
    {
        &self.entries[i].0
    }

    /// The value of the `i`-th name.
    pub fn value_at(&self, i: usize) -> (r: &JsonValue)
        requires
            i < self@.len(),
        ensures
            r@ == self@[i as int].1,
            decreases_to!(self => r),
    {
        &self.entries[i].1
    }

    /// The value that a name has.
    pub fn get(&self, name: &str) -> (r: Option<&JsonValue>)
        ensures
            match r {
                Some(v) => member(self@, name@) == Some(v@),
                None => member(self@, name@) is None,
            },
    {
        for i in 0..self.entries.len()
            invariant
                forall|j: int| 0 <= j < i ==> (#[trigger] self@[j]).0 != name@,
        {
            if same_text(self.entries[i].0.as_str(), name) {
                proof {
                    lemma_member_skips(self@, name@, i as nat);
                    assert(self@.skip(i as int)[0] == self@[i as int]);
                }
                return Some(&self.entries[i].1);
            }
        }
        proof {
            lemma_member_skips(self@, name@, self@.len());
        }
        None
    }

    /// Puts a member in.
    pub fn insert(self, name: String, value: JsonValue) -> (r: JsonObject)
        ensures
            r@ == with_member(self@, name@, value@),
    {
        proof {
            use_type_invariant(&self);
        }
        let ghost members = self@;
        let mut entries = self.entries;
        let n: usize = entries.len();
        let mut i: usize = 0;
        while i < n && text_before(entries[i].0.as_str(), name.as_str())
            invariant
                n == entries@.len(),
                n == members.len(),
                i <= n,
                forall|j: int| 0 <= j < n ==> (#[trigger] members[j]).0 == entries@[j].0@,
                forall|j: int| 0 <= j < i ==> texts_ordered((#[trigger] members[j]).0, name@),
            decreases n - i,
        {
            i = i + 1;
        }
        let ghost before = entries@;
        proof {
            lemma_with_member_skips(members, name@, value@, i as nat);
            if i < n {
                lemma_texts_total(members[i as int].0, name@);
                assert(members.skip(i as int)[0] == members[i as int]);
            }
            assert forall|j: int| i < j < n implies texts_ordered(name@, before[j].0@) by {
                if before[i as int].0@ != name@ {
                    lemma_texts_transitive(name@, before[i as int].0@, before[j].0@);
                }
            }
            assert forall|j: int| 0 <= j < i implies texts_ordered(before[j].0@, name@) by {
                assert(texts_ordered(members[j].0, name@));
            }
        }
        if i < n && same_text(entries[i].0.as_str(), name.as_str()) {
            entries.set(i, (name, value));
            let r = JsonObject { entries };
            assert(members.skip(i as int).drop_first() =~= members.skip(i + 1));
            assert(r@ =~= members.take(i as int) + (seq![(name@, value@)] + members.skip(i + 1)));
            r
        } else {
            entries.insert(i, (name, value));
            let r = JsonObject { entries };
            assert(r@ =~= members.take(i as int) + (seq![(name@, value@)] + members.skip(
                i as int,
            )));
            r
        }
    }
}

#[verifier::external_type_specification]
#[verifier::external_body]
pub struct ExValue(serde_json::Value);

/// What a `serde_json::Value` holds. Integers are one kind, whether they are below zero or not;
/// the members of an object stand in the order in which its map hands them out.
pub uninterp spec fn serde_view(v: Value) -> JsonView;

/// The text that `serde_json::to_string` writes for a value.
pub uninterp spec fn json_text(v: JsonView) -> Seq<char>;

/// A value as JSON text. A null, a flag and an integer are written as one word.
pub open spec fn written(v: JsonView) -> Seq<char> {
    match v {
        JsonView::Null => "null"@,
        JsonView::Bool(b) => if b {
            "true"@
        } else {
            "false"@
        },
        JsonView::Integer(n) => integer_text(n),
        other => json_text(other),
    }
}

/// `serde_json::Value::Null`.
#[verifier::external_body]
fn serde_null() -> (r: Value)
    ensures
        serde_view(r) == JsonView::Null,
{
    Value::Null
}

/// `serde_json::Value::Bool` holds its flag.
#[verifier::external_body]
fn serde_bool(b: bool) -> (r: Value)
    ensures
        serde_view(r) == JsonView::Bool(b),
{
    Value::Bool(b)
}

/// `serde_json::Value::from` for `u64` makes the number of that value.
#[verifier::external_body]
fn serde_unsigned(n: u64) -> (r: Value)
    ensures
        serde_view(r) == JsonView::Integer(n as int),
{
    Value::from(n)
}

/// `serde_json::Value::from` for `i64` makes the number of that value.
#[verifier::external_body]
fn serde_signed(n: i64) -> (r: Value)
    ensures
        serde_view(r) == JsonView::Integer(n as int),
{
    Value::from(n)
}

/// `serde_json::Value::from` for a double makes the number of those bits, where the double is
/// finite.
#[verifier::external_body]
fn serde_float(bits: u64) -> (r: Value)
    requires
        is_finite(bits),
    ensures
        serde_view(r) == JsonView::Float(bits),
{
    Value::from(<Float64Type as ArrowPrimitiveType>::Native::from_bits(bits))
}

/// `serde_json::Value::String` holds its text.
#[verifier::external_body]
fn serde_string(s: String) -> (r: Value)
    ensures
        serde_view(r) == JsonView::Text(s@),
{
    Value::String(s)
}

/// `serde_json::Value::Array` holds its items in their order.
#[verifier::external_body]
fn serde_array(items: Vec<Value>) -> (r: Value)
    ensures
        serde_view(r) == JsonView::Array(Seq::new(items@.len(), |i: int| serde_view(items@[i]))),
{
    Value::Array(items)
}

/// `serde_json::Map::from_iter`: a map keeps its names in ascending order, so names that already
/// ascend come out as they went in.
#[verifier::external_body]
fn serde_object(members: Vec<(String, Value)>) -> (r: Value)
    requires
        forall|i: int, j: int|
            0 <= i < j < members@.len() ==> texts_ordered(
                #[trigger] members@[i].0@,
                #[trigger] members@[j].0@,
            ),
    ensures
        serde_view(r) == JsonView::Object(
            Seq::new(members@.len(), |i: int| (members@[i].0@, serde_view(members@[i].1))),
        ),
{
    Value::Object(members.into_iter().collect())
}

/// `serde_json::to_string`: the JSON text of a value. It cannot fail on a `Value`. A null, a
/// flag and an integer are written as one word.
#[verifier::external_body]
fn serde_text(v: &Value) -> (r: String)
    ensures
        r@ == json_text(serde_view(*v)),
        serde_view(*v) is Null ==> r@ == "null"@,
        serde_view(*v) matches JsonView::Bool(b) ==> r@ == (if b {
            "true"@
        } else {
            "false"@
        }),
        serde_view(*v) matches JsonView::Integer(n) ==> r@ == integer_text(n),
{
    serde_json::to_string(v).unwrap_or_default()
}

impl JsonValue {
    /// The same value as `serde_json` has it.
    fn to_serde(&self) -> (r: Value)
        ensures
            serde_view(r) == self@,
        decreases self,
    {
        match self {
            JsonValue::Null => serde_null(),
            JsonValue::Bool(b) => serde_bool(*b),
            JsonValue::Number(JsonNumber::Unsigned(n)) => serde_unsigned(*n),
            JsonValue::Number(JsonNumber::Signed(n)) => serde_signed(*n),
            JsonValue::Number(JsonNumber::Float(f)) => serde_float(f.to_bits()),
            JsonValue::Text(s) => serde_string(s.clone()),
            JsonValue::Array(items) => {
                let mut out: Vec<Value> = Vec::new();
                for i in 0..items.len()
                    invariant
                        self == JsonValue::Array(*items),
                        out@.len() == i,
                        forall|j: int| 0 <= j < i ==> serde_view(#[trigger] out@[j]) == items@[j]@,
                {
                    assert(decreases_to!(self => self->Array_0));
                    assert(decreases_to!(items@ => items@[i as int]));
                    out.push(items[i].to_serde());
                }
                proof {
                    lemma_array_view(*items);
                    assert(Seq::new(out@.len(), |i: int| serde_view(out@[i])) =~= json_items(
                        items@,
                    ));
                }
                serde_array(out)
            },
            JsonValue::Object(members) => {
                proof {
                    use_type_invariant(members);
                }
                let n: usize = members.len();
                let mut out: Vec<(String, Value)> = Vec::new();
                for i in 0..n
                    invariant
                        self == JsonValue::Object(*members),
                        n == members@.len(),
                        out@.len() == i,
                        forall|j: int|
                            0 <= j < i ==> (#[trigger] out@[j]).0@ == members@[j].0 && serde_view(
                                out@[j].1,
                            ) == members@[j].1,
                {
                    assert(decreases_to!(self => self->Object_0));
                    let member = members.value_at(i);
                    let value = member.to_serde();
                    out.push((members.name_at(i).clone(), value));
                }
                proof {
                    assert forall|i: int, j: int| 0 <= i < j < out@.len() implies texts_ordered(
                        #[trigger] out@[i].0@,
                        #[trigger] out@[j].0@,
                    ) by {
                        assert(members.entries@[i].0@ == members@[i].0);
                        assert(members.entries@[j].0@ == members@[j].0);
                    }
                    assert(Seq::new(
                        out@.len(),
                        |i: int| (out@[i].0@, serde_view(out@[i].1)),
                    ) =~= members@);
                }
                serde_object(out)
            },
        }
    }

    /// The JSON text of the value.
    pub fn to_json_text(&self) -> (r: String)
        ensures
            r@ == written(self@),
    {
        serde_text(&self.to_serde())
    }
}

/// The member of a value that has a name: only an object has members.
pub open spec fn value_member(v: JsonView, name: Seq<char>) -> Option<JsonView> {
    match v {
        JsonView::Object(members) => member(members, name),
        _ => None,
    }
}

impl JsonValue {
    /// The member of an object that has a name.
    pub fn get(&self, name: &str) -> (r: Option<&JsonValue>)
        ensures
            match r {
                Some(v) => value_member(self@, name@) == Some(v@),
                None => value_member(self@, name@) is None,
            },
    {
        match self {
            JsonValue::Object(members) => members.get(name),
            _ => None,
        }
    }

    /// The text of a value that is one.
    pub fn as_text(&self) -> (r: Option<&String>)
        ensures
            match r {
                Some(s) => self@ == JsonView::Text(s@),
                None => self@ !is Text,
            },
    {
        match self {
            JsonValue::Text(s) => Some(s),
            _ => None,
        }
    }

    /// Another value like this one.
    pub fn duplicate(&self) -> (r: JsonValue)
        ensures
            r@ == self@,
        decreases self,
    {
        match self {
            JsonValue::Null => JsonValue::Null,
            JsonValue::Bool(b) => JsonValue::Bool(*b),
            JsonValue::Number(JsonNumber::Unsigned(n)) => JsonValue::Number(
                JsonNumber::Unsigned(*n),
            ),
            JsonValue::Number(JsonNumber::Signed(n)) => JsonValue::Number(JsonNumber::Signed(*n)),
            JsonValue::Number(JsonNumber::Float(f)) => {
                proof {
                    use_type_invariant(f);
                }
                JsonValue::Number(JsonNumber::Float(FiniteFloat { bits: f.bits }))
            },
            JsonValue::Text(s) => JsonValue::Text(s.clone()),
            JsonValue::Array(items) => {
                let mut out: Vec<JsonValue> = Vec::new();
                for i in 0..items.len()
                    invariant
                        self == JsonValue::Array(*items),
                        out@.len() == i,
                        forall|j: int| 0 <= j < i ==> (#[trigger] out@[j])@ == items@[j]@,
                {
                    assert(decreases_to!(self => self->Array_0));
                    assert(decreases_to!(items@ => items@[i as int]));
                    out.push(items[i].duplicate());
                }
                proof {
                    lemma_array_view(*items);
                    lemma_array_view(out);
                    assert(json_items(out@) =~= json_items(items@));
                }
                JsonValue::Array(out)
            },
            JsonValue::Object(members) => {
                proof {
                    use_type_invariant(members);
                }
                let n: usize = members.len();
                let mut entries: Vec<(String, JsonValue)> = Vec::new();
                for i in 0..n
                    invariant
                        self == JsonValue::Object(*members),
                        n == members@.len(),
                        entries@.len() == i,
                        forall|j: int|
                            0 <= j < i ==> (#[trigger] entries@[j]).0@ == members@[j].0
                                && entries@[j].1@ == members@[j].1,
                {
                    assert(decreases_to!(self => self->Object_0));
                    let member = members.value_at(i);
                    let value = member.duplicate();
                    entries.push((members.name_at(i).clone(), value));
                }
                proof {
                    assert forall|i: int, j: int| 0 <= i < j < entries@.len() implies texts_ordered(
                        #[trigger] entries@[i].0@,
                        #[trigger] entries@[j].0@,
                    ) by {
                        assert(members.entries@[i].0@ == members@[i].0);
                        assert(members.entries@[j].0@ == members@[j].0);
                    }
                }
                let out = JsonObject { entries };
                assert(out@ =~= members@);
                JsonValue::Object(out)
            },
        }
    }
}

} // verus!
