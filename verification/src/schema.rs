//! The grammar of Trino type names.

use crate::number::{i8_of, parse_signed, parse_unsigned, unsigned_of};
use crate::text::{
    find, find_char, folded, is_white_space, lemma_find, lemma_rfind, rfind, rfind_char, same_text,
    starts_with, to_lowercase, trim, trim_end, trim_start, trimmed,
};
use crate::trino::{Error, ErrorView};
use crate::types::{fields_view, lemma_struct_view, DataType, Field, FieldView, TimeUnit, TypeView};
use std::sync::Arc;
use vstd::prelude::*;

verus! {

/// What a type name says: a type, a name that has no counterpart, or parentheses that close
/// before they open, which no name of a type has.
pub enum TypeReading {
    Type(TypeView),
    Unsupported(Seq<char>),
    Malformed,
}

/// What the fields of a row type say.
pub enum FieldsReading {
    Fields(Seq<FieldView>),
    Unsupported(Seq<char>),
    Malformed,
}

/// What stands between an opening and a closing parenthesis.
pub enum Brackets {
    Absent,
    Crossed,
    Inside(Seq<char>),
}

/// The text between an opening and a closing place, where there are both.
pub open spec fn between(n: Seq<char>, open: Option<int>, close: Option<int>) -> Brackets {
    match (open, close) {
        (Some(a), Some(b)) => if a < b {
            Brackets::Inside(n.subrange(a + 1, b))
        } else {
            Brackets::Crossed
        },
        _ => Brackets::Absent,
    }
}

/// From the first `(` to the first `)`.
pub open spec fn first_brackets(n: Seq<char>) -> Brackets {
    between(n, find(n, '('), find(n, ')'))
}

/// From the first `(` to the last `)`.
pub open spec fn outer_brackets(n: Seq<char>) -> Brackets {
    between(n, find(n, '('), rfind(n, ')'))
}

/// The pieces of `s` between the places of `c`.
pub open spec fn split_on(s: Seq<char>, c: char) -> Seq<Seq<char>>
    decreases s.len(),
{
    match find(s, c) {
        Some(i) => if 0 <= i < s.len() {
            seq![s.take(i)] + split_on(s.skip(i + 1), c)
        } else {
            seq![s]
        },
        None => seq![s],
    }
}

/// The types whose name is one fixed text.
pub open spec fn simple_type(n: Seq<char>) -> Option<TypeView> {
    if n == "null"@ {
        Some(TypeView::Null)
    } else if n == "boolean"@ {
        Some(TypeView::Boolean)
    } else if n == "tinyint"@ {
        Some(TypeView::Int8)
    } else if n == "smallint"@ {
        Some(TypeView::Int16)
    } else if n == "integer"@ {
        Some(TypeView::Int32)
    } else if n == "bigint"@ {
        Some(TypeView::Int64)
    } else if n == "real"@ {
        Some(TypeView::Float32)
    } else if n == "double"@ {
        Some(TypeView::Float64)
    } else if n == "varchar"@ || n == "char"@ {
        Some(TypeView::Utf8)
    } else if n == "varbinary"@ {
        Some(TypeView::Binary)
    } else if n == "json"@ {
        Some(TypeView::LargeUtf8)
    } else if n == "date"@ {
        Some(TypeView::Date32)
    } else if n == "time"@ {
        Some(TypeView::Time64(TimeUnit::Nanosecond))
    } else if n == "timestamp"@ {
        Some(TypeView::Timestamp(TimeUnit::Microsecond, None))
    } else if n == "timestamp with time zone"@ {
        Some(TypeView::Timestamp(TimeUnit::Microsecond, Some("UTC"@)))
    } else {
        None
    }
}

/// The precision that a decimal type's parameters give.
pub open spec fn decimal_precision(params: Seq<char>) -> u8 {
    match parse_unsigned(trim(split_on(params, ',')[0]), 255) {
        Some(p) => p as u8,
        None => 38,
    }
}

/// The scale that a decimal type's parameters give.
pub open spec fn decimal_scale(params: Seq<char>) -> i8 {
    let parts = split_on(params, ',');
    if parts.len() > 1 {
        match parse_signed(trim(parts[1]), -128, 127) {
            Some(s) => s as i8,
            None => 0,
        }
    } else {
        0
    }
}

/// A decimal type: of 128 bits up to a precision of 38, of 256 bits above.
pub open spec fn decimal_of(precision: u8, scale: i8) -> TypeView {
    if precision > 38 {
        TypeView::Decimal256(precision, scale)
    } else {
        TypeView::Decimal128(precision, scale)
    }
}

/// What a name that begins like a decimal type says.
pub open spec fn decimal_reading(n: Seq<char>) -> TypeReading {
    match first_brackets(n) {
        Brackets::Absent => TypeReading::Type(TypeView::Decimal128(18, 6)),
        Brackets::Crossed => TypeReading::Malformed,
        Brackets::Inside(params) => TypeReading::Type(
            decimal_of(decimal_precision(params), decimal_scale(params)),
        ),
    }
}

/// A type as the part of another: whatever has parts of its own becomes text.
pub open spec fn flat(t: TypeView) -> TypeView {
    match t {
        TypeView::Struct(_) | TypeView::List(_) | TypeView::MapOf(_, _) => TypeView::Utf8,
        _ => t,
    }
}

/// The list type over an element.
pub open spec fn list_of(element: TypeReading) -> TypeReading {
    match element {
        TypeReading::Type(t) => TypeReading::Type(
            TypeView::List(
                Box::new(FieldView { name: "item"@, data_type: flat(t), nullable: true }),
            ),
        ),
        TypeReading::Unsupported(name) => TypeReading::Unsupported(name),
        TypeReading::Malformed => TypeReading::Malformed,
    }
}

/// The struct type over its fields.
pub open spec fn struct_of(fields: FieldsReading) -> TypeReading {
    match fields {
        FieldsReading::Fields(fields) => TypeReading::Type(TypeView::Struct(fields)),
        FieldsReading::Unsupported(name) => TypeReading::Unsupported(name),
        FieldsReading::Malformed => TypeReading::Malformed,
    }
}

/// How many parentheses are open at the end of `s`.
pub open spec fn nesting(s: Seq<char>) -> int
    decreases s.len(),
{
    if s.len() == 0 {
        0
    } else if s.last() == '(' {
        nesting(s.drop_last()) + 1
    } else if s.last() == ')' {
        nesting(s.drop_last()) - 1
    } else {
        nesting(s.drop_last())
    }
}

/// Whether the delimiter at `i` stands outside all parentheses.
pub open spec fn is_cut(s: Seq<char>, delimiter: char, i: int) -> bool {
    &&& s[i] == delimiter
    &&& delimiter != '('
    &&& delimiter != ')'
    &&& nesting(s.take(i)) == 0
}

/// The first cut of `s` from `i` on.
pub open spec fn cut_from(s: Seq<char>, delimiter: char, i: int) -> Option<int>
    decreases s.len() - i,
{
    if i >= s.len() {
        None
    } else if is_cut(s, delimiter, i) {
        Some(i)
    } else {
        cut_from(s, delimiter, i + 1)
    }
}

/// The pieces of `s` between its cuts, without white space around them. An empty last piece is
/// none.
pub open spec fn split_outside(s: Seq<char>, delimiter: char) -> Seq<Seq<char>>
    decreases s.len(),
{
    match cut_from(s, delimiter, 0) {
        Some(i) => if 0 <= i < s.len() {
            seq![trim(s.take(i))] + split_outside(s.skip(i + 1), delimiter)
        } else {
            seq![]
        },
        None => if s.len() == 0 {
            seq![]
        } else {
            seq![trim(s)]
        },
    }
}

/// The name of a field, from its definition.
pub open spec fn field_name(definition: Seq<char>) -> Option<Seq<char>> {
    let d = trim(definition);
    match find(d, ' ') {
        Some(i) => Some(trim(d.take(i))),
        None => None,
    }
}

/// The type name of a field, from its definition.
pub open spec fn field_type(definition: Seq<char>) -> Seq<char> {
    let d = trim(definition);
    match find(d, ' ') {
        Some(i) => trim(d.skip(i + 1)),
        None => seq![],
    }
}

/// What a type name in lower case says. The names inside it are in lower case with it. `shown` is
/// the name that an error shows.
pub open spec fn type_reading(n: Seq<char>, shown: Seq<char>) -> TypeReading
    decreases 0nat, n.len(), 1nat,
{
    if simple_type(n) is Some {
        TypeReading::Type(simple_type(n)->0)
    } else if "decimal"@.is_prefix_of(n) || "numeric"@.is_prefix_of(n) {
        decimal_reading(n)
    } else if "varchar"@.is_prefix_of(n) || "char"@.is_prefix_of(n) {
        TypeReading::Type(TypeView::Utf8)
    } else if "varbinary"@.is_prefix_of(n) {
        TypeReading::Type(TypeView::Binary)
    } else if "array"@.is_prefix_of(n) {
        array_reading(n, true)
    } else if "map"@.is_prefix_of(n) {
        TypeReading::Type(TypeView::Utf8)
    } else if "row"@.is_prefix_of(n) {
        row_reading(n, true)
    } else {
        TypeReading::Unsupported(shown)
    }
}

/// The name of a part as it is read: in lower case, which it is already where the whole name is.
pub open spec fn part_name(part: Seq<char>, lower: bool) -> Seq<char> {
    if lower {
        part
    } else {
        folded(part)
    }
}

/// What a name that begins like an array type says. `lower` tells that it is in lower case.
pub open spec fn array_reading(n: Seq<char>, lower: bool) -> TypeReading
    decreases
        (if lower {
            0nat
        } else {
            1nat
        }), n.len(), 0nat,
{
    match outer_brackets(n) {
        Brackets::Absent => TypeReading::Unsupported(n),
        Brackets::Crossed => TypeReading::Malformed,
        Brackets::Inside(element) => {
            proof {
                lemma_inside_shorter(n);
            }
            list_of(type_reading(part_name(element, lower), element))
        },
    }
}

/// What a name that begins like a row type says. `lower` tells that it is in lower case.
pub open spec fn row_reading(n: Seq<char>, lower: bool) -> TypeReading
    decreases
        (if lower {
            0nat
        } else {
            1nat
        }), n.len(), 0nat,
{
    match outer_brackets(n) {
        Brackets::Absent => TypeReading::Unsupported(n),
        Brackets::Crossed => TypeReading::Malformed,
        Brackets::Inside(inner) => {
            proof {
                lemma_inside_shorter(n);
            }
            struct_of(fields_reading(inner, split_outside(inner, ',').len(), lower))
        },
    }
}

/// What the first `k` field definitions of a row type say. A definition without a space is
/// passed over.
pub open spec fn fields_reading(inner: Seq<char>, k: nat, lower: bool) -> FieldsReading
    decreases
        (if lower {
            0nat
        } else {
            1nat
        }), inner.len(), k,
{
    let definitions = split_outside(inner, ',');
    if k == 0 || k > definitions.len() {
        FieldsReading::Fields(seq![])
    } else {
        match fields_reading(inner, (k - 1) as nat, lower) {
            FieldsReading::Fields(before) => {
                let definition = definitions[k - 1];
                match field_name(definition) {
                    None => FieldsReading::Fields(before),
                    Some(name) => {
                        proof {
                            lemma_field_type_shorter(inner, k);
                        }
                        let shown = field_type(definition);
                        match type_reading(part_name(shown, lower), shown) {
                            TypeReading::Type(t) => FieldsReading::Fields(
                                before.push(
                                    FieldView { name, data_type: flat(t), nullable: true },
                                ),
                            ),
                            TypeReading::Unsupported(name) => FieldsReading::Unsupported(name),
                            TypeReading::Malformed => FieldsReading::Malformed,
                        }
                    },
                }
            },
            other => other,
        }
    }
}

/// What a type name says.
pub open spec fn trino_type(name: Seq<char>) -> TypeReading {
    type_reading(folded(name), name)
}

/// What stands inside the outer parentheses is shorter than the name.
pub proof fn lemma_inside_shorter(n: Seq<char>)
    ensures
        outer_brackets(n) matches Brackets::Inside(s) ==> s.len() + 2 <= n.len(),
{
    lemma_find(n, '(');
    lemma_rfind(n, ')');
}

proof fn lemma_trim_shorter(s: Seq<char>)
    ensures
        trim(s).len() <= s.len(),
{
    lemma_trim_start_shorter(s);
    lemma_trim_end_shorter(trim_start(s));
}

proof fn lemma_trim_start_shorter(s: Seq<char>)
    ensures
        trim_start(s).len() <= s.len(),
    decreases s.len(),
{
    if s.len() > 0 {
        lemma_trim_start_shorter(s.drop_first());
    }
}

proof fn lemma_trim_end_shorter(s: Seq<char>)
    ensures
        trim_end(s).len() <= s.len(),
    decreases s.len(),
{
    if s.len() > 0 {
        lemma_trim_end_shorter(s.drop_last());
    }
}

proof fn lemma_pieces_shorter(s: Seq<char>, delimiter: char)
    ensures
        forall|i: int|
            0 <= i < split_outside(s, delimiter).len() ==> (#[trigger] split_outside(
                s,
                delimiter,
            )[i]).len() <= s.len(),
    decreases s.len(),
{
    match cut_from(s, delimiter, 0) {
        Some(i) => {
            if 0 <= i < s.len() {
                lemma_pieces_shorter(s.skip(i + 1), delimiter);
                lemma_trim_shorter(s.take(i));
                let rest = split_outside(s.skip(i + 1), delimiter);
                assert forall|j: int| 0 <= j < split_outside(s, delimiter).len() implies (
                #[trigger] split_outside(s, delimiter)[j]).len() <= s.len() by {
                    if j > 0 {
                        assert(split_outside(s, delimiter)[j] == rest[j - 1]);
                    }
                }
            }
        },
        None => {
            lemma_trim_shorter(s);
        },
    }
}

/// A field's type name is shorter than the list that it stands in.
pub proof fn lemma_field_type_shorter(inner: Seq<char>, k: nat)
    requires
        0 < k <= split_outside(inner, ',').len(),
        field_name(split_outside(inner, ',')[k - 1]) is Some,
    ensures
        field_type(split_outside(inner, ',')[k - 1]).len() < inner.len(),
{
    let definition = split_outside(inner, ',')[k - 1];
    lemma_pieces_shorter(inner, ',');
    lemma_trim_shorter(definition);
    lemma_find(trim(definition), ' ');
    let i = find(trim(definition), ' ')->0;
    lemma_trim_shorter(trim(definition).skip(i + 1));
}

proof fn lemma_cut_skips(s: Seq<char>, delimiter: char, from: int, to: int)
    requires
        0 <= from <= to <= s.len(),
        forall|i: int| from <= i < to ==> !is_cut(s, delimiter, i),
    ensures
        cut_from(s, delimiter, from) == cut_from(s, delimiter, to),
    decreases to - from,
{
    if from < to {
        lemma_cut_skips(s, delimiter, from + 1, to);
    }
}

/// The texts of a list of strings.
pub open spec fn texts(strings: Seq<String>) -> Seq<Seq<char>> {
    Seq::new(strings.len(), |i: int| strings[i]@)
}

/// Splits at the delimiters that stand outside all parentheses.
pub fn split_respecting_parentheses(s: &str, delimiter: char) -> (r: Vec<String>)
    ensures
        texts(r@) == split_outside(s@, delimiter),
{
    let mut result: Vec<String> = Vec::new();
    let mut current = String::new();
    let mut depth: i128 = 0;
    let n: usize = s.unicode_len();
    assert(current@ + s@.skip(0) =~= s@);
    assert(texts(result@) + split_outside(s@, delimiter) =~= split_outside(s@, delimiter));
    for ch in it: s.chars()
        invariant
            it.seq() == s@,
            n == s@.len(),
            -it.index() <= depth <= it.index(),
            depth == nesting(current@),
            forall|i: int| 0 <= i < current@.len() ==> !is_cut(current@, delimiter, i),
            split_outside(s@, delimiter) == texts(result@) + split_outside(
                current@ + s@.skip(it.index()),
                delimiter,
            ),
    {
        let ghost before = current@;
        let ghost rest = s@.skip(it.index() + 1);
        let ghost whole = before + s@.skip(it.index());
        proof {
            assert(whole =~= before.push(ch) + rest);
            assert(before.push(ch).drop_last() =~= before);
            assert(before.push(ch).take(before.len() as int) =~= before);
            assert forall|i: int| 0 <= i < before.len() implies !is_cut(whole, delimiter, i) by {
                assert(whole.take(i) =~= before.take(i));
                assert(!is_cut(before, delimiter, i));
            }
            assert forall|i: int|
                0 <= i < before.len() + 1 && !(ch == delimiter && depth == 0) implies !is_cut(
                before.push(ch),
                delimiter,
                i,
            ) by {
                if i < before.len() {
                    assert(before.push(ch).take(i) =~= before.take(i));
                    assert(!is_cut(before, delimiter, i));
                }
            }
        }
        if ch == '(' {
            depth = depth + 1;
            current.push(ch);
        } else if ch == ')' {
            depth = depth - 1;
            current.push(ch);
        } else if ch == delimiter && depth == 0 {
            proof {
                lemma_cut_skips(whole, delimiter, 0, before.len() as int);
                assert(whole.take(before.len() as int) =~= before);
                assert(is_cut(whole, delimiter, before.len() as int));
                assert(whole.skip(before.len() as int + 1) =~= rest);
            }
            let piece = trimmed(current.as_str()).to_owned();
            let ghost pieces = texts(result@);
            result.push(piece);
            current = String::new();
            proof {
                assert(texts(result@) =~= pieces.push(trim(before)));
                assert(current@ + rest =~= rest);
                assert(pieces + (seq![trim(before)] + split_outside(rest, delimiter)) =~= texts(
                    result@,
                ) + split_outside(rest, delimiter));
            }
        } else {
            current.push(ch);
        }
    }
    proof {
        assert(current@ + s@.skip(s@.len() as int) =~= current@);
        lemma_cut_skips(current@, delimiter, 0, current@.len() as int);
    }
    let ghost pieces = texts(result@);
    if current.as_str().unicode_len() > 0 {
        result.push(trimmed(current.as_str()).to_owned());
        assert(texts(result@) =~= pieces + seq![trim(current@)]);
    } else {
        assert(texts(result@) =~= pieces + Seq::<Seq<char>>::empty());
    }
    result
}

/// Why a type name gives no type.
pub enum TypeFault {
    Unsupported(String),
    Malformed,
}

/// Whether a result is what a reading says.
pub open spec fn reads(r: Result<DataType, TypeFault>, reading: TypeReading) -> bool {
    match r {
        Ok(t) => reading == TypeReading::Type(t@),
        Err(TypeFault::Unsupported(name)) => reading == TypeReading::Unsupported(name@),
        Err(TypeFault::Malformed) => reading == TypeReading::Malformed,
    }
}

/// Whether a result is what a reading without a fault in its parentheses says.
pub open spec fn answers(r: Result<DataType, Error>, reading: TypeReading) -> bool {
    match r {
        Ok(t) => reading == TypeReading::Type(t@),
        Err(e) => reading matches TypeReading::Unsupported(name) && e@
            == ErrorView::UnsupportedTrinoType(name),
    }
}

/// An error as the library gives it.
fn answered(r: Result<DataType, TypeFault>) -> (answer: Result<DataType, Error>)
    requires
        r !is Err || r->Err_0 !is Malformed,
    ensures
        forall|reading: TypeReading| #[trigger] reads(r, reading) ==> answers(answer, reading),
{
    match r {
        Ok(t) => Ok(t),
        Err(TypeFault::Unsupported(trino_type)) => Err(Error::UnsupportedTrinoType { trino_type }),
        Err(TypeFault::Malformed) => vstd::pervasive::unreached(),
    }
}

/// The type that a name beginning with `decimal` or `numeric` says.
pub fn parse_decimal_type(type_str: &str) -> (r: Result<DataType, Error>)
    requires
        !(decimal_reading(type_str@) is Malformed),
    ensures
        answers(r, decimal_reading(type_str@)),
{
    answered(read_decimal(type_str))
}

/// Reads a name that begins like a decimal type.
pub fn read_decimal(type_str: &str) -> (r: Result<DataType, TypeFault>)
    ensures
        reads(r, decimal_reading(type_str@)),
{
    proof {
        lemma_find(type_str@, '(');
        lemma_find(type_str@, ')');
    }
    let start = match find_char(type_str, '(') {
        Some(start) => start,
        None => return Ok(DataType::Decimal128(18, 6)),
    };
    let end = match find_char(type_str, ')') {
        Some(end) => end,
        None => return Ok(DataType::Decimal128(18, 6)),
    };
    if start > end {
        return Err(TypeFault::Malformed);
    }
    let params = type_str.substring_char(start + 1, end);
    let n: usize = params.unicode_len();
    let ghost parts = split_on(params@, ',');
    proof {
        lemma_find(params@, ',');
    }
    let (first, second) = match find_char(params, ',') {
        Some(comma) => {
            let rest = params.substring_char(comma + 1, n);
            assert(rest@ =~= params@.skip(comma + 1));
            proof {
                lemma_find(rest@, ',');
                assert(params@.take(comma as int) =~= params@.subrange(0, comma as int));
                assert(parts[0] == params@.take(comma as int));
                assert(parts[1] == split_on(rest@, ',')[0]);
            }
            let second = match find_char(rest, ',') {
                Some(comma) => {
                    let part = rest.substring_char(0, comma);
                    assert(part@ =~= rest@.take(comma as int));
                    part
                },
                None => rest,
            };
            (params.substring_char(0, comma), Some(second))
        },
        None => (params, None),
    };
    let precision: u8 = match unsigned_of(trimmed(first), 255) {
        Some(p) => p as u8,
        None => 38,
    };
    let scale: i8 = match second {
        Some(part) => match i8_of(trimmed(part)) {
            Some(s) => s,
            None => 0,
        },
        None => 0,
    };
    if precision > 38 {
        Ok(DataType::Decimal256(precision, scale))
    } else {
        Ok(DataType::Decimal128(precision, scale))
    }
}

/// A type as the part of another.
fn flattened(t: DataType) -> (r: DataType)
    ensures
        r@ == flat(t@),
{
    match t {
        DataType::Struct(_) | DataType::List(_) | DataType::MapOf(_, _) => DataType::Utf8,
        other => other,
    }
}

/// Reads the name of a part of another type.
fn read_part(part: &str, lower: bool) -> (r: Result<DataType, TypeFault>)
    ensures
        reads(r, type_reading(part_name(part@, lower), part@)),
    decreases
            (if lower {
                0nat
            } else {
                1nat
            }), part@.len(), 2nat,
{
    if lower {
        read_type(part, part)
    } else {
        let normalized_type = to_lowercase(part);
        read_type(normalized_type.as_str(), part)
    }
}

/// Reads a name that begins like an array type.
pub fn read_array(type_str: &str, lower: bool) -> (r: Result<DataType, TypeFault>)
    ensures
        reads(r, array_reading(type_str@, lower)),
    decreases
            (if lower {
                0nat
            } else {
                1nat
            }), type_str@.len(), 0nat,
{
    proof {
        lemma_find(type_str@, '(');
        lemma_rfind(type_str@, ')');
        lemma_inside_shorter(type_str@);
    }
    match (find_char(type_str, '('), rfind_char(type_str, ')')) {
        (Some(start), Some(end)) => {
            if start > end {
                return Err(TypeFault::Malformed);
            }
            let element = type_str.substring_char(start + 1, end);
            match read_part(element, lower) {
                Ok(t) => {
                    let item = flattened(t);
                    Ok(DataType::List(Arc::new(Field::new("item", item, true))))
                },
                Err(fault) => Err(fault),
            }
        },
        _ => Err(TypeFault::Unsupported(type_str.to_owned())),
    }
}

/// Reads a name that begins like a row type.
pub fn read_row(type_str: &str, lower: bool) -> (r: Result<DataType, TypeFault>)
    ensures
        reads(r, row_reading(type_str@, lower)),
    decreases
            (if lower {
                0nat
            } else {
                1nat
            }), type_str@.len(), 0nat,
{
    proof {
        lemma_find(type_str@, '(');
        lemma_rfind(type_str@, ')');
        lemma_inside_shorter(type_str@);
    }
    match (find_char(type_str, '('), rfind_char(type_str, ')')) {
        (Some(start), Some(end)) => {
            if start > end {
                return Err(TypeFault::Malformed);
            }
            let inner = type_str.substring_char(start + 1, end);
            let definitions = split_respecting_parentheses(inner, ',');
            let mut fields: Vec<Field> = Vec::new();
            assert(fields_view(fields@) =~= seq![]);
            for k in 0..definitions.len()
                invariant
                    texts(definitions@) == split_outside(inner@, ','),
                    inner@.len() < type_str@.len(),
                    row_reading(type_str@, lower) == struct_of(
                        fields_reading(inner@, split_outside(inner@, ',').len(), lower),
                    ),
                    fields_reading(inner@, k as nat, lower) == FieldsReading::Fields(
                        fields_view(fields@),
                    ),
            {
                let ghost definition = texts(definitions@)[k as int];
                proof {
                    lemma_stuck(
                        inner@,
                        (k + 1) as nat,
                        split_outside(inner@, ',').len(),
                        lower,
                    );
                    lemma_find(trim(definition), ' ');
                }
                let field_def = trimmed(definitions[k].as_str());
                match find_char(field_def, ' ') {
                    Some(space) => {
                        proof {
                            lemma_field_type_shorter(inner@, (k + 1) as nat);
                        }
                        let n: usize = field_def.unicode_len();
                        let name = trimmed(field_def.substring_char(0, space));
                        let type_text = trimmed(field_def.substring_char(space + 1, n));
                        assert(field_def@.subrange(0, space as int) =~= field_def@.take(
                            space as int,
                        ));
                        assert(field_def@.subrange(space + 1, n as int) =~= field_def@.skip(
                            space + 1,
                        ));
                        match read_part(type_text, lower) {
                            Ok(t) => {
                                let ghost before = fields_view(fields@);
                                let part = flattened(t);
                                fields.push(Field::new(name, part, true));
                                assert(fields_view(fields@) =~= before.push(fields@.last()@));
                            },
                            Err(fault) => return Err(fault),
                        }
                    },
                    None => {},
                }
            }
            proof {
                lemma_struct_view(fields);
            }
            Ok(DataType::Struct(fields))
        },
        _ => Err(TypeFault::Unsupported(type_str.to_owned())),
    }
}

/// What stops the reading of fields stops it for good.
proof fn lemma_stuck(inner: Seq<char>, k: nat, n: nat, lower: bool)
    requires
        k <= n <= split_outside(inner, ',').len(),
    ensures
        fields_reading(inner, k, lower) !is Fields ==> fields_reading(inner, n, lower)
            == fields_reading(inner, k, lower),
    decreases n - k,
{
    if k < n {
        lemma_stuck(inner, k, (n - 1) as nat, lower);
    }
}

/// Reads a type name in lower case.
pub fn read_type(n: &str, shown: &str) -> (r: Result<DataType, TypeFault>)
    ensures
        reads(r, type_reading(n@, shown@)),
    decreases 0nat, n@.len(), 1nat,
{
    match read_simple(n) {
        Some(t) => Ok(t),
        None => if starts_with(n, "decimal") || starts_with(n, "numeric") {
            read_decimal(n)
        } else if starts_with(n, "varchar") || starts_with(n, "char") {
            Ok(DataType::Utf8)
        } else if starts_with(n, "varbinary") {
            Ok(DataType::Binary)
        } else if starts_with(n, "array") {
            read_array(n, true)
        } else if starts_with(n, "map") {
            Ok(DataType::Utf8)
        } else if starts_with(n, "row") {
            read_row(n, true)
        } else {
            Err(TypeFault::Unsupported(shown.to_owned()))
        },
    }
}

/// The types whose name is one fixed text.
pub fn read_simple(n: &str) -> (r: Option<DataType>)
    ensures
        match r {
            Some(t) => simple_type(n@) == Some(t@),
            None => simple_type(n@) is None,
        },
{
    if same_text(n, "null") {
        Some(DataType::Null)
    } else if same_text(n, "boolean") {
        Some(DataType::Boolean)
    } else if same_text(n, "tinyint") {
        Some(DataType::Int8)
    } else if same_text(n, "smallint") {
        Some(DataType::Int16)
    } else if same_text(n, "integer") {
        Some(DataType::Int32)
    } else if same_text(n, "bigint") {
        Some(DataType::Int64)
    } else if same_text(n, "real") {
        Some(DataType::Float32)
    } else if same_text(n, "double") {
        Some(DataType::Float64)
    } else if same_text(n, "varchar") || same_text(n, "char") {
        Some(DataType::Utf8)
    } else if same_text(n, "varbinary") {
        Some(DataType::Binary)
    } else if same_text(n, "json") {
        Some(DataType::LargeUtf8)
    } else if same_text(n, "date") {
        Some(DataType::Date32)
    } else if same_text(n, "time") {
        Some(DataType::Time64(TimeUnit::Nanosecond))
    } else if same_text(n, "timestamp") {
        Some(DataType::Timestamp(TimeUnit::Microsecond, None))
    } else if same_text(n, "timestamp with time zone") {
        Some(DataType::Timestamp(TimeUnit::Microsecond, Some("UTC".to_owned())))
    } else {
        None
    }
}

/// The type that a name beginning with `array` says.
pub fn parse_array_type(type_str: &str) -> (r: Result<DataType, Error>)
    requires
        !(array_reading(type_str@, false) is Malformed),
    ensures
        answers(r, array_reading(type_str@, false)),
{
    answered(read_array(type_str, false))
}

/// The type that a name beginning with `array` says, for any text: `None` where a parenthesis
/// closes before it opens.
pub fn try_parse_array_type(type_str: &str) -> (r: Option<Result<DataType, Error>>)
    ensures
        match r {
            Some(r) => answers(r, array_reading(type_str@, false)),
            None => array_reading(type_str@, false) is Malformed,
        },
{
    match read_array(type_str, false) {
        Err(TypeFault::Malformed) => None,
        _ => Some(parse_array_type(type_str)),
    }
}

/// The type that a name beginning with `row` says.
pub fn parse_row_type(type_str: &str) -> (r: Result<DataType, Error>)
    requires
        !(row_reading(type_str@, false) is Malformed),
    ensures
        answers(r, row_reading(type_str@, false)),
{
    answered(read_row(type_str, false))
}

/// The type that a name beginning with `row` says, for any text: `None` where a parenthesis
/// closes before it opens.
pub fn try_parse_row_type(type_str: &str) -> (r: Option<Result<DataType, Error>>)
    ensures
        match r {
            Some(r) => answers(r, row_reading(type_str@, false)),
            None => row_reading(type_str@, false) is Malformed,
        },
{
    match read_row(type_str, false) {
        Err(TypeFault::Malformed) => None,
        _ => Some(parse_row_type(type_str)),
    }
}

/// The column type of a Trino type. Upper and lower case are the same.
pub fn trino_data_type_to_arrow_type(trino_type_name: &str) -> (r: Result<DataType, Error>)
    requires
        !(trino_type(trino_type_name@) is Malformed),
    ensures
        answers(r, trino_type(trino_type_name@)),
{
    let normalized_type = to_lowercase(trino_type_name);
    answered(read_type(normalized_type.as_str(), trino_type_name))
}

/// The column type of a Trino type, for any text: `None` where a parenthesis closes before it
/// opens.
pub fn try_trino_data_type_to_arrow_type(trino_type_name: &str) -> (r: Option<
    Result<DataType, Error>,
>)
    ensures
        match r {
            Some(r) => answers(r, trino_type(trino_type_name@)),
            None => trino_type(trino_type_name@) is Malformed,
        },
{
    let normalized_type = to_lowercase(trino_type_name);
    match read_type(normalized_type.as_str(), trino_type_name) {
        Err(TypeFault::Malformed) => None,
        _ => Some(trino_data_type_to_arrow_type(trino_type_name)),
    }
}

/// Upper and lower case make no difference to the type that a name says.
pub proof fn lemma_case_makes_no_difference(a: Seq<char>, b: Seq<char>)
    requires
        folded(a) == folded(b),
    ensures
        trino_type(a) matches TypeReading::Type(t) ==> trino_type(b) == TypeReading::Type(t),
        trino_type(a) is Unsupported <==> trino_type(b) is Unsupported,
        trino_type(a) is Malformed <==> trino_type(b) is Malformed,
{
}

/// A decimal type of 256 bits has a precision above 38, one of 128 bits has not; no name of a
/// decimal type says another type.
pub proof fn lemma_decimals_by_precision(n: Seq<char>)
    ensures
        decimal_reading(n) matches TypeReading::Type(t) ==> match t {
            TypeView::Decimal128(precision, _) => precision <= 38,
            TypeView::Decimal256(precision, _) => precision > 38,
            _ => false,
        },
{
}

pub(crate) proof fn lemma_nesting_sum(a: Seq<char>, b: Seq<char>)
    ensures
        nesting(a + b) == nesting(a) + nesting(b),
    decreases b.len(),
{
    if b.len() == 0 {
        assert(a + b =~= a);
    } else {
        assert((a + b).drop_last() =~= a + b.drop_last());
        lemma_nesting_sum(a, b.drop_last());
    }
}

proof fn lemma_white_space_nests_nothing(s: Seq<char>)
    requires
        forall|i: int| 0 <= i < s.len() ==> is_white_space(#[trigger] s[i]),
    ensures
        nesting(s) == 0,
    decreases s.len(),
{
    if s.len() > 0 {
        assert(is_white_space(s[s.len() - 1]));
        assert forall|i: int| 0 <= i < s.drop_last().len() implies is_white_space(
            #[trigger] s.drop_last()[i],
        ) by {
            assert(s.drop_last()[i] == s[i]);
        }
        lemma_white_space_nests_nothing(s.drop_last());
    }
}

/// What `trim_start` leaves is the rest behind some white space.
proof fn lemma_trim_start_rest(s: Seq<char>)
    ensures
        trim_start(s).len() <= s.len(),
        trim_start(s) == s.skip(s.len() - trim_start(s).len()),
        forall|i: int|
            0 <= i < s.len() - trim_start(s).len() ==> is_white_space(#[trigger] s[i]),
        trim_start(s).len() > 0 ==> !is_white_space(trim_start(s)[0]),
    decreases s.len(),
{
    if s.len() > 0 && is_white_space(s[0]) {
        let rest = s.drop_first();
        lemma_trim_start_rest(rest);
        let k = rest.len() - trim_start(rest).len();
        assert(s.skip(k + 1) =~= rest.skip(k));
        assert forall|i: int| 0 <= i < k + 1 implies is_white_space(#[trigger] s[i]) by {
            if i > 0 {
                assert(is_white_space(rest[i - 1]));
            }
        }
    } else {
        assert(s.skip(0) =~= s);
    }
}

/// What `trim_end` leaves is the part before some white space.
proof fn lemma_trim_end_part(s: Seq<char>)
    ensures
        trim_end(s).len() <= s.len(),
        trim_end(s) == s.take(trim_end(s).len() as int),
        forall|i: int| trim_end(s).len() <= i < s.len() ==> is_white_space(#[trigger] s[i]),
        trim_end(s).len() > 0 ==> !is_white_space(trim_end(s).last()),
    decreases s.len(),
{
    if s.len() > 0 && is_white_space(s.last()) {
        lemma_trim_end_part(s.drop_last());
        let k = trim_end(s).len() as int;
        assert(s.drop_last().take(k) =~= s.take(k));
        assert forall|i: int| k <= i < s.len() implies is_white_space(#[trigger] s[i]) by {
            if i < s.len() - 1 {
                assert(is_white_space(s.drop_last()[i]));
            }
        }
    } else {
        assert(s.take(s.len() as int) =~= s);
    }
}

/// A trimmed text is a part of the text: it begins and ends without white space, and there is
/// nothing but white space around it.
pub proof fn lemma_trimmed_texts(s: Seq<char>)
    ensures
        exists|a: int, b: int|
            #![trigger s.subrange(a, b)]
            0 <= a <= b <= s.len() && trim(s) == s.subrange(a, b) && (forall|i: int|
                0 <= i < a || b <= i < s.len() ==> is_white_space(#[trigger] s[i])),
        trim(s).len() > 0 ==> !is_white_space(trim(s)[0]) && !is_white_space(trim(s).last()),
{
    let inner = trim_start(s);
    lemma_trim_start_rest(s);
    lemma_trim_end_part(inner);
    let a = s.len() - inner.len();
    let b = a + trim(s).len();
    assert(trim(s) =~= s.subrange(a, b));
    assert forall|i: int| 0 <= i < a || b <= i < s.len() implies is_white_space(
        #[trigger] s[i],
    ) by {
        if b <= i {
            assert(inner[i - a] == s[i]);
            assert(is_white_space(inner[i - a]));
        }
    }
}

proof fn lemma_trim_keeps_whole(u: Seq<char>, delimiter: char)
    requires
        forall|i: int| 0 <= i < u.len() ==> !is_cut(u, delimiter, i),
    ensures
        trim(trim(u)) == trim(u),
        forall|j: int| 0 <= j < trim(u).len() ==> !is_cut(trim(u), delimiter, j),
{
    let inner = trim_start(u);
    let p = trim(u);
    let a = u.len() - inner.len();
    lemma_trim_start_rest(u);
    lemma_trim_end_part(inner);
    assert(p == inner.take(p.len() as int));
    if p.len() > 0 {
        assert(p[0] == inner[0]);
        assert(trim_start(p) == p);
    }
    assert forall|j: int| 0 <= j < p.len() implies !is_cut(p, delimiter, j) by {
        let lead = u.take(a);
        assert forall|i: int| 0 <= i < lead.len() implies is_white_space(#[trigger] lead[i]) by {
            assert(lead[i] == u[i]);
        }
        lemma_white_space_nests_nothing(lead);
        lemma_nesting_sum(lead, p.take(j));
        assert(u.take(a + j) =~= lead + p.take(j));
        assert(u[a + j] == p[j]);
        assert(!is_cut(u, delimiter, a + j));
    }
}

proof fn lemma_cut_from(s: Seq<char>, delimiter: char, from: int)
    requires
        0 <= from <= s.len(),
    ensures
        match cut_from(s, delimiter, from) {
            Some(i) => from <= i < s.len() && is_cut(s, delimiter, i) && forall|j: int|
                from <= j < i ==> !is_cut(s, delimiter, j),
            None => forall|j: int| from <= j < s.len() ==> !is_cut(s, delimiter, j),
        },
    decreases s.len() - from,
{
    if from < s.len() && !is_cut(s, delimiter, from) {
        lemma_cut_from(s, delimiter, from + 1);
    }
}

/// The pieces that a text is split into have no delimiter outside parentheses, and no white space
/// around them.
pub proof fn lemma_pieces_are_whole(s: Seq<char>, delimiter: char, k: int)
    requires
        0 <= k < split_outside(s, delimiter).len(),
    ensures
        ({
            let piece = split_outside(s, delimiter)[k];
            &&& trim(piece) == piece
            &&& forall|j: int| 0 <= j < piece.len() ==> !is_cut(piece, delimiter, j)
        }),
    decreases s.len(),
{
    lemma_cut_from(s, delimiter, 0);
    match cut_from(s, delimiter, 0) {
        Some(i) => {
            let rest = split_outside(s.skip(i + 1), delimiter);
            if k == 0 {
                let u = s.take(i);
                assert forall|j: int| 0 <= j < u.len() implies !is_cut(u, delimiter, j) by {
                    assert(u.take(j) =~= s.take(j));
                    assert(!is_cut(s, delimiter, j));
                }
                lemma_trim_keeps_whole(u, delimiter);
            } else {
                assert(split_outside(s, delimiter)[k] == rest[k - 1]);
                lemma_pieces_are_whole(s.skip(i + 1), delimiter, k - 1);
            }
        },
        None => {
            lemma_trim_keeps_whole(s, delimiter);
        },
    }
}

/// The pieces of `s` between its cuts, as they stand.
pub open spec fn raw_pieces(s: Seq<char>, delimiter: char) -> Seq<Seq<char>>
    decreases s.len(),
{
    match cut_from(s, delimiter, 0) {
        Some(i) => if 0 <= i < s.len() {
            seq![s.take(i)] + raw_pieces(s.skip(i + 1), delimiter)
        } else {
            seq![s]
        },
        None => seq![s],
    }
}

/// Pieces with a delimiter between one and the next.
pub open spec fn with_delimiters(pieces: Seq<Seq<char>>, delimiter: char) -> Seq<char>
    decreases pieces.len(),
{
    if pieces.len() == 0 {
        seq![]
    } else if pieces.len() == 1 {
        pieces[0]
    } else {
        pieces[0] + seq![delimiter] + with_delimiters(pieces.drop_first(), delimiter)
    }
}

/// The pieces without white space around them. An empty last piece is none.
pub open spec fn tidied(pieces: Seq<Seq<char>>) -> Seq<Seq<char>> {
    let kept = if pieces.last().len() == 0 {
        pieces.drop_last()
    } else {
        pieces
    };
    Seq::new(kept.len(), |i: int| trim(kept[i]))
}

/// The pieces that a text is split into give the text back with delimiters between them, but for
/// the white space around them and an empty last piece.
pub proof fn lemma_pieces_join_back(s: Seq<char>, delimiter: char)
    ensures
        raw_pieces(s, delimiter).len() > 0,
        with_delimiters(raw_pieces(s, delimiter), delimiter) == s,
        split_outside(s, delimiter) == tidied(raw_pieces(s, delimiter)),
        tidied(raw_pieces(s, delimiter)) == raw_pieces(s, delimiter) ==> with_delimiters(
            split_outside(s, delimiter),
            delimiter,
        ) == s,
    decreases s.len(),
{
    lemma_cut_from(s, delimiter, 0);
    let raw = raw_pieces(s, delimiter);
    match cut_from(s, delimiter, 0) {
        Some(i) => {
            let rest = s.skip(i + 1);
            let others = raw_pieces(rest, delimiter);
            lemma_pieces_join_back(rest, delimiter);
            assert(raw.drop_first() =~= others);
            assert(raw.last() == others.last());
            assert(s =~= s.take(i) + seq![delimiter] + rest);
            assert(tidied(raw) =~= seq![trim(s.take(i))] + tidied(others));
        },
        None => {
            assert(split_outside(s, delimiter) =~= tidied(raw));
        },
    }
}

/// Pieces with delimiters between them are split into the pieces again, as long as each has its
/// parentheses closed, no delimiter outside them and no white space around it, and the last is not
/// empty.
pub proof fn lemma_joined_pieces_split(pieces: Seq<Seq<char>>, delimiter: char)
    requires
        pieces.len() > 0,
        delimiter != '(',
        delimiter != ')',
        pieces.last().len() > 0,
        forall|k: int|
            0 <= k < pieces.len() ==> trim(#[trigger] pieces[k]) == pieces[k] && nesting(pieces[k])
                == 0,
        forall|k: int, j: int|
            0 <= k < pieces.len() && 0 <= j < pieces[k].len() ==> !#[trigger] is_cut(
                pieces[k],
                delimiter,
                j,
            ),
    ensures
        split_outside(with_delimiters(pieces, delimiter), delimiter) == pieces,
    decreases pieces.len(),
{
    let s = with_delimiters(pieces, delimiter);
    let p = pieces[0];
    assert(trim(p) == p);
    if pieces.len() == 1 {
        lemma_cut_skips(s, delimiter, 0, s.len() as int);
        assert(split_outside(s, delimiter) =~= pieces);
    } else {
        let others = pieces.drop_first();
        let rest = with_delimiters(others, delimiter);
        assert forall|k: int| 0 <= k < others.len() implies trim(#[trigger] others[k]) == others[k]
            && nesting(others[k]) == 0 by {
            assert(others[k] == pieces[k + 1]);
        }
        assert forall|k: int, j: int|
            0 <= k < others.len() && 0 <= j < others[k].len() implies !#[trigger] is_cut(
            others[k],
            delimiter,
            j,
        ) by {
            assert(!is_cut(pieces[k + 1], delimiter, j));
        }
        lemma_joined_pieces_split(others, delimiter);
        let n = p.len() as int;
        assert(s.take(n) =~= p);
        assert(s.skip(n + 1) =~= rest);
        assert forall|i: int| 0 <= i < n implies !is_cut(s, delimiter, i) by {
            assert(s.take(i) =~= p.take(i));
            assert(s[i] == p[i]);
            assert(!is_cut(pieces[0], delimiter, i));
        }
        lemma_cut_skips(s, delimiter, 0, n);
        assert(is_cut(s, delimiter, n));
        assert(split_outside(s, delimiter) =~= pieces);
    }
}

} // verus!
