//! What the names of types say.

use crate::number::{parse_signed, parse_unsigned};
use crate::numerals::{
    digits_number, is_digits, lemma_signed_numbers_are_read, lemma_unsigned_numbers_are_read,
};
use crate::schema::{
    array_reading, decimal_precision, decimal_reading, decimal_scale, field_name, field_type,
    fields_reading, first_brackets, is_cut, lemma_joined_pieces_split, lemma_nesting_sum, nesting,
    outer_brackets, row_reading, simple_type, split_on, split_outside, trino_type, type_reading,
    with_delimiters, Brackets, FieldsReading, TypeReading,
};
use crate::text::{
    ascii_lower, ascii_lowercase, find, folded, is_white_space, lemma_find, lemma_rfind, rfind,
    trim, trim_start,
};
use crate::types::{FieldView, TimeUnit, TypeView};
use vstd::prelude::*;
use vstd::utf8::is_ascii_chars;

verus! {

/// Each name says its own type, in upper case as well as in lower case.
pub proof fn lemma_names_say_their_types(name: Seq<char>)
    ensures
        folded(name) == "null"@ ==> trino_type(name) == TypeReading::Type(TypeView::Null),
        folded(name) == "boolean"@ ==> trino_type(name) == TypeReading::Type(TypeView::Boolean),
        folded(name) == "tinyint"@ ==> trino_type(name) == TypeReading::Type(TypeView::Int8),
        folded(name) == "smallint"@ ==> trino_type(name) == TypeReading::Type(TypeView::Int16),
        folded(name) == "integer"@ ==> trino_type(name) == TypeReading::Type(TypeView::Int32),
        folded(name) == "bigint"@ ==> trino_type(name) == TypeReading::Type(TypeView::Int64),
        folded(name) == "real"@ ==> trino_type(name) == TypeReading::Type(TypeView::Float32),
        folded(name) == "double"@ ==> trino_type(name) == TypeReading::Type(TypeView::Float64),
        folded(name) == "varchar"@ ==> trino_type(name) == TypeReading::Type(TypeView::Utf8),
        folded(name) == "char"@ ==> trino_type(name) == TypeReading::Type(TypeView::Utf8),
        folded(name) == "varbinary"@ ==> trino_type(name) == TypeReading::Type(TypeView::Binary),
        folded(name) == "json"@ ==> trino_type(name) == TypeReading::Type(TypeView::LargeUtf8),
        folded(name) == "date"@ ==> trino_type(name) == TypeReading::Type(TypeView::Date32),
        folded(name) == "time"@ ==> trino_type(name) == TypeReading::Type(
            TypeView::Time64(TimeUnit::Nanosecond),
        ),
        folded(name) == "timestamp"@ ==> trino_type(name) == TypeReading::Type(
            TypeView::Timestamp(TimeUnit::Microsecond, None),
        ),
        folded(name) == "timestamp with time zone"@ ==> trino_type(name) == TypeReading::Type(
            TypeView::Timestamp(TimeUnit::Microsecond, Some("UTC"@)),
        ),
        folded(name) == "decimal"@ || folded(name) == "numeric"@ ==> trino_type(name)
            == TypeReading::Type(TypeView::Decimal128(18, 6)),
{
    lemma_name_beginnings();
    let n = folded(name);
    reveal_strlit("decimal");
    reveal_strlit("numeric");
    if n == "decimal"@ || n == "numeric"@ {
        assert("decimal"@ =~= "decimal"@.subrange(0, 7));
        assert("numeric"@ =~= "numeric"@.subrange(0, 7));
        lemma_find(n, '(');
    }
}

/// How the names begin, and how long they are.
proof fn lemma_name_beginnings()
    ensures
        "null"@.len() == 4 && "null"@[0] == 'n' && "null"@[2] == 'l',
        "boolean"@.len() == 7 && "boolean"@[0] == 'b',
        "tinyint"@.len() == 7 && "tinyint"@[0] == 't',
        "smallint"@.len() == 8 && "smallint"@[0] == 's',
        "integer"@.len() == 7 && "integer"@[0] == 'i',
        "bigint"@.len() == 6 && "bigint"@[0] == 'b',
        "real"@.len() == 4 && "real"@[0] == 'r' && "real"@[1] == 'e',
        "double"@.len() == 6 && "double"@[0] == 'd' && "double"@[1] == 'o',
        "varchar"@.len() == 7 && "varchar"@[0] == 'v' && "varchar"@[3] == 'c',
        "char"@.len() == 4 && "char"@[0] == 'c',
        "varbinary"@.len() == 9 && "varbinary"@[0] == 'v' && "varbinary"@[3] == 'b',
        "json"@.len() == 4 && "json"@[0] == 'j',
        "date"@.len() == 4 && "date"@[0] == 'd' && "date"@[1] == 'a',
        "time"@.len() == 4 && "time"@[0] == 't',
        "timestamp"@.len() == 9 && "timestamp"@[0] == 't',
        "timestamp with time zone"@.len() == 24 && "timestamp with time zone"@[0] == 't',
        "decimal"@.len() == 7 && "decimal"@[0] == 'd' && "decimal"@[1] == 'e',
        "numeric"@.len() == 7 && "numeric"@[0] == 'n' && "numeric"@[2] == 'm',
        "array"@.len() == 5 && "array"@[0] == 'a',
        "map"@.len() == 3 && "map"@[0] == 'm',
        "row"@.len() == 3 && "row"@[0] == 'r' && "row"@[1] == 'o',
{
    reveal_strlit("null");
    reveal_strlit("boolean");
    reveal_strlit("tinyint");
    reveal_strlit("smallint");
    reveal_strlit("integer");
    reveal_strlit("bigint");
    reveal_strlit("real");
    reveal_strlit("double");
    reveal_strlit("varchar");
    reveal_strlit("char");
    reveal_strlit("varbinary");
    reveal_strlit("json");
    reveal_strlit("date");
    reveal_strlit("time");
    reveal_strlit("timestamp");
    reveal_strlit("timestamp with time zone");
    reveal_strlit("decimal");
    reveal_strlit("numeric");
    reveal_strlit("array");
    reveal_strlit("map");
    reveal_strlit("row");
}

/// Whether a text is ASCII text without upper case letters.
pub open spec fn is_lower_case(s: Seq<char>) -> bool {
    forall|i: int|
        0 <= i < s.len() ==> '\0' <= #[trigger] s[i] <= '\u{7f}' && !('A' <= s[i] <= 'Z')
}

proof fn lemma_lower_case_stays(s: Seq<char>)
    requires
        is_lower_case(s),
    ensures
        folded(s) == s,
        is_ascii_chars(s),
{
    assert(is_ascii_chars(s)) by {
        assert forall|i: int| 0 <= i < s.len() implies '\0' <= #[trigger] s[i] <= '\u{7f}' by {}
    }
    assert(ascii_lowercase(s) =~= s) by {
        assert forall|i: int| 0 <= i < s.len() implies ascii_lower(#[trigger] s[i]) == s[i] by {}
    }
}

proof fn lemma_lower_case_joined(a: Seq<char>, b: Seq<char>)
    requires
        is_lower_case(a),
        is_lower_case(b),
    ensures
        is_lower_case(a + b),
{
    assert forall|i: int| 0 <= i < (a + b).len() implies '\0' <= #[trigger] (a + b)[i] <= '\u{7f}'
        && !('A' <= (a + b)[i] <= 'Z') by {
        if i < a.len() {
            assert((a + b)[i] == a[i]);
        } else {
            assert((a + b)[i] == b[i - a.len()]);
        }
    }
}

proof fn lemma_begins(a: Seq<char>, b: Seq<char>)
    ensures
        a.is_prefix_of(a + b),
        forall|i: int| 0 <= i < a.len() ==> (#[trigger] (a + b)[i]) == a[i],
{
    assert((a + b).subrange(0, a.len() as int) =~= a);
}

/// Names that begin with `varchar`, with `char` or with `map` say text, and names that begin with
/// `varbinary` say bytes, whatever follows.
pub proof fn lemma_texts_of_any_length(rest: Seq<char>)
    requires
        is_lower_case(rest),
    ensures
        trino_type("varchar"@ + rest) == TypeReading::Type(TypeView::Utf8),
        trino_type("char"@ + rest) == TypeReading::Type(TypeView::Utf8),
        trino_type("varbinary"@ + rest) == TypeReading::Type(TypeView::Binary),
        trino_type("map"@ + rest) == TypeReading::Type(TypeView::Utf8),
{
    lemma_varchar(rest);
    lemma_char(rest);
    lemma_varbinary(rest);
    lemma_map(rest);
}

proof fn lemma_begun(head: Seq<char>, rest: Seq<char>)
    requires
        is_lower_case(head),
        is_lower_case(rest),
        head.len() > 0,
    ensures
        trino_type(head + rest) == type_reading(head + rest, head + rest),
        head.is_prefix_of(head + rest),
        forall|i: int| 0 <= i < head.len() ==> (#[trigger] (head + rest)[i]) == head[i],
{
    lemma_lower_case_joined(head, rest);
    lemma_lower_case_stays(head + rest);
    lemma_begins(head, rest);
}

proof fn lemma_varchar(rest: Seq<char>)
    requires
        is_lower_case(rest),
    ensures
        trino_type("varchar"@ + rest) == TypeReading::Type(TypeView::Utf8),
{
    reveal_strlit("varchar");
    lemma_begun("varchar"@, rest);
    lemma_name_beginnings();
    let n = "varchar"@ + rest;
    assert(n[0] == 'v' && n[3] == 'c');
    lemma_other_beginning(n, "decimal"@);
    lemma_other_beginning(n, "numeric"@);
    assert(n != "varbinary"@);
}

proof fn lemma_char(rest: Seq<char>)
    requires
        is_lower_case(rest),
    ensures
        trino_type("char"@ + rest) == TypeReading::Type(TypeView::Utf8),
{
    reveal_strlit("char");
    lemma_begun("char"@, rest);
    lemma_name_beginnings();
    let n = "char"@ + rest;
    assert(n[0] == 'c');
    lemma_other_beginning(n, "decimal"@);
    lemma_other_beginning(n, "numeric"@);
}

proof fn lemma_varbinary(rest: Seq<char>)
    requires
        is_lower_case(rest),
    ensures
        trino_type("varbinary"@ + rest) == TypeReading::Type(TypeView::Binary),
{
    reveal_strlit("varbinary");
    lemma_begun("varbinary"@, rest);
    lemma_name_beginnings();
    let n = "varbinary"@ + rest;
    assert(n[0] == 'v' && n[3] == 'b');
    lemma_other_beginning(n, "decimal"@);
    lemma_other_beginning(n, "numeric"@);
    lemma_other_beginning(n, "char"@);
    if "varchar"@.is_prefix_of(n) {
        assert(n.subrange(0, 7)[3] == "varchar"@[3]);
    }
}

proof fn lemma_map(rest: Seq<char>)
    requires
        is_lower_case(rest),
    ensures
        trino_type("map"@ + rest) == TypeReading::Type(TypeView::Utf8),
{
    reveal_strlit("map");
    lemma_begun("map"@, rest);
    lemma_name_beginnings();
    let n = "map"@ + rest;
    assert(n[0] == 'm');
    lemma_other_beginning(n, "decimal"@);
    lemma_other_beginning(n, "numeric"@);
    lemma_other_beginning(n, "varchar"@);
    lemma_other_beginning(n, "char"@);
    lemma_other_beginning(n, "varbinary"@);
    lemma_other_beginning(n, "array"@);
}

proof fn lemma_other_beginning(n: Seq<char>, p: Seq<char>)
    ensures
        p.len() > 0 && n.len() > 0 && n[0] != p[0] ==> !p.is_prefix_of(n),
{
    if p.is_prefix_of(n) && p.len() > 0 {
        assert(n.subrange(0, p.len() as int)[0] == p[0]);
    }
}

proof fn lemma_digits_stand_alone(s: Seq<char>)
    requires
        is_digits(s),
    ensures
        is_lower_case(s),
        trim(s) == s,
        find(s, ',') is None,
        find(s, '(') is None,
        find(s, ')') is None,
{
    assert('0' <= s[0] <= '9');
    assert('0' <= s[s.len() - 1] <= '9');
    assert(trim_start(s) == s);
    lemma_find(s, ',');
    lemma_find(s, '(');
    lemma_find(s, ')');
    assert forall|i: int| 0 <= i < s.len() implies s[i] != ',' && s[i] != '(' && s[i] != ')' by {
        assert('0' <= s[i] <= '9');
    }
}

/// A decimal type: of 128 bits up to a precision of 38, of 256 bits above.
pub open spec fn sized_decimal(precision: int, scale: int) -> TypeView {
    if precision <= 38 {
        TypeView::Decimal128(precision as u8, scale as i8)
    } else {
        TypeView::Decimal256(precision as u8, scale as i8)
    }
}

proof fn lemma_one_param(p: Seq<char>)
    requires
        is_digits(p),
        digits_number(p) <= 255,
    ensures
        decimal_precision(p) == digits_number(p),
        decimal_scale(p) == 0,
{
    lemma_digits_stand_alone(p);
    lemma_unsigned_numbers_are_read(p, 255);
    assert(split_on(p, ',') == seq![p]);
}

proof fn lemma_two_params(p: Seq<char>, q: Seq<char>)
    requires
        is_digits(p),
        digits_number(p) <= 255,
        is_digits(q),
        digits_number(q) <= 127,
    ensures
        decimal_precision(p + seq![','] + q) == digits_number(p),
        decimal_scale(p + seq![','] + q) == digits_number(q),
        decimal_precision(p + seq![',', ' '] + q) == digits_number(p),
        decimal_scale(p + seq![',', ' '] + q) == digits_number(q),
{
    lemma_digits_stand_alone(p);
    lemma_digits_stand_alone(q);
    lemma_unsigned_numbers_are_read(p, 255);
    lemma_signed_numbers_are_read(q, -128, 127);
    lemma_params_split(p, q);
    let spaced = seq![' '] + q;
    assert(trim_start(spaced) == trim_start(spaced.drop_first()));
    assert(spaced.drop_first() =~= q);
    lemma_find(spaced, ',');
    assert forall|i: int| 0 <= i < spaced.len() implies spaced[i] != ',' by {
        if i > 0 {
            assert(spaced[i] == q[i - 1]);
            assert('0' <= q[i - 1] <= '9');
        }
    }
    lemma_params_split(p, spaced);
    assert(p + seq![','] + spaced =~= p + seq![',', ' '] + q);
}

proof fn lemma_params_split(p: Seq<char>, q: Seq<char>)
    requires
        find(p, ',') is None,
        find(q, ',') is None,
    ensures
        split_on(p + seq![','] + q, ',').len() == 2,
        split_on(p + seq![','] + q, ',')[0] == p,
        split_on(p + seq![','] + q, ',')[1] == q,
{
    let s = p + seq![','] + q;
    lemma_find(p, ',');
    lemma_find(q, ',');
    lemma_find(s, ',');
    let n = p.len() as int;
    assert(s[n] == ',');
    assert forall|i: int| 0 <= i < n implies s[i] != ',' by {
        assert(s[i] == p[i]);
    }
    assert(find(s, ',') == Some(n));
    assert(s.take(n) =~= p);
    assert(s.skip(n + 1) =~= q);
    assert(split_on(q, ',') == seq![q]);
    assert(split_on(s, ',') == seq![p] + seq![q]);
}

/// What stands between the parentheses of a name that has no others.
proof fn lemma_bracketed(head: Seq<char>, inner: Seq<char>)
    requires
        forall|i: int| 0 <= i < head.len() ==> head[i] != '(' && head[i] != ')',
    ensures
        outer_brackets(head + seq!['('] + inner + seq![')']) == Brackets::Inside(inner),
        (forall|i: int| 0 <= i < inner.len() ==> inner[i] != ')') ==> first_brackets(
            head + seq!['('] + inner + seq![')'],
        ) == Brackets::Inside(inner),
{
    let n = head + seq!['('] + inner + seq![')'];
    let a = head.len() as int;
    let b = n.len() - 1;
    lemma_find(n, '(');
    lemma_find(n, ')');
    lemma_rfind(n, ')');
    assert(n[a] == '(');
    assert(n[b] == ')');
    assert forall|i: int| 0 <= i < a implies n[i] != '(' && n[i] != ')' by {
        assert(n[i] == head[i]);
    }
    assert(find(n, '(') == Some(a));
    assert(rfind(n, ')') == Some(b));
    assert(n.subrange(a + 1, b) =~= inner);
    if forall|i: int| 0 <= i < inner.len() ==> inner[i] != ')' {
        assert forall|i: int| 0 <= i < b implies n[i] != ')' by {
            if i > a {
                assert(n[i] == inner[i - a - 1]);
            }
        }
        assert(find(n, ')') == Some(b));
    }
}

proof fn lemma_decimal_name(head: Seq<char>, inner: Seq<char>, precision: int, scale: int)
    requires
        head == "decimal"@ || head == "numeric"@,
        is_lower_case(inner),
        forall|i: int| 0 <= i < inner.len() ==> inner[i] != '(' && inner[i] != ')',
        decimal_precision(inner) == precision,
        decimal_scale(inner) == scale,
    ensures
        trino_type(head + seq!['('] + inner + seq![')']) == TypeReading::Type(
            sized_decimal(precision, scale),
        ),
        decimal_reading(head + seq!['('] + inner + seq![')']) == TypeReading::Type(
            sized_decimal(precision, scale),
        ),
{
    let n = head + seq!['('] + inner + seq![')'];
    reveal_strlit("decimal");
    reveal_strlit("numeric");
    lemma_name_beginnings();
    lemma_lower_case_joined(head, seq!['(']);
    lemma_lower_case_joined(head + seq!['('], inner);
    lemma_lower_case_joined(head + seq!['('] + inner, seq![')']);
    lemma_lower_case_stays(n);
    assert forall|i: int| 0 <= i < head.len() implies head[i] != '(' && head[i] != ')' by {}
    lemma_bracketed(head, inner);
    assert(n =~= head + (seq!['('] + inner + seq![')']));
    lemma_begins(head, seq!['('] + inner + seq![')']);
    assert(n[0] == head[0] && n[1] == head[1] && n[2] == head[2]);
    assert(n.len() >= 9);
    assert(simple_type(n) is None);
}

/// A decimal type has the precision that the first number between its parentheses says, and the
/// scale that the second says, or none where there is no second. Up to a precision of 38 it has 128
/// bits, above that 256. The name `numeric` says the same as the name `decimal`.
pub proof fn lemma_decimal_names_say_precision_and_scale(p: Seq<char>, q: Seq<char>)
    requires
        is_digits(p),
        digits_number(p) <= 255,
        is_digits(q),
        digits_number(q) <= 127,
    ensures
        forall|head: Seq<char>|
            head == "decimal"@ || head == "numeric"@ ==> {
                &&& trino_type(#[trigger] (head + seq!['(']) + p + seq![')']) == TypeReading::Type(
                    sized_decimal(digits_number(p), 0),
                )
                &&& trino_type(head + seq!['('] + (p + seq![','] + q) + seq![')'])
                    == TypeReading::Type(sized_decimal(digits_number(p), digits_number(q)))
                &&& trino_type(head + seq!['('] + (p + seq![',', ' '] + q) + seq![')'])
                    == TypeReading::Type(sized_decimal(digits_number(p), digits_number(q)))
                &&& decimal_reading(head + seq!['('] + p + seq![')']) == TypeReading::Type(
                    sized_decimal(digits_number(p), 0),
                )
                &&& decimal_reading(head + seq!['('] + (p + seq![','] + q) + seq![')'])
                    == TypeReading::Type(sized_decimal(digits_number(p), digits_number(q)))
            },
{
    lemma_digits_stand_alone(p);
    lemma_digits_stand_alone(q);
    lemma_one_param(p);
    lemma_two_params(p, q);
    let close = p + seq![','] + q;
    let wide = p + seq![',', ' '] + q;
    lemma_find(p, '(');
    lemma_find(p, ')');
    lemma_find(q, '(');
    lemma_find(q, ')');
    lemma_lower_case_joined(p, seq![',']);
    lemma_lower_case_joined(p + seq![','], q);
    lemma_lower_case_joined(p, seq![',', ' ']);
    lemma_lower_case_joined(p + seq![',', ' '], q);
    assert forall|i: int| 0 <= i < close.len() implies close[i] != '(' && close[i] != ')' by {
        if i < p.len() {
            assert(close[i] == p[i]);
        } else if i > p.len() {
            assert(close[i] == q[i - p.len() - 1]);
        }
    }
    assert forall|i: int| 0 <= i < wide.len() implies wide[i] != '(' && wide[i] != ')' by {
        if i < p.len() {
            assert(wide[i] == p[i]);
        } else if i > p.len() + 1 {
            assert(wide[i] == q[i - p.len() - 2]);
        }
    }
    assert forall|head: Seq<char>| head == "decimal"@ || head == "numeric"@ implies {
        &&& trino_type(#[trigger] (head + seq!['(']) + p + seq![')']) == TypeReading::Type(
            sized_decimal(digits_number(p), 0),
        )
        &&& trino_type(head + seq!['('] + (p + seq![','] + q) + seq![')']) == TypeReading::Type(
            sized_decimal(digits_number(p), digits_number(q)),
        )
        &&& trino_type(head + seq!['('] + (p + seq![',', ' '] + q) + seq![')'])
            == TypeReading::Type(sized_decimal(digits_number(p), digits_number(q)))
        &&& decimal_reading(head + seq!['('] + p + seq![')']) == TypeReading::Type(
            sized_decimal(digits_number(p), 0),
        )
        &&& decimal_reading(head + seq!['('] + (p + seq![','] + q) + seq![')'])
            == TypeReading::Type(sized_decimal(digits_number(p), digits_number(q)))
    } by {
        lemma_decimal_name(head, p, digits_number(p), 0);
        lemma_decimal_name(head, close, digits_number(p), digits_number(q));
        lemma_decimal_name(head, wide, digits_number(p), digits_number(q));
    }
}

/// A type as a part of another: a list, a struct or a map is text there, any other is itself.
pub open spec fn as_part(t: TypeView) -> TypeView {
    if t is List || t is Struct || t is MapOf {
        TypeView::Utf8
    } else {
        t
    }
}

proof fn lemma_array_name(element: Seq<char>)
    requires
        is_lower_case(element),
    ensures
        trino_type("array"@ + seq!['('] + element + seq![')']) == crate::schema::list_of(
            type_reading(element, element),
        ),
        trino_type(element) == type_reading(element, element),
{
    let head = "array"@;
    let n = head + seq!['('] + element + seq![')'];
    reveal_strlit("array");
    lemma_name_beginnings();
    lemma_lower_case_joined(head, seq!['(']);
    lemma_lower_case_joined(head + seq!['('], element);
    lemma_lower_case_joined(head + seq!['('] + element, seq![')']);
    lemma_lower_case_stays(n);
    lemma_lower_case_stays(element);
    assert forall|i: int| 0 <= i < head.len() implies head[i] != '(' && head[i] != ')' by {}
    lemma_bracketed(head, element);
    assert(n =~= head + (seq!['('] + element + seq![')']));
    lemma_begins(head, seq!['('] + element + seq![')']);
    assert(n[0] == 'a');
    lemma_other_beginning(n, "decimal"@);
    lemma_other_beginning(n, "numeric"@);
    lemma_other_beginning(n, "varchar"@);
    lemma_other_beginning(n, "char"@);
    lemma_other_beginning(n, "varbinary"@);
    assert(simple_type(n) is None);
    assert(trino_type(n) == array_reading(n, true));
}

/// An array type is a list of items of the type that its element says. The items are called `item`
/// and take nulls.
pub proof fn lemma_array_names_say_their_items(element: Seq<char>, t: TypeView)
    requires
        is_lower_case(element),
        trino_type(element) == TypeReading::Type(t),
    ensures
        trino_type("array"@ + seq!['('] + element + seq![')']) matches TypeReading::Type(
            TypeView::List(item),
        ) && item.name == "item"@ && item.data_type == as_part(t) && item.nullable,
{
    lemma_array_name(element);
}

/// A name that begins like an array type says a list of what stands between its first opening and
/// its last closing parenthesis, in upper case as well as in lower case; what is wrong with that is
/// wrong with it.
pub proof fn lemma_arrays_say_what_their_elements_say(n: Seq<char>, element: Seq<char>)
    requires
        outer_brackets(n) == Brackets::Inside(element),
    ensures
        match trino_type(element) {
            TypeReading::Type(t) => array_reading(n, false) matches TypeReading::Type(
                TypeView::List(item),
            ) && item.name == "item"@ && item.data_type == as_part(t) && item.nullable,
            TypeReading::Unsupported(name) => array_reading(n, false) == TypeReading::Unsupported(
                name,
            ),
            TypeReading::Malformed => array_reading(n, false) is Malformed,
        },
{
}

/// Whether a text can be the name of a field as it stands: lower case letters, digits and
/// underscores.
pub open spec fn is_field_name(s: Seq<char>) -> bool {
    s.len() > 0 && forall|i: int|
        0 <= i < s.len() ==> ('a' <= #[trigger] s[i] <= 'z' || '0' <= s[i] <= '9' || s[i] == '_')
}

/// Whether a text is a type name with its parentheses closed, no comma outside them, and no white
/// space around it.
pub open spec fn stands_alone(s: Seq<char>) -> bool {
    &&& s.len() > 0
    &&& is_lower_case(s)
    &&& !is_white_space(s[0])
    &&& !is_white_space(s.last())
    &&& nesting(s) == 0
    &&& forall|j: int| 0 <= j < s.len() && #[trigger] s[j] == ',' ==> nesting(s.take(j)) != 0
}

/// The definition of a field: its name and its type name.
pub open spec fn definition(name: Seq<char>, named_type: Seq<char>) -> Seq<char> {
    name + seq![' '] + named_type
}

/// The definitions of some fields.
pub open spec fn definitions(names: Seq<Seq<char>>, types: Seq<Seq<char>>) -> Seq<Seq<char>> {
    Seq::new(names.len(), |k: int| definition(names[k], types[k]))
}

proof fn lemma_nests_nothing(s: Seq<char>)
    requires
        forall|i: int| 0 <= i < s.len() ==> s[i] != '(' && s[i] != ')',
    ensures
        nesting(s) == 0,
    decreases s.len(),
{
    if s.len() > 0 {
        assert(s[s.len() - 1] != '(');
        assert forall|i: int| 0 <= i < s.drop_last().len() implies s.drop_last()[i] != '('
            && s.drop_last()[i] != ')' by {
            assert(s.drop_last()[i] == s[i]);
        }
        lemma_nests_nothing(s.drop_last());
    }
}

proof fn lemma_definition(name: Seq<char>, named_type: Seq<char>)
    requires
        is_field_name(name),
        stands_alone(named_type),
    ensures
        ({
            let d = definition(name, named_type);
            &&& d.len() > 0
            &&& is_lower_case(d)
            &&& trim(d) == d
            &&& nesting(d) == 0
            &&& forall|j: int| 0 <= j < d.len() ==> !#[trigger] is_cut(d, ',', j)
            &&& field_name(d) == Some(name)
            &&& field_type(d) == named_type
        }),
{
    let d = definition(name, named_type);
    let n = name.len() as int;
    let head = name + seq![' '];
    assert forall|i: int| 0 <= i < name.len() implies name[i] != '(' && name[i] != ')' && name[i]
        != ' ' && name[i] != ',' && !is_white_space(name[i]) && '\0' <= name[i] <= '\u{7f}' && !(
    'A' <= name[i] <= 'Z') by {
        assert('a' <= name[i] <= 'z' || '0' <= name[i] <= '9' || name[i] == '_');
    }
    assert(is_lower_case(name));
    lemma_lower_case_joined(name, seq![' ']);
    lemma_lower_case_joined(head, named_type);
    assert forall|i: int| 0 <= i < head.len() implies head[i] != '(' && head[i] != ')' by {
        if i < n {
            assert(head[i] == name[i]);
        }
    }
    lemma_nests_nothing(head);
    lemma_nesting_sum(head, named_type);
    assert(d[0] == name[0]);
    assert(d.last() == named_type.last());
    assert(trim_start(d) == d);
    assert(trim(d) == d);
    assert forall|j: int| 0 <= j < d.len() implies !#[trigger] is_cut(d, ',', j) by {
        if j < n {
            assert(d[j] == name[j]);
        } else if j > n {
            let k = j - n - 1;
            assert(d[j] == named_type[k]);
            assert(d.take(j) =~= head + named_type.take(k));
            lemma_nesting_sum(head, named_type.take(k));
        }
    }
    lemma_find(d, ' ');
    assert(d[n] == ' ');
    assert forall|i: int| 0 <= i < n implies d[i] != ' ' by {
        assert(d[i] == name[i]);
    }
    assert(find(d, ' ') == Some(n));
    assert(d.take(n) =~= name);
    assert(d.skip(n + 1) =~= named_type);
    assert(trim_start(name) == name);
    assert(trim(name) == name);
    assert(trim_start(named_type) == named_type);
    assert(trim(named_type) == named_type);
}

/// The fields of a row type: each has its name, the type that its type name says, as a part, and
/// takes nulls.
pub open spec fn row_fields(names: Seq<Seq<char>>, types: Seq<TypeView>) -> Seq<FieldView> {
    Seq::new(
        names.len(),
        |k: int| FieldView { name: names[k], data_type: as_part(types[k]), nullable: true },
    )
}

proof fn lemma_fields_read(
    inner: Seq<char>,
    names: Seq<Seq<char>>,
    named_types: Seq<Seq<char>>,
    types: Seq<TypeView>,
    k: nat,
    lower: bool,
)
    requires
        k <= names.len(),
        named_types.len() == names.len(),
        types.len() == names.len(),
        split_outside(inner, ',') == definitions(names, named_types),
        forall|j: int|
            0 <= j < names.len() ==> is_field_name(#[trigger] names[j]) && stands_alone(
                named_types[j],
            ) && trino_type(named_types[j]) == TypeReading::Type(types[j]),
    ensures
        fields_reading(inner, k, lower) == FieldsReading::Fields(
            row_fields(names.take(k as int), types.take(k as int)),
        ),
    decreases k,
{
    if k == 0 {
        assert(row_fields(names.take(0), types.take(0)) =~= seq![]);
    } else {
        lemma_fields_read(inner, names, named_types, types, (k - 1) as nat, lower);
        assert(is_field_name(names[k - 1]));
        lemma_definition(names[k - 1], named_types[k - 1]);
        lemma_lower_case_stays(named_types[k - 1]);
        assert(row_fields(names.take(k as int), types.take(k as int)) =~= row_fields(
            names.take(k - 1),
            types.take(k - 1),
        ).push(FieldView { name: names[k - 1], data_type: as_part(types[k - 1]), nullable: true }));
    }
}

proof fn lemma_definitions_in_lower_case(pieces: Seq<Seq<char>>)
    requires
        forall|k: int| 0 <= k < pieces.len() ==> is_lower_case(#[trigger] pieces[k]),
    ensures
        is_lower_case(with_delimiters(pieces, ',')),
    decreases pieces.len(),
{
    if pieces.len() == 1 {
        assert(is_lower_case(pieces[0]));
    } else if pieces.len() > 1 {
        let others = pieces.drop_first();
        assert forall|k: int| 0 <= k < others.len() implies is_lower_case(#[trigger] others[k]) by {
            assert(others[k] == pieces[k + 1]);
        }
        lemma_definitions_in_lower_case(others);
        assert(is_lower_case(pieces[0]));
        lemma_lower_case_joined(pieces[0], seq![',']);
        lemma_lower_case_joined(pieces[0] + seq![','], with_delimiters(others, ','));
    }
}

/// A row type is a struct with a field for each of its definitions, in their order: it has the name
/// that the definition begins with, the type that the rest says, and takes nulls.
pub proof fn lemma_row_names_say_their_fields(
    names: Seq<Seq<char>>,
    named_types: Seq<Seq<char>>,
    types: Seq<TypeView>,
)
    requires
        names.len() > 0,
        named_types.len() == names.len(),
        types.len() == names.len(),
        forall|j: int|
            0 <= j < names.len() ==> is_field_name(#[trigger] names[j]) && stands_alone(
                named_types[j],
            ) && trino_type(named_types[j]) == TypeReading::Type(types[j]),
    ensures
        trino_type(
            "row"@ + seq!['('] + with_delimiters(definitions(names, named_types), ',') + seq![')'],
        ) == TypeReading::Type(TypeView::Struct(row_fields(names, types))),
        row_reading(
            "row"@ + seq!['('] + with_delimiters(definitions(names, named_types), ',') + seq![')'],
            false,
        ) == TypeReading::Type(TypeView::Struct(row_fields(names, types))),
{
    let head = "row"@;
    let pieces = definitions(names, named_types);
    let inner = with_delimiters(pieces, ',');
    let n = head + seq!['('] + inner + seq![')'];
    reveal_strlit("row");
    lemma_name_beginnings();
    assert forall|k: int| 0 <= k < pieces.len() implies trim(#[trigger] pieces[k]) == pieces[k]
        && nesting(pieces[k]) == 0 && is_lower_case(pieces[k]) by {
        assert(is_field_name(names[k]));
        lemma_definition(names[k], named_types[k]);
    }
    assert forall|k: int, j: int|
        0 <= k < pieces.len() && 0 <= j < pieces[k].len() implies !#[trigger] is_cut(
        pieces[k],
        ',',
        j,
    ) by {
        assert(is_field_name(names[k]));
        lemma_definition(names[k], named_types[k]);
    }
    assert(pieces.last().len() > 0) by {
        assert(is_field_name(names[names.len() - 1]));
        lemma_definition(names.last(), named_types.last());
    }
    lemma_joined_pieces_split(pieces, ',');
    lemma_definitions_in_lower_case(pieces);
    lemma_fields_read(inner, names, named_types, types, names.len(), true);
    lemma_fields_read(inner, names, named_types, types, names.len(), false);
    assert(names.take(names.len() as int) =~= names);
    assert(types.take(types.len() as int) =~= types);
    lemma_lower_case_joined(head, seq!['(']);
    lemma_lower_case_joined(head + seq!['('], inner);
    lemma_lower_case_joined(head + seq!['('] + inner, seq![')']);
    lemma_lower_case_stays(n);
    assert forall|i: int| 0 <= i < head.len() implies head[i] != '(' && head[i] != ')' by {}
    lemma_bracketed(head, inner);
    assert(n =~= head + (seq!['('] + inner + seq![')']));
    lemma_begins(head, seq!['('] + inner + seq![')']);
    assert(n[0] == 'r' && n[1] == 'o');
    lemma_other_beginning(n, "decimal"@);
    lemma_other_beginning(n, "numeric"@);
    lemma_other_beginning(n, "varchar"@);
    lemma_other_beginning(n, "char"@);
    lemma_other_beginning(n, "varbinary"@);
    lemma_other_beginning(n, "array"@);
    lemma_other_beginning(n, "map"@);
    assert(simple_type(n) is None);
    assert(trino_type(n) == row_reading(n, true));
}

/// A name that is none of the fixed names, and that begins with none of the words of the types with
/// parameters, is not supported, and is shown as it stands: a timestamp with a precision too.
pub proof fn lemma_only_these_names_are_supported(name: Seq<char>)
    requires
        ({
            let n = folded(name);
            &&& n != "null"@ && n != "boolean"@ && n != "tinyint"@ && n != "smallint"@
            &&& n != "integer"@ && n != "bigint"@ && n != "real"@ && n != "double"@
            &&& n != "json"@ && n != "date"@ && n != "time"@ && n != "timestamp"@
            &&& n != "timestamp with time zone"@
            &&& !"decimal"@.is_prefix_of(n) && !"numeric"@.is_prefix_of(n)
            &&& !"varchar"@.is_prefix_of(n) && !"char"@.is_prefix_of(n)
            &&& !"varbinary"@.is_prefix_of(n) && !"array"@.is_prefix_of(n)
            &&& !"map"@.is_prefix_of(n) && !"row"@.is_prefix_of(n)
        }),
    ensures
        trino_type(name) == TypeReading::Unsupported(name),
{
    let n = folded(name);
    if n == "varchar"@ {
        assert("varchar"@.subrange(0, "varchar"@.len() as int) =~= "varchar"@);
    }
    if n == "char"@ {
        assert("char"@.subrange(0, "char"@.len() as int) =~= "char"@);
    }
    if n == "varbinary"@ {
        assert("varbinary"@.subrange(0, "varbinary"@.len() as int) =~= "varbinary"@);
    }
}

/// A decimal type whose first parameter is no number up to 255 has a precision of 38, and one whose
/// second parameter is no number of eight bits has no scale. White space around them is nothing.
pub proof fn lemma_decimal_parameters(p: Seq<char>, q: Seq<char>)
    requires
        find(p, ',') is None,
        find(q, ',') is None,
    ensures
        ({
            let one = p;
            let two = p + seq![','] + q;
            &&& parse_unsigned(trim(p), 255) is None ==> decimal_precision(one) == 38
                && decimal_precision(two) == 38
            &&& parse_unsigned(trim(p), 255) matches Some(n) ==> decimal_precision(one) == n
                && decimal_precision(two) == n
            &&& decimal_scale(one) == 0
            &&& parse_signed(trim(q), -128, 127) is None ==> decimal_scale(two) == 0
            &&& parse_signed(trim(q), -128, 127) matches Some(n) ==> decimal_scale(two) == n
        }),
{
    lemma_params_split(p, q);
    assert(split_on(p, ',') == seq![p]);
}

/// Of the definitions of a row type, each adds its field to those before it: what stands before the
/// first space is the name, what stands behind it the type. A definition without a space adds
/// nothing. A type that is not supported is what is not supported of the whole.
pub proof fn lemma_definitions_add_fields(inner: Seq<char>, k: nat, before: Seq<FieldView>)
    requires
        k < split_outside(inner, ',').len(),
        fields_reading(inner, k, false) == FieldsReading::Fields(before),
    ensures
        ({
            let d = trim(split_outside(inner, ',')[k as int]);
            let now = fields_reading(inner, k + 1, false);
            match find(d, ' ') {
                None => now == FieldsReading::Fields(before),
                Some(i) => match trino_type(trim(d.skip(i + 1))) {
                    TypeReading::Type(t) => now matches FieldsReading::Fields(fields) && fields
                        == before.push(
                        FieldView { name: trim(d.take(i)), data_type: as_part(t), nullable: true },
                    ),
                    TypeReading::Unsupported(name) => now == FieldsReading::Unsupported(name),
                    TypeReading::Malformed => now is Malformed,
                },
            }
        }),
{
}

/// A text nests by one more with each opening parenthesis, by one less with each closing one, and
/// as before with any other character.
pub proof fn lemma_nesting_is_counted(s: Seq<char>, c: char)
    ensures
        nesting(seq![]) == 0,
        c == '(' ==> nesting(s.push(c)) == nesting(s) + 1,
        c == ')' ==> nesting(s.push(c)) == nesting(s) - 1,
        c != '(' && c != ')' ==> nesting(s.push(c)) == nesting(s),
{
    assert(s.push(c).drop_last() =~= s);
}

/// A text is cut at each delimiter before which as many parentheses close as open.
pub proof fn lemma_cuts_are_outside_parentheses(s: Seq<char>, delimiter: char, i: int)
    requires
        0 <= i < s.len(),
        delimiter != '(',
        delimiter != ')',
    ensures
        is_cut(s, delimiter, i) <==> s[i] == delimiter && nesting(s.take(i)) == 0,
{
}

/// Of a decimal type the text from the first opening to the first closing parenthesis counts, and
/// what follows a second comma does not. Without parentheses the precision is 18 and the scale 6.
/// Of an array or a row type the text from the first opening to the last closing parenthesis
/// counts; there must be parentheses. None may close before the first opens.
pub proof fn lemma_parentheses_hold_the_parameters(n: Seq<char>, lower: bool)
    ensures
        match (find(n, '('), find(n, ')')) {
            (Some(a), Some(b)) => if a < b {
                decimal_reading(n) == TypeReading::Type(
                    sized_decimal(
                        decimal_precision(n.subrange(a + 1, b)) as int,
                        decimal_scale(n.subrange(a + 1, b)) as int,
                    ),
                )
            } else {
                decimal_reading(n) is Malformed
            },
            _ => decimal_reading(n) == TypeReading::Type(TypeView::Decimal128(18, 6)),
        },
        match (find(n, '('), rfind(n, ')')) {
            (Some(a), Some(b)) => if a < b {
                outer_brackets(n) == Brackets::Inside(n.subrange(a + 1, b))
            } else {
                array_reading(n, lower) is Malformed && row_reading(n, lower) is Malformed
            },
            _ => array_reading(n, lower) == TypeReading::Unsupported(n) && row_reading(n, lower)
                == TypeReading::Unsupported(n),
        },
{
    lemma_find(n, '(');
    lemma_find(n, ')');
    lemma_rfind(n, ')');
}

/// What follows a second comma of a decimal type does not count.
pub proof fn lemma_further_parameters_do_not_count(p: Seq<char>, q: Seq<char>, r: Seq<char>)
    requires
        find(p, ',') is None,
        find(q, ',') is None,
    ensures
        decimal_precision(p + seq![','] + (q + seq![','] + r)) == decimal_precision(
            p + seq![','] + q,
        ),
        decimal_scale(p + seq![','] + (q + seq![','] + r)) == decimal_scale(p + seq![','] + q),
{
    lemma_params_split(p, q);
    lemma_first_part(p, q + seq![','] + r);
    lemma_first_part(q, r);
}

proof fn lemma_first_part(p: Seq<char>, rest: Seq<char>)
    requires
        find(p, ',') is None,
    ensures
        split_on(p + seq![','] + rest, ',') == seq![p] + split_on(rest, ','),
        split_on(rest, ',').len() > 0,
{
    let s = p + seq![','] + rest;
    lemma_find(p, ',');
    lemma_find(s, ',');
    let n = p.len() as int;
    assert(s[n] == ',');
    assert forall|i: int| 0 <= i < n implies s[i] != ',' by {
        assert(s[i] == p[i]);
    }
    assert(find(s, ',') == Some(n));
    assert(s.take(n) =~= p);
    assert(s.skip(n + 1) =~= rest);
}

/// What is not supported of an element is not supported of the array.
pub proof fn lemma_unsupported_elements(element: Seq<char>)
    requires
        is_lower_case(element),
    ensures
        trino_type(element) matches TypeReading::Unsupported(name) ==> trino_type(
            "array"@ + seq!['('] + element + seq![')'],
        ) == TypeReading::Unsupported(name),
        trino_type(element) is Malformed ==> trino_type(
            "array"@ + seq!['('] + element + seq![')'],
        ) is Malformed,
{
    lemma_array_name(element);
}

} // verus!
