//! What digits write, and what decimal columns keep of it.

use crate::decimal::{
    integer_part, low_bytes, numeral_magnitude, numeral_parts, signed_value, text_decimal,
};
use crate::json::JsonView;
use crate::number::{
    decimal_text, digits_value, integer_text, lemma_decimal_text_reads_back, parse_signed,
    parse_unsigned,
};
use crate::text::{find, lemma_find};
use crate::trino::ErrorView;
use crate::values::{decimal128_cell, decimal256_cell, Reading};
use vstd::arithmetic::div_mod::{
    lemma_fundamental_div_mod, lemma_fundamental_div_mod_converse, lemma_mod_bound,
};
use vstd::arithmetic::power::{lemma_pow_positive, pow};
use vstd::prelude::*;

verus! {

/// Whether a text is digits, and at least one.
pub open spec fn is_digits(s: Seq<char>) -> bool {
    s.len() > 0 && forall|i: int| 0 <= i < s.len() ==> '0' <= #[trigger] s[i] <= '9'
}

/// The number that digits write.
pub open spec fn digits_number(s: Seq<char>) -> int
    decreases s.len(),
{
    if s.len() == 0 {
        0
    } else {
        10 * digits_number(s.drop_last()) + (s.last() as u32 - '0' as u32)
    }
}

proof fn lemma_digits_number(s: Seq<char>)
    ensures
        (forall|i: int| 0 <= i < s.len() ==> '0' <= #[trigger] s[i] <= '9') ==> digits_value(s)
            == Some(digits_number(s) as nat) && digits_number(s) >= 0,
        digits_value(s) is Some ==> forall|i: int| 0 <= i < s.len() ==> '0' <= #[trigger] s[i]
            <= '9',
    decreases s.len(),
{
    if s.len() > 0 {
        let rest = s.drop_last();
        lemma_digits_number(rest);
        if forall|i: int| 0 <= i < s.len() ==> '0' <= #[trigger] s[i] <= '9' {
            assert('0' <= s[s.len() - 1] <= '9');
            assert forall|i: int| 0 <= i < rest.len() implies '0' <= #[trigger] rest[i] <= '9' by {
                assert(rest[i] == s[i]);
            }
        }
        if digits_value(s) is Some {
            assert forall|i: int| 0 <= i < s.len() implies '0' <= #[trigger] s[i] <= '9' by {
                if i < rest.len() {
                    assert(rest[i] == s[i]);
                }
            }
        }
    }
}

/// A text is read as an unsigned number just where it is digits, with a `+` before them at most,
/// and the number is in the range.
pub proof fn lemma_unsigned_numbers_are_read(s: Seq<char>, max: nat)
    ensures
        is_digits(s) ==> digits_number(s) >= 0,
        is_digits(s) ==> parse_unsigned(s, max) == (if digits_number(s) <= max {
            Some(digits_number(s) as nat)
        } else {
            None
        }),
        is_digits(s) ==> parse_unsigned(seq!['+'] + s, max) == parse_unsigned(s, max),
        parse_unsigned(s, max) is Some ==> is_digits(s) || (s.len() > 1 && s[0] == '+'
            && is_digits(s.drop_first())),
{
    lemma_digits_number(s);
    assert((seq!['+'] + s).drop_first() =~= s);
    if s.len() > 0 {
        lemma_digits_number(s.drop_first());
        if is_digits(s) {
            assert('0' <= s[0] <= '9');
        }
    }
}

/// A text is read as a signed number just where it is digits, with a `+` or a `-` before them at
/// most, and the number is in the range.
pub proof fn lemma_signed_numbers_are_read(s: Seq<char>, min: int, max: int)
    ensures
        is_digits(s) ==> digits_number(s) >= 0,
        is_digits(s) ==> parse_signed(s, min, max) == (if min <= digits_number(s) <= max {
            Some(digits_number(s))
        } else {
            None
        }),
        is_digits(s) ==> parse_signed(seq!['+'] + s, min, max) == parse_signed(s, min, max),
        is_digits(s) ==> parse_signed(seq!['-'] + s, min, max) == (if min <= -digits_number(s)
            <= max {
            Some(-digits_number(s))
        } else {
            None
        }),
        parse_signed(s, min, max) is Some ==> is_digits(s) || (s.len() > 1 && (s[0] == '+' || s[0]
            == '-') && is_digits(s.drop_first())),
{
    lemma_digits_number(s);
    assert((seq!['+'] + s).drop_first() =~= s);
    assert((seq!['-'] + s).drop_first() =~= s);
    if s.len() > 0 {
        lemma_digits_number(s.drop_first());
        if is_digits(s) {
            assert('0' <= s[0] <= '9');
        }
    }
}

/// An integer is written as its digits, without zeros before them, and with a `-` before them
/// where it is below zero.
pub proof fn lemma_integers_are_written_in_digits(n: int)
    ensures
        n >= 0 ==> is_digits(integer_text(n)) && digits_number(integer_text(n)) == n && (
        integer_text(n)[0] == '0' ==> n == 0 && integer_text(n).len() == 1),
        n < 0 ==> integer_text(n) == seq!['-'] + integer_text(-n),
        n >= 0 ==> integer_text(n) == decimal_text(n as nat),
    decreases
            (if n < 0 {
                -n
            } else {
                n
            }),
{
    if n >= 0 {
        let s = decimal_text(n as nat);
        lemma_decimal_text_reads_back(n as nat);
        lemma_digits_number(s);
        if n >= 10 {
            lemma_integers_are_written_in_digits(n / 10);
            let high = decimal_text((n / 10) as nat);
            assert(s == high.push(crate::number::digit_char((n % 10) as nat)));
            assert(s[0] == high[0]);
        }
    }
}

proof fn lemma_digits_joined(a: Seq<char>, b: Seq<char>)
    requires
        forall|i: int| 0 <= i < b.len() ==> '0' <= #[trigger] b[i] <= '9',
    ensures
        digits_number(a + b) == digits_number(a) * pow(10, b.len()) + digits_number(b),
        0 <= digits_number(b) < pow(10, b.len()),
    decreases b.len(),
{
    reveal(pow);
    if b.len() == 0 {
        assert(a + b =~= a);
        assert(pow(10, 0) == 1);
    } else {
        let rest = b.drop_last();
        assert((a + b).drop_last() =~= a + rest);
        assert('0' <= b[b.len() - 1] <= '9');
        assert forall|i: int| 0 <= i < rest.len() implies '0' <= #[trigger] rest[i] <= '9' by {
            assert(rest[i] == b[i]);
        }
        lemma_digits_joined(a, rest);
        let p = pow(10, rest.len());
        let x = digits_number(a);
        assert(pow(10, b.len()) == 10 * p);
        assert(x * (10 * p) == 10 * (x * p)) by (nonlinear_arith);
    }
}

/// A numeral: a whole number, or one with digits behind a point, and with a `-` before it where it
/// is negative.
pub open spec fn numeral(negative: bool, whole: Seq<char>, behind: Seq<char>) -> Seq<char> {
    let plain = if behind.len() == 0 {
        whole
    } else {
        whole + seq!['.'] + behind
    };
    if negative {
        seq!['-'] + plain
    } else {
        plain
    }
}

/// A number, or its negative.
pub open spec fn signed(negative: bool, n: int) -> int {
    if negative {
        -n
    } else {
        n
    }
}

proof fn lemma_numeral_magnitude(whole: Seq<char>, behind: Seq<char>)
    requires
        is_digits(whole),
        behind.len() == 0 || is_digits(behind),
    ensures
        numeral_magnitude(numeral(false, whole, behind)) == Some(
            (digits_number(whole + behind), behind.len() as int),
        ),
{
    let s = numeral(false, whole, behind);
    lemma_find(s, '.');
    lemma_digits_number(whole);
    lemma_digits_number(behind);
    let all = whole + behind;
    assert forall|i: int| 0 <= i < all.len() implies '0' <= #[trigger] all[i] <= '9' by {
        if i < whole.len() {
            assert(all[i] == whole[i]);
        } else {
            assert(all[i] == behind[i - whole.len()]);
        }
    }
    lemma_digits_number(all);
    if behind.len() == 0 {
        assert(all =~= whole);
        if find(s, '.') is Some {
            let i = find(s, '.')->0;
            assert('0' <= whole[i] <= '9');
        }
    } else {
        let n = whole.len() as int;
        assert(s[n] == '.');
        assert forall|i: int| 0 <= i < n implies s[i] != '.' by {
            assert(s[i] == whole[i]);
            assert('0' <= whole[i] <= '9');
        }
        assert(find(s, '.') == Some(n));
        assert(s.take(n) =~= whole);
        assert(s.skip(n + 1) =~= behind);
    }
}

/// A numeral is read as the integer of all its digits, and the count of those behind the point.
pub proof fn lemma_numerals_are_read(negative: bool, whole: Seq<char>, behind: Seq<char>)
    requires
        is_digits(whole),
        behind.len() == 0 || is_digits(behind),
    ensures
        text_decimal(numeral(negative, whole, behind)) == Some(
            (signed(negative, digits_number(whole + behind)), behind.len() as int),
        ),
{
    let s = numeral(negative, whole, behind);
    let m = numeral(false, whole, behind);
    lemma_numeral_magnitude(whole, behind);
    if negative {
        assert(s.drop_first() =~= m);
    } else {
        assert('0' <= whole[0] <= '9');
        assert(s[0] == whole[0]);
    }
}

/// A decimal column of 128 bits keeps the digits before the point, with the sign: the fraction is
/// cut off. The cell is a null where 128 bits do not hold the number.
pub proof fn lemma_decimals_keep_the_whole_number(
    negative: bool,
    whole: Seq<char>,
    behind: Seq<char>,
)
    requires
        is_digits(whole),
        behind.len() == 0 || is_digits(behind),
    ensures
        ({
            let n = signed(negative, digits_number(whole));
            decimal128_cell(Some(JsonView::Text(numeral(negative, whole, behind))))
                == Reading::Cell(
                if i128::MIN <= n <= i128::MAX {
                    Some(n as i128)
                } else {
                    None
                },
            )
        }),
{
    lemma_numerals_are_read(negative, whole, behind);
    lemma_digits_joined(whole, behind);
    lemma_digits_number(whole);
    lemma_pow_positive(10, behind.len());
    let all = digits_number(whole + behind);
    let p = pow(10, behind.len());
    lemma_fundamental_div_mod_converse(all, p, digits_number(whole), digits_number(behind));
    let n = signed(negative, all);
    reveal(pow);
    assert(pow(10, 0) == 1);
    if behind.len() == 0 {
        assert(whole + behind =~= whole);
    }
    assert(all >= 0) by (nonlinear_arith)
        requires
            all == digits_number(whole) * p + digits_number(behind),
            digits_number(whole) >= 0,
            p > 0,
            digits_number(behind) >= 0,
    ;
    assert(integer_part(n, behind.len() as int) == signed(negative, digits_number(whole))) by {
        if behind.len() == 0 {
            assert(n * pow(10, 0) == n) by (nonlinear_arith)
                requires
                    pow(10, 0) == 1,
            ;
        } else if negative && all == 0 {
            lemma_fundamental_div_mod_converse(0, p, 0, 0);
        }
    }
}

/// A decimal column of 256 bits keeps all digits, those behind the point too, as one integer with
/// the sign, in two's complement with the lowest byte first.
pub proof fn lemma_wide_decimals_keep_all_digits(
    negative: bool,
    whole: Seq<char>,
    behind: Seq<char>,
)
    requires
        is_digits(whole),
        behind.len() == 0 || is_digits(behind),
    ensures
        decimal256_cell(Some(JsonView::Text(numeral(negative, whole, behind)))) matches
            Reading::Cell(Some(bytes)) && bytes.len() == 32 && (-pow(256, 32) <= 2 * signed(
            negative,
            digits_number(whole + behind),
        ) < pow(256, 32) ==> signed_value(bytes) == signed(
            negative,
            digits_number(whole + behind),
        )),
{
    let n = signed(negative, digits_number(whole + behind));
    lemma_numerals_are_read(negative, whole, behind);
    assert(low_bytes(n, 32).len() == 32);
    if -pow(256, 32) <= 2 * n < pow(256, 32) {
        crate::decimal::lemma_bytes_keep_value(n, 32);
    }
}

/// Values that are no texts are nulls in decimal columns. A text that is no number is refused, with
/// the text, by both kinds of columns alike.
pub proof fn lemma_decimals_are_read_from_texts(value: Option<JsonView>)
    ensures
        !(value matches Some(JsonView::Text(_))) ==> decimal128_cell(value) == Reading::Cell(
            None::<i128>,
        ) && decimal256_cell(value) == Reading::Cell(None::<Seq<u8>>),
        value matches Some(JsonView::Text(s)) ==> {
            &&& text_decimal(s) is None ==> decimal128_cell(value) == Reading::<i128>::Failed(
                ErrorView::FailedToParseDecimal(s),
            ) && decimal256_cell(value) == Reading::<Seq<u8>>::Failed(
                ErrorView::FailedToParseDecimal(s),
            )
            &&& text_decimal(s) is Some ==> decimal128_cell(value) is Cell && decimal256_cell(
                value,
            ) is Cell
            &&& numeral_parts(s) is None ==> text_decimal(s) == crate::decimal::decimal_value(s)
        },
{
}

/// The integer part of a decimal number is what is left of it without the fraction: it has the sign
/// of the number, and is less than one below it in size. With no digits behind the point it is the
/// number, with the zeros that are missing before the point.
pub proof fn lemma_integer_parts_are_cut(n: int, scale: nat)
    ensures
        integer_part(n, 0) == n,
        integer_part(n, -(scale as int)) == n * pow(10, scale),
        n >= 0 ==> 0 <= n - integer_part(n, scale as int) * pow(10, scale) < pow(10, scale),
        integer_part(-n, scale as int) == -integer_part(n, scale as int),
{
    reveal(pow);
    lemma_pow_positive(10, scale);
    let p = pow(10, scale);
    assert(pow(10, 0) == 1);
    assert(n * 1 == n);
    assert((-n) * p == -(n * p)) by (nonlinear_arith);
    assert((-n) * 1 == -n);
    lemma_fundamental_div_mod(n, p);
    lemma_mod_bound(n, p);
    lemma_fundamental_div_mod_converse(0, p, 0, 0);
    assert((n / p) * p == p * (n / p)) by (nonlinear_arith);
    assert(n * pow(10, 0) == n) by (nonlinear_arith)
        requires
            pow(10, 0) == 1,
    ;
    assert((-n) * pow(10, 0) == -n) by (nonlinear_arith)
        requires
            pow(10, 0) == 1,
    ;
}

/// A decimal column of 128 bits has the integer part of whatever number its text is read as, where
/// 128 bits hold it, and one of 256 bits the lowest 32 bytes of the number's digits.
pub proof fn lemma_decimal_cells(s: Seq<char>, n: int, scale: int)
    requires
        text_decimal(s) == Some((n, scale)),
    ensures
        decimal128_cell(Some(JsonView::Text(s))) == Reading::Cell(
            if i128::MIN <= integer_part(n, scale) <= i128::MAX {
                Some(integer_part(n, scale) as i128)
            } else {
                None
            },
        ),
        decimal256_cell(Some(JsonView::Text(s))) == Reading::Cell(Some(low_bytes(n, 32))),
{
}

} // verus!
