//! Integers written in decimal.

use std::num::ParseIntError;
use vstd::prelude::*;

verus! {

/// The value of a decimal digit.
pub open spec fn digit_value(c: char) -> Option<nat> {
    if '0' <= c <= '9' {
        Some((c as u32 - '0' as u32) as nat)
    } else {
        None
    }
}

/// The number that a run of decimal digits writes; an empty run writes zero.
pub open spec fn digits_value(s: Seq<char>) -> Option<nat>
    decreases s.len(),
{
    if s.len() == 0 {
        Some(0)
    } else {
        match (digits_value(s.drop_last()), digit_value(s.last())) {
            (Some(high), Some(low)) => Some(10 * high + low),
            _ => None,
        }
    }
}

/// The number that at least one decimal digit writes.
pub open spec fn magnitude(s: Seq<char>) -> Option<nat> {
    if s.len() == 0 {
        None
    } else {
        digits_value(s)
    }
}

/// What parsing `s` as an unsigned integer type with largest value `max` gives: digits, with
/// a `+` before them at most.
pub open spec fn parse_unsigned(s: Seq<char>, max: nat) -> Option<nat> {
    let digits = if s.len() > 0 && s[0] == '+' {
        s.drop_first()
    } else {
        s
    };
    match magnitude(digits) {
        Some(n) => if n <= max {
            Some(n)
        } else {
            None
        },
        None => None,
    }
}

/// What parsing `s` as a signed integer type of the range `min` to `max` gives: digits, with a
/// `+` or a `-` before them at most.
pub open spec fn parse_signed(s: Seq<char>, min: int, max: int) -> Option<int> {
    let value = if s.len() > 0 && s[0] == '-' {
        match magnitude(s.drop_first()) {
            Some(n) => Some(-(n as int)),
            None => None,
        }
    } else if s.len() > 0 && s[0] == '+' {
        match magnitude(s.drop_first()) {
            Some(n) => Some(n as int),
            None => None,
        }
    } else {
        match magnitude(s) {
            Some(n) => Some(n as int),
            None => None,
        }
    };
    match value {
        Some(n) => if min <= n <= max {
            Some(n)
        } else {
            None
        },
        None => None,
    }
}

/// The digit for a value below ten.
pub open spec fn digit_char(n: nat) -> char {
    ('0' as u32 + n) as char
}

/// `n` in decimal, without leading zeros.
pub open spec fn decimal_text(n: nat) -> Seq<char>
    decreases n,
{
    if n < 10 {
        seq![digit_char(n)]
    } else {
        decimal_text(n / 10).push(digit_char(n % 10))
    }
}

/// `n` in decimal, with a `-` before it where it is negative.
pub open spec fn integer_text(n: int) -> Seq<char> {
    if n < 0 {
        seq!['-'] + decimal_text((-n) as nat)
    } else {
        decimal_text(n as nat)
    }
}

proof fn lemma_digits_grow(s: Seq<char>, n: nat)
    requires
        n <= s.len(),
    ensures
        digits_value(s.take(n as int)) is None ==> digits_value(s) is None,
        digits_value(s) matches Some(v) ==> (digits_value(s.take(n as int)) matches Some(w) && w
            <= v),
    decreases s.len() - n,
{
    if n == s.len() {
        assert(s.take(n as int) =~= s);
    } else {
        lemma_digits_grow(s, n + 1);
        assert(s.take((n + 1) as int).drop_last() =~= s.take(n as int));
    }
}

/// What reading back the digits of a number gives.
pub proof fn lemma_decimal_text_reads_back(n: nat)
    ensures
        magnitude(decimal_text(n)) == Some(n),
        decimal_text(n).len() > 0,
        forall|i: int|
            0 <= i < decimal_text(n).len() ==> '0' <= #[trigger] decimal_text(n)[i] <= '9',
    decreases n,
{
    let s = decimal_text(n);
    if n < 10 {
        assert(s.drop_last() =~= Seq::<char>::empty());
        assert(digits_value(s.drop_last()) == Some(0nat));
    } else {
        lemma_decimal_text_reads_back(n / 10);
        assert(s.drop_last() =~= decimal_text(n / 10));
        assert(10 * (n / 10) + n % 10 == n);
    }
}

/// The number that `s` writes in digits alone, where it is at most `max`.
fn parse_digits(s: &str, max: u64) -> (r: Option<u64>)
    ensures
        match r {
            Some(n) => magnitude(s@) == Some(n as nat) && n <= max,
            None => magnitude(s@) is None || magnitude(s@)->0 > max,
        },
{
    if s.unicode_len() == 0 {
        return None;
    }
    let mut value: u64 = 0;
    for ch in it: s.chars()
        invariant
            it.seq() == s@,
            s@.len() > 0,
            value <= max,
            digits_value(s@.take(it.index())) == Some(value as nat),
    {
        proof {
            lemma_digits_grow(s@, (it.index() + 1) as nat);
            assert(s@.take(it.index() + 1).drop_last() =~= s@.take(it.index()));
        }
        if !('0' <= ch && ch <= '9') {
            return None;
        }
        let digit: u64 = ch as u64 - 48;
        if value > (u64::MAX - digit) / 10 {
            return None;
        }
        value = 10 * value + digit;
        if value > max {
            return None;
        }
    }
    assert(s@.take(s@.len() as int) =~= s@);
    Some(value)
}

/// Parses an unsigned integer of at most `max`.
pub fn unsigned_of(s: &str, max: u64) -> (r: Option<u64>)
    ensures
        match r {
            Some(n) => parse_unsigned(s@, max as nat) == Some(n as nat),
            None => parse_unsigned(s@, max as nat) is None,
        },
{
    let n: usize = s.unicode_len();
    if n > 0 && s.get_char(0) == '+' {
        let rest = s.substring_char(1, n);
        assert(rest@ =~= s@.drop_first());
        parse_digits(rest, max)
    } else {
        parse_digits(s, max)
    }
}

/// Parses a signed integer of eight bits.
pub fn i8_of(s: &str) -> (r: Option<i8>)
    ensures
        match r {
            Some(n) => parse_signed(s@, -128, 127) == Some(n as int),
            None => parse_signed(s@, -128, 127) is None,
        },
{
    let n: usize = s.unicode_len();
    if n > 0 && s.get_char(0) == '-' {
        let rest = s.substring_char(1, n);
        assert(rest@ =~= s@.drop_first());
        match parse_digits(rest, 128) {
            Some(m) => Some((0 - m as i64) as i8),
            None => None,
        }
    } else if n > 0 && s.get_char(0) == '+' {
        let rest = s.substring_char(1, n);
        assert(rest@ =~= s@.drop_first());
        match parse_digits(rest, 127) {
            Some(m) => Some(m as i8),
            None => None,
        }
    } else {
        match parse_digits(s, 127) {
            Some(m) => Some(m as i8),
            None => None,
        }
    }
}

/// `n` in decimal.
pub fn text_of_unsigned(n: u64) -> (r: String)
    ensures
        r@ == decimal_text(n as nat),
    decreases n,
{
    if n < 10 {
        let mut r = String::new();
        r.push((48 + n as u8) as char);
        assert(r@ =~= decimal_text(n as nat));
        r
    } else {
        let mut r = text_of_unsigned(n / 10);
        r.push((48 + (n % 10) as u8) as char);
        r
    }
}

/// `n` in decimal.
pub fn text_of_i8(n: i8) -> (r: String)
    ensures
        r@ == integer_text(n as int),
{
    if n < 0 {
        let mut r = String::new();
        r.push('-');
        r.append(text_of_unsigned((0 - n as i64) as u64).as_str());
        assert(r@ =~= integer_text(n as int));
        r
    } else {
        text_of_unsigned(n as u64)
    }
}

#[verifier::external_type_specification]
#[verifier::external_body]
pub struct ExParseIntError(ParseIntError);

/// What is wrong with a text that is no `u64`.
pub uninterp spec fn u64_fault(text: Seq<char>) -> ParseIntError;

/// What is wrong with a text that is no `u16`.
pub uninterp spec fn u16_fault(text: Seq<char>) -> ParseIntError;

/// `str::parse` to a `u64`: the number that digits write, with a `+` before them at most, where it
/// is in the range of the type, and otherwise an error that tells what is wrong with the text.
#[verifier::external_body]
pub(crate) fn u64_of(s: &str) -> (r: Result<u64, ParseIntError>)
    ensures
        match r {
            Ok(n) => parse_unsigned(s@, u64::MAX as nat) == Some(n as nat),
            Err(e) => parse_unsigned(s@, u64::MAX as nat) is None && e == u64_fault(s@),
        },
{
    s.parse::<u64>()
}

/// `str::parse` to a `u16`, in the same way.
#[verifier::external_body]
pub(crate) fn u16_of(s: &str) -> (r: Result<u16, ParseIntError>)
    ensures
        match r {
            Ok(n) => parse_unsigned(s@, u16::MAX as nat) == Some(n as nat),
            Err(e) => parse_unsigned(s@, u16::MAX as nat) is None && e == u16_fault(s@),
        },
{
    s.parse::<u16>()
}

} // verus!
