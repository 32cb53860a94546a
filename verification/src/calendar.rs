//! What dates, times of day and timestamps count.

use crate::json::JsonView;
use crate::number::digit_char;
use crate::temporal::{
    date_days, date_form, datetime_form, datetime_micros, day_number, days_before_month, digit,
    fraction, is_date, is_digit, is_leap_year, rfc3339_form, rfc3339_micros, time_form, time_parts,
    year_start, Form,
};
use crate::trino::ErrorView;
use crate::values::{date_cell, time_cell, timestamp_cell, Reading};
use vstd::prelude::*;

verus! {

/// The months have 31 days, but for April, June, September and November, which have 30, and for
/// February, which has 28, or 29 in a leap year. Every fourth year is one, unless it is a hundredth
/// and no four hundredth.
pub proof fn lemma_months_have_their_days(year: int, month: int, day: int)
    ensures
        is_date(year, month, day) <==> 1 <= month <= 12 && 1 <= day <= 31 && (day == 31 ==> month
            != 4 && month != 6 && month != 9 && month != 11) && (month == 2 ==> day <= 29 && (day
            == 29 ==> year % 4 == 0 && (year % 100 == 0 ==> year % 400 == 0))),
{
}

/// Days are counted from 1970-01-01 on, and each day is one more than the day before it: in a
/// month, from a month to the next one, and from a year to the next one.
pub proof fn lemma_days_are_counted(year: int, month: int, day: int)
    requires
        is_date(year, month, day),
    ensures
        day_number(1970, 1, 1) == 0,
        is_date(year, month, day + 1) ==> day_number(year, month, day + 1) == day_number(
            year,
            month,
            day,
        ) + 1,
        !is_date(year, month, day + 1) && month < 12 ==> day_number(year, month + 1, 1)
            == day_number(year, month, day) + 1,
        !is_date(year, month, day + 1) && month == 12 ==> day_number(year + 1, 1, 1) == day_number(
            year,
            month,
            day,
        ) + 1,
{
    reveal_with_fuel(days_before_month, 13);
    if month == 12 {
        assert(days_before_month(year, 12) == if is_leap_year(year) {
            335int
        } else {
            334int
        });
        assert(days_before_month(year + 1, 1) == 0);
        lemma_years_follow(year);
    }
}

proof fn lemma_years_follow(year: int)
    ensures
        year_start(year + 1) == year_start(year) + (if is_leap_year(year) {
            366int
        } else {
            365int
        }),
{
}

/// The days of the dates that four digits can write the year of.
proof fn lemma_day_numbers_are_small(year: int, month: int, day: int)
    requires
        0 <= year <= 9999,
        is_date(year, month, day),
    ensures
        -800_000 <= day_number(year, month, day) <= 3_000_000,
{
    reveal_with_fuel(days_before_month, 13);
}

/// A number below a hundred in two digits.
pub open spec fn two_digit_text(n: int) -> Seq<char> {
    seq![digit_char((n / 10) as nat), digit_char((n % 10) as nat)]
}

/// A date as `YYYY-MM-DD`: the year, the month and the day.
pub open spec fn date_text(year: int, month: int, day: int) -> Seq<char> {
    two_digit_text(year / 100) + two_digit_text(year % 100) + seq!['-'] + two_digit_text(month)
        + seq!['-'] + two_digit_text(day)
}

/// A time of day as `hh:mm:ss`: the hour, the minute and the second.
pub open spec fn time_text(hour: int, minute: int, second: int) -> Seq<char> {
    two_digit_text(hour) + seq![':'] + two_digit_text(minute) + seq![':'] + two_digit_text(second)
}

/// A time of day as `hh:mm:ss` with the digits of a fraction behind a point, where there are any.
pub open spec fn fine_time_text(hour: int, minute: int, second: int, digits: Seq<char>) -> Seq<
    char,
> {
    if digits.len() == 0 {
        time_text(hour, minute, second)
    } else {
        time_text(hour, minute, second) + seq!['.'] + digits
    }
}

/// Whether each character of a text is a digit.
pub open spec fn all_digits(s: Seq<char>) -> bool {
    forall|i: int| 0 <= i < s.len() ==> '0' <= #[trigger] s[i] <= '9'
}

/// Whether numbers are those of a time of day.
pub open spec fn is_time(hour: int, minute: int, second: int) -> bool {
    0 <= hour < 24 && 0 <= minute < 60 && 0 <= second < 60
}

/// Nanoseconds that the digits of a fraction of a second stand for: a tenth of a second for the
/// first, a tenth of that for each further one, and nothing from the tenth on.
pub open spec fn fraction_nanos(digits: Seq<char>) -> int {
    fraction(digits, 100_000_000)
}

/// The nanoseconds that the `k`-th digit of a fraction counts.
pub open spec fn place_nanos(k: int) -> int {
    if k == 0 {
        100_000_000
    } else if k == 1 {
        10_000_000
    } else if k == 2 {
        1_000_000
    } else if k == 3 {
        100_000
    } else if k == 4 {
        10_000
    } else if k == 5 {
        1_000
    } else if k == 6 {
        100
    } else if k == 7 {
        10
    } else if k == 8 {
        1
    } else {
        0
    }
}

proof fn lemma_fraction_grows(digits: Seq<char>, c: char, unit: int, k: int)
    requires
        0 <= k,
        unit == place_nanos(k),
    ensures
        fraction(digits.push(c), unit) == fraction(digits, unit) + digit(c) * place_nanos(
            k + digits.len(),
        ),
    decreases digits.len(),
{
    let longer = digits.push(c);
    if digits.len() == 0 {
        assert(longer.drop_first() =~= seq![]);
        assert(fraction(longer.drop_first(), unit / 10) == 0);
        assert(longer[0] == c);
        assert(fraction(longer, unit) == digit(c) * unit) by {
            if unit == 0 {
                assert(digit(c) * unit == 0) by (nonlinear_arith)
                    requires
                        unit == 0,
                ;
            }
        }
    } else {
        assert(longer.drop_first() =~= digits.drop_first().push(c));
        assert(place_nanos(k + 1) == unit / 10);
        lemma_fraction_grows(digits.drop_first(), c, unit / 10, k + 1);
        if unit == 0 {
            assert(place_nanos(k + digits.len()) == 0);
            assert(digit(c) * 0 == 0) by (nonlinear_arith);
        }
    }
}

/// A fraction without digits is nothing, and each further digit adds what its place counts.
pub proof fn lemma_fractions_count(digits: Seq<char>, c: char)
    ensures
        fraction_nanos(seq![]) == 0,
        fraction_nanos(digits.push(c)) == fraction_nanos(digits) + (c as u32 - '0' as u32)
            * place_nanos(digits.len() as int),
{
    lemma_fraction_grows(digits, c, 100_000_000, 0);
}

proof fn lemma_fraction_is_below_a_second(digits: Seq<char>, unit: int)
    requires
        all_digits(digits),
        0 <= unit,
    ensures
        0 <= fraction(digits, unit) <= 10 * unit,
        unit > 0 ==> fraction(digits, unit) < 10 * unit,
    decreases digits.len(),
{
    if digits.len() > 0 && unit > 0 {
        assert('0' <= digits[0] <= '9');
        let rest = digits.drop_first();
        assert forall|i: int| 0 <= i < rest.len() implies '0' <= #[trigger] rest[i] <= '9' by {
            assert(rest[i] == digits[i + 1]);
        }
        lemma_fraction_is_below_a_second(rest, unit / 10);
        let d = digit(digits[0]);
        assert(0 <= d <= 9);
        assert(0 <= d * unit <= 9 * unit) by (nonlinear_arith)
            requires
                0 <= d <= 9,
                unit > 0,
        ;
    }
}

proof fn lemma_two_digits(n: int)
    requires
        0 <= n < 100,
    ensures
        two_digit_text(n).len() == 2,
        is_digit(two_digit_text(n)[0]) && is_digit(two_digit_text(n)[1]),
        10 * digit(two_digit_text(n)[0]) + digit(two_digit_text(n)[1]) == n,
        digit(two_digit_text(n)[0]) == n / 10 && digit(two_digit_text(n)[1]) == n % 10,
{
}

proof fn lemma_date_form(year: int, month: int, day: int)
    requires
        0 <= year <= 9999,
        0 <= month < 100,
        0 <= day < 100,
    ensures
        date_text(year, month, day).len() == 10,
        date_form(date_text(year, month, day)) == (if is_date(year, month, day) {
            Form::Is(day_number(year, month, day))
        } else {
            Form::Absent
        }),
{
    let s = date_text(year, month, day);
    lemma_two_digits(year / 100);
    lemma_two_digits(year % 100);
    lemma_two_digits(month);
    lemma_two_digits(day);
    assert(s[0] == two_digit_text(year / 100)[0] && s[1] == two_digit_text(year / 100)[1]);
    assert(s[2] == two_digit_text(year % 100)[0] && s[3] == two_digit_text(year % 100)[1]);
    assert(s[4] == '-' && s[7] == '-');
    assert(s[5] == two_digit_text(month)[0] && s[6] == two_digit_text(month)[1]);
    assert(s[8] == two_digit_text(day)[0] && s[9] == two_digit_text(day)[1]);
}

proof fn lemma_time_form(hour: int, minute: int, second: int, digits: Seq<char>)
    requires
        0 <= hour < 100,
        0 <= minute < 100,
        0 <= second < 100,
        all_digits(digits),
    ensures
        fine_time_text(hour, minute, second, digits).len() >= 8,
        is_time(hour, minute, second) ==> time_form(fine_time_text(hour, minute, second, digits))
            == Form::Is(
            (hour * 3600 + minute * 60 + second) * 1_000_000_000 + fraction_nanos(digits),
        ),
        hour >= 24 || minute >= 60 || second > 60 ==> time_form(
            fine_time_text(hour, minute, second, digits),
        ) == Form::Absent,
{
    let s = fine_time_text(hour, minute, second, digits);
    lemma_two_digits(hour);
    lemma_two_digits(minute);
    lemma_two_digits(second);
    assert(s[0] == two_digit_text(hour)[0] && s[1] == two_digit_text(hour)[1]);
    assert(s[2] == ':' && s[5] == ':');
    assert(s[3] == two_digit_text(minute)[0] && s[4] == two_digit_text(minute)[1]);
    assert(s[6] == two_digit_text(second)[0] && s[7] == two_digit_text(second)[1]);
    if digits.len() > 0 {
        assert(s[8] == '.');
        assert(s.skip(9) =~= digits);
        assert forall|i: int| 9 <= i < s.len() implies is_digit(#[trigger] s[i]) by {
            assert(s[i] == digits[i - 9]);
        }
    } else {
        assert(fraction_nanos(digits) == 0);
    }
}

/// A text `YYYY-MM-DD` is read as the days from 1970-01-01 to that date: the first number is the
/// year, the second the month, the third the day. Where there is no such date it is refused.
pub proof fn lemma_dates_are_read(year: int, month: int, day: int)
    requires
        0 <= year <= 9999,
        0 <= month < 100,
        0 <= day < 100,
    ensures
        date_cell(Some(JsonView::Text(date_text(year, month, day)))) == (if is_date(
            year,
            month,
            day,
        ) {
            Reading::Cell(Some(day_number(year, month, day) as i32))
        } else {
            Reading::Failed(ErrorView::InvalidDateValue(date_text(year, month, day)))
        }),
        is_date(year, month, day) ==> i32::MIN <= day_number(year, month, day) <= i32::MAX,
{
    lemma_date_form(year, month, day);
    if is_date(year, month, day) {
        lemma_day_numbers_are_small(year, month, day);
    }
}

/// A text `hh:mm:ss`, with a fraction or without, is read as the nanoseconds since midnight. Where
/// there is no such time of day it is refused.
pub proof fn lemma_times_are_read(hour: int, minute: int, second: int, digits: Seq<char>)
    requires
        0 <= hour < 100,
        0 <= minute < 100,
        0 <= second < 100,
        all_digits(digits),
    ensures
        is_time(hour, minute, second) ==> (time_cell(
            Some(JsonView::Text(fine_time_text(hour, minute, second, digits))),
        ) matches Reading::Cell(Some(nanos)) && nanos == hour * 3_600_000_000_000 + minute
            * 60_000_000_000 + second * 1_000_000_000 + fraction_nanos(digits)),
        hour >= 24 || minute >= 60 || second > 60 ==> time_cell(
            Some(JsonView::Text(fine_time_text(hour, minute, second, digits))),
        ) == Reading::<i64>::Failed(
            ErrorView::InvalidTimeValue(fine_time_text(hour, minute, second, digits)),
        ),
{
    lemma_time_form(hour, minute, second, digits);
    lemma_fraction_is_below_a_second(digits, 100_000_000);
}

/// A text `YYYY-MM-DD hh:mm:ss`, with a fraction or without, is read as the microseconds from
/// 1970-01-01 00:00:00 to that moment. Where there is no such date or time it is refused.
pub proof fn lemma_timestamps_are_read(
    date: (int, int, int),
    time: (int, int, int),
    digits: Seq<char>,
)
    requires
        0 <= date.0 <= 9999,
        0 <= date.1 < 100,
        0 <= date.2 < 100,
        0 <= time.0 < 100,
        0 <= time.1 < 100,
        0 <= time.2 < 100,
        time.2 != 60,
        all_digits(digits),
    ensures
        ({
            let s = date_text(date.0, date.1, date.2) + seq![' '] + fine_time_text(
                time.0,
                time.1,
                time.2,
                digits,
            );
            if is_date(date.0, date.1, date.2) && is_time(time.0, time.1, time.2) {
                timestamp_cell(Some(JsonView::Text(s))) matches Reading::Cell(Some(micros))
                    && micros == day_number(date.0, date.1, date.2) * 86_400_000_000 + (time.0
                    * 3600 + time.1 * 60 + time.2) * 1_000_000 + fraction_nanos(digits) / 1000
            } else {
                timestamp_cell(Some(JsonView::Text(s))) == Reading::<i64>::Failed(
                    ErrorView::InvalidTimestampValue(s),
                )
            }
        }),
{
    let head = date_text(date.0, date.1, date.2);
    let tail = fine_time_text(time.0, time.1, time.2, digits);
    let s = head + seq![' '] + tail;
    lemma_date_form(date.0, date.1, date.2);
    lemma_time_form(time.0, time.1, time.2, digits);
    lemma_fraction_is_below_a_second(digits, 100_000_000);
    assert(s.take(10) =~= head);
    assert(s.skip(11) =~= tail);
    assert(s[10] == ' ');
    lemma_ends_in_digits(time.0, time.1, time.2, digits);
    let n = s.len() as int;
    assert(s[n - 1] == tail[tail.len() - 1]);
    assert(s[n - 6] == tail[tail.len() - 6]);
    assert(rfc3339_form(s) == Form::Absent);
    if is_date(date.0, date.1, date.2) {
        lemma_day_numbers_are_small(date.0, date.1, date.2);
    }
}

proof fn lemma_ends_in_digits(hour: int, minute: int, second: int, digits: Seq<char>)
    requires
        0 <= hour < 100,
        0 <= minute < 100,
        0 <= second < 100,
        all_digits(digits),
    ensures
        ({
            let s = fine_time_text(hour, minute, second, digits);
            &&& s.len() >= 8
            &&& s.last() != 'Z'
            &&& s[s.len() - 6] != '+'
            &&& s[s.len() - 6] != '-'
        }),
{
    let s = fine_time_text(hour, minute, second, digits);
    let t = time_text(hour, minute, second);
    lemma_two_digits(hour);
    lemma_two_digits(minute);
    lemma_two_digits(second);
    assert(forall|i: int| 0 <= i < 8 ==> s[i] == t[i]);
    assert(is_digit(t[0]) && is_digit(t[1]) && is_digit(t[3]) && is_digit(t[4]) && is_digit(t[6])
        && is_digit(t[7]) && t[2] == ':' && t[5] == ':');
    if digits.len() > 0 {
        assert forall|i: int| 9 <= i < s.len() implies '0' <= #[trigger] s[i] <= '9' by {
            assert(s[i] == digits[i - 9]);
        }
        assert(s[8] == '.');
        assert('0' <= s[s.len() - 1] <= '9');
        let k = s.len() - 6;
        if k >= 9 {
            assert('0' <= s[k] <= '9');
        }
    }
}

/// A text `YYYY-MM-DDThh:mm:ss`, with a fraction or without, and with `Z` behind it, is read as the
/// microseconds from 1970-01-01T00:00:00Z to that moment. With an offset `+hh:mm` behind it the
/// moment is that much earlier, with an offset `-hh:mm` that much later.
pub proof fn lemma_zoned_timestamps_are_read(
    date: (int, int, int),
    time: (int, int, int),
    digits: Seq<char>,
    offset: (int, int),
)
    requires
        0 <= date.0 <= 9999,
        is_date(date.0, date.1, date.2),
        is_time(time.0, time.1, time.2),
        all_digits(digits),
        is_time(offset.0, offset.1, 0),
    ensures
        ({
            let local = date_text(date.0, date.1, date.2) + seq!['T'] + fine_time_text(
                time.0,
                time.1,
                time.2,
                digits,
            );
            let behind = two_digit_text(offset.0) + seq![':'] + two_digit_text(offset.1);
            let micros = day_number(date.0, date.1, date.2) * 86_400_000_000 + (time.0 * 3600
                + time.1 * 60 + time.2) * 1_000_000 + fraction_nanos(digits) / 1000;
            let shift = (offset.0 * 3600 + offset.1 * 60) * 1_000_000;
            &&& timestamp_cell(Some(JsonView::Text(local + seq!['Z']))) matches Reading::Cell(
                Some(utc),
            ) && utc == micros
            &&& timestamp_cell(
                Some(JsonView::Text(local + seq!['+'] + behind)),
            ) matches Reading::Cell(Some(early)) && early == micros - shift
            &&& timestamp_cell(
                Some(JsonView::Text(local + seq!['-'] + behind)),
            ) matches Reading::Cell(Some(late)) && late == micros + shift
        }),
{
    let head = date_text(date.0, date.1, date.2);
    let tail = fine_time_text(time.0, time.1, time.2, digits);
    let local = head + seq!['T'] + tail;
    lemma_date_form(date.0, date.1, date.2);
    lemma_time_form(time.0, time.1, time.2, digits);
    lemma_fraction_is_below_a_second(digits, 100_000_000);
    lemma_day_numbers_are_small(date.0, date.1, date.2);
    lemma_two_digits(offset.0);
    lemma_two_digits(offset.1);
    let m = local.len() as int;
    let z = local + seq!['Z'];
    assert(z.take(10) =~= head);
    assert(z.subrange(11, m) =~= tail);
    assert(z[10] == 'T' && z[m] == 'Z');
    lemma_offset_form(local, '+', offset, head, tail);
    lemma_offset_form(local, '-', offset, head, tail);
}

proof fn lemma_offset_form(
    local: Seq<char>,
    sign: char,
    offset: (int, int),
    head: Seq<char>,
    tail: Seq<char>,
)
    requires
        head.len() == 10,
        tail.len() >= 8,
        local == head + seq!['T'] + tail,
        is_time(offset.0, offset.1, 0),
        sign == '+' || sign == '-',
        date_form(head) is Is,
        time_form(tail) is Is,
    ensures
        ({
            let s = local + seq![sign] + (two_digit_text(offset.0) + seq![':'] + two_digit_text(
                offset.1,
            ));
            let shift = (offset.0 * 3600 + offset.1 * 60) * 1_000_000;
            let micros = date_form(head)->Is_0 * 86_400_000_000 + time_form(tail)->Is_0 / 1000;
            rfc3339_form(s) == Form::Is(
                if sign == '+' {
                    micros - shift
                } else {
                    micros + shift
                },
            )
        }),
{
    let behind = two_digit_text(offset.0) + seq![':'] + two_digit_text(offset.1);
    let s = local + seq![sign] + behind;
    let n = s.len() as int;
    lemma_two_digits(offset.0);
    lemma_two_digits(offset.1);
    assert(s.take(10) =~= head);
    assert(s.subrange(11, n - 6) =~= tail);
    assert(s[10] == 'T');
    assert(s[n - 6] == sign);
    assert(s[n - 5] == behind[0] && s[n - 4] == behind[1] && s[n - 3] == behind[2] && s[n - 2]
        == behind[3] && s[n - 1] == behind[4]);
}

/// Texts in no such form are read by the formats `%Y-%m-%d`, `%H:%M:%S%.f` and
/// `%Y-%m-%d %H:%M:%S%.f`, a timestamp in the way of RFC 3339 before that. A text that is not read
/// is refused, with the text. Values that are no texts are nulls.
pub proof fn lemma_other_texts_are_read_by_formats(s: Seq<char>, value: Option<JsonView>)
    ensures
        date_form(s) is Other ==> date_cell(Some(JsonView::Text(s))) == (match date_days(
            s,
            "%Y-%m-%d"@,
        ) {
            Some(days) => Reading::Cell(Some(days)),
            None => Reading::Failed(ErrorView::InvalidDateValue(s)),
        }),
        time_form(s) is Other ==> (match time_parts(s, "%H:%M:%S%.f"@) {
            Some((seconds, nanos)) => seconds < 86_400 && nanos < 2_000_000_000 ==> (time_cell(
                Some(JsonView::Text(s)),
            ) matches Reading::Cell(Some(n)) && n == seconds * 1_000_000_000 + nanos),
            None => time_cell(Some(JsonView::Text(s))) == Reading::<i64>::Failed(
                ErrorView::InvalidTimeValue(s),
            ),
        }),
        rfc3339_form(s) is Other ==> (rfc3339_micros(s) matches Some(micros) ==> timestamp_cell(
            Some(JsonView::Text(s)),
        ) == Reading::Cell(Some(micros))),
        rfc3339_form(s) is Absent || (rfc3339_form(s) is Other && rfc3339_micros(s) is None)
            ==> timestamp_cell(Some(JsonView::Text(s))) == (match datetime_form(s) {
            Form::Is(micros) => Reading::Cell(Some(micros as i64)),
            Form::Absent => Reading::Failed(ErrorView::InvalidTimestampValue(s)),
            Form::Other => match datetime_micros(s, "%Y-%m-%d %H:%M:%S%.f"@) {
                Some(micros) => Reading::Cell(Some(micros)),
                None => Reading::Failed(ErrorView::InvalidTimestampValue(s)),
            },
        }),
        !(value matches Some(JsonView::Text(_))) ==> date_cell(value) == Reading::Cell(None::<i32>)
            && time_cell(value) == Reading::Cell(None::<i64>) && timestamp_cell(value)
            == Reading::Cell(None::<i64>),
{
}

} // verus!
