//! Dates, times of day and timestamps, from their texts.

use arrow::datatypes::Date32Type;
use chrono::{DateTime, NaiveDate, NaiveDateTime, NaiveTime, Timelike};
use vstd::prelude::*;

verus! {

/// The date that a text in some format says, in days since 1970-01-01.
pub uninterp spec fn date_days(text: Seq<char>, format: Seq<char>) -> Option<i32>;

/// The time of day that a text in some format says: the whole seconds since midnight, and the
/// nanoseconds on top of them.
pub uninterp spec fn time_parts(text: Seq<char>, format: Seq<char>) -> Option<(u32, u32)>;

/// The moment that a text in the way of RFC 3339 says, in microseconds since
/// 1970-01-01T00:00:00Z.
pub uninterp spec fn rfc3339_micros(text: Seq<char>) -> Option<i64>;

/// The moment that a date and a time in some format say, in UTC, in microseconds since
/// 1970-01-01T00:00:00Z.
pub uninterp spec fn datetime_micros(text: Seq<char>, format: Seq<char>) -> Option<i64>;

/// Whether a year has 366 days.
pub open spec fn is_leap_year(year: int) -> bool {
    year % 4 == 0 && (year % 100 != 0 || year % 400 == 0)
}

/// How many days a month has.
pub open spec fn month_days(year: int, month: int) -> int {
    if month == 2 {
        if is_leap_year(year) {
            29
        } else {
            28
        }
    } else if month == 4 || month == 6 || month == 9 || month == 11 {
        30
    } else {
        31
    }
}

/// Whether there is such a date.
pub open spec fn is_date(year: int, month: int, day: int) -> bool {
    1 <= month <= 12 && 1 <= day <= month_days(year, month)
}

/// How many days of a year come before a month.
pub open spec fn days_before_month(year: int, month: int) -> int
    decreases month,
{
    if month <= 1 {
        0
    } else {
        days_before_month(year, month - 1) + month_days(year, month - 1)
    }
}

/// The days from 1970-01-01 to the first day of a year. From the year 1 to 1969 there are 477 leap
/// years.
pub open spec fn year_start(year: int) -> int {
    365 * (year - 1970) + (year - 1) / 4 - (year - 1) / 100 + (year - 1) / 400 - 477
}

/// The days from 1970-01-01 to a date.
pub open spec fn day_number(year: int, month: int, day: int) -> int {
    year_start(year) + days_before_month(year, month) + day - 1
}

/// The value of a digit.
pub open spec fn digit(c: char) -> int {
    c as u32 - '0' as u32
}

/// Whether a character is a digit.
pub open spec fn is_digit(c: char) -> bool {
    '0' <= c <= '9'
}

/// Whether there are digits in two places from `i` on.
pub open spec fn two_digits(s: Seq<char>, i: int) -> bool {
    is_digit(s[i]) && is_digit(s[i + 1])
}

/// The number that two digits from `i` on write.
pub open spec fn number_at(s: Seq<char>, i: int) -> int {
    10 * digit(s[i]) + digit(s[i + 1])
}

/// What a text says that is expected in some form: it is in another one; it is in the form, but
/// there is no such date or time; or a number.
pub enum Form {
    Other,
    Absent,
    Is(int),
}

/// What a text in the form `YYYY-MM-DD` says, in days since 1970-01-01.
pub open spec fn date_form(s: Seq<char>) -> Form {
    if s.len() == 10 && two_digits(s, 0) && two_digits(s, 2) && s[4] == '-' && two_digits(s, 5)
        && s[7] == '-' && two_digits(s, 8) {
        let year = 100 * number_at(s, 0) + number_at(s, 2);
        if is_date(year, number_at(s, 5), number_at(s, 8)) {
            Form::Is(day_number(year, number_at(s, 5), number_at(s, 8)))
        } else {
            Form::Absent
        }
    } else {
        Form::Other
    }
}

/// What the digits of a fraction stand for, where the first counts so many units. Below one unit
/// nothing counts.
pub open spec fn fraction(digits: Seq<char>, unit: int) -> int
    decreases digits.len(),
{
    if digits.len() == 0 || unit <= 0 {
        0
    } else {
        digit(digits[0]) * unit + fraction(digits.drop_first(), unit / 10)
    }
}

/// What a text in the form `hh:mm:ss`, or that with a point and digits behind it, says, in
/// nanoseconds since midnight. A leap second is in another form.
pub open spec fn time_form(s: Seq<char>) -> Form {
    if s.len() >= 8 && two_digits(s, 0) && s[2] == ':' && two_digits(s, 3) && s[5] == ':'
        && two_digits(s, 6) && (s.len() == 8 || (s.len() > 9 && s[8] == '.' && forall|i: int|
        9 <= i < s.len() ==> is_digit(#[trigger] s[i]))) {
        let (hour, minute, second) = (number_at(s, 0), number_at(s, 3), number_at(s, 6));
        if hour < 24 && minute < 60 && second < 60 {
            Form::Is(
                (hour * 3600 + minute * 60 + second) * 1_000_000_000 + if s.len() == 8 {
                    0
                } else {
                    fraction(s.skip(9), 100_000_000)
                },
            )
        } else if hour < 24 && minute < 60 && second == 60 {
            Form::Other
        } else {
            Form::Absent
        }
    } else {
        Form::Other
    }
}

/// What a date and a time of day say together, in microseconds since 1970-01-01T00:00:00.
pub open spec fn moment(date: Form, time: Form) -> Form {
    match (date, time) {
        (Form::Other, _) | (_, Form::Other) => Form::Other,
        (Form::Is(days), Form::Is(nanos)) => Form::Is(days * 86_400_000_000 + nanos / 1000),
        _ => Form::Absent,
    }
}

/// What a text in the form `YYYY-MM-DD hh:mm:ss`, or that with a fraction, says. There is none with
/// a `T` in place of the space.
pub open spec fn datetime_form(s: Seq<char>) -> Form {
    if s.len() > 10 && s[10] == ' ' {
        moment(date_form(s.take(10)), time_form(s.skip(11)))
    } else if s.len() > 10 && s[10] == 'T' && date_form(s.take(10)) !is Other {
        Form::Absent
    } else {
        Form::Other
    }
}

/// What a text in the form `YYYY-MM-DDThh:mm:ss`, with a fraction or without, with a space for the
/// `T` or without, says, where it ends in `Z` or in an offset `+hh:mm` or `-hh:mm` to UTC. There
/// must be one of these.
pub open spec fn rfc3339_form(s: Seq<char>) -> Form {
    let n = s.len() as int;
    if n < 19 || !(s[10] == 'T' || s[10] == ' ') {
        Form::Other
    } else if s[n - 1] == 'Z' {
        moment(date_form(s.take(10)), time_form(s.subrange(11, n - 1)))
    } else if (s[n - 6] == '+' || s[n - 6] == '-') && two_digits(s, n - 5) && s[n - 3] == ':'
        && two_digits(s, n - 2) {
        match moment(date_form(s.take(10)), time_form(s.subrange(11, n - 6))) {
            Form::Is(local) => if number_at(s, n - 5) < 24 && number_at(s, n - 2) < 60 {
                let offset = (number_at(s, n - 5) * 60 + number_at(s, n - 2)) * 60_000_000;
                if s[n - 6] == '+' {
                    Form::Is(local - offset)
                } else {
                    Form::Is(local + offset)
                }
            } else {
                Form::Absent
            },
            other => other,
        }
    } else {
        match moment(date_form(s.take(10)), time_form(s.skip(11))) {
            Form::Other => Form::Other,
            _ => Form::Absent,
        }
    }
}

/// The date that a text says, in days since 1970-01-01.
pub open spec fn read_date(s: Seq<char>) -> Option<i32> {
    match date_form(s) {
        Form::Is(days) => Some(days as i32),
        Form::Absent => None,
        Form::Other => date_days(s, "%Y-%m-%d"@),
    }
}

/// The time of day that a text says: the whole seconds since midnight, and the nanoseconds on top
/// of them.
pub open spec fn read_time(s: Seq<char>) -> Option<(u32, u32)> {
    match time_form(s) {
        Form::Is(nanos) => Some(
            ((nanos / 1_000_000_000) as u32, (nanos % 1_000_000_000) as u32),
        ),
        Form::Absent => None,
        Form::Other => time_parts(s, "%H:%M:%S%.f"@),
    }
}

/// The moment that a text with an offset to UTC says, in microseconds since 1970-01-01T00:00:00Z.
pub open spec fn read_rfc3339(s: Seq<char>) -> Option<i64> {
    match rfc3339_form(s) {
        Form::Is(micros) => Some(micros as i64),
        Form::Absent => None,
        Form::Other => rfc3339_micros(s),
    }
}

/// The moment that a text without an offset says, in UTC, in microseconds since
/// 1970-01-01T00:00:00Z.
pub open spec fn read_datetime(s: Seq<char>) -> Option<i64> {
    match datetime_form(s) {
        Form::Is(micros) => Some(micros as i64),
        Form::Absent => None,
        Form::Other => datetime_micros(s, "%Y-%m-%d %H:%M:%S%.f"@),
    }
}

/// `NaiveDate::parse_from_str`, with the date as a number of days by
/// `Date32Type::from_naive_date`. By `%Y-%m-%d`, a text in that form with four, two and two digits
/// gives the days from 1970-01-01 to its date in the Gregorian calendar, or nothing where there is
/// no such date.
#[verifier::external_body]
pub(crate) fn parse_date(text: &str, format: &str) -> (r: Option<i32>)
    ensures
        r == date_days(text@, format@),
        format@ == "%Y-%m-%d"@ ==> r == read_date(text@),
{
    NaiveDate::parse_from_str(text, format).ok().map(Date32Type::from_naive_date)
}

/// `NaiveTime::parse_from_str`, with the time by `num_seconds_from_midnight`, which is below the
/// seconds of a day, and `nanosecond`, which is below two seconds: a leap second has more than
/// one. By `%H:%M:%S%.f`, a text in that form with two digits each gives its hours, minutes,
/// seconds and nanoseconds, or nothing where there is no such time. Of a fraction the first nine
/// digits count.
#[verifier::external_body]
pub(crate) fn parse_time(text: &str, format: &str) -> (r: Option<(u32, u32)>)
    ensures
        r == time_parts(text@, format@),
        format@ == "%H:%M:%S%.f"@ ==> r == read_time(text@),
        r matches Some((seconds, nanos)) ==> seconds < 86_400 && nanos < 2_000_000_000,
{
    match NaiveTime::parse_from_str(text, format) {
        Ok(time) => Some((time.num_seconds_from_midnight(), time.nanosecond())),
        Err(_) => None,
    }
}

/// `DateTime::parse_from_rfc3339`, with the moment by `timestamp_micros`. A date and a time with a
/// `T` or a space between them, and `Z` or an offset of hours and minutes behind them, give the
/// moment in UTC; they give nothing where there is no such date, time or offset, or where there is
/// neither `Z` nor an offset.
#[verifier::external_body]
pub(crate) fn parse_rfc3339(text: &str) -> (r: Option<i64>)
    ensures
        r == rfc3339_micros(text@),
        r == read_rfc3339(text@),
{
    match DateTime::parse_from_rfc3339(text) {
        Ok(moment) => Some(moment.timestamp_micros()),
        Err(_) => None,
    }
}

/// `NaiveDateTime::parse_from_str`, with the moment by `and_utc` and `timestamp_micros`. By
/// `%Y-%m-%d %H:%M:%S%.f`, a date and a time with a space between them give their moment, and
/// nothing where there is no such date or time, or where a `T` stands in place of the space.
#[verifier::external_body]
pub(crate) fn parse_datetime(text: &str, format: &str) -> (r: Option<i64>)
    ensures
        r == datetime_micros(text@, format@),
        format@ == "%Y-%m-%d %H:%M:%S%.f"@ ==> r == read_datetime(text@),
{
    match NaiveDateTime::parse_from_str(text, format) {
        Ok(moment) => Some(moment.and_utc().timestamp_micros()),
        Err(_) => None,
    }
}

} // verus!
