//! The clock: the current time and today's date, as the program reports them.
use vstd::prelude::*;
use chrono::Datelike;
use crate::text::{digit_of, is_digit, str_eq};

verus! {

#[verifier::external_type_specification]
#[verifier::external_body]
pub struct ExNaiveDate(chrono::NaiveDate);

/// Whether `s` has the shape of chrono's `to_rfc3339` with a fraction of
/// `f - 1` digits (none when `f` is 0): a `%Y-%m-%d` date, `T`, the time as
/// two digits, `:`, two digits, `:`, two digits, then `.` and the fraction,
/// then the offset as `+` or `-`, two digits, `:`, two digits.
pub open spec fn rfc3339_shape(s: Seq<char>, f: int) -> bool {
    let z = s.len() - 6;
    let t = z - f - 9;
    &&& t >= 10
    &&& is_day_text(s.take(t))
    &&& s[t] == 'T'
    &&& is_digit(s[t + 1]) && is_digit(s[t + 2]) && s[t + 3] == ':'
    &&& is_digit(s[t + 4]) && is_digit(s[t + 5]) && s[t + 6] == ':'
    &&& is_digit(s[t + 7]) && is_digit(s[t + 8])
    &&& f > 0 ==> s[t + 9] == '.' && forall|i: int| t + 10 <= i < z ==> is_digit(#[trigger] s[i])
    &&& s[z] == '+' || s[z] == '-'
    &&& is_digit(s[z + 1]) && is_digit(s[z + 2]) && s[z + 3] == ':'
    &&& is_digit(s[z + 4]) && is_digit(s[z + 5])
}

/// Whether `s` has the shape of chrono's `to_rfc3339`, such as
/// `1996-12-19T16:39:57-08:00`: the seconds have no fraction, or one of 3, 6
/// or 9 digits.
pub open spec fn is_rfc3339_text(s: Seq<char>) -> bool {
    ||| rfc3339_shape(s, 0)
    ||| rfc3339_shape(s, 4)
    ||| rfc3339_shape(s, 7)
    ||| rfc3339_shape(s, 10)
}

/// chrono `Local::now` then `DateTime::to_rfc3339`: the current local time as
/// RFC 3339 text, such as `1996-12-19T16:39:57-08:00`. Which time it is
/// depends on the clock; chrono's `write_rfc3339` writes the date as
/// `%Y-%m-%d`, the time as `HH:MM:SS` with a fraction of 3, 6 or 9 digits
/// when the nanoseconds are not zero, and the offset as a sign and `HH:MM`;
/// that shape is stated.
#[verifier::external_body]
pub(crate) fn local_now_rfc3339() -> (r: String)
    ensures
        is_rfc3339_text(r@),
{
    chrono::Local::now().to_rfc3339()
}

/// chrono `Local::now` then `DateTime::date_naive`: today's local date. It
/// depends on the clock, so nothing is stated of it.
#[verifier::external_body]
fn local_today() -> chrono::NaiveDate {
    chrono::Local::now().date_naive()
}

/// Whether a text has the shape of chrono's `%Y-%m-%d`: the year (at least
/// four digits, a sign first for years outside 0..=9999), a dash, the month
/// as two digits from `01` to `12`, a dash, and the day as two digits from
/// `01` to `31`.
pub open spec fn is_day_text(s: Seq<char>) -> bool {
    let n = s.len() as int;
    &&& n >= 10
    &&& (is_digit(s[0]) || s[0] == '+' || s[0] == '-')
    &&& forall|i: int| 0 < i < n - 6 ==> is_digit(#[trigger] s[i])
    &&& s[n - 6] == '-'
    &&& s[n - 3] == '-'
    &&& is_digit(s[n - 5]) && is_digit(s[n - 4]) && is_digit(s[n - 2]) && is_digit(s[n - 1])
    &&& 1 <= digit_of(s[n - 5]) * 10 + digit_of(s[n - 4]) <= 12
    &&& 1 <= digit_of(s[n - 2]) * 10 + digit_of(s[n - 1]) <= 31
}

/// chrono `NaiveDate::format` with `%Y-%m-%d`, written out: the date as text,
/// such as `2001-07-08`. chrono writes the year with at least four digits (a
/// sign first outside 0..=9999), then the month and the day zero-padded to
/// two digits, with dashes between; that shape is stated, which date it
/// spells is not.
#[verifier::external_body]
fn date_text(d: &chrono::NaiveDate) -> (r: String)
    ensures
        is_day_text(r@),
{
    d.format("%Y-%m-%d").to_string()
}

/// A calendar date held as plain numbers: the year, the month from 1 and the
/// day of the month from 1.
#[derive(Clone, Copy, Debug, PartialEq, Eq, Structural)]
pub struct Date {
    pub year: i32,
    pub month: u32,
    pub day: u32,
}

/// Whether `y` is a leap year of the proleptic Gregorian calendar.
pub open spec fn is_leap_year(y: int) -> bool {
    y % 4 == 0 && (y % 100 != 0 || y % 400 == 0)
}

/// The number of days of month `m` of year `y`.
pub open spec fn days_in_month(y: int, m: int) -> int {
    if m == 2 {
        if is_leap_year(y) {
            29
        } else {
            28
        }
    } else if m == 4 || m == 6 || m == 9 || m == 11 {
        30
    } else {
        31
    }
}

/// Whether chrono's `NaiveDate` holds the date: a year from -262143 to
/// 262142 (year 0 is 1 BCE), a month from 1 to 12, and a day of that month.
pub open spec fn is_calendar_date(year: int, month: int, day: int) -> bool {
    &&& -262143 <= year <= 262142
    &&& 1 <= month <= 12
    &&& 1 <= day <= days_in_month(year, month)
}

/// The ISO weekday of a proleptic Gregorian date, from 1 (Monday) to 7
/// (Sunday), by Zeller's congruence (January and February counted as months
/// 13 and 14 of the year before).
pub open spec fn iso_weekday(year: int, month: int, day: int) -> int {
    let y = if month < 3 {
        year - 1
    } else {
        year
    };
    let m = if month < 3 {
        month + 12
    } else {
        month
    };
    let h = (day + (13 * (m + 1)) / 5 + y + y / 4 - y / 100 + y / 400) % 7;
    (h + 5) % 7 + 1
}

/// chrono `Datelike::year`, `month` and `day` of a date: its numbers as a
/// `Date`, which chrono's `NaiveDate` holds.
#[verifier::external_body]
fn date_parts(d: &chrono::NaiveDate) -> (r: Date)
    ensures
        is_calendar_date(r.year as int, r.month as int, r.day as int),
{
    Date { year: d.year(), month: d.month(), day: d.day() }
}

/// chrono `NaiveDate::from_ymd_opt`, then `NaiveDate::format` with `%u`: the
/// ISO weekday number of the date as one digit, from `1` (Monday) to `7`
/// (Sunday), or `None` when `from_ymd_opt` refuses the numbers (a year out of
/// chrono's range, no such month or no such day in it).
#[verifier::external_body]
fn iso_weekday_text(year: i32, month: u32, day: u32) -> (r: Option<String>)
    ensures
        match r {
            Some(t) => is_calendar_date(year as int, month as int, day as int) && t@.len() == 1
                && t@[0] as int == '0' as int + iso_weekday(year as int, month as int, day as int),
            None => !is_calendar_date(year as int, month as int, day as int),
        },
{
    match chrono::NaiveDate::from_ymd_opt(year, month, day) {
        Some(d) => Some(d.format("%u").to_string()),
        None => None,
    }
}

/// Today's local date as `YYYY-MM-DD`. Which day it is depends on the clock;
/// the text always has that shape.
pub fn today() -> (r: String)
    ensures
        is_day_text(r@),
{
    let d = local_today();
    date_text(&d)
}

/// Whether an ISO weekday number, as text, is Monday's (`1`).
pub fn is_monday_weekday(text: &str) -> (r: bool)
    ensures
        r == (text@ == "1"@),
{
    str_eq(text, "1")
}

/// Whether a date is a Monday: its ISO weekday is 1. Numbers that are no
/// date are no Monday.
pub fn is_monday_for_date(date: Date) -> (r: bool)
    ensures
        r == (is_calendar_date(date.year as int, date.month as int, date.day as int) && iso_weekday(
            date.year as int,
            date.month as int,
            date.day as int,
        ) == 1),
{
    match iso_weekday_text(date.year, date.month, date.day) {
        Some(w) => {
            proof {
                reveal_strlit("1");
                assert(w@ =~= "1"@ <==> w@[0] == '1');
            }
            is_monday_weekday(w.as_str())
        },
        None => false,
    }
}

/// Whether today is a Monday (local time). It depends on the clock.
pub fn is_monday() -> bool {
    let d = local_today();
    let parts = date_parts(&d);
    is_monday_for_date(parts)
}

} // verus!
