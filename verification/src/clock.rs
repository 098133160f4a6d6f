//! Dates and times of day, from the seconds that have passed since 1970 began.

use vstd::prelude::*;

use crate::text;

verus! {

/// A day of the Gregorian calendar.
#[derive(Debug, Clone, Copy, PartialEq, Eq, Structural)]
pub struct Date {
    pub year: u64,
    /// From 1 to 12.
    pub month: u64,
    /// From 1 on.
    pub day: u64,
}

// ── The calendar ──

pub open spec fn is_leap(year: int) -> bool {
    year % 4 == 0 && (year % 100 != 0 || year % 400 == 0)
}

pub open spec fn year_days(year: int) -> int {
    if is_leap(year) {
        366
    } else {
        365
    }
}

pub open spec fn month_days(year: int, month: int) -> int {
    if month == 2 {
        if is_leap(year) {
            29
        } else {
            28
        }
    } else if month == 4 || month == 6 || month == 9 || month == 11 {
        30
    } else {
        31
    }
}

/// The days from the beginning of 1970 to that of a year.
pub open spec fn days_before_year(year: int) -> int
    decreases year,
{
    if year <= 1970 {
        0
    } else {
        days_before_year(year - 1) + year_days(year - 1)
    }
}

/// The days from the beginning of a year to that of a month.
pub open spec fn days_before_month(year: int, month: int) -> int
    decreases month,
{
    if month <= 1 {
        0
    } else {
        days_before_month(year, month - 1) + month_days(year, month - 1)
    }
}

/// Whether the calendar has this date, from 1970 on.
pub open spec fn is_date(d: Date) -> bool {
    &&& 1970 <= d.year
    &&& 1 <= d.month <= 12
    &&& 1 <= d.day <= month_days(d.year as int, d.month as int)
}

/// The days from the first of January 1970 to a date.
pub open spec fn day_number(d: Date) -> int {
    days_before_year(d.year as int) + days_before_month(d.year as int, d.month as int) + d.day - 1
}

// ── Laws ──

/// No two dates have the same number of days before them.
pub proof fn law_dates_differ(a: Date, b: Date)
    requires
        is_date(a),
        is_date(b),
        day_number(a) == day_number(b),
    ensures
        a == b,
{
    lemma_day_in_year(a);
    lemma_day_in_year(b);
    if a.year < b.year {
        lemma_years_grow(a.year + 1, b.year as int);
    } else if b.year < a.year {
        lemma_years_grow(b.year + 1, a.year as int);
    }
    let year = a.year as int;
    if a.month < b.month {
        lemma_months_grow(year, a.month + 1, b.month as int);
    } else if b.month < a.month {
        lemma_months_grow(year, b.month + 1, a.month as int);
    }
}

proof fn lemma_years_grow(a: int, b: int)
    requires
        1970 <= a <= b,
    ensures
        days_before_year(a) <= days_before_year(b),
    decreases b - a,
{
    if a < b {
        lemma_years_grow(a, b - 1);
    }
}

proof fn lemma_months_grow(year: int, a: int, b: int)
    requires
        1 <= a <= b,
    ensures
        days_before_month(year, a) <= days_before_month(year, b),
    decreases b - a,
{
    if a < b {
        lemma_months_grow(year, a, b - 1);
    }
}

/// The months of a year make up the year.
proof fn lemma_months_fill_year(year: int)
    ensures
        days_before_month(year, 13) == year_days(year),
{
    reveal_with_fuel(days_before_month, 13);
}

proof fn lemma_day_in_year(d: Date)
    requires
        is_date(d),
    ensures
        days_before_year(d.year as int) <= day_number(d) < days_before_year(d.year + 1),
{
    let year = d.year as int;
    lemma_months_grow(year, 1, d.month as int);
    lemma_months_grow(year, d.month + 1, 13);
    lemma_months_fill_year(year);
}

/// The leap years from year one to a year.
spec fn leaps(year: int) -> int {
    year / 4 - year / 100 + year / 400
}

proof fn lemma_days_before_year(year: int)
    requires
        year >= 1970,
    ensures
        days_before_year(year) == 365 * (year - 1970) + leaps(year - 1) - 477,
    decreases year,
{
    if year > 1970 {
        lemma_days_before_year(year - 1);
    }
}

/// The calendar repeats after four hundred years.
proof fn lemma_cycles(cycles: int)
    requires
        cycles >= 0,
    ensures
        days_before_year(1970 + 400 * cycles) == 146097 * cycles,
{
    lemma_days_before_year(1970 + 400 * cycles);
}

// ── Code ──

fn leap(year: u64) -> (res: bool)
    ensures
        res == is_leap(year as int),
{
    year % 4 == 0 && (year % 100 != 0 || year % 400 == 0)
}

fn days_of_year(year: u64) -> (res: u64)
    ensures
        res == year_days(year as int),
{
    if leap(year) {
        366
    } else {
        365
    }
}

fn days_of_month(year: u64, month: u64) -> (res: u64)
    ensures
        res == month_days(year as int, month as int),
{
    if month == 2 {
        if leap(year) {
            29
        } else {
            28
        }
    } else if month == 4 || month == 6 || month == 9 || month == 11 {
        30
    } else {
        31
    }
}

/// The date so many days after the first of January 1970.
pub fn date_of(days: u64) -> (res: Date)
    ensures
        is_date(res),
        day_number(res) == days,
{
    let cycles: u64 = days / 146097;
    let mut rest: u64 = days % 146097;
    let mut year: u64 = 1970 + 400 * cycles;
    proof {
        lemma_cycles(cycles as int);
    }
    let ghost first = rest;
    while rest >= days_of_year(year)
        invariant
            1970 <= year,
            year + rest <= 1970 + 400 * (u64::MAX / 146097) + first,
            first < 146097,
            days_before_year(year as int) + rest == days,
        decreases rest,
    {
        rest = rest - days_of_year(year);
        year = year + 1;
    }
    let mut month: u64 = 1;
    while rest >= days_of_month(year, month)
        invariant
            1970 <= year,
            1 <= month <= 12,
            days_before_year(year as int) + days_before_month(year as int, month as int) + rest
                == days,
            days_before_month(year as int, month as int) + rest < year_days(year as int),
        decreases rest,
    {
        proof {
            lemma_months_fill_year(year as int);
        }
        rest = rest - days_of_month(year, month);
        month = month + 1;
    }
    Date { year, month, day: rest + 1 }
}

/// A number below a hundred in two digits.
pub open spec fn two_digits(n: nat) -> Seq<char> {
    seq![text::digit(n / 10), text::digit(n % 10)]
}

/// The text of a time in UTC: `2026-03-12T10:30:00Z`.
pub open spec fn time_text(date: Date, second: nat) -> Seq<char> {
    text::decimal(date.year as nat) + "-"@ + two_digits(date.month as nat) + "-"@ + two_digits(
        date.day as nat,
    ) + "T"@ + two_digits(second / 3600) + ":"@ + two_digits((second / 60) % 60) + ":"@
        + two_digits(second % 60) + "Z"@
}

fn push_two_digits(out: &mut String, n: u64)
    requires
        n < 100,
    ensures
        final(out)@ == old(out)@ + two_digits(n as nat),
{
    out.push(digit_char(n / 10));
    out.push(digit_char(n % 10));
    assert(out@ =~= old(out)@ + two_digits(n as nat));
}

fn digit_char(n: u64) -> (res: char)
    requires
        n < 10,
    ensures
        res == text::digit(n as nat),
{
    (48u8 + n as u8) as char
}

/// The time so many seconds after the beginning of 1970, in UTC.
pub fn timestamp(secs: u64) -> (res: String)
    ensures
        exists|date: Date|
            is_date(date) && day_number(date) == secs as nat / 86400 && res@ == #[trigger] time_text(
                date,
                secs as nat % 86400,
            ),
{
    let date: Date = date_of(secs / 86400);
    let second: u64 = secs % 86400;
    let mut out: String = text::decimal_string(date.year);
    out.append("-");
    push_two_digits(&mut out, date.month);
    out.append("-");
    push_two_digits(&mut out, date.day);
    out.append("T");
    push_two_digits(&mut out, second / 3600);
    out.append(":");
    push_two_digits(&mut out, (second / 60) % 60);
    out.append(":");
    push_two_digits(&mut out, second % 60);
    out.append("Z");
    assert(out@ =~= time_text(date, secs as nat % 86400));
    out
}

// ── More laws ──

/// The months have the lengths of the Gregorian calendar: February has 29 days in every
/// fourth year, but of the full centuries only in every fourth, and else 28.
pub proof fn law_month_lengths(year: int)
    ensures
        month_days(year, 1) == 31,
        month_days(year, 2) == if year % 400 == 0 || (year % 4 == 0 && year % 100 != 0) {
            29int
        } else {
            28
        },
        month_days(year, 3) == 31,
        month_days(year, 4) == 30,
        month_days(year, 5) == 31,
        month_days(year, 6) == 30,
        month_days(year, 7) == 31,
        month_days(year, 8) == 31,
        month_days(year, 9) == 30,
        month_days(year, 10) == 31,
        month_days(year, 11) == 30,
        month_days(year, 12) == 31,
{
}

/// The first day is the first of January 1970, and each day is followed by the next of its
/// month, the first of the next month, or the first of January of the next year.
pub proof fn law_next_day(d: Date)
    requires
        is_date(d),
        d.year < u64::MAX,
    ensures
        day_number(Date { year: 1970, month: 1, day: 1 }) == 0,
        ({
            let next = if d.day < month_days(d.year as int, d.month as int) {
                Date { day: (d.day + 1) as u64, ..d }
            } else if d.month < 12 {
                Date { month: (d.month + 1) as u64, day: 1, ..d }
            } else {
                Date { year: (d.year + 1) as u64, month: 1, day: 1 }
            };
            is_date(next) && day_number(next) == day_number(d) + 1
        }),
{
    lemma_months_fill_year(d.year as int);
}

/// The number that two digits of a text stand for.
pub open spec fn number_at(s: Seq<char>, i: int) -> int {
    10 * (s[i] as int - '0' as int) + (s[i + 1] as int - '0' as int)
}

/// A time is written as the year, a dash, the month, a dash, the day, a T, and the hour, the
/// minute and the second of the day with colons between them, each of two digits, and a Z.
pub proof fn law_time_text(date: Date, second: nat)
    requires
        is_date(date),
        second < 86400,
    ensures
        ({
            let year = text::decimal(date.year as nat);
            let t = time_text(date, second);
            let rest = t.skip(year.len() as int);
            let (h, m, s) = (number_at(rest, 7), number_at(rest, 10), number_at(rest, 13));
            &&& t.take(year.len() as int) == year
            &&& rest.len() == 16
            &&& rest[0] == '-' && rest[3] == '-' && rest[6] == 'T' && rest[9] == ':' && rest[12]
                == ':' && rest[15] == 'Z'
            &&& number_at(rest, 1) == date.month
            &&& number_at(rest, 4) == date.day
            &&& 0 <= h < 24 && 0 <= m < 60 && 0 <= s < 60
            &&& 3600 * h + 60 * m + s == second
        }),
{
    reveal_strlit("-");
    reveal_strlit("T");
    reveal_strlit(":");
    reveal_strlit("Z");
    let year = text::decimal(date.year as nat);
    let t = time_text(date, second);
    let n = year.len() as int;
    let rest = t.skip(n);
    assert(t.take(n) =~= year);
    let month = two_digits(date.month as nat);
    let day = two_digits(date.day as nat);
    let h = two_digits(second / 3600);
    let m = two_digits((second / 60) % 60);
    let s = two_digits(second % 60);
    assert(rest =~= "-"@ + month + "-"@ + day + "T"@ + h + ":"@ + m + ":"@ + s + "Z"@);
    lemma_two_digits(date.month as nat);
    lemma_two_digits(date.day as nat);
    lemma_two_digits(second / 3600);
    lemma_two_digits((second / 60) % 60);
    lemma_two_digits(second % 60);
    assert(rest[1] == month[0] && rest[2] == month[1] && rest[4] == day[0] && rest[5] == day[1]);
    assert(rest[7] == h[0] && rest[8] == h[1] && rest[10] == m[0] && rest[11] == m[1]);
    assert(rest[13] == s[0] && rest[14] == s[1]);
}

proof fn lemma_two_digits(n: nat)
    requires
        n < 100,
    ensures
        number_at(two_digits(n), 0) == n,
{
    let d = two_digits(n);
    assert(d[0] == text::digit(n / 10) && d[1] == text::digit(n % 10));
}

} // verus!
