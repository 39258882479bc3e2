//! Points in time, written `YYYY-MM-DDTHH:MM:SSZ`.
use vstd::prelude::*;

use crate::decimal::is_digit;

verus! {

/// What the scoring needs of a point in time. The first day of the week is Monday, day zero.
#[derive(Debug, Clone, Copy, PartialEq, Eq, Structural)]
pub struct FastDateTime {
    pub hour: u8,
    pub day_of_week: u8,
    pub epoch_seconds: i64,
}

pub open spec fn is_leap(year: int) -> bool {
    year % 4 == 0 && (year % 100 != 0 || year % 400 == 0)
}

pub open spec fn year_days(year: int) -> int {
    if is_leap(year) {
        366
    } else {
        365
    }
}

pub open spec fn month_days(year: int, month: int) -> int {
    if month == 2 {
        if is_leap(year) {
            29
        } else {
            28
        }
    } else if month == 4 || month == 6 || month == 9 || month == 11 {
        30
    } else {
        31
    }
}

/// The days of the years from year zero up to `year`.
pub open spec fn days_before_year(year: int) -> int
    decreases year,
{
    if year <= 0 {
        0
    } else {
        days_before_year(year - 1) + year_days(year - 1)
    }
}

/// The days of the months of `year` before `month`.
pub open spec fn days_before_month(year: int, month: int) -> int
    decreases month,
{
    if month <= 1 {
        0
    } else {
        days_before_month(year, month - 1) + month_days(year, month - 1)
    }
}

/// A date and a time of day.
pub struct Civil {
    pub year: int,
    pub month: int,
    pub day: int,
    pub hour: int,
    pub minute: int,
    pub second: int,
}

/// The date is in the calendar and the time on the clock.
pub open spec fn on_calendar(c: Civil) -> bool {
    &&& 0 <= c.year <= 9999
    &&& 1 <= c.month <= 12
    &&& 1 <= c.day <= month_days(c.year, c.month)
    &&& 0 <= c.hour < 24
    &&& 0 <= c.minute < 60
    &&& 0 <= c.second < 60
}

/// The days from the first of January 1970.
pub open spec fn epoch_day(c: Civil) -> int {
    days_before_year(c.year) - days_before_year(1970) + days_before_month(c.year, c.month) + c.day
        - 1
}

/// The seconds from the start of 1970.
pub open spec fn epoch_seconds(c: Civil) -> int {
    epoch_day(c) * 86400 + c.hour * 3600 + c.minute * 60 + c.second
}

/// The day of the week; the first of January 1970 was a Thursday.
pub open spec fn day_of_week(c: Civil) -> int {
    (epoch_day(c) + 3) % 7
}

pub open spec fn two_digits(s: Seq<u8>, at: int) -> int {
    (s[at] - 48) * 10 + (s[at + 1] - 48)
}

/// The text has the shape of a point in time: digits, and marks between them.
pub open spec fn has_shape(s: Seq<u8>) -> bool {
    &&& s.len() == 20
    &&& s[4] == 45 && s[7] == 45 && s[10] == 84 && s[13] == 58 && s[16] == 58 && s[19] == 90
    &&& is_digit(s[0]) && is_digit(s[1]) && is_digit(s[2]) && is_digit(s[3])
    &&& is_digit(s[5]) && is_digit(s[6])
    &&& is_digit(s[8]) && is_digit(s[9])
    &&& is_digit(s[11]) && is_digit(s[12])
    &&& is_digit(s[14]) && is_digit(s[15])
    &&& is_digit(s[17]) && is_digit(s[18])
}

pub open spec fn civil_of(s: Seq<u8>) -> Civil {
    Civil {
        year: two_digits(s, 0) * 100 + two_digits(s, 2),
        month: two_digits(s, 5),
        day: two_digits(s, 8),
        hour: two_digits(s, 11),
        minute: two_digits(s, 14),
        second: two_digits(s, 17),
    }
}

/// The point in time that a text stands for.
pub open spec fn instant(s: Seq<u8>) -> Option<FastDateTime> {
    if has_shape(s) && on_calendar(civil_of(s)) {
        let c = civil_of(s);
        Some(
            FastDateTime {
                hour: c.hour as u8,
                day_of_week: day_of_week(c) as u8,
                epoch_seconds: epoch_seconds(c) as i64,
            },
        )
    } else {
        None
    }
}

/// The days before a year, counted by its leap years.
pub proof fn lemma_days_before_year(year: int)
    requires
        0 <= year,
    ensures
        days_before_year(year) == 365 * year + (year + 3) / 4 - (year + 99) / 100 + (year + 399)
            / 400,
    decreases year,
{
    if year > 0 {
        let before = year - 1;
        lemma_days_before_year(before);
        assert((year + 3) / 4 == (before + 3) / 4 + (if before % 4 == 0 {
            1int
        } else {
            0
        })) by (nonlinear_arith)
            requires
                year == before + 1,
        ;
        assert((year + 99) / 100 == (before + 99) / 100 + (if before % 100 == 0 {
            1int
        } else {
            0
        })) by (nonlinear_arith)
            requires
                year == before + 1,
        ;
        assert((year + 399) / 400 == (before + 399) / 400 + (if before % 400 == 0 {
            1int
        } else {
            0
        })) by (nonlinear_arith)
            requires
                year == before + 1,
        ;
        assert(before % 400 == 0 ==> before % 100 == 0) by (nonlinear_arith);
        assert(before % 100 == 0 ==> before % 4 == 0) by (nonlinear_arith);
    }
}

/// The days before a month lie within its year.
proof fn lemma_days_before_month(year: int, month: int)
    requires
        1 <= month <= 13,
    ensures
        0 <= days_before_month(year, month) <= 31 * (month - 1),
    decreases month,
{
    if month > 1 {
        lemma_days_before_month(year, month - 1);
    }
}

/// A year is as long as its months.
proof fn lemma_year_is_months(year: int)
    ensures
        days_before_month(year, 13) == year_days(year),
{
    reveal_with_fuel(days_before_month, 14);
}

proof fn lemma_month_order(year: int, a: int, b: int)
    requires
        1 <= a < b <= 13,
    ensures
        days_before_month(year, a) + month_days(year, a) <= days_before_month(year, b),
    decreases b,
{
    if a + 1 < b {
        lemma_month_order(year, a, b - 1);
    }
}

proof fn lemma_year_order(a: int, b: int)
    requires
        0 <= a < b,
    ensures
        days_before_year(a) + year_days(a) <= days_before_year(b),
    decreases b,
{
    if a + 1 < b {
        lemma_year_order(a, b - 1);
    }
}

/// The hour and the day of a point in time are within the day and the week.
pub proof fn lemma_instant_parts(text: Seq<u8>)
    ensures
        instant(text) matches Some(t) ==> t.hour < 24 && t.day_of_week < 7,
{
}

/// One date and time comes before another.
pub open spec fn earlier(a: Civil, b: Civil) -> bool {
    a.year < b.year || (a.year == b.year && (a.month < b.month || (a.month == b.month && (a.day
        < b.day || (a.day == b.day && (a.hour < b.hour || (a.hour == b.hour && (a.minute < b.minute
        || (a.minute == b.minute && a.second < b.second)))))))))
}

/// Seconds count up with the calendar and the clock: what comes earlier has fewer of them.
pub proof fn law_seconds_follow_the_calendar(a: Civil, b: Civil)
    requires
        on_calendar(a),
        on_calendar(b),
    ensures
        earlier(a, b) <==> epoch_seconds(a) < epoch_seconds(b),
{
    if earlier(a, b) {
        lemma_earlier(a, b);
    } else if earlier(b, a) {
        lemma_earlier(b, a);
    }
}

proof fn lemma_earlier(a: Civil, b: Civil)
    requires
        on_calendar(a),
        on_calendar(b),
        earlier(a, b),
    ensures
        epoch_seconds(a) < epoch_seconds(b),
{
    lemma_year_is_months(a.year);
    lemma_days_before_month(b.year, b.month);
    if a.year < b.year {
        lemma_year_order(a.year, b.year);
        lemma_month_order(a.year, a.month, 13);
    } else if a.month < b.month {
        lemma_month_order(a.year, a.month, b.month);
    }
}

/// The next day of the calendar at the same time.
pub open spec fn next_day(c: Civil) -> Civil {
    if c.day < month_days(c.year, c.month) {
        Civil { day: c.day + 1, ..c }
    } else if c.month < 12 {
        Civil { month: c.month + 1, day: 1, ..c }
    } else {
        Civil { year: c.year + 1, month: 1, day: 1, ..c }
    }
}

/// The next day is a day later, and its day of the week is the next one.
pub proof fn law_next_day(c: Civil)
    requires
        on_calendar(c),
    ensures
        epoch_seconds(next_day(c)) == epoch_seconds(c) + 86400,
        day_of_week(next_day(c)) == (day_of_week(c) + 1) % 7,
{
    lemma_year_is_months(c.year);
    reveal_with_fuel(days_before_month, 2);
    if c.day == month_days(c.year, c.month) && c.month == 12 {
        assert(days_before_month(c.year, 13) == days_before_month(c.year, 12) + month_days(
            c.year,
            12,
        ));
        assert(days_before_month(c.year + 1, 1) == 0);
    }
    assert(epoch_day(next_day(c)) == epoch_day(c) + 1);
}

fn read_two(s: &[u8], at: usize) -> (value: i64)
    requires
        at + 1 < s.len(),
        is_digit(s@[at as int]),
        is_digit(s@[at + 1]),
    ensures
        value == two_digits(s@, at as int),
        0 <= value <= 99,
{
    (s[at] - 48) as i64 * 10 + (s[at + 1] - 48) as i64
}

fn digit_at(s: &[u8], at: usize) -> (r: bool)
    requires
        at < s@.len(),
    ensures
        r == is_digit(s@[at as int]),
{
    48 <= s[at] && s[at] <= 57
}

fn digits_at(s: &[u8], at: usize) -> (r: bool)
    requires
        at + 1 < s.len(),
    ensures
        r == (is_digit(s@[at as int]) && is_digit(s@[at + 1])),
{
    digit_at(s, at) && digit_at(s, at + 1)
}

/// The days of a month.
fn count_month_days(year: i64, month: i64) -> (days: i64)
    requires
        0 <= year <= 9999,
    ensures
        days == month_days(year as int, month as int),
{
    if month == 2 {
        if year % 4 == 0 && (year % 100 != 0 || year % 400 == 0) {
            29
        } else {
            28
        }
    } else if month == 4 || month == 6 || month == 9 || month == 11 {
        30
    } else {
        31
    }
}

/// The days from the first of January 1970 to a date.
fn count_epoch_days(year: i64, month: i64, day: i64) -> (days: i64)
    requires
        0 <= year <= 9999,
        1 <= month <= 12,
        1 <= day <= month_days(year as int, month as int),
    ensures
        days == days_before_year(year as int) - days_before_year(1970) + days_before_month(
            year as int,
            month as int,
        ) + day - 1,
        -719_528 <= days < 2_932_897,
{
    let mut month_start: i64 = 0;
    let mut m: i64 = 1;
    while m < month
        invariant
            1 <= m <= month <= 12,
            0 <= year <= 9999,
            month_start == days_before_month(year as int, m as int),
            0 <= month_start <= 31 * (m - 1),
        decreases month - m,
    {
        month_start = month_start + count_month_days(year, m);
        m = m + 1;
    }
    proof {
        lemma_days_before_year(1970);
        lemma_days_before_year(year as int);
        assert(days_before_year(1970) == 719_528);
        lemma_year_is_months(year as int);
        lemma_month_order(year as int, month as int, 13);
        lemma_year_order(year as int, 10000);
        lemma_days_before_year(10000);
        assert(days_before_year(10000) == 3_652_425);
    }
    let year_start: i64 = 365 * year + (year + 3) / 4 - (year + 99) / 100 + (year + 399) / 400;
    assert(year_start == days_before_year(year as int));
    year_start - 719_528 + month_start + day - 1
}

/// The day of the week of a day.
fn week_day(days: i64) -> (r: u8)
    requires
        -719_528 <= days < 2_932_897,
    ensures
        r == (days + 3) % 7,
        r < 7,
{
    let shifted: i64 = days + 719_533;
    assert(shifted % 7 == (days + 3) % 7) by (nonlinear_arith)
        requires
            shifted == days + 3 + 7 * 102_790,
    ;
    (shifted % 7) as u8
}

/// Reads a point in time.
pub fn parse_iso8601(text: &[u8]) -> (r: Option<FastDateTime>)
    ensures
        r == instant(text@),
        r matches Some(t) ==> t.hour < 24 && t.day_of_week < 7 && -62_167_219_200
            <= t.epoch_seconds < 253_402_300_800,
{
    if text.len() != 20 {
        return None;
    }
    if !(text[4] == 45 && text[7] == 45 && text[10] == 84 && text[13] == 58 && text[16] == 58
        && text[19] == 90) {
        return None;
    }
    if !(digits_at(text, 0) && digits_at(text, 2) && digits_at(text, 5) && digits_at(text, 8)
        && digits_at(text, 11) && digits_at(text, 14) && digits_at(text, 17)) {
        return None;
    }
    let year: i64 = read_two(text, 0) * 100 + read_two(text, 2);
    let month: i64 = read_two(text, 5);
    let day: i64 = read_two(text, 8);
    let hour: i64 = read_two(text, 11);
    let minute: i64 = read_two(text, 14);
    let second: i64 = read_two(text, 17);
    if month < 1 || month > 12 || day < 1 || day > count_month_days(year, month) || hour > 23
        || minute > 59 || second > 59 {
        return None;
    }
    let days: i64 = count_epoch_days(year, month, day);
    let epoch_seconds: i64 = days * 86400 + hour * 3600 + minute * 60 + second;
    Some(FastDateTime { hour: hour as u8, day_of_week: week_day(days), epoch_seconds })
}

} // verus!
