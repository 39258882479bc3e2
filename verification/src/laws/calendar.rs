//! Points in time and the calendar.
use vstd::prelude::*;

use crate::datetime::{
    civil_of, day_of_week, days_before_month, days_before_year, epoch_day, epoch_seconds, instant,
    lemma_days_before_year,
};

verus! {

/// What is read as a point in time is twenty bytes: digits, and a mark at each place for one.
pub proof fn law_a_point_in_time_has_twenty_bytes(text: Seq<u8>)
    requires
        instant(text) is Some,
    ensures
        text.len() == 20,
        text[4] == '-' as u8,
        text[7] == '-' as u8,
        text[10] == 'T' as u8,
        text[13] == ':' as u8,
        text[16] == ':' as u8,
        text[19] == 'Z' as u8,
        forall|k: int|
            0 <= k < 19 && k != 4 && k != 7 && k != 10 && k != 13 && k != 16 ==> '0' as u8
                <= #[trigger] text[k] <= '9' as u8,
{
}

/// Digits and marks are a point in time exactly if the month is one of twelve, the day is one of the
/// month, and the time is on the clock. January, March, May, July, August, October and December have
/// 31 days, April, June, September and November 30, and February 28, or 29 in a year that four
/// divides, but not a hundred, or four hundred.
pub proof fn law_dates_are_those_of_the_calendar(
    text: Seq<u8>,
    year: int,
    month: int,
    day: int,
    hour: int,
    minute: int,
    second: int,
)
    requires
        text.len() == 20,
        text[4] == 45 && text[7] == 45 && text[10] == 84 && text[13] == 58 && text[16] == 58,
        text[19] == 90,
        forall|k: int|
            0 <= k < 19 && k != 4 && k != 7 && k != 10 && k != 13 && k != 16 ==> 48
                <= #[trigger] text[k] <= 57,
        year == (text[0] - 48) * 1000 + (text[1] - 48) * 100 + (text[2] - 48) * 10 + (text[3]
            - 48),
        month == (text[5] - 48) * 10 + (text[6] - 48),
        day == (text[8] - 48) * 10 + (text[9] - 48),
        hour == (text[11] - 48) * 10 + (text[12] - 48),
        minute == (text[14] - 48) * 10 + (text[15] - 48),
        second == (text[17] - 48) * 10 + (text[18] - 48),
    ensures
        instant(text) is Some <==> {
            &&& 1 <= day
            &&& hour <= 23
            &&& minute <= 59
            &&& second <= 59
            &&& {
                ||| (month == 1 || month == 3 || month == 5 || month == 7 || month == 8 || month
                    == 10 || month == 12) && day <= 31
                ||| (month == 4 || month == 6 || month == 9 || month == 11) && day <= 30
                ||| month == 2 && day <= 28
                ||| month == 2 && day == 29 && (year % 400 == 0 || year % 4 == 0 && year % 100
                    != 0)
            }
        },
        instant(text) matches Some(t) ==> t.hour == hour,
{
    assert(48 <= text[0] <= 57 && 48 <= text[1] <= 57 && 48 <= text[2] <= 57 && 48 <= text[3]
        <= 57);
    assert(civil_of(text).year == year);
}

/// The days that stand before a month in its year.
proof fn lemma_month_starts(year: int, month: int)
    requires
        1 <= month <= 12,
    ensures
        days_before_month(year, month) == seq![
            0int,
            31,
            59,
            90,
            120,
            151,
            181,
            212,
            243,
            273,
            304,
            334,
        ][month - 1] + (if month > 2 && (year % 400 == 0 || year % 4 == 0 && year % 100 != 0) {
            1int
        } else {
            0
        }),
{
    reveal_with_fuel(days_before_month, 13);
}

/// The seconds of a point in time are those since the start of 1970, and its day of the week counts
/// from Monday: the first of each month of a common year is day 0, 31, 59, 90, 120, 151, 181, 212,
/// 243, 273, 304 and 334 of it, each month behind February of a leap year starts a day later, and
/// the first of January 1970 was a Thursday.
pub proof fn law_seconds_are_those_since_1970(
    text: Seq<u8>,
    year: int,
    month: int,
    day: int,
    days: int,
)
    requires
        instant(text) is Some,
        year == (text[0] - 48) * 1000 + (text[1] - 48) * 100 + (text[2] - 48) * 10 + (text[3]
            - 48),
        month == (text[5] - 48) * 10 + (text[6] - 48),
        day == (text[8] - 48) * 10 + (text[9] - 48),
        days == 365 * (year - 1970) + ((year + 3) / 4 - 493) - ((year + 99) / 100 - 20) + ((year
            + 399) / 400 - 5) + seq![
            0int,
            31,
            59,
            90,
            120,
            151,
            181,
            212,
            243,
            273,
            304,
            334,
        ][month - 1] + (if month > 2 && (year % 400 == 0 || year % 4 == 0 && year % 100 != 0) {
            1int
        } else {
            0
        }) + day - 1,
    ensures
        instant(text)->0.epoch_seconds == days * 86400 + ((text[11] - 48) * 10 + (text[12] - 48))
            * 3600 + ((text[14] - 48) * 10 + (text[15] - 48)) * 60 + ((text[17] - 48) * 10 + (
        text[18] - 48)),
        instant(text)->0.day_of_week == (days + 3) % 7,
{
    let c = civil_of(text);
    assert(c.year == year);
    lemma_month_starts(year, month);
    lemma_days_before_year(year);
    lemma_days_before_year(1970);
    assert(days_before_year(1970) == 719528);
    assert(epoch_day(c) == days);
    assert(-719528 <= days < 2932897) by {
        assert(0 <= (year + 3) / 4 - (year + 99) / 100 + (year + 399) / 400 <= 2425) by {
            assert((year + 99) / 100 <= (year + 3) / 4 + 1);
        }
    }
}

} // verus!
