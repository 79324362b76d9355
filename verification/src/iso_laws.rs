//! What texts in the Date Time String Format denote.
use vstd::prelude::*;

use crate::calendar::{day_number, is_time, time_at};
use crate::date_parse::{fixed, iso_value};
use crate::decimal::{digits_end, digits_value, is_digit};

verus! {

/// Whether two digits at `i` spell `n`.
pub open spec fn two_at(s: Seq<u16>, i: int, n: int) -> bool {
    &&& 0 <= i && i + 2 <= s.len()
    &&& 0 <= n < 100
    &&& s[i] == 0x30 + n / 10
    &&& s[i + 1] == 0x30 + n % 10
}

/// Whether a text starts with four digits that spell a year.
pub open spec fn year_at(s: Seq<u16>, y: int) -> bool {
    0 <= y <= 9999 && two_at(s, 0, y / 100) && two_at(s, 2, y % 100)
}

/// Whether a text starts with a date: a year, a month and a day.
pub open spec fn date_at(s: Seq<u16>, y: int, month: int, day: int) -> bool {
    &&& year_at(s, y)
    &&& s.len() >= 10
    &&& s[4] == 0x2d
    &&& two_at(s, 5, month)
    &&& s[7] == 0x2d
    &&& two_at(s, 8, day)
}

/// Whether a clock of hours, minutes and seconds comes behind the date.
pub open spec fn clock_at(s: Seq<u16>, hour: int, minute: int, second: int) -> bool {
    &&& s.len() >= 19
    &&& s[10] == 0x54
    &&& two_at(s, 11, hour)
    &&& s[13] == 0x3a
    &&& two_at(s, 14, minute)
    &&& s[16] == 0x3a
    &&& two_at(s, 17, second)
}

/// Whether fields lie in their ranges.
pub open spec fn in_ranges(month: int, day: int, hour: int, minute: int, second: int) -> bool {
    &&& 1 <= month <= 12
    &&& 1 <= day <= 31
    &&& 0 <= hour <= 23
    &&& 0 <= minute <= 59
    &&& 0 <= second <= 59
}

/// Whether a result is a time value, and the one that is meant where it is in range.
pub open spec fn denotes(r: Option<Option<i64>>, t: int) -> bool {
    match r {
        None => false,
        Some(None) => !is_time(t),
        Some(Some(x)) => is_time(t) && x == t,
    }
}

proof fn lemma_two(s: Seq<u16>, i: int, n: int)
    requires
        two_at(s, i, n),
    ensures
        fixed(s, i, 2) == Some(n),
        is_digit(s[i]),
        is_digit(s[i + 1]),
{
    reveal_with_fuel(digits_value, 3);
    assert forall|k: int| i <= k < i + 2 implies is_digit(#[trigger] s[k]) by {
        assert(k == i || k == i + 1);
    }
}

proof fn lemma_year(s: Seq<u16>, y: int)
    requires
        year_at(s, y),
    ensures
        fixed(s, 0, 4) == Some(y),
        is_digit(s[0]),
{
    lemma_two(s, 0, y / 100);
    lemma_two(s, 2, y % 100);
    reveal_with_fuel(digits_value, 5);
    assert forall|k: int| 0 <= k < 4 implies is_digit(#[trigger] s[k]) by {
        assert(k == 0 || k == 1 || k == 2 || k == 3);
    }
}

/// A year alone is its first day, and a year and a month the first day of the month.
pub proof fn law_iso_year_month(s: Seq<u16>, y: int, month: int)
    requires
        year_at(s, y),
    ensures
        s.len() == 4 ==> denotes(iso_value(s), day_number(y, 0, 1) * 86_400_000),
        s.len() == 7 && s[4] == 0x2d && two_at(s, 5, month) && 1 <= month <= 12 ==> denotes(
            iso_value(s),
            day_number(y, month - 1, 1) * 86_400_000,
        ),
        s.len() == 7 && s[4] == 0x2d && two_at(s, 5, month) && !(1 <= month <= 12) ==> iso_value(s)
            is None,
{
    lemma_year(s, y);
    if s.len() == 7 && two_at(s, 5, month) {
        lemma_two(s, 5, month);
    }
}

/// A date alone is its midnight; a month or a day out of range is refused.
pub proof fn law_iso_date(s: Seq<u16>, y: int, month: int, day: int)
    requires
        s.len() == 10,
        date_at(s, y, month, day),
    ensures
        in_ranges(month, day, 0, 0, 0) ==> denotes(
            iso_value(s),
            day_number(y, month - 1, day) * 86_400_000,
        ),
        !in_ranges(month, day, 0, 0, 0) ==> iso_value(s) is None,
{
    lemma_year(s, y);
    lemma_two(s, 5, month);
    lemma_two(s, 8, day);
}

/// A date with hours and minutes is that minute of the day in universal time.
pub proof fn law_iso_minutes(s: Seq<u16>, y: int, month: int, day: int, hour: int, minute: int)
    requires
        s.len() == 16,
        date_at(s, y, month, day),
        s[10] == 0x54,
        two_at(s, 11, hour),
        s[13] == 0x3a,
        two_at(s, 14, minute),
        in_ranges(month, day, hour, minute, 0),
    ensures
        denotes(iso_value(s), time_at(day_number(y, month - 1, day), hour, minute, 0, 0)),
{
    lemma_year(s, y);
    lemma_two(s, 5, month);
    lemma_two(s, 8, day);
    lemma_two(s, 11, hour);
    lemma_two(s, 14, minute);
}

/// A date with a clock and a zone is the clock's time less the zone's offset: east of
/// Greenwich it is earlier in universal time.
pub proof fn law_iso_zone(
    s: Seq<u16>,
    date: (int, int, int),
    hour: int,
    minute: int,
    second: int,
    off_hour: int,
    off_minute: int,
)
    requires
        s.len() == 25,
        date_at(s, date.0, date.1, date.2),
        clock_at(s, hour, minute, second),
        in_ranges(date.1, date.2, hour, minute, second),
        s[19] == 0x2b || s[19] == 0x2d,
        two_at(s, 20, off_hour),
        s[22] == 0x3a,
        two_at(s, 23, off_minute),
        off_hour <= 23,
        off_minute <= 59,
    ensures
        ({
            let t = time_at(day_number(date.0, date.1 - 1, date.2), hour, minute, second, 0);
            let offset = off_hour * 3_600_000 + off_minute * 60_000;
            denotes(
                iso_value(s),
                if s[19] == 0x2b {
                    t - offset
                } else {
                    t + offset
                },
            )
        }),
{
    lemma_year(s, date.0);
    lemma_two(s, 5, date.1);
    lemma_two(s, 8, date.2);
    lemma_two(s, 11, hour);
    lemma_two(s, 14, minute);
    lemma_two(s, 17, second);
    lemma_two(s, 20, off_hour);
    lemma_two(s, 23, off_minute);
}

/// A date with a clock and a fraction: its first three digits are milliseconds, with
/// zeros where there are fewer.
pub proof fn law_iso_fraction(
    s: Seq<u16>,
    date: (int, int, int),
    hour: int,
    minute: int,
    second: int,
)
    requires
        21 <= s.len() <= 24,
        date_at(s, date.0, date.1, date.2),
        clock_at(s, hour, minute, second),
        in_ranges(date.1, date.2, hour, minute, second),
        s[19] == 0x2e,
        forall|k: int| 20 <= k < s.len() ==> is_digit(#[trigger] s[k]),
    ensures
        ({
            let t = time_at(day_number(date.0, date.1 - 1, date.2), hour, minute, second, 0);
            let tenths = (s[20] - 0x30) * 100;
            let hundredths = if s.len() > 21 {
                (s[21] - 0x30) * 10
            } else {
                0
            };
            let thousandths = if s.len() > 22 {
                s[22] - 0x30
            } else {
                0
            };
            denotes(iso_value(s), t + tenths + hundredths + thousandths)
        }),
{
    lemma_year(s, date.0);
    lemma_two(s, 5, date.1);
    lemma_two(s, 8, date.2);
    lemma_two(s, 11, hour);
    lemma_two(s, 14, minute);
    lemma_two(s, 17, second);
    reveal_with_fuel(digits_end, 6);
    reveal_with_fuel(digits_value, 4);
    assert(is_digit(s[20]));
    if s.len() > 21 {
        assert(is_digit(s[21]));
    }
    if s.len() > 22 {
        assert(is_digit(s[22]));
    }
    if s.len() > 23 {
        assert(is_digit(s[23]));
    }
}

/// Hours past 24, minutes and seconds past 59, and anything behind 24 o'clock are refused.
pub proof fn law_iso_refuses(
    s: Seq<u16>,
    date: (int, int, int),
    hour: int,
    minute: int,
    second: int,
)
    requires
        s.len() == 19,
        date_at(s, date.0, date.1, date.2),
        clock_at(s, hour, minute, second),
        in_ranges(date.1, date.2, 0, 0, 0),
    ensures
        iso_value(s) is None <==> hour > 24 || minute > 59 || second > 59 || (hour == 24 && (minute
            != 0 || second != 0)),
        hour == 24 && minute == 0 && second == 0 ==> denotes(
            iso_value(s),
            (day_number(date.0, date.1 - 1, date.2) + 1) * 86_400_000,
        ),
{
    lemma_year(s, date.0);
    lemma_two(s, 5, date.1);
    lemma_two(s, 8, date.2);
    lemma_two(s, 11, hour);
    lemma_two(s, 14, minute);
    lemma_two(s, 17, second);
}

} // verus!
