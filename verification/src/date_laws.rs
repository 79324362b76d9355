//! What the date built-ins promise: a setter changes the field that it is named after and
//! leaves the others, and what is put into a date comes out of it.
use vstd::prelude::*;
use vstd::arithmetic::div_mod::lemma_hoist_over_denominator;

use crate::calendar::{
    date_of, day_number, day_of, hour_of, is_time, law_components, law_day_number,
    law_has_year_and_month, law_year_length, leap, lemma_year_range, minute_of, month_of,
    month_start, ms_of, second_of, time_at, weekday_of, within_day, year_day, year_of,
};
use crate::convert::number_of;
use crate::ctx::Ctx;
use crate::date::{
    Part, constructed_time, date_object, date_time, part_of, reads_part, time_int, time_of_args,
    with_date, with_full_year, with_hours, with_milliseconds, with_minutes, with_month, with_seconds,
    with_time, with_year,
};
use crate::date_arith::{
    clip, law_make_date, law_make_day, law_make_time, law_time_clip, lemma_truncation_int,
    made_date, made_day,
};
use crate::date_text::{date_part, month_name, utc_text, weekday_name};
use crate::double::{
    NAN, int_double, is_nan, lemma_int_exact, lemma_int_order, magnitude, order_key,
};
use crate::heap::HeapModel;
use crate::text::utf16_of;
use crate::value::{JsValue, Kind, Throw};

verus! {

// ---------------------------------------------------------------------------
// The calendar
// ---------------------------------------------------------------------------

/// Four centuries are as long as any other four, and the first day is that of 1970.
#[verifier::spinoff_prover]
#[verifier::rlimit(40)]
pub proof fn law_calendar_cycle(y: int)
    ensures
        year_day(y + 400) == year_day(y) + 146_097,
        year_day(1970) == 0,
        leap(y) == (year_day(y + 1) - year_day(y) == 366),
        y % 4 != 0 ==> !leap(y),
        y % 400 == 0 ==> leap(y),
        y % 100 == 0 && y % 400 != 0 ==> !leap(y),
        y % 4 == 0 && y % 100 != 0 ==> leap(y),
{
    law_year_length(y);
    lemma_four_centuries(y);
    assert(leap(y) ==> y % 4 == 0) by {
        if y % 400 == 0 {
            assert(y % 4 == 0);
        }
    }
}

proof fn lemma_four_centuries(y: int)
    ensures
        year_day(y + 400) == year_day(y) + 146_097,
{
    lemma_hoist_over_denominator(y - 1969, 100, 4);
    lemma_hoist_over_denominator(y - 1901, 4, 100);
    lemma_hoist_over_denominator(y - 1601, 1, 400);
}

/// Months have 31 and 30 days by turns, but that July and August both have 31 and the
/// second has 28, and 29 in leap years.
pub proof fn law_month_length(m: int, is_leap: bool)
    requires
        0 <= m < 12,
    ensures
        month_start(0, is_leap) == 0,
        month_start(12, is_leap) == if is_leap {
            366int
        } else {
            365int
        },
        month_start(m + 1, is_leap) - month_start(m, is_leap) == if m == 1 {
            if is_leap {
                29int
            } else {
                28int
            }
        } else {
            31 - (m % 7) % 2
        },
{
}

/// A week has seven days that follow each other; the epoch was a Thursday.
pub proof fn law_weekday(t: int)
    ensures
        0 <= weekday_of(t) < 7,
        weekday_of(t + 86_400_000) == (weekday_of(t) + 1) % 7,
        0 <= t < 86_400_000 ==> weekday_of(t) == 4,
{
    assert((t + 86_400_000) / 86_400_000 == t / 86_400_000 + 1);
}

/// A time of day, put together, has those hours, minutes, seconds and milliseconds.
pub proof fn law_clock_parts(day: int, hour: int, minute: int, second: int, ms: int)
    requires
        0 <= hour < 24,
        0 <= minute < 60,
        0 <= second < 60,
        0 <= ms < 1000,
    ensures
        ({
            let t = day * 86_400_000 + hour * 3_600_000 + minute * 60_000 + second * 1000 + ms;
            &&& day_of(t) == day
            &&& hour_of(t) == hour
            &&& minute_of(t) == minute
            &&& second_of(t) == second
            &&& ms_of(t) == ms
        }),
{
    let w = hour * 3_600_000 + minute * 60_000 + second * 1000 + ms;
    let t = day * 86_400_000 + w;
    assert(t / 86_400_000 == day && t % 86_400_000 == w);
    assert(w / 3_600_000 == hour);
    assert(w / 60_000 == hour * 60 + minute);
    assert(w / 1000 == hour * 3600 + minute * 60 + second);
}

/// Every time has hours, minutes, seconds and milliseconds in their ranges, and a day of a
/// month of its year.
pub proof fn law_field_ranges(t: int)
    ensures
        0 <= hour_of(t) < 24,
        0 <= minute_of(t) < 60,
        0 <= second_of(t) < 60,
        0 <= ms_of(t) < 1000,
        0 <= month_of(t) < 12,
        1 <= date_of(t) <= month_start(month_of(t) + 1, leap(year_of(t))) - month_start(
            month_of(t),
            leap(year_of(t)),
        ),
{
    law_has_year_and_month(t);
}

/// Reading the parts of the date that was put together from a year, a month, a day and a
/// clock gives them back, with the day of the week that the day number has.
pub proof fn law_read_parts(
    date: (int, int, int),
    hour: int,
    minute: int,
    second: int,
    ms: int,
)
    requires
        0 <= date.1 < 12,
        1 <= date.2,
        month_start(date.1, leap(date.0)) + date.2 - 1 < month_start(date.1 + 1, leap(date.0)),
        0 <= hour < 24,
        0 <= minute < 60,
        0 <= second < 60,
        0 <= ms < 1000,
    ensures
        ({
            let day = day_number(date.0, date.1, date.2);
            let t = day * 86_400_000 + hour * 3_600_000 + minute * 60_000 + second * 1000 + ms;
            &&& part_of(Part::FullYear, t) == date.0
            &&& part_of(Part::Year, t) == date.0 - 1900
            &&& part_of(Part::Month, t) == date.1
            &&& part_of(Part::Date, t) == date.2
            &&& part_of(Part::Day, t) == (day + 4) % 7
            &&& part_of(Part::Hours, t) == hour
            &&& part_of(Part::Minutes, t) == minute
            &&& part_of(Part::Seconds, t) == second
            &&& part_of(Part::Milliseconds, t) == ms
        }),
{
    let day = day_number(date.0, date.1, date.2);
    let t = day * 86_400_000 + hour * 3_600_000 + minute * 60_000 + second * 1000 + ms;
    law_clock_parts(day, hour, minute, second, ms);
    law_day_number(date.0, date.1, date.2, t);
}

/// Reading a part of a date gives the part as an integer; of an invalid date
/// not-a-number; of anything else an error.
pub proof fn law_reads_part(
    before: Ctx,
    after: Ctx,
    this: JsValue,
    part: Part,
    r: Result<JsValue, Throw>,
)
    requires
        reads_part(before, after, this, part, r),
    ensures
        date_time(before.heap@, this) is None <==> r is Err,
        date_time(before.heap@, this) == Some(None::<i64>) ==> r == Ok::<JsValue, Throw>(
            JsValue::Double(NAN),
        ),
        date_time(before.heap@, this) matches Some(Some(t)) ==> r == Ok::<JsValue, Throw>(
            JsValue::Smi(part_of(part, t as int) as i32),
        ),
        after == before,
{
}

// ---------------------------------------------------------------------------
// Setters
// ---------------------------------------------------------------------------

/// Whether two times are at the same time of day.
pub open spec fn same_clock(a: int, b: int) -> bool {
    &&& hour_of(a) == hour_of(b)
    &&& minute_of(a) == minute_of(b)
    &&& second_of(a) == second_of(b)
    &&& ms_of(a) == ms_of(b)
}

/// Whether two times are on the same day.
pub open spec fn same_date(a: int, b: int) -> bool {
    &&& year_of(a) == year_of(b)
    &&& month_of(a) == month_of(b)
    &&& date_of(a) == date_of(b)
}

/// The number of days of the month of a time.
pub open spec fn month_days(y: int, m: int) -> int {
    month_start(m + 1, leap(y)) - month_start(m, leap(y))
}

proof fn lemma_put(y: int, m: int, d: int, w: int)
    requires
        -1_000_000 <= y <= 1_000_000,
        -1_000_000 <= m <= 1_000_000,
        -1_000_000_000 <= d <= 1_000_000_000,
        0 <= w < 86_400_000,
        is_time(day_number(y + m / 12, m % 12, d) * 86_400_000 + w),
    ensures
        clip(
            made_date(
                made_day(int_double(y), int_double(m), int_double(d)),
                int_double(w),
            ),
        ) == int_double(day_number(y + m / 12, m % 12, d) * 86_400_000 + w),
{
    law_make_day(y, m, d);
    let n = day_number(y + m / 12, m % 12, d);
    law_make_date(n, w);
    law_time_clip(n * 86_400_000 + w);
}

proof fn lemma_fields(y: int, m: int, d: int, t: int, t2: int)
    requires
        0 <= m < 12,
        1 <= d <= month_days(y, m),
        t2 == day_number(y, m, d) * 86_400_000 + within_day(t),
    ensures
        year_of(t2) == y,
        month_of(t2) == m,
        date_of(t2) == d,
        same_clock(t, t2),
        within_day(t2) == within_day(t),
{
    assert(t2 / 86_400_000 == day_number(y, m, d));
    assert(t2 % 86_400_000 == within_day(t));
    law_day_number(y, m, d, t2);
}

/// The parts of a time value, and the day that another day of its month is.
proof fn lemma_moved(t: int, d: int)
    requires
        is_time(t),
    ensures
        -300_000 < year_of(t) < 300_000,
        0 <= month_of(t) < 12,
        month_of(t) / 12 == 0,
        month_of(t) % 12 == month_of(t),
        1 <= date_of(t) <= 31,
        0 <= within_day(t) < 86_400_000,
        t + (d - date_of(t)) * 86_400_000 == day_number(year_of(t), month_of(t), d) * 86_400_000
            + within_day(t),
        day_number(year_of(t), month_of(t), date_of(t)) == day_of(t),
        -100_000_000 <= day_of(t) <= 100_000_000,
{
    law_has_year_and_month(t);
    lemma_year_range(t);
    law_field_ranges(t);
    law_month_length(month_of(t), leap(year_of(t)));
    assert(day_number(year_of(t), month_of(t), date_of(t)) == day_of(t));
    assert(t == day_of(t) * 86_400_000 + within_day(t));
}

proof fn lemma_small_month(m: int)
    requires
        0 <= m < 12,
    ensures
        m / 12 == 0,
        m % 12 == m,
{
}

proof fn lemma_same_clock(t: int, day: int, t2: int)
    requires
        t2 == day * 86_400_000 + within_day(t),
    ensures
        same_clock(t, t2),
        day_of(t2) == day,
        within_day(t2) == within_day(t),
{
    assert(t2 / 86_400_000 == day);
    assert(t2 % 86_400_000 == within_day(t));
}

/// `setDate(d)` moves a date by whole days, to the day `d` of its month: the time of day
/// stays, and where the month has such a day the year and the month stay.
pub proof fn law_set_date(h: HeapModel, t: i64, d: i32)
    requires
        is_time(t as int),
        is_time(t + (d - date_of(t as int)) * 86_400_000),
    ensures
        ({
            let t2 = t + (d - date_of(t as int)) * 86_400_000;
            let y = year_of(t as int);
            let m = month_of(t as int);
            &&& with_date(h, seq![JsValue::Smi(d)], Some(t)) == int_double(t2)
            &&& same_clock(t as int, t2)
            &&& 1 <= d <= month_days(y, m) ==> year_of(t2) == y && month_of(t2) == m && date_of(t2)
                == d
        }),
{
    let n = t as int;
    let y = year_of(n);
    let m = month_of(n);
    let t2 = t + (d - date_of(n)) * 86_400_000;
    lemma_moved(n, d as int);
    lemma_same_clock(n, day_number(y, m, d as int), t2);
    if 1 <= d <= month_days(y, m) {
        lemma_fields(y, m, d as int, n, t2);
    }
    lemma_put(y, m, d as int, within_day(n));
}

/// `setMonth(m)` and `setMonth(m, d)` keep the year and the time of day; without a day
/// the day of the month stays too, where the month has such a day.
pub proof fn law_set_month(h: HeapModel, t: i64, m: i32, d: i32)
    requires
        is_time(t as int),
        0 <= m < 12,
        1 <= d <= month_days(year_of(t as int), m as int),
        is_time(day_number(year_of(t as int), m as int, d as int) * 86_400_000 + within_day(t as int)),
    ensures
        ({
            let y = year_of(t as int);
            let t2 = day_number(y, m as int, d as int) * 86_400_000 + within_day(t as int);
            &&& with_month(h, seq![JsValue::Smi(m), JsValue::Smi(d)], Some(t)) == int_double(t2)
            &&& d == date_of(t as int) ==> with_month(h, seq![JsValue::Smi(m)], Some(t))
                == int_double(t2)
            &&& year_of(t2) == y
            &&& month_of(t2) == m
            &&& date_of(t2) == d
            &&& same_clock(t as int, t2)
        }),
{
    let n = t as int;
    let y = year_of(n);
    lemma_moved(n, d as int);
    lemma_small_month(m as int);
    lemma_fields(
        y,
        m as int,
        d as int,
        n,
        day_number(y, m as int, d as int) * 86_400_000 + within_day(n),
    );
    lemma_put(y, m as int, d as int, within_day(n));
}

/// Months past the end of a year, and before its start, are months of other years:
/// `setMonth(m + 12 * k)` is `setMonth(m)` of `k` years later.
pub proof fn law_set_month_carries(h: HeapModel, t: i64, m: i32, k: i32)
    requires
        is_time(t as int),
        0 <= m < 12,
        -1000 <= k <= 1000,
        is_time(
            day_number(year_of(t as int) + k, m as int, date_of(t as int)) * 86_400_000 + within_day(
                t as int,
            ),
        ),
    ensures
        with_month(h, seq![JsValue::Smi((m + 12 * k) as i32)], Some(t)) == with_full_year(
            h,
            seq![JsValue::Smi((year_of(t as int) + k) as i32), JsValue::Smi(m)],
            Some(t),
        ),
{
    let n = t as int;
    lemma_moved(n, 0);
    let y = year_of(n);
    let a = m + 12 * k;
    assert(a / 12 == k && a % 12 == m);
    lemma_small_month(m as int);
    lemma_int_exact(y + k);
    lemma_put(y, a, date_of(n), within_day(n));
    lemma_put(y + k, m as int, date_of(n), within_day(n));
}

/// `setFullYear(y)`, `setFullYear(y, m)` and `setFullYear(y, m, d)` keep the time of day
/// and the fields that are not given, where there is such a day.
pub proof fn law_set_full_year(h: HeapModel, t: i64, y: i32, m: i32, d: i32)
    requires
        is_time(t as int),
        -1_000_000 <= y <= 1_000_000,
        0 <= m < 12,
        1 <= d <= month_days(y as int, m as int),
        is_time(day_number(y as int, m as int, d as int) * 86_400_000 + within_day(t as int)),
    ensures
        ({
            let t2 = day_number(y as int, m as int, d as int) * 86_400_000 + within_day(t as int);
            let a = JsValue::Smi(y);
            let b = JsValue::Smi(m);
            let c = JsValue::Smi(d);
            &&& with_full_year(h, seq![a, b, c], Some(t)) == int_double(t2)
            &&& d == date_of(t as int) ==> with_full_year(h, seq![a, b], Some(t)) == int_double(t2)
            &&& d == date_of(t as int) && m == month_of(t as int) ==> with_full_year(
                h,
                seq![a],
                Some(t),
            ) == int_double(t2)
            &&& d == date_of(t as int) && m == month_of(t as int) && !(0 <= y <= 99) ==> with_year(
                h,
                seq![a],
                Some(t),
            ) == int_double(t2)
            &&& year_of(t2) == y
            &&& month_of(t2) == m
            &&& date_of(t2) == d
            &&& same_clock(t as int, t2)
        }),
{
    let n = t as int;
    lemma_moved(n, 0);
    lemma_small_month(m as int);
    lemma_int_exact(y as int);
    lemma_fields(
        y as int,
        m as int,
        d as int,
        n,
        day_number(y as int, m as int, d as int) * 86_400_000 + within_day(n),
    );
    lemma_put(y as int, m as int, d as int, within_day(n));
}

/// `setYear` of a year from 0 to 99 is `setFullYear` of that year of the 20th century.
pub proof fn law_set_year(h: HeapModel, t: i64, y: i32)
    requires
        0 <= y <= 99,
    ensures
        with_year(h, seq![JsValue::Smi(y)], Some(t)) == with_full_year(
            h,
            seq![JsValue::Smi((1900 + y) as i32)],
            Some(t),
        ),
{
    lemma_truncation_int(y as int);
    lemma_int_exact(1900 + y);
    crate::double::lemma_sum_exact(1900, y as int);
}

/// `setFullYear` of an invalid date counts as one of the epoch; the other setters leave
/// it invalid.
pub proof fn law_set_invalid(h: HeapModel, args: Seq<JsValue>)
    ensures
        with_full_year(h, args, None) == with_full_year(h, args, Some(0)),
        with_year(h, args, None) == with_year(h, args, Some(0)),
        is_nan(with_month(h, args, None)),
        is_nan(with_date(h, args, None)),
        is_nan(with_hours(h, args, None)),
        is_nan(with_minutes(h, args, None)),
        is_nan(with_seconds(h, args, None)),
        is_nan(with_milliseconds(h, args, None)),
{
}

proof fn lemma_clock(t: int, hour: int, minute: int, second: int, ms: int, t2: int)
    requires
        is_time(t),
        -1_000_000_000 <= hour <= 1_000_000_000,
        -1_000_000_000 <= minute <= 1_000_000_000,
        -1_000_000_000 <= second <= 1_000_000_000,
        -1_000_000_000 <= ms <= 1_000_000_000,
        t2 == t + (hour - hour_of(t)) * 3_600_000 + (minute - minute_of(t)) * 60_000 + (second
            - second_of(t)) * 1000 + (ms - ms_of(t)),
        is_time(t2),
    ensures
        clip(
            made_date(
                int_double(day_of(t)),
                crate::date_arith::made_time(
                    int_double(hour),
                    int_double(minute),
                    int_double(second),
                    int_double(ms),
                ),
            ),
        ) == int_double(t2),
{
    law_has_year_and_month(t);
    law_components(t);
    law_make_time(hour, minute, second, ms);
    let w = hour * 3_600_000 + minute * 60_000 + second * 1000 + ms;
    assert(day_number(year_of(t), month_of(t), date_of(t)) == day_of(t));
    assert(t2 == day_of(t) * 86_400_000 + w);
    law_make_date(day_of(t), w);
    law_time_clip(t2);
}

/// Whether a number of hours, minutes, seconds or milliseconds is small enough to count
/// with exactly.
pub open spec fn is_count(n: i32) -> bool {
    -1_000_000_000 <= n <= 1_000_000_000
}

/// `setHours` moves a date by the difference of the hours, and of the minutes, seconds and
/// milliseconds that are given; what is not given stays.
pub proof fn law_set_hours(h: HeapModel, t: i64, a: i32, b: i32, c: i32, d: i32)
    requires
        is_time(t as int),
        is_count(a),
        is_count(b),
        is_count(c),
        is_count(d),
    ensures
        ({
            let n = t as int;
            let a1 = (a - hour_of(n)) * 3_600_000;
            let b1 = (b - minute_of(n)) * 60_000;
            let c1 = (c - second_of(n)) * 1000;
            let d1 = d - ms_of(n);
            let x = JsValue::Smi(a);
            let y = JsValue::Smi(b);
            let z = JsValue::Smi(c);
            let w = JsValue::Smi(d);
            &&& is_time(n + a1) ==> with_hours(h, seq![x], Some(t)) == int_double(n + a1)
            &&& is_time(n + a1 + b1) ==> with_hours(h, seq![x, y], Some(t)) == int_double(
                n + a1 + b1,
            )
            &&& is_time(n + a1 + b1 + c1) ==> with_hours(h, seq![x, y, z], Some(t)) == int_double(
                n + a1 + b1 + c1,
            )
            &&& is_time(n + a1 + b1 + c1 + d1) ==> with_hours(h, seq![x, y, z, w], Some(t))
                == int_double(n + a1 + b1 + c1 + d1)
        }),
{
    let n = t as int;
    law_field_ranges(n);
    let a1 = (a - hour_of(n)) * 3_600_000;
    let b1 = (b - minute_of(n)) * 60_000;
    let c1 = (c - second_of(n)) * 1000;
    let d1 = d - ms_of(n);
    if is_time(n + a1) {
        lemma_clock(n, a as int, minute_of(n), second_of(n), ms_of(n), n + a1);
    }
    if is_time(n + a1 + b1) {
        lemma_clock(n, a as int, b as int, second_of(n), ms_of(n), n + a1 + b1);
    }
    if is_time(n + a1 + b1 + c1) {
        lemma_clock(n, a as int, b as int, c as int, ms_of(n), n + a1 + b1 + c1);
    }
    if is_time(n + a1 + b1 + c1 + d1) {
        lemma_clock(n, a as int, b as int, c as int, d as int, n + a1 + b1 + c1 + d1);
    }
}

/// `setMinutes` moves a date by the difference of the minutes, and of the seconds and
/// milliseconds that are given; what is not given stays.
pub proof fn law_set_minutes(h: HeapModel, t: i64, b: i32, c: i32, d: i32)
    requires
        is_time(t as int),
        is_count(b),
        is_count(c),
        is_count(d),
    ensures
        ({
            let n = t as int;
            let b1 = (b - minute_of(n)) * 60_000;
            let c1 = (c - second_of(n)) * 1000;
            let d1 = d - ms_of(n);
            let y = JsValue::Smi(b);
            let z = JsValue::Smi(c);
            let w = JsValue::Smi(d);
            &&& is_time(n + b1) ==> with_minutes(h, seq![y], Some(t)) == int_double(n + b1)
            &&& is_time(n + b1 + c1) ==> with_minutes(h, seq![y, z], Some(t)) == int_double(
                n + b1 + c1,
            )
            &&& is_time(n + b1 + c1 + d1) ==> with_minutes(h, seq![y, z, w], Some(t))
                == int_double(n + b1 + c1 + d1)
        }),
{
    let n = t as int;
    law_field_ranges(n);
    let b1 = (b - minute_of(n)) * 60_000;
    let c1 = (c - second_of(n)) * 1000;
    let d1 = d - ms_of(n);
    if is_time(n + b1) {
        lemma_clock(n, hour_of(n), b as int, second_of(n), ms_of(n), n + b1);
    }
    if is_time(n + b1 + c1) {
        lemma_clock(n, hour_of(n), b as int, c as int, ms_of(n), n + b1 + c1);
    }
    if is_time(n + b1 + c1 + d1) {
        lemma_clock(n, hour_of(n), b as int, c as int, d as int, n + b1 + c1 + d1);
    }
}

/// `setSeconds` moves a date by the difference of the seconds, and of the milliseconds
/// that are given, and `setMilliseconds` by that of the milliseconds.
pub proof fn law_set_seconds(h: HeapModel, t: i64, c: i32, d: i32)
    requires
        is_time(t as int),
        is_count(c),
        is_count(d),
    ensures
        ({
            let n = t as int;
            let c1 = (c - second_of(n)) * 1000;
            let d1 = d - ms_of(n);
            let z = JsValue::Smi(c);
            let w = JsValue::Smi(d);
            &&& is_time(n + c1) ==> with_seconds(h, seq![z], Some(t)) == int_double(n + c1)
            &&& is_time(n + c1 + d1) ==> with_seconds(h, seq![z, w], Some(t)) == int_double(
                n + c1 + d1,
            )
            &&& is_time(n + d1) ==> with_milliseconds(h, seq![w], Some(t)) == int_double(n + d1)
        }),
{
    let n = t as int;
    law_field_ranges(n);
    let c1 = (c - second_of(n)) * 1000;
    let d1 = d - ms_of(n);
    if is_time(n + c1) {
        lemma_clock(n, hour_of(n), minute_of(n), c as int, ms_of(n), n + c1);
    }
    if is_time(n + c1 + d1) {
        lemma_clock(n, hour_of(n), minute_of(n), c as int, d as int, n + c1 + d1);
    }
    if is_time(n + d1) {
        lemma_clock(n, hour_of(n), minute_of(n), second_of(n), d as int, n + d1);
    }
}

/// A time of day that is set within its ranges stays on the day: the year, the month and
/// the day of the month do not change, and the clock shows what was set.
pub proof fn law_set_clock_keeps_day(h: HeapModel, t: i64, a: i32, b: i32, c: i32, d: i32)
    requires
        is_time(t as int),
        0 <= a < 24,
        0 <= b < 60,
        0 <= c < 60,
        0 <= d < 1000,
        is_time(time_at(day_of(t as int), a as int, b as int, c as int, d as int)),
    ensures
        ({
            let t2 = time_at(day_of(t as int), a as int, b as int, c as int, d as int);
            let args = seq![JsValue::Smi(a), JsValue::Smi(b), JsValue::Smi(c), JsValue::Smi(d)];
            &&& with_hours(h, args, Some(t)) == int_double(t2)
            &&& same_date(t as int, t2)
            &&& hour_of(t2) == a
            &&& minute_of(t2) == b
            &&& second_of(t2) == c
            &&& ms_of(t2) == d
        }),
{
    let n = t as int;
    let t2 = time_at(day_of(n), a as int, b as int, c as int, d as int);
    law_clock_parts(day_of(n), a as int, b as int, c as int, d as int);
    law_has_year_and_month(n);
    law_components(n);
    assert(day_number(year_of(n), month_of(n), date_of(n)) == day_of(n));
    law_set_hours(h, t, a, b, c, d);
    law_field_ranges(n);
    law_day_number(year_of(n), month_of(n), date_of(n), t2);
}

/// `setTime` of a time value stores it, and of what is none makes the date invalid.
pub proof fn law_set_time(h: HeapModel, v: JsValue, n: int)
    requires
        number_of(h, v) == int_double(n),
        -0x20_0000_0000_0000 < n < 0x20_0000_0000_0000,
    ensures
        with_time(h, seq![v]) == if is_time(n) {
            int_double(n)
        } else {
            NAN
        },
{
    if is_time(n) {
        law_time_clip(n);
    } else {
        lemma_clip_outside(n);
    }
}

proof fn lemma_clip_outside(n: int)
    requires
        -0x20_0000_0000_0000 < n < 0x20_0000_0000_0000,
        !is_time(n),
    ensures
        clip(int_double(n)) == NAN,
{
    reveal(clip);
    let a = if n < 0 {
        -n
    } else {
        n
    };
    lemma_int_exact(n);
    lemma_int_exact(a);
    lemma_int_exact(8_640_000_000_000_000);
    lemma_int_order(8_640_000_000_000_000, a);
    crate::double::lemma_round_ratio_range(a as nat, 1);
    assert(magnitude(int_double(n)) == magnitude(int_double(a)));
    if order_key(int_double(a)) == order_key(int_double(8_640_000_000_000_000)) {
        assert(int_double(a) == int_double(8_640_000_000_000_000));
    }
}

// ---------------------------------------------------------------------------
// Making dates
// ---------------------------------------------------------------------------

/// `Date.UTC` and the constructor put integers together as the calendar does.
pub proof fn law_date_of_parts(
    h: HeapModel,
    y: i32,
    m: i32,
    d: i32,
    hour: i32,
    minute: i32,
    second: i32,
    ms: i32,
)
    requires
        -1_000_000 <= y <= 1_000_000,
        -1_000_000 <= m <= 1_000_000,
        -1_000_000_000 <= d <= 1_000_000_000,
        is_count(hour),
        is_count(minute),
        is_count(second),
        is_count(ms),
    ensures
        ({
            let year = if 0 <= y <= 99 {
                1900 + y
            } else {
                y as int
            };
            let day = day_number(year + (m as int) / 12, (m as int) % 12, d as int);
            let t = time_at(day, hour as int, minute as int, second as int, ms as int);
            is_time(t) && -100_000_000 <= day <= 100_000_000 ==> time_of_args(
                h,
                seq![
                    JsValue::Smi(y),
                    JsValue::Smi(m),
                    JsValue::Smi(d),
                    JsValue::Smi(hour),
                    JsValue::Smi(minute),
                    JsValue::Smi(second),
                    JsValue::Smi(ms),
                ],
            ) == int_double(t)
        }),
{
    let year = if 0 <= y <= 99 {
        1900 + y
    } else {
        y as int
    };
    lemma_truncation_int(y as int);
    crate::double::lemma_sum_exact(1900, y as int);
    let day = day_number(year + (m as int) / 12, (m as int) % 12, d as int);
    let t = time_at(day, hour as int, minute as int, second as int, ms as int);
    if is_time(t) && -100_000_000 <= day <= 100_000_000 {
        law_make_day(year, m as int, d as int);
        law_make_time(hour as int, minute as int, second as int, ms as int);
        let w = hour * 3_600_000 + minute * 60_000 + second * 1000 + ms;
        assert(t == day * 86_400_000 + w);
        law_make_date(day, w);
        law_time_clip(t);
    }
}

/// Parts that are not given are the first ones: January, the first of the month, and
/// zero.
pub proof fn law_date_missing_parts(h: HeapModel, y: JsValue, m: JsValue, d: JsValue)
    ensures
        ({
            let zero = JsValue::Smi(0);
            let one = JsValue::Smi(1);
            &&& time_of_args(h, seq![y]) == time_of_args(
                h,
                seq![y, zero, one, zero, zero, zero, zero],
            )
            &&& time_of_args(h, seq![y, m]) == time_of_args(
                h,
                seq![y, m, one, zero, zero, zero, zero],
            )
            &&& time_of_args(h, seq![y, m, d]) == time_of_args(
                h,
                seq![y, m, d, zero, zero, zero, zero],
            )
        }),
{
}

/// A new date holds the time value that it is made from: a number, another date, or the
/// current time.
pub proof fn law_new_date(h: HeapModel, n: int, now: i64, o: usize, proto: Option<usize>)
    requires
        is_time(n),
        is_time(now as int),
    ensures
        constructed_time(h, seq![JsValue::Double(int_double(n))], now) == int_double(n),
        constructed_time(h, seq![], now) == int_double(now as int),
        date_time(h, JsValue::Object(o)) == Some(Some(n as i64)) ==> constructed_time(
            h,
            seq![JsValue::Object(o)],
            now,
        ) == int_double(n),
        date_object(int_double(n), proto).kind == Kind::Date,
        time_int(date_object(int_double(n), proto).inner[0]) == Some(n as i64),
{
    law_time_clip(n);
    lemma_int_exact(n);
}

/// A number that is no time value makes an invalid date.
pub proof fn law_new_date_invalid(h: HeapModel, n: int, now: i64, proto: Option<usize>)
    requires
        !is_time(n),
        -0x20_0000_0000_0000 < n < 0x20_0000_0000_0000,
    ensures
        constructed_time(h, seq![JsValue::Double(int_double(n))], now) == NAN,
        time_int(date_object(NAN, proto).inner[0]) is None,
{
    lemma_clip_outside(n);
}

// ---------------------------------------------------------------------------
// Names
// ---------------------------------------------------------------------------

/// The names of the days and the months are three letters each, in their order.
pub proof fn law_names(w: int, m: int)
    requires
        0 <= w < 7,
        0 <= m < 12,
    ensures
        weekday_name(w) == utf16_of("SunMonTueWedThuFriSat"@.subrange(3 * w, 3 * w + 3)),
        month_name(m) == utf16_of(
            "JanFebMarAprMayJunJulAugSepOctNovDec"@.subrange(3 * m, 3 * m + 3),
        ),
{
    reveal_strlit("SunMonTueWedThuFriSat");
    reveal_strlit("JanFebMarAprMayJunJulAugSepOctNovDec");
    let days = "SunMonTueWedThuFriSat"@;
    let months = "JanFebMarAprMayJunJulAugSepOctNovDec"@;
    reveal_strlit("Sun");
    assert(days.subrange(0, 3) =~= "Sun"@);
    reveal_strlit("Mon");
    assert(days.subrange(3, 6) =~= "Mon"@);
    reveal_strlit("Tue");
    assert(days.subrange(6, 9) =~= "Tue"@);
    reveal_strlit("Wed");
    assert(days.subrange(9, 12) =~= "Wed"@);
    reveal_strlit("Thu");
    assert(days.subrange(12, 15) =~= "Thu"@);
    reveal_strlit("Fri");
    assert(days.subrange(15, 18) =~= "Fri"@);
    reveal_strlit("Sat");
    assert(days.subrange(18, 21) =~= "Sat"@);
    reveal_strlit("Jan");
    assert(months.subrange(0, 3) =~= "Jan"@);
    reveal_strlit("Feb");
    assert(months.subrange(3, 6) =~= "Feb"@);
    reveal_strlit("Mar");
    assert(months.subrange(6, 9) =~= "Mar"@);
    reveal_strlit("Apr");
    assert(months.subrange(9, 12) =~= "Apr"@);
    reveal_strlit("May");
    assert(months.subrange(12, 15) =~= "May"@);
    reveal_strlit("Jun");
    assert(months.subrange(15, 18) =~= "Jun"@);
    reveal_strlit("Jul");
    assert(months.subrange(18, 21) =~= "Jul"@);
    reveal_strlit("Aug");
    assert(months.subrange(21, 24) =~= "Aug"@);
    reveal_strlit("Sep");
    assert(months.subrange(24, 27) =~= "Sep"@);
    reveal_strlit("Oct");
    assert(months.subrange(27, 30) =~= "Oct"@);
    reveal_strlit("Nov");
    assert(months.subrange(30, 33) =~= "Nov"@);
    reveal_strlit("Dec");
    assert(months.subrange(33, 36) =~= "Dec"@);
}

proof fn lemma_weekday_len(w: int)
    ensures
        weekday_name(w).len() == 3,
{
    reveal_strlit("Sun");
    reveal_strlit("Mon");
    reveal_strlit("Tue");
    reveal_strlit("Wed");
    reveal_strlit("Thu");
    reveal_strlit("Fri");
    reveal_strlit("Sat");
    reveal_with_fuel(utf16_of, 4);
}

/// Both texts of a date start with the name of its day of the week.
pub proof fn law_text_weekday(t: int)
    ensures
        date_part(t).take(3) == weekday_name(weekday_of(t)),
        utc_text(t).take(3) == weekday_name(weekday_of(t)),
{
    lemma_weekday_len(weekday_of(t));
    assert(date_part(t).take(3) =~= weekday_name(weekday_of(t)));
    assert(utc_text(t).take(3) =~= weekday_name(weekday_of(t)));
}

} // verus!
