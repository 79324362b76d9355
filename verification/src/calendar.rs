//! The calendar of time values: milliseconds since 1 January 1970, UTC.
use vstd::arithmetic::div_mod::{
    lemma_fundamental_div_mod, lemma_fundamental_div_mod_converse, lemma_mod_bound,
    lemma_mod_multiples_vanish,
};
use vstd::prelude::*;

verus! {

/// Milliseconds per day.
pub const MS_PER_DAY: i64 = 86_400_000;

/// Milliseconds per hour.
pub const MS_PER_HOUR: i64 = 3_600_000;

/// Milliseconds per minute.
pub const MS_PER_MINUTE: i64 = 60_000;

/// Milliseconds per second.
pub const MS_PER_SECOND: i64 = 1000;

/// Largest time value: 100,000,000 days to either side of the epoch.
pub const MAX_TIME_VALUE: i64 = 8_640_000_000_000_000;

/// Whether an integer is a time value.
pub open spec fn is_time(t: int) -> bool {
    -MAX_TIME_VALUE <= t <= MAX_TIME_VALUE
}

/// Whether `y` is a leap year (proleptic Gregorian).
pub open spec fn leap(y: int) -> bool {
    (y % 4 == 0 && y % 100 != 0) || y % 400 == 0
}

/// Days from the epoch to 1 January of the year `y`.
pub open spec fn year_day(y: int) -> int {
    365 * (y - 1970) + (y - 1969) / 4 - (y - 1901) / 100 + (y - 1601) / 400
}

/// Days of the year before the first of the 0-based month `m`.
pub open spec fn month_start(m: int, is_leap: bool) -> int {
    let shift: int = if is_leap && m >= 2 {
        1
    } else {
        0
    };
    shift + if m <= 0 {
        0int
    } else if m == 1 {
        31
    } else if m == 2 {
        59
    } else if m == 3 {
        90
    } else if m == 4 {
        120
    } else if m == 5 {
        151
    } else if m == 6 {
        181
    } else if m == 7 {
        212
    } else if m == 8 {
        243
    } else if m == 9 {
        273
    } else if m == 10 {
        304
    } else if m == 11 {
        334
    } else {
        365
    }
}

/// The day number of the time value `t`.
pub open spec fn day_of(t: int) -> int {
    t / (MS_PER_DAY as int)
}

/// The milliseconds that the time value `t` is into its day.
pub open spec fn within_day(t: int) -> int {
    t % (MS_PER_DAY as int)
}

/// Whether the day number `d` lies in the year `y`.
pub open spec fn in_year(d: int, y: int) -> bool {
    year_day(y) <= d < year_day(y + 1)
}

/// The year of the time value `t`.
pub open spec fn year_of(t: int) -> int {
    choose|y: int| in_year(day_of(t), y)
}

/// The day of the year, from 0.
pub open spec fn day_in_year(t: int) -> int {
    day_of(t) - year_day(year_of(t))
}

/// Whether day `d` of a year lies in the 0-based month `m`.
pub open spec fn in_month(d: int, m: int, is_leap: bool) -> bool {
    0 <= m < 12 && month_start(m, is_leap) <= d < month_start(m + 1, is_leap)
}

/// The 0-based month of the time value `t`.
pub open spec fn month_of(t: int) -> int {
    choose|m: int| in_month(day_in_year(t), m, leap(year_of(t)))
}

/// The day of the month of the time value `t`, from 1.
pub open spec fn date_of(t: int) -> int {
    day_in_year(t) - month_start(month_of(t), leap(year_of(t))) + 1
}

/// The day of the week: 0 is Sunday.
pub open spec fn weekday_of(t: int) -> int {
    (day_of(t) + 4) % 7
}

/// The hour of the time value `t`.
pub open spec fn hour_of(t: int) -> int {
    within_day(t) / 3_600_000
}

/// The minute of the time value `t`.
pub open spec fn minute_of(t: int) -> int {
    within_day(t) / 60_000 % 60
}

/// The second of the time value `t`.
pub open spec fn second_of(t: int) -> int {
    within_day(t) / 1000 % 60
}

/// The millisecond of the time value `t`.
pub open spec fn ms_of(t: int) -> int {
    within_day(t) % 1000
}

/// The day number of day `d` (from 1) of the 0-based month `m` of the year `y`.
pub open spec fn day_number(y: int, m: int, d: int) -> int {
    year_day(y) + month_start(m, leap(y)) + d - 1
}

/// The time value at a clock time of a day.
pub open spec fn time_at(day: int, hour: int, minute: int, second: int, ms: int) -> int {
    day * 86_400_000 + hour * 3_600_000 + minute * 60_000 + second * 1000 + ms
}

/// A year has 366 days where it is a leap year, else 365.
pub proof fn law_year_length(y: int)
    ensures
        year_day(y + 1) - year_day(y) == if leap(y) {
            366int
        } else {
            365int
        },
{
    lemma_quotient_step(y - 1969, 4);
    lemma_quotient_step(y - 1901, 100);
    lemma_quotient_step(y - 1601, 400);
    lemma_mod_multiples_vanish(-492, y, 4);
    lemma_mod_multiples_vanish(-19, y, 100);
    lemma_mod_multiples_vanish(-4, y, 400);
}

/// From one number to the next a quotient grows by one at the multiples of the divisor.
proof fn lemma_quotient_step(x: int, d: int)
    requires
        d > 1,
    ensures
        (x + 1) / d - x / d == if (x + 1) % d == 0 {
            1int
        } else {
            0int
        },
{
    let q = x / d;
    let r = x % d;
    lemma_fundamental_div_mod(x, d);
    lemma_mod_bound(x, d);
    assert((q + 1) * d == d * q + d && q * d == d * q) by (nonlinear_arith);
    if r + 1 == d {
        lemma_fundamental_div_mod_converse(x + 1, d, q + 1, 0);
    } else {
        lemma_fundamental_div_mod_converse(x + 1, d, q, r + 1);
    }
}

proof fn lemma_years_apart(a: int, b: int)
    requires
        a <= b,
    ensures
        year_day(a) + 365 * (b - a) <= year_day(b),
    decreases b - a,
{
    if a < b {
        law_year_length(b - 1);
        lemma_years_apart(a, b - 1);
    }
}

/// Every day lies in at most one year.
pub proof fn lemma_in_year_unique(d: int, a: int, b: int)
    requires
        in_year(d, a),
        in_year(d, b),
    ensures
        a == b,
{
    if a < b {
        lemma_years_apart(a + 1, b);
    } else if b < a {
        lemma_years_apart(b + 1, a);
    }
}

/// Every day of a year lies in at most one month.
pub proof fn lemma_in_month_unique(d: int, a: int, b: int, is_leap: bool)
    requires
        in_month(d, a, is_leap),
        in_month(d, b, is_leap),
    ensures
        a == b,
{
}

/// `a / b` rounded down.
pub open spec fn floor_quotient(a: int, b: int) -> int {
    if b > 0 {
        a / b
    } else {
        (-a) / (-b)
    }
}

/// `a / b` rounded down, for a positive `b`.
pub fn floor_div(a: i64, b: i64) -> (r: i64)
    requires
        b > 0,
    ensures
        r == a as int / b as int,
        a >= 0 ==> 0 <= r <= a,
        a < 0 ==> a <= r < 0,
{
    proof {
        vstd::arithmetic::div_mod::lemma_fundamental_div_mod(a as int, b as int);
    }
    if a >= 0 {
        let q: i64 = a / b;
        proof {
            assert(q <= a) by (nonlinear_arith)
                requires
                    q == a / b,
                    b >= 1,
                    a >= 0,
            ;
        }
        q
    } else {
        let x: i64 = -(a + 1);
        let q: i64 = x / b;
        proof {
            let bi = b as int;
            vstd::arithmetic::div_mod::lemma_fundamental_div_mod(x as int, bi);
            assert(0 <= q <= x) by (nonlinear_arith)
                requires
                    x == bi * q + x as int % bi,
                    0 <= x as int % bi < bi,
                    bi >= 1,
                    x >= 0,
            ;
            assert(a as int == (-1 - q) * bi + (bi - 1 - x as int % bi)) by (nonlinear_arith)
                requires
                    x == -(a + 1),
                    x == bi * q + x as int % bi,
            ;
            vstd::arithmetic::div_mod::lemma_fundamental_div_mod_converse(
                a as int,
                bi,
                -1 - q,
                bi - 1 - x as int % bi,
            );
        }
        -1 - q
    }
}

/// `a` modulo `b`, not negative, for a positive `b`.
pub fn floor_mod(a: i64, b: i64) -> (r: i64)
    requires
        b > 0,
    ensures
        r == a as int % b as int,
        0 <= r < b,
{
    if a >= 0 {
        a % b
    } else {
        let x: i64 = -(a + 1);
        proof {
            let bi = b as int;
            vstd::arithmetic::div_mod::lemma_fundamental_div_mod(x as int, bi);
            let q = x as int / bi;
            assert(a as int == (-1 - q) * bi + (bi - 1 - x as int % bi)) by (nonlinear_arith)
                requires
                    x == -(a + 1),
                    x == bi * q + x as int % bi,
            ;
            vstd::arithmetic::div_mod::lemma_fundamental_div_mod_converse(
                a as int,
                bi,
                -1 - q,
                bi - 1 - x as int % bi,
            );
        }
        b - 1 - x % b
    }
}

/// A rounded quotient lies within one divisor of the dividend.
proof fn lemma_floor_quotient_near(a: int, b: int)
    requires
        b != 0,
    ensures
        b > 0 ==> b * floor_quotient(a, b) <= a < b * floor_quotient(a, b) + b,
        b < 0 ==> b * floor_quotient(a, b) + b < a <= b * floor_quotient(a, b),
{
    let q = floor_quotient(a, b);
    if b > 0 {
        vstd::arithmetic::div_mod::lemma_fundamental_div_mod(a, b);
        vstd::arithmetic::div_mod::lemma_mod_bound(a, b);
    } else {
        vstd::arithmetic::div_mod::lemma_fundamental_div_mod(-a, -b);
        vstd::arithmetic::div_mod::lemma_mod_bound(-a, -b);
        assert((-b) * q == -(b * q)) by (nonlinear_arith);
    }
}

/// Floor division, for a divisor of either sign.
pub fn div_floor(a: i64, b: i64) -> (r: i64)
    requires
        b != 0,
        !(a == i64::MIN && b == -1),
    ensures
        r == floor_quotient(a as int, b as int),
        b > 0 ==> b * r <= a < b * r + b,
        b < 0 ==> b * r + b < a <= b * r,
{
    proof {
        lemma_floor_quotient_near(a as int, b as int);
    }
    if b > 0 {
        return floor_div(a, b);
    }
    let x: i128 = -(a as i128);
    let y: i128 = -(b as i128);
    proof {
        vstd::arithmetic::div_mod::lemma_fundamental_div_mod(x as int, y as int);
    }
    if x >= 0 {
        let q: i128 = x / y;
        proof {
            let z = x as int % y as int;
            assert(0 <= q && (y >= 2 ==> 2 * q <= x) && (y == 1 ==> q == x)) by (nonlinear_arith)
                requires
                    x == y * q + z,
                    0 <= z < y,
                    x >= 0,
            ;
        }
        q as i64
    } else {
        let u: i128 = -(x + 1);
        let q: i128 = u / y;
        proof {
            let yi = y as int;
            vstd::arithmetic::div_mod::lemma_fundamental_div_mod(u as int, yi);
            let z = u as int % yi;
            assert(0 <= q <= u) by (nonlinear_arith)
                requires
                    u == yi * q + z,
                    0 <= z < yi,
                    u >= 0,
            ;
            assert(x as int == (-1 - q) * yi + (yi - 1 - z)) by (nonlinear_arith)
                requires
                    u == -(x + 1),
                    u == yi * q + z,
            ;
            vstd::arithmetic::div_mod::lemma_fundamental_div_mod_converse(
                x as int,
                yi,
                -1 - q,
                yi - 1 - z,
            );
        }
        (-1 - q) as i64
    }
}

/// True when `y` is a leap year (proleptic Gregorian).
pub fn is_leap(y: i64) -> (r: bool)
    ensures
        r == leap(y as int),
{
    (floor_mod(y, 4) == 0 && floor_mod(y, 100) != 0) || floor_mod(y, 400) == 0
}

/// Days from the epoch to 1 January of the year `y`.
pub fn days_from_epoch_to_year(y: i64) -> (r: i64)
    requires
        i64::MIN <= year_day(y as int) <= i64::MAX,
    ensures
        r == year_day(y as int),
{
    proof {
        lemma_year_day_bounds(y as int);
    }
    let d: i64 = y - 1970;
    let leap_days: i64 = div_floor(d + 1, 4) - div_floor(d + 69, 100) + div_floor(d + 369, 400);
    365 * d + leap_days
}

/// The day number of the time value `t`.
pub fn day(t: i64) -> (r: i64)
    ensures
        r == day_of(t as int),
{
    floor_div(t, MS_PER_DAY)
}

/// The milliseconds that the time value `t` is into its day.
pub fn time_within_day(t: i64) -> (r: i64)
    ensures
        r == within_day(t as int),
        0 <= r < MS_PER_DAY,
{
    floor_mod(t, MS_PER_DAY)
}

pub proof fn lemma_year_day_bounds(y: int)
    ensures
        y >= 1970 ==> 365 * (y - 1970) <= year_day(y) <= 366 * (y - 1970),
        y < 1970 ==> 366 * (y - 1970) <= year_day(y) <= 365 * (y - 1970),
    decreases (if y >= 1970 {
        y - 1970
    } else {
        1970 - y
    }),
{
    if y > 1970 {
        lemma_year_day_bounds(y - 1);
        law_year_length(y - 1);
    } else if y < 1970 {
        lemma_year_day_bounds(y + 1);
        law_year_length(y);
    } else {
        assert(year_day(1970) == 0);
    }
}

/// The year of the time value `t`.
pub fn year_from_time(t: i64) -> (r: i64)
    requires
        is_time(t as int),
    ensures
        r == year_of(t as int),
        in_year(day_of(t as int), r as int),
        -300_000 < r < 300_000,
{
    let d: i64 = day(t);
    assert(-100_000_000 <= d <= 100_000_000);
    let mut y: i64 = floor_div(400 * d, 146_097) + 1970;
    proof {
        lemma_year_day_bounds(y as int);
    }
    while d < days_from_epoch_to_year(y)
        invariant
            -100_000_000 <= d <= 100_000_000,
            -300_000 < y < 300_000,
            -200_000_000 <= year_day(y as int) <= 200_000_000,
        decreases year_day(y as int) - d + 366,
    {
        proof {
            law_year_length(y - 1);
            lemma_year_day_bounds(y as int);
        }
        y = y - 1;
    }
    proof {
        law_year_length(y as int);
    }
    while d >= days_from_epoch_to_year(y + 1)
        invariant
            -100_000_000 <= d <= 100_000_000,
            -300_000 < y < 300_000,
            d >= year_day(y as int),
            -300_000_000 <= year_day(y + 1) <= 300_000_000,
        decreases d - year_day(y as int),
    {
        proof {
            law_year_length(y as int);
            law_year_length(y + 1);
            lemma_year_day_bounds(y + 1);
        }
        y = y + 1;
    }
    proof {
        assert(in_year(day_of(t as int), y as int));
        lemma_in_year_unique(day_of(t as int), y as int, year_of(t as int));
    }
    y
}

/// Days of the year before the first of the 0-based month `m`.
pub fn month_start_of(m: i64, is_leap: bool) -> (r: i64)
    requires
        0 <= m <= 12,
    ensures
        r == month_start(m as int, is_leap),
        0 <= r <= 366,
{
    let starts: [i64; 13] = [0, 31, 59, 90, 120, 151, 181, 212, 243, 273, 304, 334, 365];
    let base: i64 = starts[m as usize];
    if is_leap && m >= 2 {
        base + 1
    } else {
        base
    }
}

/// The 0-based month of the time value `t`.
pub fn month_from_time(t: i64) -> (r: i64)
    requires
        is_time(t as int),
    ensures
        r == month_of(t as int),
        in_month(day_in_year(t as int), r as int, leap(year_of(t as int))),
        0 <= r < 12,
{
    let y: i64 = year_from_time(t);
    proof {
        lemma_year_day_bounds(y as int);
    }
    let d: i64 = day(t) - days_from_epoch_to_year(y);
    let is_leap_year: bool = is_leap(y);
    proof {
        law_year_length(y as int);
    }
    let mut m: i64 = 0;
    while d >= month_start_of(m + 1, is_leap_year)
        invariant
            0 <= m < 12,
            0 <= d,
            d < month_start(12, is_leap_year),
            d >= month_start(m as int, is_leap_year),
        decreases 12 - m,
    {
        m = m + 1;
    }
    proof {
        assert(in_month(day_in_year(t as int), m as int, leap(year_of(t as int))));
    }
    m
}

/// The day of the month of the time value `t`, from 1.
pub fn date_from_time(t: i64) -> (r: i64)
    requires
        is_time(t as int),
    ensures
        r == date_of(t as int),
        1 <= r <= 31,
{
    let y: i64 = year_from_time(t);
    let m: i64 = month_from_time(t);
    proof {
        lemma_year_day_bounds(y as int);
    }
    day(t) - days_from_epoch_to_year(y) - month_start_of(m, is_leap(y)) + 1
}

/// The day of the week: 0 is Sunday.
pub fn week_day(t: i64) -> (r: i64)
    requires
        is_time(t as int),
    ensures
        r == weekday_of(t as int),
        0 <= r < 7,
{
    floor_mod(day(t) + 4, 7)
}

/// The hour of the time value `t`.
pub fn hour_from_time(t: i64) -> (r: i64)
    ensures
        r == hour_of(t as int),
        0 <= r < 24,
{
    time_within_day(t) / MS_PER_HOUR
}

/// The minute of the time value `t`.
pub fn min_from_time(t: i64) -> (r: i64)
    ensures
        r == minute_of(t as int),
        0 <= r < 60,
{
    time_within_day(t) / MS_PER_MINUTE % 60
}

/// The second of the time value `t`.
pub fn sec_from_time(t: i64) -> (r: i64)
    ensures
        r == second_of(t as int),
        0 <= r < 60,
{
    time_within_day(t) / MS_PER_SECOND % 60
}

/// The millisecond of the time value `t`.
pub fn ms_from_time(t: i64) -> (r: i64)
    ensures
        r == ms_of(t as int),
        0 <= r < 1000,
{
    time_within_day(t) % MS_PER_SECOND
}

/// Taking a time value apart and putting the parts together gives it back.
pub proof fn law_components(t: int)
    requires
        in_year(day_of(t), year_of(t)),
        in_month(day_in_year(t), month_of(t), leap(year_of(t))),
    ensures
        time_at(
            day_number(year_of(t), month_of(t), date_of(t)),
            hour_of(t),
            minute_of(t),
            second_of(t),
            ms_of(t),
        ) == t,
{
    assert(day_number(year_of(t), month_of(t), date_of(t)) == day_of(t));
    let w = within_day(t);
    assert(0 <= w < 86_400_000);
    assert(w / 3_600_000 * 3_600_000 + w / 60_000 % 60 * 60_000 + w / 1000 % 60 * 1000 + w % 1000
        == w);
}

/// Every time value lies in a year and in a month of it.
pub proof fn law_has_year_and_month(t: int)
    ensures
        in_year(day_of(t), year_of(t)),
        in_month(day_in_year(t), month_of(t), leap(year_of(t))),
{
    let d = day_of(t);
    let y = lemma_some_year(d, 1970);
    assert(in_year(d, y));
    law_year_length(year_of(t));
    let k = day_in_year(t);
    let l = leap(year_of(t));
    assert(0 <= k < 366);
    let m = lemma_some_month(k, 0, l);
    assert(in_month(k, m, l));
}

proof fn lemma_some_year(d: int, from: int) -> (y: int)
    ensures
        in_year(d, y),
    decreases (if d < year_day(from) {
        year_day(from) - d
    } else {
        d - year_day(from)
    }),
{
    law_year_length(from);
    law_year_length(from - 1);
    if d < year_day(from) {
        if d >= year_day(from - 1) {
            from - 1
        } else {
            lemma_some_year(d, from - 1)
        }
    } else if d >= year_day(from + 1) {
        lemma_some_year(d, from + 1)
    } else {
        from
    }
}

proof fn lemma_some_month(d: int, from: int, is_leap: bool) -> (m: int)
    requires
        0 <= from < 12,
        month_start(from, is_leap) <= d,
        d < month_start(12, is_leap),
    ensures
        in_month(d, m, is_leap),
    decreases 12 - from,
{
    if d < month_start(from + 1, is_leap) {
        from
    } else {
        lemma_some_month(d, from + 1, is_leap)
    }
}

/// A date of the calendar, put together, has that year, month and day.
pub proof fn law_day_number(y: int, m: int, d: int, t: int)
    requires
        0 <= m < 12,
        1 <= d,
        month_start(m, leap(y)) + d - 1 < month_start(m + 1, leap(y)),
        day_of(t) == day_number(y, m, d),
    ensures
        year_of(t) == y,
        month_of(t) == m,
        date_of(t) == d,
{
    law_year_length(y);
    assert(in_year(day_of(t), y));
    lemma_in_year_unique(day_of(t), y, year_of(t));
    assert(in_month(day_in_year(t), m, leap(y)));
    lemma_in_month_unique(day_in_year(t), m, month_of(t), leap(y));
}

/// The years of all time values.
pub proof fn lemma_year_range(t: int)
    requires
        is_time(t),
    ensures
        -300_000 < year_of(t) < 300_000,
{
    law_has_year_and_month(t);
    lemma_year_day_bounds(year_of(t));
    lemma_year_day_bounds(year_of(t) + 1);
}

} // verus!
