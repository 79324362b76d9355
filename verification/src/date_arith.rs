//! Arithmetic on time values given as doubles.
use vstd::prelude::*;
use vstd::arithmetic::power2::pow2;

use crate::calendar::{day_number, is_leap, is_time, leap, month_start, month_start_of, year_day};
use crate::double::{
    NAN, SIGN, below, difference, exponent, fadd, fdiv, ffloor, finite, floor, flt, fmul,
    from_i64, fsub, ftrunc, int_double, int_mod, is_finite, lemma_difference_exact,
    lemma_floor_quotient, lemma_int_exact, lemma_int_order, lemma_integral_is_int,
    lemma_magnitude_bound, lemma_product_exact, lemma_round_ratio_range, lemma_sum_exact,
    lemma_truncation, magnitude, product, quotient, saturated, signed_mantissa, sum, to_i64,
    trunc_int, truncation,
};

verus! {

/// `TimeClip`: not-a-number for what is not finite or out of range, else the integer
/// part, never a negative zero.
#[verifier::opaque]
pub open spec fn clip(b: u64) -> u64 {
    if !is_finite(b) || below(int_double(8_640_000_000_000_000), magnitude(b) as u64) {
        NAN
    } else {
        sum(truncation(b), 0)
    }
}

/// `TimeClip`.
pub fn time_clip(time: u64) -> (r: u64)
    ensures
        r == clip(time),
{
    proof {
        reveal(clip);
    }
    if !finite(time) || flt(from_i64(8_640_000_000_000_000), time % SIGN) {
        return NAN;
    }
    fadd(ftrunc(time), 0)
}

/// `MakeTime`.
#[verifier::opaque]
pub open spec fn made_time(hour: u64, min: u64, sec: u64, ms: u64) -> u64 {
    if !is_finite(hour) || !is_finite(min) || !is_finite(sec) || !is_finite(ms) {
        NAN
    } else {
        sum(
            sum(
                sum(
                    product(truncation(hour), int_double(3_600_000)),
                    product(truncation(min), int_double(60_000)),
                ),
                product(truncation(sec), int_double(1000)),
            ),
            truncation(ms),
        )
    }
}

/// `MakeTime`: not-a-number where a part is not finite.
pub fn make_time(hour: u64, min: u64, sec: u64, ms: u64) -> (r: u64)
    ensures
        r == made_time(hour, min, sec, ms),
{
    proof {
        reveal(made_time);
    }
    if !finite(hour) || !finite(min) || !finite(sec) || !finite(ms) {
        return NAN;
    }
    let h: u64 = fmul(ftrunc(hour), from_i64(3_600_000));
    let m: u64 = fmul(ftrunc(min), from_i64(60_000));
    let s: u64 = fmul(ftrunc(sec), from_i64(1000));
    fadd(fadd(fadd(h, m), s), ftrunc(ms))
}

/// Days to 1 January of a year.
pub open spec fn days_to_year(y: u64) -> u64 {
    sum(
        difference(
            sum(
                product(int_double(365), difference(y, int_double(1970))),
                floor(quotient(difference(y, int_double(1969)), int_double(4))),
            ),
            floor(quotient(difference(y, int_double(1901)), int_double(100))),
        ),
        floor(quotient(difference(y, int_double(1601)), int_double(400))),
    )
}

/// Days to 1 January of a year.
pub fn day_from_year(y: u64) -> (r: u64)
    ensures
        r == days_to_year(y),
{
    let base: u64 = fmul(from_i64(365), fsub(y, from_i64(1970)));
    let by4: u64 = ffloor(fdiv(fsub(y, from_i64(1969)), from_i64(4)));
    let by100: u64 = ffloor(fdiv(fsub(y, from_i64(1901)), from_i64(100)));
    let by400: u64 = ffloor(fdiv(fsub(y, from_i64(1601)), from_i64(400)));
    fadd(fsub(fadd(base, by4), by100), by400)
}

/// Days to the first of the 0-based month `m` of a year.
pub open spec fn days_to_month(y: u64, m: int) -> u64 {
    sum(
        sum(days_to_year(y), int_double(month_start(m, false))),
        if m >= 2 && leap(saturated(y)) {
            int_double(1)
        } else {
            int_double(0)
        },
    )
}

/// Days to the first of the 0-based month `month` of a year.
pub fn month_start_day(year: u64, month: u64) -> (r: u64)
    requires
        month < 12,
    ensures
        r == days_to_month(year, month as int),
{
    let start: u64 = from_i64(month_start_of(month as i64, false));
    let extra: u64 = if month >= 2 && is_leap(to_i64(year)) {
        from_i64(1)
    } else {
        from_i64(0)
    };
    fadd(fadd(day_from_year(year), start), extra)
}

/// `MakeDay`.
#[verifier::opaque]
pub open spec fn made_day(year: u64, month: u64, date: u64) -> u64 {
    if !is_finite(year) || !is_finite(month) || !is_finite(date) {
        NAN
    } else {
        let m = truncation(month);
        let ym = sum(truncation(year), floor(quotient(m, int_double(12))));
        difference(sum(days_to_month(ym, trunc_int(month) % 12), truncation(date)), int_double(1))
    }
}

/// `MakeDay`: not-a-number where a part is not finite; months past the year's end
/// count on into the next years.
pub fn make_day(year: u64, month: u64, date: u64) -> (r: u64)
    ensures
        r == made_day(year, month, date),
{
    proof {
        reveal(made_day);
    }
    if !finite(year) || !finite(month) || !finite(date) {
        return NAN;
    }
    let m: u64 = ftrunc(month);
    let ym: u64 = fadd(ftrunc(year), ffloor(fdiv(m, from_i64(12))));
    proof {
        crate::double::lemma_truncation(month);
    }
    let mn: u64 = int_mod(m, 12);
    fsub(fadd(month_start_day(ym, mn), ftrunc(date)), from_i64(1))
}

/// `MakeDate`.
#[verifier::opaque]
pub open spec fn made_date(day: u64, time: u64) -> u64 {
    sum(product(day, int_double(86_400_000)), time)
}

/// `MakeDate`.
pub fn make_date(day: u64, time: u64) -> (r: u64)
    ensures
        r == made_date(day, time),
{
    proof {
        reveal(made_date);
    }
    fadd(fmul(day, from_i64(86_400_000)), time)
}

/// A year from 0 to 99 stands for one of the 20th century.
pub open spec fn full_year(year: u64) -> u64 {
    if is_finite(year) && 0 <= trunc_int(year) <= 99 {
        sum(int_double(1900), truncation(year))
    } else {
        year
    }
}

/// A year from 0 to 99 stands for one of the 20th century.
pub fn normalize_year(year: u64) -> (r: u64)
    ensures
        r == full_year(year),
{
    if !finite(year) {
        return year;
    }
    let y: i64 = to_i64(year);
    if 0 <= y && y <= 99 {
        fadd(from_i64(1900), ftrunc(year))
    } else {
        year
    }
}

/// An integer is its own integer part.
pub proof fn lemma_truncation_int(n: int)
    requires
        -0x20_0000_0000_0000 < n < 0x20_0000_0000_0000,
    ensures
        truncation(int_double(n)) == int_double(n),
        is_finite(int_double(n)),
        trunc_int(int_double(n)) == n,
        saturated(int_double(n)) == n,
{
    lemma_int_exact(n);
    lemma_truncation(int_double(n));
}

proof fn lemma_days_to_year(y: int)
    requires
        -3_000_000 < y < 3_000_000,
    ensures
        days_to_year(int_double(y)) == int_double(year_day(y)),
        -2_000_000_000 < year_day(y) < 2_000_000_000,
{
    lemma_difference_exact(y, 1970);
    lemma_difference_exact(y, 1969);
    lemma_difference_exact(y, 1901);
    lemma_difference_exact(y, 1601);
    lemma_product_exact(365, y - 1970);
    lemma_floor_quotient(y - 1969, 4);
    lemma_floor_quotient(y - 1901, 100);
    lemma_floor_quotient(y - 1601, 400);
    lemma_sum_exact(365 * (y - 1970), (y - 1969) / 4);
    lemma_difference_exact(365 * (y - 1970) + (y - 1969) / 4, (y - 1901) / 100);
    lemma_sum_exact(
        365 * (y - 1970) + (y - 1969) / 4 - (y - 1901) / 100,
        (y - 1601) / 400,
    );
}

/// `MakeDay` of integers is the day number of the calendar, months past the year's
/// end counting on.
pub proof fn law_make_day(y: int, m: int, d: int)
    requires
        -1_000_000 <= y <= 1_000_000,
        -1_000_000 <= m <= 1_000_000,
        -1_000_000_000 <= d <= 1_000_000_000,
    ensures
        made_day(int_double(y), int_double(m), int_double(d)) == int_double(
            day_number(y + m / 12, m % 12, d),
        ),
{
    reveal(made_day);
    lemma_truncation_int(y);
    lemma_truncation_int(m);
    lemma_truncation_int(d);
    lemma_floor_quotient(m, 12);
    let ym = y + m / 12;
    let mn = m % 12;
    lemma_sum_exact(y, m / 12);
    lemma_days_to_year(ym);
    lemma_truncation_int(ym);
    lemma_sum_exact(year_day(ym), month_start(mn, false));
    let a = year_day(ym) + month_start(mn, false);
    let e: int = if mn >= 2 && leap(ym) {
        1
    } else {
        0
    };
    lemma_sum_exact(a, e);
    assert(a + e == year_day(ym) + month_start(mn, leap(ym)));
    lemma_sum_exact(a + e, d);
    lemma_difference_exact(a + e + d, 1);
}

/// `MakeTime` of integers up to a billion is the number of milliseconds.
pub proof fn law_make_time(hour: int, min: int, sec: int, ms: int)
    requires
        -1_000_000_000 <= hour <= 1_000_000_000,
        -1_000_000_000 <= min <= 1_000_000_000,
        -1_000_000_000 <= sec <= 1_000_000_000,
        -1_000_000_000 <= ms <= 1_000_000_000,
    ensures
        made_time(int_double(hour), int_double(min), int_double(sec), int_double(ms))
            == int_double(hour * 3_600_000 + min * 60_000 + sec * 1000 + ms),
{
    reveal(made_time);
    lemma_truncation_int(hour);
    lemma_truncation_int(min);
    lemma_truncation_int(sec);
    lemma_truncation_int(ms);
    lemma_product_exact(hour, 3_600_000);
    lemma_product_exact(min, 60_000);
    lemma_product_exact(sec, 1000);
    lemma_sum_exact(hour * 3_600_000, min * 60_000);
    lemma_sum_exact(hour * 3_600_000 + min * 60_000, sec * 1000);
    lemma_sum_exact(hour * 3_600_000 + min * 60_000 + sec * 1000, ms);
}

/// `MakeDate` of a day that dates can have and an exact integer is the time value of the
/// calendar.
pub proof fn law_make_date(day: int, time: int)
    requires
        -100_000_000 <= day <= 100_000_000,
        -0x20_0000_0000_0000 < time < 0x20_0000_0000_0000,
    ensures
        made_date(int_double(day), int_double(time)) == int_double(day * 86_400_000 + time),
{
    reveal(made_date);
    lemma_product_exact(day, 86_400_000);
    lemma_sum_exact(day * 86_400_000, time);
}

/// A time value is left as it is by `TimeClip`.
pub proof fn law_time_clip(t: int)
    requires
        is_time(t),
    ensures
        clip(int_double(t)) == int_double(t),
{
    reveal(clip);
    lemma_truncation_int(t);
    lemma_sum_exact(t, 0);
    assert(int_double(0) == 0);
    lemma_int_exact(t);
    lemma_int_order(if t < 0 {
        -t
    } else {
        t
    }, 8_640_000_000_000_000);
    if t < 0 {
        lemma_round_ratio_range((-t) as nat, 1);
    }
}

/// What `TimeClip` gives is not-a-number or a time value.
pub proof fn law_time_clip_range(b: u64)
    ensures
        clip(b) == NAN || exists|t: int| is_time(t) && clip(b) == #[trigger] int_double(t),
{
    reveal(clip);
    if clip(b) != NAN {
        lemma_truncation(b);
        lemma_int_exact(8_640_000_000_000_000);
        let t = trunc_int(b);
        lemma_magnitude_bound(b, 8_640_000_000_000_000);
        assert(is_time(t));
        if t == 0 {
            let z = truncation(b);
            assert(signed_mantissa(z) == 0 && signed_mantissa(0) == 0);
            assert(exponent(z) == exponent(0));
            let p = pow2(0);
            assert(0 * p == 0) by (nonlinear_arith);
            assert(sum(z, 0) == 0);
            assert(int_double(0) == 0);
        } else {
            if exponent(b) >= 0 {
                lemma_integral_is_int(b);
            }
            lemma_sum_exact(t, 0);
            assert(int_double(0) == 0);
        }
        assert(clip(b) == int_double(t));
    }
}

} // verus!
