//! Texts of time values.
use vstd::prelude::*;

use crate::calendar::{
    date_from_time, date_of, hour_from_time, hour_of, is_time, min_from_time, minute_of,
    month_from_time, month_of, ms_from_time, ms_of, sec_from_time, second_of, week_day,
    weekday_of, year_from_time, year_of,
};
use crate::text::{padded, push_all, push_padded, utf16, utf16_of};

verus! {

/// Appends one code unit.
pub fn push_unit(out: &mut Vec<u16>, c: u16)
    ensures
        final(out)@ == old(out)@ + seq![c],
{
    out.push(c);
    proof {
        assert(out@ =~= old(out)@ + seq![c]);
    }
}

/// Name of a day of the week.
pub open spec fn weekday_name(w: int) -> Seq<u16> {
    if w == 0 {
        utf16_of("Sun"@)
    } else if w == 1 {
        utf16_of("Mon"@)
    } else if w == 2 {
        utf16_of("Tue"@)
    } else if w == 3 {
        utf16_of("Wed"@)
    } else if w == 4 {
        utf16_of("Thu"@)
    } else if w == 5 {
        utf16_of("Fri"@)
    } else {
        utf16_of("Sat"@)
    }
}

/// Name of a 0-based month.
pub open spec fn month_name(m: int) -> Seq<u16> {
    if m == 0 {
        utf16_of("Jan"@)
    } else if m == 1 {
        utf16_of("Feb"@)
    } else if m == 2 {
        utf16_of("Mar"@)
    } else if m == 3 {
        utf16_of("Apr"@)
    } else if m == 4 {
        utf16_of("May"@)
    } else if m == 5 {
        utf16_of("Jun"@)
    } else if m == 6 {
        utf16_of("Jul"@)
    } else if m == 7 {
        utf16_of("Aug"@)
    } else if m == 8 {
        utf16_of("Sep"@)
    } else if m == 9 {
        utf16_of("Oct"@)
    } else if m == 10 {
        utf16_of("Nov"@)
    } else {
        utf16_of("Dec"@)
    }
}

/// Name of a day of the week.
pub fn weekday_units(w: i64) -> (r: Vec<u16>)
    requires
        0 <= w < 7,
    ensures
        r@ == weekday_name(w as int),
{
    if w == 0 {
        utf16("Sun")
    } else if w == 1 {
        utf16("Mon")
    } else if w == 2 {
        utf16("Tue")
    } else if w == 3 {
        utf16("Wed")
    } else if w == 4 {
        utf16("Thu")
    } else if w == 5 {
        utf16("Fri")
    } else {
        utf16("Sat")
    }
}

/// Name of a 0-based month.
pub fn month_units(m: i64) -> (r: Vec<u16>)
    requires
        0 <= m < 12,
    ensures
        r@ == month_name(m as int),
{
    if m == 0 {
        utf16("Jan")
    } else if m == 1 {
        utf16("Feb")
    } else if m == 2 {
        utf16("Mar")
    } else if m == 3 {
        utf16("Apr")
    } else if m == 4 {
        utf16("May")
    } else if m == 5 {
        utf16("Jun")
    } else if m == 6 {
        utf16("Jul")
    } else if m == 7 {
        utf16("Aug")
    } else if m == 8 {
        utf16("Sep")
    } else if m == 9 {
        utf16("Oct")
    } else if m == 10 {
        utf16("Nov")
    } else {
        utf16("Dec")
    }
}

/// Year of the Date Time String Format: four digits from 0 to 9999, else a sign
/// and six digits.
pub open spec fn extended_year(y: int) -> Seq<u16> {
    if 0 <= y <= 9999 {
        padded(y as nat, 4)
    } else if y > 9999 {
        seq![0x2bu16] + padded(y as nat, 6)
    } else {
        seq![0x2du16] + padded((-y) as nat, 6)
    }
}

/// Year of the other formats: at least four digits, behind a minus sign where it
/// is negative.
pub open spec fn plain_year(y: int) -> Seq<u16> {
    if y < 0 {
        seq![0x2du16] + padded((-y) as nat, 4)
    } else {
        padded(y as nat, 4)
    }
}

/// Date and time in the Date Time String Format.
pub open spec fn iso_text(t: int) -> Seq<u16> {
    extended_year(year_of(t)) + seq![0x2du16] + padded((month_of(t) + 1) as nat, 2) + seq![0x2du16]
        + padded(date_of(t) as nat, 2) + seq![0x54u16] + padded(hour_of(t) as nat, 2)
        + seq![0x3au16] + padded(minute_of(t) as nat, 2) + seq![0x3au16] + padded(
        second_of(t) as nat,
        2,
    ) + seq![0x2eu16] + padded(ms_of(t) as nat, 3) + seq![0x5au16]
}

/// Weekday, month, day and year.
pub open spec fn date_part(t: int) -> Seq<u16> {
    weekday_name(weekday_of(t)) + seq![0x20u16] + month_name(month_of(t)) + seq![0x20u16] + padded(
        date_of(t) as nat,
        2,
    ) + seq![0x20u16] + plain_year(year_of(t))
}

/// Hours, minutes and seconds.
pub open spec fn clock(t: int) -> Seq<u16> {
    padded(hour_of(t) as nat, 2) + seq![0x3au16] + padded(minute_of(t) as nat, 2) + seq![0x3au16]
        + padded(second_of(t) as nat, 2)
}

/// Clock time with the zone.
pub open spec fn time_part(t: int) -> Seq<u16> {
    clock(t) + utf16_of(" GMT+0000 (Coordinated Universal Time)"@)
}

/// Date and time with the zone.
pub open spec fn date_time_text(t: int) -> Seq<u16> {
    date_part(t) + seq![0x20u16] + time_part(t)
}

/// Date and time in the format of `toUTCString`.
pub open spec fn utc_text(t: int) -> Seq<u16> {
    weekday_name(weekday_of(t)) + utf16_of(", "@) + padded(date_of(t) as nat, 2) + seq![0x20u16]
        + month_name(month_of(t)) + seq![0x20u16] + plain_year(year_of(t)) + seq![0x20u16] + clock(t)
        + utf16_of(" GMT"@)
}

/// Year of the Date Time String Format.
fn push_extended_year(out: &mut Vec<u16>, y: i64)
    requires
        -1_000_000 < y < 1_000_000,
    ensures
        final(out)@ == old(out)@ + extended_year(y as int),
{
    if 0 <= y && y <= 9999 {
        push_padded(out, y as u64, 4);
    } else if y > 9999 {
        push_unit(out, 0x2b);
        push_padded(out, y as u64, 6);
    } else {
        push_unit(out, 0x2d);
        push_padded(out, (-y) as u64, 6);
    }
    proof {
        assert(out@ =~= old(out)@ + extended_year(y as int));
    }
}

/// Year of the other formats.
fn push_plain_year(out: &mut Vec<u16>, y: i64)
    requires
        -1_000_000 < y < 1_000_000,
    ensures
        final(out)@ == old(out)@ + plain_year(y as int),
{
    if y < 0 {
        push_unit(out, 0x2d);
        push_padded(out, (-y) as u64, 4);
    } else {
        push_padded(out, y as u64, 4);
    }
    proof {
        assert(out@ =~= old(out)@ + plain_year(y as int));
    }
}

/// Date and time in the Date Time String Format.
pub fn iso_units(t: i64) -> (r: Vec<u16>)
    requires
        is_time(t as int),
    ensures
        r@ == iso_text(t as int),
{
    let mut out: Vec<u16> = Vec::new();
    push_extended_year(&mut out, year_from_time(t));
    proof {
        assert(out@ =~= extended_year(year_of(t as int)));
    }
    push_unit(&mut out, 0x2d);
    push_padded(&mut out, (month_from_time(t) + 1) as u64, 2);
    push_unit(&mut out, 0x2d);
    push_padded(&mut out, date_from_time(t) as u64, 2);
    push_unit(&mut out, 0x54);
    push_padded(&mut out, hour_from_time(t) as u64, 2);
    push_unit(&mut out, 0x3a);
    push_padded(&mut out, min_from_time(t) as u64, 2);
    push_unit(&mut out, 0x3a);
    push_padded(&mut out, sec_from_time(t) as u64, 2);
    push_unit(&mut out, 0x2e);
    push_padded(&mut out, ms_from_time(t) as u64, 3);
    push_unit(&mut out, 0x5a);
    out
}

/// Weekday, month, day and year.
pub fn date_string(t: i64) -> (r: Vec<u16>)
    requires
        is_time(t as int),
    ensures
        r@ == date_part(t as int),
{
    let mut out: Vec<u16> = weekday_units(week_day(t));
    push_unit(&mut out, 0x20);
    push_all(&mut out, month_units(month_from_time(t)).as_slice());
    push_unit(&mut out, 0x20);
    push_padded(&mut out, date_from_time(t) as u64, 2);
    push_unit(&mut out, 0x20);
    push_plain_year(&mut out, year_from_time(t));
    out
}

/// Hours, minutes and seconds.
fn clock_units(t: i64) -> (r: Vec<u16>)
    ensures
        r@ == clock(t as int),
{
    let mut out: Vec<u16> = Vec::new();
    push_padded(&mut out, hour_from_time(t) as u64, 2);
    proof {
        assert(out@ =~= padded(hour_of(t as int) as nat, 2));
    }
    push_unit(&mut out, 0x3a);
    push_padded(&mut out, min_from_time(t) as u64, 2);
    push_unit(&mut out, 0x3a);
    push_padded(&mut out, sec_from_time(t) as u64, 2);
    out
}

/// Clock time with the zone.
pub fn time_string(t: i64) -> (r: Vec<u16>)
    ensures
        r@ == time_part(t as int),
{
    let mut out: Vec<u16> = clock_units(t);
    push_all(&mut out, utf16(" GMT+0000 (Coordinated Universal Time)").as_slice());
    out
}

/// Date and time with the zone; `Invalid Date` without a time value.
pub fn format_date_time(t: Option<i64>) -> (r: Vec<u16>)
    requires
        t matches Some(n) ==> is_time(n as int),
    ensures
        r@ == match t {
            Some(n) => date_time_text(n as int),
            None => utf16_of("Invalid Date"@),
        },
{
    match t {
        None => utf16("Invalid Date"),
        Some(n) => {
            let mut out: Vec<u16> = date_string(n);
            push_unit(&mut out, 0x20);
            push_all(&mut out, time_string(n).as_slice());
            out
        },
    }
}

/// Date and time in the format of `toUTCString`.
pub fn utc_string(t: i64) -> (r: Vec<u16>)
    requires
        is_time(t as int),
    ensures
        r@ == utc_text(t as int),
{
    let mut out: Vec<u16> = weekday_units(week_day(t));
    push_all(&mut out, utf16(", ").as_slice());
    push_padded(&mut out, date_from_time(t) as u64, 2);
    push_unit(&mut out, 0x20);
    push_all(&mut out, month_units(month_from_time(t)).as_slice());
    push_unit(&mut out, 0x20);
    push_plain_year(&mut out, year_from_time(t));
    push_unit(&mut out, 0x20);
    push_all(&mut out, clock_units(t).as_slice());
    push_all(&mut out, utf16(" GMT").as_slice());
    out
}

} // verus!
