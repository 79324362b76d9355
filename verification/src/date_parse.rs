//! Reading dates from texts.
use vstd::prelude::*;

use crate::calendar::{
    MAX_TIME_VALUE, date_of, day_number, days_from_epoch_to_year, hour_of, is_leap, is_time,
    law_components, law_has_year_and_month, law_year_length, lemma_year_day_bounds,
    lemma_year_range, minute_of, month_of, month_start_of, ms_of, second_of, time_at, year_of,
};
use crate::date_text::{extended_year, iso_text};
use crate::decimal::{
    digits_end, digits_value, is_digit, lemma_digits_end, lemma_digits_value_bound, pow10,
    skip_digits,
};
use crate::text::{lemma_digits_value_shift, lemma_padded, padded};

verus! {

/// Whether `s[i..i + n]` lies in the text and holds digits only.
pub open spec fn fixed_digits(s: Seq<u16>, i: int, n: int) -> bool {
    0 <= i && i + n <= s.len() && forall|k: int| i <= k < i + n ==> is_digit(#[trigger] s[k])
}

/// The number that exactly `n` digits at `i` spell.
pub open spec fn fixed(s: Seq<u16>, i: int, n: int) -> Option<int> {
    if fixed_digits(s, i, n) {
        Some(digits_value(s, i, i + n) as int)
    } else {
        None
    }
}

/// The unit at `i`, `-1` past the end.
pub open spec fn unit_at(s: Seq<u16>, i: int) -> int {
    if 0 <= i < s.len() {
        s[i] as int
    } else {
        -1
    }
}

/// What a date text says.
pub ghost struct IsoDate {
    /// The year.
    pub year: int,
    /// The month, from 1.
    pub month: int,
    /// The day of the month, from 1.
    pub day: int,
}

/// What a clock text says.
pub ghost struct IsoTime {
    /// The hour.
    pub hour: int,
    /// The minute.
    pub minute: int,
    /// The second.
    pub second: int,
    /// The millisecond.
    pub ms: int,
}

/// The year at the start of a text, and the index behind it: four digits, or a sign
/// and six digits that are not those of a negative zero.
pub open spec fn iso_year(s: Seq<u16>) -> Option<(int, int)> {
    if unit_at(s, 0) == 0x2b || unit_at(s, 0) == 0x2d {
        match fixed(s, 1, 6) {
            None => None,
            Some(y) => if s[0] == 0x2d {
                if y == 0 {
                    None
                } else {
                    Some((-y, 7))
                }
            } else {
                Some((y, 7))
            },
        }
    } else {
        match fixed(s, 0, 4) {
            None => None,
            Some(y) => Some((y, 4)),
        }
    }
}

/// A number of two digits behind a separator that lies in a range.
pub open spec fn iso_two(s: Seq<u16>, i: int, lo: int, hi: int) -> Option<int> {
    match fixed(s, i, 2) {
        Some(v) => if lo <= v <= hi {
            Some(v)
        } else {
            None
        },
        None => None,
    }
}

/// Month and day, where they are given, and the index behind them.
pub open spec fn iso_month_day(s: Seq<u16>, i: int) -> Option<(int, int, int)> {
    if unit_at(s, i) != 0x2d {
        Some((1, 1, i))
    } else {
        match iso_two(s, i + 1, 1, 12) {
            None => None,
            Some(m) => if unit_at(s, i + 3) != 0x2d {
                Some((m, 1, i + 3))
            } else {
                match iso_two(s, i + 4, 1, 31) {
                    None => None,
                    Some(d) => Some((m, d, i + 6)),
                }
            },
        }
    }
}

/// Milliseconds of the fraction `s[i..j]`: its first three digits, with zeros where
/// there are fewer.
pub open spec fn fraction_ms(s: Seq<u16>, i: int, j: int) -> int {
    if j - i >= 3 {
        digits_value(s, i, i + 3) as int
    } else if j - i == 2 {
        10 * digits_value(s, i, j) as int
    } else {
        100 * digits_value(s, i, j) as int
    }
}

/// Clock time behind `T`, `t` or a space, where it is given, and the index behind it.
pub open spec fn iso_time(s: Seq<u16>, i: int) -> Option<(IsoTime, int)> {
    let c = unit_at(s, i);
    if c != 0x54 && c != 0x74 && c != 0x20 {
        Some((IsoTime { hour: 0, minute: 0, second: 0, ms: 0 }, i))
    } else {
        match iso_two(s, i + 1, 0, 24) {
            None => None,
            Some(hour) => if unit_at(s, i + 3) != 0x3a {
                None
            } else {
                match iso_two(s, i + 4, 0, 59) {
                    None => None,
                    Some(minute) => if unit_at(s, i + 6) != 0x3a {
                        Some((IsoTime { hour, minute, second: 0, ms: 0 }, i + 6))
                    } else {
                        match iso_two(s, i + 7, 0, 59) {
                            None => None,
                            Some(second) => if unit_at(s, i + 9) != 0x2e {
                                Some((IsoTime { hour, minute, second, ms: 0 }, i + 9))
                            } else {
                                let end = digits_end(s, i + 10);
                                if end == i + 10 {
                                    None
                                } else {
                                    Some(
                                        (
                                            IsoTime {
                                                hour,
                                                minute,
                                                second,
                                                ms: fraction_ms(s, i + 10, end),
                                            },
                                            end,
                                        ),
                                    )
                                }
                            },
                        }
                    },
                }
            },
        }
    }
}

/// Minutes of the zone, where one is given, and the index behind it.
pub open spec fn iso_zone(s: Seq<u16>, i: int) -> Option<(int, int)> {
    let c = unit_at(s, i);
    if c == 0x5a || c == 0x7a {
        Some((0, i + 1))
    } else if c == 0x2b || c == 0x2d {
        match iso_two(s, i + 1, 0, 23) {
            None => None,
            Some(h) => if unit_at(s, i + 3) != 0x3a {
                None
            } else {
                match iso_two(s, i + 4, 0, 59) {
                    None => None,
                    Some(m) => Some(
                        (
                            if c == 0x2d {
                                -(h * 60 + m)
                            } else {
                                h * 60 + m
                            },
                            i + 6,
                        ),
                    ),
                }
            },
        }
    } else {
        Some((0, i))
    }
}

/// The time value of `t`, `None` where it is out of range.
pub open spec fn clip_int(t: int) -> Option<i64> {
    if is_time(t) {
        Some(t as i64)
    } else {
        None
    }
}

/// What a text in the Date Time String Format denotes: `None` for another text,
/// `Some(None)` for a date out of range.
pub open spec fn iso_value(s: Seq<u16>) -> Option<Option<i64>> {
    match iso_year(s) {
        None => None,
        Some((year, i)) => match iso_month_day(s, i) {
            None => None,
            Some((month, day, j)) => match iso_time(s, j) {
                None => None,
                Some((time, k)) => match iso_zone(s, k) {
                    None => None,
                    Some((zone, end)) => if end != s.len() || (time.hour == 24 && (time.minute != 0
                        || time.second != 0 || time.ms != 0)) {
                        None
                    } else {
                        Some(
                            clip_int(
                                time_at(
                                    day_number(year, month - 1, day),
                                    time.hour,
                                    time.minute,
                                    time.second,
                                    time.ms,
                                ) - zone * 60_000,
                            ),
                        )
                    },
                },
            },
        },
    }
}

/// Parses exactly `len` digits at `i`.
pub fn parse_fixed(s: &[u16], i: usize, len: usize) -> (r: Option<u32>)
    requires
        i + len <= usize::MAX,
    ensures
        r == if len > 0 && fixed_digits(s@, i as int, len as int) && digits_value(
            s@,
            i as int,
            i + len,
        ) <= u32::MAX {
            Some(digits_value(s@, i as int, i + len) as u32)
        } else {
            None
        },
{
    if i + len > s.len() || len == 0 {
        return None;
    }
    let mut v: u64 = 0;
    let mut big: bool = false;
    let mut k: usize = i;
    while k < i + len
        invariant
            i <= k <= i + len,
            i + len <= s@.len(),
            s@.len() <= usize::MAX,
            forall|j: int| i <= j < k ==> is_digit(#[trigger] s@[j]),
            v <= u32::MAX,
            !big ==> v == digits_value(s@, i as int, k as int),
            big ==> digits_value(s@, i as int, k as int) > u32::MAX,
        decreases i + len - k,
    {
        let c: u16 = s[k];
        if c < 0x30 || c > 0x39 {
            assert(!is_digit(s@[k as int]));
            return None;
        }
        if !big {
            v = v * 10 + (c - 0x30) as u64;
            if v > 0xffff_ffff {
                big = true;
                v = 0;
            }
        }
        k = k + 1;
    }
    if big {
        None
    } else {
        Some(v as u32)
    }
}

/// Two digits whose number lies in a range.
fn parse_two(s: &[u16], i: usize, lo: i64, hi: i64) -> (r: Option<i64>)
    requires
        i + 2 <= usize::MAX,
    ensures
        match iso_two(s@, i as int, lo as int, hi as int) {
            Some(v) => r == Some(v as i64) && lo <= v <= hi,
            None => r is None,
        },
{
    proof {
        lemma_two_bound(s@, i as int);
    }
    match parse_fixed(s, i, 2) {
        None => None,
        Some(v) => {
            let n: i64 = v as i64;
            if lo <= n && n <= hi {
                Some(n)
            } else {
                None
            }
        },
    }
}

proof fn lemma_two_bound(s: Seq<u16>, i: int)
    ensures
        fixed_digits(s, i, 2) ==> digits_value(s, i, i + 2) <= 99,
{
    if fixed_digits(s, i, 2) {
        lemma_fixed_bound(s, i, 2);
        reveal_with_fuel(pow10, 3);
    }
}

proof fn lemma_fixed_bound(s: Seq<u16>, i: int, n: int)
    requires
        n >= 0,
        fixed_digits(s, i, n),
    ensures
        digits_value(s, i, i + n) < pow10(n as nat),
{
    lemma_digits_value_bound(s, i, i + n);
}

/// The unit at `i`, zero past the end.
fn peek(s: &[u16], i: usize) -> (r: u16)
    ensures
        unit_at(s@, i as int) >= 0 ==> r == unit_at(s@, i as int),
        unit_at(s@, i as int) < 0 ==> r == 0,
{
    if i < s.len() {
        s[i]
    } else {
        0
    }
}

/// The year at the start of a text, and the index behind it.
fn parse_iso_year(s: &[u16]) -> (r: Option<(i64, usize)>)
    ensures
        match iso_year(s@) {
            Some((y, i)) => r is Some && r.unwrap().0 == y && r.unwrap().1 == i && -999_999 <= y
                <= 999_999 && i <= s@.len(),
            None => r is None,
        },
{
    let c: u16 = peek(s, 0);
    if c == 0x2b || c == 0x2d {
        proof {
            if fixed_digits(s@, 1, 6) {
                lemma_fixed_bound(s@, 1, 6);
                reveal_with_fuel(pow10, 7);
            }
        }
        match parse_fixed(s, 1, 6) {
            None => None,
            Some(y) => if c == 0x2d {
                if y == 0 {
                    None
                } else {
                    Some((-(y as i64), 7))
                }
            } else {
                Some((y as i64, 7))
            },
        }
    } else {
        proof {
            if fixed_digits(s@, 0, 4) {
                lemma_fixed_bound(s@, 0, 4);
                reveal_with_fuel(pow10, 5);
            }
        }
        match parse_fixed(s, 0, 4) {
            None => None,
            Some(y) => Some((y as i64, 4)),
        }
    }
}

/// Month and day, where they are given, and the index behind them.
fn parse_iso_month_day(s: &[u16], i: usize) -> (r: Option<(i64, i64, usize)>)
    requires
        i <= s@.len(),
    ensures
        match iso_month_day(s@, i as int) {
            Some((m, d, j)) => r is Some && r.unwrap().0 == m && r.unwrap().1 == d && r.unwrap().2
                == j && 1 <= m <= 12 && 1 <= d <= 31 && j <= s@.len(),
            None => r is None,
        },
{
    let n: usize = s.len();
    if peek(s, i) != 0x2d {
        return Some((1, 1, i));
    }
    if n - i < 3 {
        return None;
    }
    match parse_two(s, i + 1, 1, 12) {
        None => None,
        Some(m) => if peek(s, i + 3) != 0x2d {
            Some((m, 1, i + 3))
        } else {
            if n - i < 6 {
                return None;
            }
            match parse_two(s, i + 4, 1, 31) {
                None => None,
                Some(d) => Some((m, d, i + 6)),
            }
        },
    }
}

/// Milliseconds of the fraction `s[i..j]`.
fn parse_fraction(s: &[u16], i: usize, j: usize) -> (r: i64)
    requires
        i < j <= s@.len(),
        forall|k: int| i <= k < j ==> is_digit(#[trigger] s@[k]),
    ensures
        r == fraction_ms(s@, i as int, j as int),
        0 <= r <= 999,
{
    proof {
        reveal_with_fuel(digits_value, 4);
        assert(is_digit(s@[i as int]));
    }
    let a: i64 = (s[i] - 0x30) as i64;
    if j - i == 1 {
        return 100 * a;
    }
    assert(is_digit(s@[i + 1]));
    let b: i64 = (s[i + 1] - 0x30) as i64;
    if j - i == 2 {
        return 10 * (10 * a + b);
    }
    assert(is_digit(s@[i + 2]));
    let c: i64 = (s[i + 2] - 0x30) as i64;
    100 * a + 10 * b + c
}

/// A clock time.
struct Clock {
    hour: i64,
    minute: i64,
    second: i64,
    ms: i64,
}

/// Clock time, where it is given, and the index behind it.
fn parse_iso_time(s: &[u16], i: usize) -> (r: Option<(Clock, usize)>)
    requires
        i <= s@.len(),
    ensures
        match iso_time(s@, i as int) {
            Some((t, j)) => {
                &&& r is Some
                &&& r.unwrap().0.hour == t.hour
                &&& r.unwrap().0.minute == t.minute
                &&& r.unwrap().0.second == t.second
                &&& r.unwrap().0.ms == t.ms
                &&& r.unwrap().1 == j
                &&& 0 <= t.hour <= 24
                &&& 0 <= t.minute <= 59
                &&& 0 <= t.second <= 59
                &&& 0 <= t.ms <= 999
                &&& j <= s@.len()
            },
            None => r is None,
        },
{
    let n: usize = s.len();
    let c: u16 = peek(s, i);
    if c != 0x54 && c != 0x74 && c != 0x20 {
        return Some((Clock { hour: 0, minute: 0, second: 0, ms: 0 }, i));
    }
    if n - i < 6 {
        return None;
    }
    let hour: i64 = match parse_two(s, i + 1, 0, 24) {
        None => {
            return None;
        },
        Some(v) => v,
    };
    if peek(s, i + 3) != 0x3a {
        return None;
    }
    let minute: i64 = match parse_two(s, i + 4, 0, 59) {
        None => {
            return None;
        },
        Some(v) => v,
    };
    if peek(s, i + 6) != 0x3a {
        return Some((Clock { hour, minute, second: 0, ms: 0 }, i + 6));
    }
    if n - i < 9 {
        return None;
    }
    let second: i64 = match parse_two(s, i + 7, 0, 59) {
        None => {
            return None;
        },
        Some(v) => v,
    };
    if peek(s, i + 9) != 0x2e {
        return Some((Clock { hour, minute, second, ms: 0 }, i + 9));
    }
    let end: usize = skip_digits(s, i + 10);
    if end == i + 10 {
        return None;
    }
    proof {
        lemma_digits_end(s@, i + 10);
    }
    let ms: i64 = parse_fraction(s, i + 10, end);
    Some((Clock { hour, minute, second, ms }, end))
}

/// Minutes of the zone, where one is given, and the index behind it.
fn parse_iso_zone(s: &[u16], i: usize) -> (r: Option<(i64, usize)>)
    requires
        i <= s@.len(),
    ensures
        match iso_zone(s@, i as int) {
            Some((z, j)) => r is Some && r.unwrap().0 == z && r.unwrap().1 == j && -1440 < z < 1440
                && j <= s@.len(),
            None => r is None,
        },
{
    let n: usize = s.len();
    let c: u16 = peek(s, i);
    if c == 0x5a || c == 0x7a {
        return Some((0, i + 1));
    }
    if c != 0x2b && c != 0x2d {
        return Some((0, i));
    }
    if n - i < 6 {
        return None;
    }
    let h: i64 = match parse_two(s, i + 1, 0, 23) {
        None => {
            return None;
        },
        Some(v) => v,
    };
    if peek(s, i + 3) != 0x3a {
        return None;
    }
    match parse_two(s, i + 4, 0, 59) {
        None => None,
        Some(m) => if c == 0x2d {
            Some((-(h * 60 + m), i + 6))
        } else {
            Some((h * 60 + m, i + 6))
        },
    }
}

/// Parses the Date Time String Format: `None` for any deviation, `Some(None)` for a
/// date out of range.
pub fn parse_iso(s: &[u16]) -> (r: Option<Option<i64>>)
    ensures
        r == iso_value(s@),
{
    let (year, i) = match parse_iso_year(s) {
        None => {
            return None;
        },
        Some(x) => x,
    };
    let (month, day, j) = match parse_iso_month_day(s, i) {
        None => {
            return None;
        },
        Some(x) => x,
    };
    let (time, k) = match parse_iso_time(s, j) {
        None => {
            return None;
        },
        Some(x) => x,
    };
    let (zone, end) = match parse_iso_zone(s, k) {
        None => {
            return None;
        },
        Some(x) => x,
    };
    if end != s.len() {
        return None;
    }
    if time.hour == 24 && (time.minute != 0 || time.second != 0 || time.ms != 0) {
        return None;
    }
    proof {
        lemma_year_day_bounds(year as int);
    }
    let days: i64 = days_from_epoch_to_year(year) + month_start_of(month - 1, is_leap(year)) + day
        - 1;
    let clock: i64 = time.hour * 3_600_000 + time.minute * 60_000 + time.second * 1000 + time.ms
        - zone * 60_000;
    Some(clip_days(days, clock))
}

/// The time value `clock` milliseconds into a day, `None` where it is out of range.
pub fn clip_days(days: i64, clock: i64) -> (r: Option<i64>)
    requires
        -100_000_000_000 < clock < 100_000_000_000,
    ensures
        r == clip_int(days * 86_400_000 + clock),
{
    if days < -200_000_000 || days > 200_000_000 {
        return None;
    }
    let t: i64 = days * 86_400_000 + clock;
    if -MAX_TIME_VALUE <= t && t <= MAX_TIME_VALUE {
        Some(t)
    } else {
        None
    }
}

proof fn lemma_fixed_at(s: Seq<u16>, i: int, n: nat, w: nat)
    requires
        0 <= i,
        i + w <= s.len(),
        w >= 1,
        n < pow10(w),
        s.subrange(i, i + w) == padded(n, w),
    ensures
        fixed(s, i, w as int) == Some(n as int),
{
    lemma_padded(n, w);
    let p = padded(n, w);
    assert forall|k: int| 0 <= k < w implies s[i + k] == #[trigger] p[k] by {
        assert(s.subrange(i, i + w)[k] == s[i + k]);
    }
    lemma_digits_value_shift(s, i, p, w);
    assert forall|k: int| i <= k < i + w implies is_digit(#[trigger] s[k]) by {
        assert(s[i + (k - i)] == p[k - i]);
    }
}

proof fn lemma_extended_year(y: int)
    requires
        -1_000_000 < y < 1_000_000,
    ensures
        0 <= y <= 9999 ==> extended_year(y).len() == 4,
        !(0 <= y <= 9999) ==> extended_year(y).len() == 7,
{
    reveal_with_fuel(pow10, 8);
    if 0 <= y <= 9999 {
        lemma_padded(y as nat, 4);
    } else if y > 9999 {
        lemma_padded(y as nat, 6);
    } else {
        lemma_padded((-y) as nat, 6);
    }
}

/// Reading back the ISO text of a time value gives the time value.
pub proof fn law_iso_round_trip(t: int)
    requires
        is_time(t),
    ensures
        iso_value(iso_text(t)) == Some(Some(t as i64)),
{
    let s = iso_text(t);
    let y = year_of(t);
    lemma_year_range(t);
    law_has_year_and_month(t);
    law_components(t);
    lemma_extended_year(y);
    reveal_with_fuel(pow10, 8);
    let ys = extended_year(y);
    let l = ys.len() as int;
    let mo = (month_of(t) + 1) as nat;
    let da = date_of(t) as nat;
    let ho = hour_of(t) as nat;
    let mi = minute_of(t) as nat;
    let se = second_of(t) as nat;
    let ms = ms_of(t) as nat;
    law_year_length(y);
    assert(1 <= date_of(t) <= 31);
    lemma_padded(mo, 2);
    lemma_padded(da, 2);
    lemma_padded(ho, 2);
    lemma_padded(mi, 2);
    lemma_padded(se, 2);
    lemma_padded(ms, 3);
    assert(s.len() == l + 20);
    assert(s.subrange(0, l) =~= ys);
    assert(s[l] == 0x2d);
    assert(s.subrange(l + 1, l + 3) =~= padded(mo, 2));
    assert(s[l + 3] == 0x2d);
    assert(s.subrange(l + 4, l + 6) =~= padded(da, 2));
    assert(s[l + 6] == 0x54);
    assert(s.subrange(l + 7, l + 9) =~= padded(ho, 2));
    assert(s[l + 9] == 0x3a);
    assert(s.subrange(l + 10, l + 12) =~= padded(mi, 2));
    assert(s[l + 12] == 0x3a);
    assert(s.subrange(l + 13, l + 15) =~= padded(se, 2));
    assert(s[l + 15] == 0x2e);
    assert(s.subrange(l + 16, l + 19) =~= padded(ms, 3));
    assert(s[l + 19] == 0x5a);
    lemma_fixed_at(s, l + 1, mo, 2);
    lemma_fixed_at(s, l + 4, da, 2);
    lemma_fixed_at(s, l + 7, ho, 2);
    lemma_fixed_at(s, l + 10, mi, 2);
    lemma_fixed_at(s, l + 13, se, 2);
    lemma_fixed_at(s, l + 16, ms, 3);
    assert(iso_year(s) == Some((y, l))) by {
        if 0 <= y <= 9999 {
            lemma_fixed_at(s, 0, y as nat, 4);
            lemma_padded(y as nat, 4);
            assert(s[0] == ys[0]);
            assert(is_digit(ys[0]));
        } else if y > 9999 {
            assert(s[0] == ys[0]);
            assert(s.subrange(1, 7) =~= padded(y as nat, 6)) by {
                assert(s.subrange(1, 7) =~= ys.subrange(1, 7));
                assert(ys.subrange(1, 7) =~= padded(y as nat, 6)) by {
                    lemma_padded(y as nat, 6);
                }
            }
            lemma_fixed_at(s, 1, y as nat, 6);
        } else {
            assert(s[0] == ys[0]);
            assert(s.subrange(1, 7) =~= padded((-y) as nat, 6)) by {
                assert(s.subrange(1, 7) =~= ys.subrange(1, 7));
                assert(ys.subrange(1, 7) =~= padded((-y) as nat, 6)) by {
                    lemma_padded((-y) as nat, 6);
                }
            }
            lemma_fixed_at(s, 1, (-y) as nat, 6);
        }
    }
    assert(iso_month_day(s, l) == Some((mo as int, da as int, l + 6)));
    assert(digits_end(s, l + 16) == l + 19) by {
        assert(is_digit(s[l + 16]) && is_digit(s[l + 17]) && is_digit(s[l + 18]));
        reveal_with_fuel(digits_end, 4);
    }
    assert(iso_time(s, l + 6) == Some(
        (
            IsoTime { hour: ho as int, minute: mi as int, second: se as int, ms: ms as int },
            l + 19,
        ),
    ));
    assert(iso_zone(s, l + 19) == Some((0int, l + 20)));
    let v = time_at(day_number(y, mo - 1, da as int), ho as int, mi as int, se as int, ms as int);
    assert(v == t);
}

} // verus!
