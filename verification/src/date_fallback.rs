//! Reading dates in the formats of `toString` and `toUTCString`.
use vstd::prelude::*;

use crate::date_arith::{
    clip, made_date, made_day, made_time, make_date, make_day, make_time, time_clip,
};
use crate::date_parse::{iso_value, parse_iso};
use crate::date_text::{month_name, month_units, weekday_name, weekday_units};
use crate::decimal::{
    digits_end, digits_value, is_digit, lemma_digits_end, parse_double, skip_digits,
    text_double,
};
use crate::double::{NAN, difference, fmul, from_i64, fsub, int_double, product};
use crate::text::{
    copy_range, eq_ignore_case, same_ignoring_case, same_units, split_words, trim, trimmed,
    utf16, utf16_of, views, words,
};

verus! {

/// Length of a text without the commas at its end.
pub open spec fn commas_start(t: Seq<u16>, j: int) -> int
    decreases j,
{
    if 0 < j <= t.len() && t[j - 1] == 0x2c {
        commas_start(t, j - 1)
    } else {
        j
    }
}

/// The text without the commas at its end.
pub open spec fn without_commas(t: Seq<u16>) -> Seq<u16> {
    t.take(commas_start(t, t.len() as int))
}

/// The text without the commas at its end.
fn trim_commas(t: &[u16]) -> (r: Vec<u16>)
    ensures
        r@ == without_commas(t@),
{
    let mut j: usize = t.len();
    while j > 0 && t[j - 1] == 0x2c
        invariant
            j <= t@.len(),
            commas_start(t@, t@.len() as int) == commas_start(t@, j as int),
        decreases j,
    {
        j = j - 1;
    }
    let r: Vec<u16> = copy_range(t, 0, j);
    proof {
        assert(t@.subrange(0, j as int) =~= t@.take(j as int));
    }
    r
}

/// Whether a word starts with the name of a day of the week.
pub open spec fn is_weekday(t: Seq<u16>) -> bool {
    let bare = without_commas(t);
    bare.len() >= 3 && exists|w: int| 0 <= w < 7 && bare.take(3) == #[trigger] weekday_name(w)
}

/// Whether a word starts with the name of a day of the week.
fn starts_with_weekday(t: &[u16]) -> (r: bool)
    ensures
        r == is_weekday(t@),
{
    let bare: Vec<u16> = trim_commas(t);
    if bare.len() < 3 {
        return false;
    }
    let head: Vec<u16> = copy_range(bare.as_slice(), 0, 3);
    proof {
        assert(head@ =~= bare@.take(3));
    }
    let mut w: i64 = 0;
    while w < 7
        invariant
            0 <= w <= 7,
            head@ == bare@.take(3),
            bare@ == without_commas(t@),
            bare@.len() >= 3,
            forall|k: int| 0 <= k < w ==> head@ != #[trigger] weekday_name(k),
        decreases 7 - w,
    {
        if same_units(head.as_slice(), weekday_units(w).as_slice()) {
            assert(bare@.take(3) == weekday_name(w as int));
            return true;
        }
        w = w + 1;
    }
    false
}

/// The 0-based month whose name a word starts with, in any case, from `m` on.
pub open spec fn month_from(t: Seq<u16>, m: int) -> Option<int>
    decreases 12 - m,
{
    if m >= 12 || t.len() < 3 {
        None
    } else if same_ignoring_case(month_name(m), t.take(3)) {
        Some(m)
    } else {
        month_from(t, m + 1)
    }
}

/// 0-based month index from a three-letter English month name.
fn month_index(t: &[u16]) -> (r: Option<i64>)
    ensures
        match month_from(t@, 0) {
            Some(m) => r == Some(m as i64) && 0 <= m < 12,
            None => r is None,
        },
{
    if t.len() < 3 {
        return None;
    }
    let head: Vec<u16> = copy_range(t, 0, 3);
    proof {
        assert(head@ =~= t@.take(3));
    }
    let mut m: i64 = 0;
    while m < 12
        invariant
            0 <= m <= 12,
            t@.len() >= 3,
            head@ == t@.take(3),
            month_from(t@, 0) == month_from(t@, m as int),
        decreases 12 - m,
    {
        if eq_ignore_case(month_units(m).as_slice(), head.as_slice()) {
            return Some(m);
        }
        m = m + 1;
    }
    None
}

/// Index of the first colon from `i` on.
pub open spec fn colon(t: Seq<u16>, i: int) -> int
    decreases t.len() - i,
{
    if 0 <= i < t.len() && t[i] != 0x3a {
        colon(t, i + 1)
    } else {
        i
    }
}

/// Index of the first colon from `i` on.
fn find_colon(t: &[u16], i: usize) -> (r: usize)
    requires
        i <= t@.len(),
    ensures
        r == colon(t@, i as int),
        i <= r <= t@.len(),
{
    let mut j: usize = i;
    while j < t.len() && t[j] != 0x3a
        invariant
            i <= j <= t@.len(),
            colon(t@, i as int) == colon(t@, j as int),
        decreases t@.len() - j,
    {
        j = j + 1;
    }
    j
}

/// Hours, minutes and seconds between colons; the seconds may be missing.
pub open spec fn hms(t: Seq<u16>) -> Option<(u64, u64, u64)> {
    let a = colon(t, 0);
    let b = colon(t, a + 1);
    let c = colon(t, b + 1);
    if a >= t.len() {
        None
    } else {
        match (text_double(t.subrange(0, a)), text_double(t.subrange(a + 1, b))) {
            (Some(h), Some(m)) => if b >= t.len() {
                Some((h, m, int_double(0)))
            } else {
                match text_double(t.subrange(b + 1, c)) {
                    Some(s) => Some((h, m, s)),
                    None => None,
                }
            },
            _ => None,
        }
    }
}

/// `HH:mm` or `HH:mm:ss`, returning `(h, m, s)`.
fn parse_hms(t: &[u16]) -> (r: Option<(u64, u64, u64)>)
    ensures
        r == hms(t@),
{
    let n: usize = t.len();
    let a: usize = find_colon(t, 0);
    if a >= n {
        return None;
    }
    let b: usize = find_colon(t, a + 1);
    let h: u64 = match parse_double(copy_range(t, 0, a).as_slice()) {
        None => {
            return None;
        },
        Some(v) => v,
    };
    let m: u64 = match parse_double(copy_range(t, a + 1, b).as_slice()) {
        None => {
            return None;
        },
        Some(v) => v,
    };
    if b >= n {
        return Some((h, m, from_i64(0)));
    }
    let c: usize = find_colon(t, b + 1);
    match parse_double(copy_range(t, b + 1, c).as_slice()) {
        None => None,
        Some(s) => Some((h, m, s)),
    }
}

/// The digits of a text, in order, from `i` on.
pub open spec fn digits_of(t: Seq<u16>, i: int) -> Seq<u16>
    decreases t.len() - i,
{
    if 0 <= i < t.len() {
        if is_digit(t[i]) {
            seq![t[i]] + digits_of(t, i + 1)
        } else {
            digits_of(t, i + 1)
        }
    } else {
        seq![]
    }
}

/// Where the sign of an offset word is expected: behind `GMT` or `UTC`, if it starts
/// with one of them.
pub open spec fn zone_prefix(t: Seq<u16>) -> int {
    if t.len() >= 3 && (t.take(3) == utf16_of("GMT"@) || t.take(3) == utf16_of("UTC"@)) {
        3
    } else {
        0
    }
}

/// Minutes of an offset word: a sign with four digits behind it, whatever stands
/// between them.
pub open spec fn offset_minutes(t: Seq<u16>) -> Option<int> {
    let p = zone_prefix(t);
    if p < t.len() && (t[p] == 0x2b || t[p] == 0x2d) {
        let d = digits_of(t, p + 1);
        if d.len() == 4 {
            let v = digits_value(d, 0, 2) * 60 + digits_value(d, 2, 4);
            Some(
                if t[p] == 0x2d {
                    -(v as int)
                } else {
                    v as int
                },
            )
        } else {
            None
        }
    } else {
        None
    }
}

/// The digits of a text from `i` on.
fn collect_digits(t: &[u16], i: usize) -> (r: Vec<u16>)
    requires
        i <= t@.len(),
    ensures
        r@ == digits_of(t@, i as int),
        forall|k: int| 0 <= k < r@.len() ==> is_digit(#[trigger] r@[k]),
{
    let mut out: Vec<u16> = Vec::new();
    let mut j: usize = i;
    proof {
        assert(out@ + digits_of(t@, i as int) =~= digits_of(t@, i as int));
    }
    while j < t.len()
        invariant
            i <= j <= t@.len(),
            digits_of(t@, i as int) == out@ + digits_of(t@, j as int),
            forall|k: int| 0 <= k < out@.len() ==> is_digit(#[trigger] out@[k]),
        decreases t@.len() - j,
    {
        let c: u16 = t[j];
        if 0x30 <= c && c <= 0x39 {
            let ghost before = out@;
            out.push(c);
            proof {
                assert(before + (seq![c] + digits_of(t@, j + 1)) =~= out@ + digits_of(t@, j + 1));
            }
        }
        j = j + 1;
    }
    proof {
        assert(out@ + digits_of(t@, j as int) =~= out@);
    }
    out
}

/// Parses a `GMT±HHMM`/`±HH:MM` offset word into minutes.
fn parse_offset_token(t: &[u16]) -> (r: Option<i64>)
    ensures
        match offset_minutes(t@) {
            Some(v) => r == Some(v as i64) && -6100 < v < 6100,
            None => r is None,
        },
{
    let mut p: usize = 0;
    if t.len() >= 3 {
        let head: Vec<u16> = copy_range(t, 0, 3);
        proof {
            assert(head@ =~= t@.take(3));
        }
        if same_units(head.as_slice(), utf16("GMT").as_slice()) || same_units(
            head.as_slice(),
            utf16("UTC").as_slice(),
        ) {
            p = 3;
        }
    }
    if p >= t.len() || (t[p] != 0x2b && t[p] != 0x2d) {
        return None;
    }
    let d: Vec<u16> = collect_digits(t, p + 1);
    if d.len() != 4 {
        return None;
    }
    proof {
        reveal_with_fuel(digits_value, 3);
        assert(is_digit(d@[0]) && is_digit(d@[1]) && is_digit(d@[2]) && is_digit(d@[3]));
    }
    let h: i64 = 10 * ((d[0] - 0x30) as i64) + (d[1] - 0x30) as i64;
    let m: i64 = 10 * ((d[2] - 0x30) as i64) + (d[3] - 0x30) as i64;
    if t[p] == 0x2d {
        Some(-(h * 60 + m))
    } else {
        Some(h * 60 + m)
    }
}

/// The integer that a text spells, with an optional sign, in the range of `i64`.
pub open spec fn integer_of(t: Seq<u16>) -> Option<int> {
    let i: int = if t.len() > 0 && (t[0] == 0x2b || t[0] == 0x2d) {
        1
    } else {
        0
    };
    if i < t.len() && digits_end(t, i) == t.len() {
        let v = digits_value(t, i, t.len() as int) as int;
        let n = if t[0] == 0x2d {
            -v
        } else {
            v
        };
        if i64::MIN <= n <= i64::MAX {
            Some(n)
        } else {
            None
        }
    } else {
        None
    }
}

/// The integer that a text spells.
pub fn parse_integer(t: &[u16]) -> (r: Option<i64>)
    ensures
        match integer_of(t@) {
            Some(n) => r == Some(n as i64),
            None => r is None,
        },
{
    let n: usize = t.len();
    let minus: bool = n > 0 && t[0] == 0x2d;
    let i: usize = if n > 0 && (t[0] == 0x2b || t[0] == 0x2d) {
        1
    } else {
        0
    };
    if i >= n || skip_digits(t, i) != n {
        return None;
    }
    proof {
        lemma_digits_end(t@, i as int);
    }
    let mut v: i128 = 0;
    let mut big: bool = false;
    let mut k: usize = i;
    while k < n
        invariant
            i <= k <= n,
            n == t@.len(),
            forall|j: int| i <= j < n ==> is_digit(#[trigger] t@[j]),
            0 <= v <= 0x8000_0000_0000_0000,
            !big ==> v == digits_value(t@, i as int, k as int),
            big ==> digits_value(t@, i as int, k as int) > 0x8000_0000_0000_0000,
        decreases n - k,
    {
        assert(is_digit(t@[k as int]));
        if !big {
            v = v * 10 + (t[k] - 0x30) as i128;
            if v > 0x8000_0000_0000_0000 {
                big = true;
                v = 0;
            }
        }
        k = k + 1;
    }
    if big {
        return None;
    }
    if minus {
        Some((-v) as i64)
    } else if v == 0x8000_0000_0000_0000 {
        None
    } else {
        Some(v as i64)
    }
}

/// Minutes of the last offset word among `ws[i..]`; `GMT` and `UTC` alone say nothing.
pub open spec fn last_offset(ws: Seq<Seq<u16>>, i: int, offset: int) -> int
    decreases ws.len() - i,
{
    if 0 <= i < ws.len() {
        let w = ws[i];
        if same_ignoring_case(w, utf16_of("GMT"@)) || same_ignoring_case(w, utf16_of("UTC"@)) {
            last_offset(ws, i + 1, offset)
        } else {
            match offset_minutes(w) {
                Some(v) => last_offset(ws, i + 1, v),
                None => last_offset(ws, i + 1, offset),
            }
        }
    } else {
        offset
    }
}

/// Minutes of the last offset word among `ws[i..]`.
fn find_offset(ws: &Vec<Vec<u16>>, i: usize) -> (r: i64)
    requires
        i <= ws@.len(),
    ensures
        r == last_offset(views(ws@), i as int, 0),
        -6100 < r < 6100,
{
    let mut offset: i64 = 0;
    let mut j: usize = i;
    while j < ws.len()
        invariant
            i <= j <= ws@.len(),
            -6100 < offset < 6100,
            last_offset(views(ws@), i as int, 0) == last_offset(
                views(ws@),
                j as int,
                offset as int,
            ),
        decreases ws@.len() - j,
    {
        let w: &Vec<u16> = &ws[j];
        proof {
            assert(views(ws@)[j as int] == w@);
        }
        if !eq_ignore_case(w.as_slice(), utf16("GMT").as_slice()) && !eq_ignore_case(
            w.as_slice(),
            utf16("UTC").as_slice(),
        ) {
            match parse_offset_token(w.as_slice()) {
                Some(v) => {
                    offset = v;
                },
                None => {},
            }
        }
        j = j + 1;
    }
    offset
}

/// Day and month at the start of `ws[i..]`, in either order.
pub open spec fn day_and_month(ws: Seq<Seq<u16>>, i: int) -> Option<(u64, int)> {
    if i >= ws.len() {
        None
    } else {
        match month_from(ws[i], 0) {
            Some(m) => if i + 1 >= ws.len() {
                None
            } else {
                match text_double(without_commas(ws[i + 1])) {
                    Some(d) => Some((d, m)),
                    None => None,
                }
            },
            None => match text_double(without_commas(ws[i])) {
                None => None,
                Some(d) => if i + 1 >= ws.len() {
                    None
                } else {
                    match month_from(ws[i + 1], 0) {
                        Some(m) => Some((d, m)),
                        None => None,
                    }
                },
            },
        }
    }
}

/// The time value of a date given in words, not-a-number where they are no date.
pub open spec fn fallback_value(ws: Seq<Seq<u16>>) -> u64 {
    let i: int = if ws.len() > 0 && is_weekday(ws[0]) {
        1
    } else {
        0
    };
    match day_and_month(ws, i) {
        None => NAN,
        Some((day, month)) => if i + 2 >= ws.len() {
            NAN
        } else {
            match integer_of(without_commas(ws[i + 2])) {
                None => NAN,
                Some(year) => {
                    let clock = if i + 3 < ws.len() {
                        hms(ws[i + 3])
                    } else {
                        None
                    };
                    let (h, m, s) = match clock {
                        Some(x) => x,
                        None => (int_double(0), int_double(0), int_double(0)),
                    };
                    let offset = last_offset(
                        ws,
                        if clock is Some {
                            i + 4
                        } else {
                            i + 3
                        },
                        0,
                    );
                    clip(
                        difference(
                            made_date(
                                made_day(int_double(year), int_double(month), day),
                                made_time(h, m, s, int_double(0)),
                            ),
                            product(int_double(offset), int_double(60_000)),
                        ),
                    )
                },
            }
        },
    }
}

/// Day and month at the start of `ws[i..]`, in either order.
fn parse_day_and_month(ws: &Vec<Vec<u16>>, i: usize) -> (r: Option<(u64, i64)>)
    requires
        i <= ws@.len(),
    ensures
        match day_and_month(views(ws@), i as int) {
            Some((d, m)) => r == Some((d, m as i64)) && 0 <= m < 12 && i + 2 <= ws@.len(),
            None => r is None,
        },
{
    let n: usize = ws.len();
    if i >= n {
        return None;
    }
    let ghost vs = views(ws@);
    proof {
        assert(vs[i as int] == ws@[i as int]@);
        if i + 1 < n {
            assert(vs[i + 1] == ws@[i + 1]@);
        }
    }
    match month_index(ws[i].as_slice()) {
        Some(m) => {
            if i + 1 >= n {
                return None;
            }
            match parse_double(trim_commas(ws[i + 1].as_slice()).as_slice()) {
                Some(d) => Some((d, m)),
                None => None,
            }
        },
        None => match parse_double(trim_commas(ws[i].as_slice()).as_slice()) {
            None => None,
            Some(d) => {
                if i + 1 >= n {
                    return None;
                }
                match month_index(ws[i + 1].as_slice()) {
                    Some(m) => Some((d, m)),
                    None => None,
                }
            },
        },
    }
}

/// Reads the shapes that `toString`, `toUTCString` and `toDateString` write, in both
/// orders of day and month; not-a-number for any other text.
pub fn parse_fallback(s: &[u16]) -> (r: u64)
    ensures
        r == fallback_value(words(s@, 0)),
{
    let ws: Vec<Vec<u16>> = split_words(s);
    let n: usize = ws.len();
    let ghost vs = views(ws@);
    proof {
        assert(vs.len() == n);
        assert(forall|k: int| 0 <= k < n ==> vs[k] == #[trigger] ws@[k]@);
    }
    let i: usize = if n > 0 && starts_with_weekday(ws[0].as_slice()) {
        1
    } else {
        0
    };
    let (day, month) = match parse_day_and_month(&ws, i) {
        None => {
            return NAN;
        },
        Some(x) => x,
    };
    if i + 2 >= n {
        return NAN;
    }
    let year: i64 = match parse_integer(trim_commas(ws[i + 2].as_slice()).as_slice()) {
        None => {
            return NAN;
        },
        Some(y) => y,
    };
    let clock: Option<(u64, u64, u64)> = if i + 3 < n {
        parse_hms(ws[i + 3].as_slice())
    } else {
        None
    };
    let rest: usize = if clock.is_some() {
        i + 4
    } else {
        i + 3
    };
    let (h, m, sec) = match clock {
        Some(x) => x,
        None => (from_i64(0), from_i64(0), from_i64(0)),
    };
    let offset: i64 = find_offset(&ws, rest);
    let date: u64 = make_date(
        make_day(from_i64(year), from_i64(month), day),
        make_time(h, m, sec, from_i64(0)),
    );
    time_clip(fsub(date, fmul(from_i64(offset), from_i64(60_000))))
}

/// The time value that a text denotes, not-a-number where it is no date.
pub open spec fn date_value(text: Seq<u16>) -> u64 {
    let s = trimmed(text);
    if s.len() == 0 {
        NAN
    } else {
        match iso_value(s) {
            Some(Some(t)) => int_double(t as int),
            Some(None) => NAN,
            None => fallback_value(words(s, 0)),
        }
    }
}

/// Parses a date text: the Date Time String Format, else the formats that dates are
/// written in.
pub fn parse_date(text: &[u16]) -> (r: u64)
    ensures
        r == date_value(text@),
{
    let s: Vec<u16> = trim(text);
    if s.len() == 0 {
        return NAN;
    }
    match parse_iso(s.as_slice()) {
        Some(Some(t)) => from_i64(t),
        Some(None) => NAN,
        None => parse_fallback(s.as_slice()),
    }
}

} // verus!
