//! Reading dates back from the texts that they are written in.
use vstd::prelude::*;

use crate::calendar::{
    date_of, day_number, day_of, hour_of, in_month, is_time, law_components,
    law_has_year_and_month, lemma_year_range, minute_of, month_of, ms_of, second_of, weekday_of,
    year_of,
};
use crate::date_arith::{
    clip, law_make_date, law_make_day, law_make_time, law_time_clip, made_date, made_day,
    made_time,
};
use crate::date_fallback::{
    colon, commas_start, date_value, day_and_month, digits_of, fallback_value, hms, integer_of,
    is_weekday, last_offset, month_from, offset_minutes, without_commas, zone_prefix,
};
use crate::date_parse::iso_year;
use crate::date_text::{clock, date_time_text, month_name, plain_year, utc_text, weekday_name};
use crate::decimal::{
    decimal_text, digits_end, digits_value, has_sign, is_digit, lemma_digits_end, pow10,
    text_double,
};
use crate::double::{difference, int_double, lemma_difference_exact, lemma_product_exact, product};
use crate::object_describe::lemma_ascii_units;
use crate::text::{
    is_space, law_nat_text_value, lemma_padded, lower, nat_text, padded, same_ignoring_case,
    spaces_end, spaces_start, trimmed, utf16_of, word_end, words,
};

verus! {

// ---------------------------------------------------------------------------
// Words
// ---------------------------------------------------------------------------

/// Words with one space between them.
pub open spec fn spaced(ws: Seq<Seq<u16>>) -> Seq<u16>
    decreases ws.len(),
{
    if ws.len() == 0 {
        seq![]
    } else if ws.len() == 1 {
        ws[0]
    } else {
        ws[0] + seq![0x20u16] + spaced(ws.skip(1))
    }
}

/// Whether a text is a word: not empty and without white space.
pub open spec fn is_word(w: Seq<u16>) -> bool {
    w.len() > 0 && forall|k: int| 0 <= k < w.len() ==> !is_space(#[trigger] w[k])
}

proof fn lemma_word_end(s: Seq<u16>, i: int, j: int)
    requires
        0 <= i <= j <= s.len(),
        forall|k: int| i <= k < j ==> !is_space(#[trigger] s[k]),
        j == s.len() || is_space(s[j]),
    ensures
        word_end(s, i) == j,
    decreases j - i,
{
    if i < j {
        lemma_word_end(s, i + 1, j);
    }
}

/// The words of a text that is made of words with spaces between them are those words.
proof fn lemma_words_of(s: Seq<u16>, i: int, ws: Seq<Seq<u16>>)
    requires
        0 <= i <= s.len(),
        s.skip(i) == spaced(ws),
        forall|k: int| 0 <= k < ws.len() ==> is_word(#[trigger] ws[k]),
    ensures
        words(s, i) == ws,
    decreases ws.len(),
{
    if ws.len() == 0 {
        assert(s.skip(i).len() == 0);
        assert(spaces_end(s, i) == i);
        assert(words(s, i) =~= ws);
    } else {
        let w = ws[0];
        let rest = ws.skip(1);
        let j = i + w.len();
        assert(is_word(w));
        assert(s.skip(i).len() == spaced(ws).len());
        assert(w.len() <= spaced(ws).len());
        assert forall|k: int| 0 <= k < w.len() implies #[trigger] s[i + k] == w[k] by {
            assert(s.skip(i)[k] == spaced(ws)[k]);
        }
        assert forall|k: int| i <= k < j implies !is_space(#[trigger] s[k]) by {
            assert(s[i + (k - i)] == w[k - i]);
        }
        assert(s.subrange(i, j) =~= w);
        assert(spaces_end(s, i) == i) by {
            assert(s[i] == w[0]);
        }
        if ws.len() == 1 {
            lemma_word_end(s, i, j);
            assert(rest =~= seq![]);
            assert(spaces_end(s, j) == j);
            assert(words(s, j) =~= seq![]);
            assert(seq![w] + words(s, j) =~= ws);
        } else {
            assert(s[j] == 0x20) by {
                assert(s.skip(i)[w.len() as int] == 0x20);
            }
            lemma_word_end(s, i, j);
            assert(s.skip(j + 1) =~= spaced(rest)) by {
                assert(s.skip(i).skip(w.len() as int + 1) =~= spaced(rest));
                assert(s.skip(j + 1) =~= s.skip(i).skip(w.len() as int + 1));
            }
            assert forall|k: int| 0 <= k < rest.len() implies is_word(#[trigger] rest[k]) by {
                assert(rest[k] == ws[k + 1]);
            }
            lemma_words_of(s, j + 1, rest);
            assert(spaces_end(s, j) == spaces_end(s, j + 1));
            assert(words(s, j) == words(s, j + 1)) by {
                assert(rest.len() > 0);
                assert(is_word(rest[0]));
                assert(spaced(rest).len() > 0);
                assert(s.skip(j + 1)[0] == spaced(rest)[0]);
                assert(spaced(rest)[0] == rest[0][0]);
                assert(spaces_end(s, j + 1) == j + 1);
            }
            assert(seq![w] + rest =~= ws);
        }
    }
}

proof fn lemma_trimmed(s: Seq<u16>)
    requires
        s.len() > 0,
        !is_space(s[0]),
        !is_space(s.last()),
    ensures
        trimmed(s) == s,
{
    assert(spaces_end(s, 0) == 0);
    assert(spaces_start(s, 0, s.len() as int) == s.len());
    assert(s.subrange(0, s.len() as int) =~= s);
}

// ---------------------------------------------------------------------------
// Numbers
// ---------------------------------------------------------------------------

proof fn lemma_all_digits(s: Seq<u16>, i: int)
    requires
        0 <= i <= s.len(),
        forall|k: int| i <= k < s.len() ==> is_digit(#[trigger] s[k]),
    ensures
        digits_end(s, i) == s.len(),
{
    lemma_digits_end(s, i);
}

/// Digits denote the number that they spell.
proof fn lemma_digits_double(s: Seq<u16>, n: nat)
    requires
        s.len() > 0,
        forall|k: int| 0 <= k < s.len() ==> is_digit(#[trigger] s[k]),
        digits_value(s, 0, s.len() as int) == n,
        0 <= n < 0x20_0000_0000_0000,
    ensures
        text_double(s) == Some(int_double(n as int)),
{
    assert(is_digit(s[0]));
    lemma_all_digits(s, 0);
    assert(!has_sign(s, 0));
    assert(!crate::decimal::tail_is_word(s, 0, crate::decimal::word_inf())) by {
        if crate::decimal::tail_is_word(s, 0, crate::decimal::word_inf()) {
            let w = crate::decimal::word_inf();
            assert(s[0] == w[0] || s[0] + 0x20 == w[0]);
        }
    }
    assert(!crate::decimal::tail_is_word(s, 0, crate::decimal::word_infinity())) by {
        if crate::decimal::tail_is_word(s, 0, crate::decimal::word_infinity()) {
            let w = crate::decimal::word_infinity();
            assert(s[0] == w[0] || s[0] + 0x20 == w[0]);
        }
    }
    assert(!crate::decimal::tail_is_word(s, 0, crate::decimal::word_nan())) by {
        if crate::decimal::tail_is_word(s, 0, crate::decimal::word_nan()) {
            let w = crate::decimal::word_nan();
            assert(s[0] == w[0] || s[0] + 0x20 == w[0]);
        }
    }
    assert(decimal_text(s, 0) == Some(crate::decimal::round_decimal(n, 0)));
    assert(pow10(0) == 1);
}

proof fn lemma_padded_double(n: nat, w: nat)
    requires
        n < pow10(w),
        1 <= w <= 4,
    ensures
        text_double(padded(n, w)) == Some(int_double(n as int)),
        is_word(padded(n, w)),
        padded(n, w).len() == w,
{
    reveal_with_fuel(pow10, 6);
    crate::decimal::lemma_pow10_monotone(w, 4);
    lemma_padded(n, w);
    lemma_digits_double(padded(n, w), n);
}

/// A text without a comma at its end stays as it is.
proof fn lemma_no_commas(t: Seq<u16>)
    requires
        t.len() > 0,
        t.last() != 0x2c,
    ensures
        without_commas(t) == t,
{
    assert(commas_start(t, t.len() as int) == t.len());
    assert(t.take(t.len() as int) =~= t);
}

proof fn lemma_year_text(y: int)
    requires
        -1_000_000 < y < 1_000_000,
    ensures
        integer_of(plain_year(y)) == Some(y),
        is_word(plain_year(y)),
        without_commas(plain_year(y)) == plain_year(y),
{
    let n: nat = if y < 0 {
        (-y) as nat
    } else {
        y as nat
    };
    let d = padded(n, 4);
    let t = nat_text(n);
    law_nat_text_value(n);
    reveal_with_fuel(pow10, 6);
    assert(d.len() > 0 && (forall|k: int| 0 <= k < d.len() ==> is_digit(#[trigger] d[k]))
        && digits_value(d, 0, d.len() as int) == n) by {
        if t.len() <= 4 {
            crate::text::lemma_nat_text_len(n);
            crate::decimal::lemma_digits_value_bound(t, 0, t.len() as int);
            crate::decimal::lemma_pow10_monotone(t.len(), 4);
            lemma_padded(n, 4);
        } else {
            assert(d =~= t);
        }
    }
    let s = plain_year(y);
    if y < 0 {
        assert(s =~= seq![0x2du16] + d);
        assert forall|k: int| 1 <= k < s.len() implies is_digit(#[trigger] s[k]) by {
            assert(s[k] == d[k - 1]);
        }
        assert forall|k: int| 0 <= k < d.len() implies s[1 + k] == #[trigger] d[k] by {}
        crate::text::lemma_digits_value_shift(s, 1, d, d.len());
        lemma_all_digits(s, 1);
        assert forall|k: int| 0 <= k < s.len() implies !is_space(#[trigger] s[k]) by {
            if k > 0 {
                assert(is_digit(s[k]));
            }
        }
        assert(is_digit(s[s.len() - 1]));
    } else {
        assert(s == d);
        assert(is_digit(s[0]));
        lemma_all_digits(s, 0);
        assert(is_digit(s[s.len() - 1]));
    }
    lemma_no_commas(s);
}

// ---------------------------------------------------------------------------
// Names
// ---------------------------------------------------------------------------

/// The names of months are words of three letters.
proof fn lemma_month_units(m: int)
    requires
        0 <= m < 12,
    ensures
        month_name(m).len() == 3,
        forall|k: int| 0 <= k < 3 ==> 0x41 <= #[trigger] month_name(m)[k] <= 0x7a,
        month_name(m)[0] == seq![74u16, 70, 77, 65, 77, 74, 74, 65, 83, 79, 78, 68][m],
        month_name(m)[1] == seq![97u16, 101, 97, 112, 97, 117, 117, 117, 101, 99, 111, 101][m],
        month_name(m)[2] == seq![110u16, 98, 114, 114, 121, 110, 108, 103, 112, 116, 118, 99][m],
{
    reveal_strlit("Jan");
    reveal_strlit("Feb");
    reveal_strlit("Mar");
    reveal_strlit("Apr");
    reveal_strlit("May");
    reveal_strlit("Jun");
    reveal_strlit("Jul");
    reveal_strlit("Aug");
    reveal_strlit("Sep");
    reveal_strlit("Oct");
    reveal_strlit("Nov");
    reveal_strlit("Dec");
    lemma_ascii_units("Jan"@);
    lemma_ascii_units("Feb"@);
    lemma_ascii_units("Mar"@);
    lemma_ascii_units("Apr"@);
    lemma_ascii_units("May"@);
    lemma_ascii_units("Jun"@);
    lemma_ascii_units("Jul"@);
    lemma_ascii_units("Aug"@);
    lemma_ascii_units("Sep"@);
    lemma_ascii_units("Oct"@);
    lemma_ascii_units("Nov"@);
    lemma_ascii_units("Dec"@);
}

proof fn lemma_months_differ(a: int, b: int)
    requires
        0 <= a < b < 12,
    ensures
        !same_ignoring_case(month_name(a), month_name(b)),
{
    lemma_month_units(a);
    lemma_month_units(b);
    let x = month_name(a);
    let y = month_name(b);
    if same_ignoring_case(x, y) {
        assert(lower(x[0]) == lower(y[0]));
        assert(lower(x[1]) == lower(y[1]));
        assert(lower(x[2]) == lower(y[2]));
    }
}

proof fn lemma_month_from(m: int, from: int)
    requires
        0 <= from <= m < 12,
    ensures
        month_from(month_name(m), from) == Some(m),
    decreases m - from,
{
    lemma_month_units(m);
    let t = month_name(m);
    assert(t.take(3) =~= t);
    if from < m {
        lemma_months_differ(from, m);
        lemma_month_from(m, from + 1);
    }
}

proof fn lemma_weekday_units(w: int)
    requires
        0 <= w < 7,
    ensures
        weekday_name(w).len() == 3,
        forall|k: int| 0 <= k < 3 ==> 0x41 <= #[trigger] weekday_name(w)[k] <= 0x7a,
{
    reveal_strlit("Sun");
    reveal_strlit("Mon");
    reveal_strlit("Tue");
    reveal_strlit("Wed");
    reveal_strlit("Thu");
    reveal_strlit("Fri");
    reveal_strlit("Sat");
    lemma_ascii_units("Sun"@);
    lemma_ascii_units("Mon"@);
    lemma_ascii_units("Tue"@);
    lemma_ascii_units("Wed"@);
    lemma_ascii_units("Thu"@);
    lemma_ascii_units("Fri"@);
    lemma_ascii_units("Sat"@);
}

// ---------------------------------------------------------------------------
// Clock and zone
// ---------------------------------------------------------------------------

proof fn lemma_colon(t: Seq<u16>, i: int, j: int)
    requires
        0 <= i <= j <= t.len(),
        forall|k: int| i <= k < j ==> #[trigger] t[k] != 0x3a,
        j == t.len() || t[j] == 0x3a,
    ensures
        colon(t, i) == j,
    decreases j - i,
{
    if i < j {
        lemma_colon(t, i + 1, j);
    }
}

proof fn lemma_clock(t: int)
    ensures
        hms(clock(t)) == Some(
            (int_double(hour_of(t)), int_double(minute_of(t)), int_double(second_of(t))),
        ),
        is_word(clock(t)),
{
    let h = hour_of(t) as nat;
    let m = minute_of(t) as nat;
    let s = second_of(t) as nat;
    reveal_with_fuel(pow10, 4);
    lemma_padded_double(h, 2);
    lemma_padded_double(m, 2);
    lemma_padded_double(s, 2);
    lemma_padded(h, 2);
    lemma_padded(m, 2);
    lemma_padded(s, 2);
    let a = padded(h, 2);
    let b = padded(m, 2);
    let c = padded(s, 2);
    let w = clock(t);
    assert(w.len() == 8);
    assert(is_digit(a[0]) && is_digit(a[1]) && is_digit(b[0]) && is_digit(b[1]) && is_digit(c[0])
        && is_digit(c[1]));
    assert(w[0] == a[0] && w[1] == a[1] && w[2] == 0x3a && w[3] == b[0] && w[4] == b[1] && w[5]
        == 0x3a && w[6] == c[0] && w[7] == c[1]);
    lemma_colon(w, 0, 2);
    lemma_colon(w, 3, 5);
    lemma_colon(w, 6, 8);
    assert(w.subrange(0, 2) =~= a);
    assert(w.subrange(3, 5) =~= b);
    assert(w.subrange(6, 8) =~= c);
}

/// The words of the zone behind a clock time.
spec fn zone_words() -> Seq<Seq<u16>> {
    seq![
        utf16_of("GMT+0000"@),
        utf16_of("(Coordinated"@),
        utf16_of("Universal"@),
        utf16_of("Time)"@),
    ]
}

proof fn lemma_zone_words()
    ensures
        utf16_of(" GMT+0000 (Coordinated Universal Time)"@) == seq![0x20u16] + spaced(
            zone_words(),
        ),
        forall|k: int| 0 <= k < 4 ==> is_word(#[trigger] zone_words()[k]),
        last_offset(zone_words(), 0, 0) == 0,
        zone_words()[3].last() == 0x29,
{
    reveal_strlit("GMT");
    reveal_strlit("UTC");
    reveal_strlit("GMT+0000");
    reveal_strlit("(Coordinated");
    reveal_strlit("Universal");
    reveal_strlit("Time)");
    reveal_strlit(" GMT+0000 (Coordinated Universal Time)");
    lemma_ascii_units("GMT"@);
    lemma_ascii_units("UTC"@);
    lemma_ascii_units("GMT+0000"@);
    lemma_ascii_units("(Coordinated"@);
    lemma_ascii_units("Universal"@);
    lemma_ascii_units("Time)"@);
    lemma_ascii_units(" GMT+0000 (Coordinated Universal Time)"@);
    let z = zone_words();
    let g = z[0];
    let c = z[1];
    let u = z[2];
    let e = z[3];
    reveal_with_fuel(spaced, 5);
    assert(z.skip(1) =~= seq![c, u, e]);
    assert(z.skip(1).skip(1) =~= seq![u, e]);
    assert(z.skip(1).skip(1).skip(1) =~= seq![e]);
    assert(spaced(z) =~= g + seq![0x20u16] + (c + seq![0x20u16] + (u + seq![0x20u16] + e)));
    assert(utf16_of(" GMT+0000 (Coordinated Universal Time)"@) =~= seq![0x20u16] + spaced(z));
    assert(g.take(3) =~= utf16_of("GMT"@));
    assert(zone_prefix(g) == 3);
    reveal_with_fuel(digits_of, 6);
    assert(digits_of(g, 4) =~= seq![0x30u16, 0x30, 0x30, 0x30]);
    reveal_with_fuel(digits_value, 5);
    assert(offset_minutes(g) == Some(0int));
    assert(c.take(3)[0] == 0x28);
    assert(offset_minutes(c) is None);
    assert(u.take(3)[1] == 0x6e);
    assert(utf16_of("GMT"@)[1] == 0x4d);
    assert(utf16_of("UTC"@)[1] == 0x54);
    assert(offset_minutes(u) is None);
    assert(e.take(3)[1] == 0x69);
    assert(offset_minutes(e) is None);
    reveal_with_fuel(last_offset, 6);
}

/// Offset words before others do not change the offset that is found behind them.
proof fn lemma_last_offset_skip(ws: Seq<Seq<u16>>, i: int, tail: Seq<Seq<u16>>, j: int, offset: int)
    requires
        0 <= i,
        0 <= j <= tail.len(),
        i + tail.len() - j == ws.len(),
        forall|k: int| j <= k < tail.len() ==> #[trigger] tail[k] == ws[i + k - j],
    ensures
        last_offset(ws, i, offset) == last_offset(tail, j, offset),
    decreases tail.len() - j,
{
    if j < tail.len() {
        assert(tail[j] == ws[i]);
        let w = ws[i];
        let next = if same_ignoring_case(w, utf16_of("GMT"@)) || same_ignoring_case(
            w,
            utf16_of("UTC"@),
        ) {
            offset
        } else {
            match offset_minutes(w) {
                Some(v) => v,
                None => offset,
            }
        };
        assert forall|k: int| j + 1 <= k < tail.len() implies #[trigger] tail[k] == ws[i + 1 + k - (
        j + 1)] by {}
        lemma_last_offset_skip(ws, i + 1, tail, j + 1, next);
    }
}

// ---------------------------------------------------------------------------
// Laws
// ---------------------------------------------------------------------------

/// A time value without its milliseconds, from its parts.
#[verifier::spinoff_prover]
#[verifier::rlimit(40)]
proof fn lemma_parts_value(t: int)
    requires
        is_time(t),
    ensures
        clip(
            difference(
                made_date(
                    made_day(
                        int_double(year_of(t)),
                        int_double(month_of(t)),
                        int_double(date_of(t)),
                    ),
                    made_time(
                        int_double(hour_of(t)),
                        int_double(minute_of(t)),
                        int_double(second_of(t)),
                        int_double(0),
                    ),
                ),
                product(int_double(0), int_double(60_000)),
            ),
        ) == int_double(t - ms_of(t)),
        0 <= month_of(t) < 12,
        1 <= date_of(t) <= 31,
        0 <= weekday_of(t) < 7,
{
    law_has_year_and_month(t);
    law_components(t);
    lemma_year_range(t);
    crate::calendar::law_year_length(year_of(t));
    let y = year_of(t);
    let m = month_of(t);
    let d = date_of(t);
    assert(in_month(crate::calendar::day_in_year(t), m, crate::calendar::leap(y)));
    assert(0 <= m < 12);
    assert(1 <= d <= 31);
    law_make_day(y, m, d);
    assert(m / 12 == 0 && m % 12 == m);
    law_make_time(hour_of(t), minute_of(t), second_of(t), 0);
    let day = day_number(y, m, d);
    let time = hour_of(t) * 3_600_000 + minute_of(t) * 60_000 + second_of(t) * 1000;
    assert(day * 86_400_000 + time == t - ms_of(t));
    assert(0 <= time < 86_400_000);
    assert(day == day_of(t));
    assert(-100_000_000 <= day <= 100_000_000);
    law_make_date(day, time);
    lemma_product_exact(0, 60_000);
    lemma_difference_exact(t - ms_of(t), 0);
    law_time_clip(t - ms_of(t));
}

/// What words give of which the first is a weekday, the next two are day and month, and
/// the year and the clock time follow.
proof fn lemma_fallback_parts(t: int, ws: Seq<Seq<u16>>)
    requires
        is_time(t),
        ws.len() >= 5,
        is_weekday(ws[0]),
        day_and_month(ws, 1) == Some((int_double(date_of(t)), month_of(t))),
        ws[3] == plain_year(year_of(t)),
        ws[4] == clock(t),
        last_offset(ws, 5, 0) == 0,
    ensures
        fallback_value(ws) == int_double(t - ms_of(t)),
{
    lemma_parts_value(t);
    lemma_year_range(t);
    lemma_clock(t);
    lemma_year_text(year_of(t));
}

/// Five words before others, with spaces between them.
proof fn lemma_spaced_five(
    a: Seq<u16>,
    b: Seq<u16>,
    c: Seq<u16>,
    d: Seq<u16>,
    e: Seq<u16>,
    z: Seq<Seq<u16>>,
)
    requires
        z.len() > 0,
    ensures
        spaced(seq![a, b, c, d, e] + z) == a + seq![0x20u16] + (b + seq![0x20u16] + (c + seq![
            0x20u16,
        ] + (d + seq![0x20u16] + (e + seq![0x20u16] + spaced(z))))),
{
    let ws = seq![a, b, c, d, e] + z;
    let w1 = seq![b, c, d, e] + z;
    let w2 = seq![c, d, e] + z;
    let w3 = seq![d, e] + z;
    let w4 = seq![e] + z;
    assert(ws.skip(1) =~= w1);
    assert(w1.skip(1) =~= w2);
    assert(w2.skip(1) =~= w3);
    assert(w3.skip(1) =~= w4);
    assert(w4.skip(1) =~= z);
    assert(spaced(w4) == e + seq![0x20u16] + spaced(z));
    assert(spaced(w3) == d + seq![0x20u16] + spaced(w4));
    assert(spaced(w2) == c + seq![0x20u16] + spaced(w3));
    assert(spaced(w1) == b + seq![0x20u16] + spaced(w2));
    assert(spaced(ws) == a + seq![0x20u16] + spaced(w1));
}

/// The same text with its parts put together from the left, and a comma behind the first.
proof fn lemma_from_left(
    a: Seq<u16>,
    b: Seq<u16>,
    c: Seq<u16>,
    d: Seq<u16>,
    e: Seq<u16>,
    z: Seq<u16>,
)
    ensures
        a + seq![0x2cu16, 0x20] + b + seq![0x20u16] + c + seq![0x20u16] + d + seq![0x20u16] + e + (
        seq![0x20u16] + z) == a.push(0x2c) + seq![0x20u16] + (b + seq![0x20u16] + (c + seq![
            0x20u16,
        ] + (d + seq![0x20u16] + (e + seq![0x20u16] + z)))),
{
    let right = a.push(0x2c) + seq![0x20u16] + (b + seq![0x20u16] + (c + seq![0x20u16] + (d + seq![
        0x20u16,
    ] + (e + seq![0x20u16] + z))));
    assert(a + seq![0x2cu16, 0x20] + b + seq![0x20u16] + c + seq![0x20u16] + d + seq![0x20u16] + e
        + (seq![0x20u16] + z) =~= right);
}

/// The same text with its parts put together from the left.
proof fn lemma_from_left_plain(
    a: Seq<u16>,
    b: Seq<u16>,
    c: Seq<u16>,
    d: Seq<u16>,
    e: Seq<u16>,
    z: Seq<u16>,
)
    ensures
        (a + seq![0x20u16] + b + seq![0x20u16] + c + seq![0x20u16] + d) + seq![0x20u16] + (e + (
        seq![0x20u16] + z)) == a + seq![0x20u16] + (b + seq![0x20u16] + (c + seq![0x20u16] + (d
            + seq![0x20u16] + (e + seq![0x20u16] + z)))),
{
    let right = a + seq![0x20u16] + (b + seq![0x20u16] + (c + seq![0x20u16] + (d + seq![0x20u16] + (
    e + seq![0x20u16] + z))));
    assert((a + seq![0x20u16] + b + seq![0x20u16] + c + seq![0x20u16] + d) + seq![0x20u16] + (e + (
    seq![0x20u16] + z)) =~= right);
}

/// The value of a text that is made of words with spaces between them, the first of which
/// does not start with a digit or a sign.
proof fn lemma_date_of_words(s: Seq<u16>, ws: Seq<Seq<u16>>)
    requires
        s == spaced(ws),
        ws.len() >= 2,
        forall|k: int| 0 <= k < ws.len() ==> is_word(#[trigger] ws[k]),
        0x41 <= ws[0][0] <= 0x7a,
        !is_space(s.last()),
    ensures
        date_value(s) == fallback_value(ws),
{
    assert(is_word(ws[0]));
    assert(s[0] == ws[0][0]);
    assert(s.skip(0) =~= s);
    lemma_words_of(s, 0, ws);
    lemma_trimmed(s);
    assert(iso_year(s) is None) by {
        assert(!is_digit(s[0]));
    }
}

/// Reading back the text that `toString` writes of a time value gives the time value to
/// the second.
pub proof fn law_to_string_round_trip(t: int)
    requires
        is_time(t),
    ensures
        date_value(date_time_text(t)) == int_double(t - ms_of(t)),
{
    let wd = weekday_name(weekday_of(t));
    let mo = month_name(month_of(t));
    let da = padded(date_of(t) as nat, 2);
    let ye = plain_year(year_of(t));
    let cl = clock(t);
    let z = zone_words();
    let ws = seq![wd, mo, da, ye, cl] + z;
    let s = date_time_text(t);
    let tail = utf16_of(" GMT+0000 (Coordinated Universal Time)"@);
    lemma_zone_words();
    lemma_spaced_five(wd, mo, da, ye, cl, z);
    lemma_from_left_plain(wd, mo, da, ye, cl, spaced(z));
    assert(s == spaced(ws));
    lemma_words_shape(t);
    assert forall|k: int| 0 <= k < ws.len() implies is_word(#[trigger] ws[k]) by {
        if k >= 5 {
            assert(ws[k] == z[k - 5]);
        }
    }
    assert(s.last() == 0x29) by {
        assert(s.last() == tail.last());
        reveal_strlit(" GMT+0000 (Coordinated Universal Time)");
        lemma_ascii_units(" GMT+0000 (Coordinated Universal Time)"@);
    }
    lemma_date_of_words(s, ws);
    assert(day_and_month(ws, 1) == Some((int_double(date_of(t)), month_of(t))));
    lemma_last_offset_skip(ws, 5, z, 0, 0);
    lemma_fallback_parts(t, ws);
}

/// The words of a date: a weekday, a month, a day of two digits, a year and a clock time.
proof fn lemma_words_shape(t: int)
    requires
        is_time(t),
    ensures
        ({
            let wd = weekday_name(weekday_of(t));
            let mo = month_name(month_of(t));
            let da = padded(date_of(t) as nat, 2);
            &&& is_word(wd)
            &&& wd.len() == 3
            &&& 0x41 <= wd[0] <= 0x7a
            &&& wd[2] != 0x2c
            &&& is_weekday(wd)
            &&& is_weekday(wd.push(0x2c))
            &&& is_word(wd.push(0x2c))
            &&& is_word(mo)
            &&& month_from(mo, 0) == Some(month_of(t))
            &&& is_word(da)
            &&& da.len() == 2
            &&& text_double(without_commas(da)) == Some(int_double(date_of(t)))
            &&& is_word(plain_year(year_of(t)))
            &&& is_word(clock(t))
        }),
{
    lemma_parts_value(t);
    lemma_year_range(t);
    lemma_clock(t);
    lemma_weekday_units(weekday_of(t));
    lemma_month_units(month_of(t));
    lemma_month_from(month_of(t), 0);
    lemma_year_text(year_of(t));
    reveal_with_fuel(pow10, 4);
    lemma_padded_double(date_of(t) as nat, 2);
    lemma_padded(date_of(t) as nat, 2);
    let wd = weekday_name(weekday_of(t));
    let da = padded(date_of(t) as nat, 2);
    assert(wd.take(3) =~= wd);
    assert(0x41 <= wd[2] <= 0x7a);
    lemma_no_commas(wd);
    assert(is_weekday(wd));
    let wc = wd.push(0x2c);
    assert(wc[2] == wd[2]);
    assert(commas_start(wc, 4) == commas_start(wc, 3));
    assert(commas_start(wc, 3) == 3);
    assert(without_commas(wc) =~= wd);
    assert(is_weekday(wc));
    assert forall|k: int| 0 <= k < wc.len() implies !is_space(#[trigger] wc[k]) by {
        if k < 3 {
            assert(wc[k] == wd[k]);
        }
    }
    assert(is_digit(da[1]));
    lemma_no_commas(da);
}

/// Reading back the text that `toUTCString` writes of a time value gives the time value
/// to the second.
pub proof fn law_to_utc_string_round_trip(t: int)
    requires
        is_time(t),
    ensures
        date_value(utc_text(t)) == int_double(t - ms_of(t)),
{
    let wd = weekday_name(weekday_of(t));
    let wc = wd.push(0x2c);
    let mo = month_name(month_of(t));
    let da = padded(date_of(t) as nat, 2);
    let ye = plain_year(year_of(t));
    let cl = clock(t);
    let z = utf16_of("GMT"@);
    let ws = seq![wc, da, mo, ye, cl] + seq![z];
    let s = utc_text(t);
    assert(utf16_of(", "@) =~= seq![0x2cu16, 0x20] && utf16_of(" GMT"@) =~= seq![0x20u16] + z
        && is_word(z) && z.last() == 0x54) by {
        reveal_strlit(", ");
        reveal_strlit(" GMT");
        reveal_strlit("GMT");
        lemma_ascii_units(", "@);
        lemma_ascii_units(" GMT"@);
        lemma_ascii_units("GMT"@);
    }
    lemma_spaced_five(wc, da, mo, ye, cl, seq![z]);
    assert(spaced(seq![z]) == z);
    lemma_from_left(wd, da, mo, ye, cl, z);
    assert(s == spaced(ws));
    lemma_words_shape(t);
    assert(s.last() == z.last()) by {
        assert(s.last() == utf16_of(" GMT"@).last());
    }
    lemma_date_of_words(s, ws);
    assert(month_from(da, 0) is None);
    assert(day_and_month(ws, 1) == Some((int_double(date_of(t)), month_of(t))));
    assert(same_ignoring_case(z, z));
    assert(ws[5] == z);
    reveal_with_fuel(last_offset, 3);
    assert(last_offset(ws, 5, 0) == 0);
    lemma_fallback_parts(t, ws);
}

} // verus!
