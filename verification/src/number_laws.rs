//! Numbers and the texts that they are written in.
use vstd::prelude::*;

use crate::convert::number_of;
use crate::decimal::{
    decimal_text, digits_end, digits_value, digits_without_point, exponent_part, has_minus,
    has_sign, is_digit, lemma_digits_end, pow10, round_decimal, shortest_decimal, tail_is_word,
    text_double, word_inf, word_infinity, word_nan,
};
use crate::double::{INFINITY, is_finite, is_negative, magnitude, with_sign};
use crate::heap::HeapModel;
use crate::number_format::{exponent_text, layout, number_string, pointed, sign_text};
use crate::read_back::law_shortest_reads_back;
use crate::text::{
    double_text, law_nat_text_value, lemma_digits_value_prefix, lemma_digits_value_shift,
    nat_text, positional, spaces_end, spaces_start, trimmed, well_formed, zeros,
};
use crate::value::JsValue;

verus! {

// ---------------------------------------------------------------------------
// Runs of digits
// ---------------------------------------------------------------------------

/// Whether a text is all digits.
pub open spec fn all_digits(s: Seq<u16>) -> bool {
    forall|k: int| 0 <= k < s.len() ==> is_digit(#[trigger] s[k])
}

/// Where the digits of a text end that are followed by something else.
pub proof fn lemma_run(s: Seq<u16>, i: int, j: int)
    requires
        0 <= i <= j <= s.len(),
        forall|k: int| i <= k < j ==> is_digit(#[trigger] s[k]),
        j == s.len() || !is_digit(s[j]),
    ensures
        digits_end(s, i) == j,
    decreases j - i,
{
    if i < j {
        lemma_run(s, i + 1, j);
    }
}

/// Zeros behind digits multiply their number.
proof fn lemma_trailing_zeros(d: Seq<u16>, z: nat)
    ensures
        digits_value(d + zeros(z as int), 0, d.len() as int + z) == digits_value(d, 0, d.len() as int)
            * pow10(z),
    decreases z,
{
    if z == 0 {
        assert(d + zeros(0) =~= d);
        let v = digits_value(d, 0, d.len() as int);
        assert(v * 1 == v) by (nonlinear_arith);
    } else {
        let s = d + zeros(z as int);
        let t = d + zeros(z - 1);
        let n = (d.len() + z) as int;
        lemma_trailing_zeros(d, (z - 1) as nat);
        assert forall|k: int| 0 <= k < n - 1 implies s[k] == t[k] by {}
        lemma_digits_value_prefix(t, s, 0, n - 1);
        assert(s[n - 1] == 0x30);
        let v = digits_value(d, 0, d.len() as int);
        let p = pow10((z - 1) as nat);
        assert(10 * (v * p) == v * (10 * p)) by (nonlinear_arith);
    }
}

/// Zeros in front of digits do not count.
pub proof fn lemma_leading_zeros(d: Seq<u16>, z: nat, j: int)
    requires
        0 <= j <= d.len(),
    ensures
        digits_value(zeros(z as int) + d, 0, z + j) == digits_value(d, 0, j),
    decreases z + j,
{
    let s = zeros(z as int) + d;
    if j > 0 {
        lemma_leading_zeros(d, z, j - 1);
        assert(s[z + j - 1] == d[j - 1]);
    } else if z > 0 {
        lemma_leading_zeros(d, (z - 1) as nat, 0);
        let t = zeros(z - 1) + d;
        assert forall|k: int| 0 <= k < z - 1 implies s[k] == t[k] by {}
        lemma_digits_value_prefix(t, s, 0, z - 1);
        assert(s[z - 1] == 0x30);
    }
}

/// The number of digits in two parts.
pub proof fn lemma_two_parts(d: Seq<u16>, n: int, j: int)
    requires
        0 <= n <= j <= d.len(),
        all_digits(d),
    ensures
        digits_value(d, 0, j) == digits_value(d, 0, n) * pow10((j - n) as nat) + digits_value(
            d,
            n,
            j,
        ),
    decreases j - n,
{
    let v = digits_value(d, 0, n);
    if n == j {
        assert(v * 1 == v) by (nonlinear_arith);
    } else {
        lemma_two_parts(d, n, j - 1);
        assert(is_digit(d[j - 1]));
        let p = pow10((j - 1 - n) as nat);
        assert((j - n - 1) as nat == (j - 1 - n) as nat);
        assert(10 * (v * p) == v * (10 * p)) by (nonlinear_arith);
    }
}

// ---------------------------------------------------------------------------
// Decimals
// ---------------------------------------------------------------------------

/// Digits and zeros behind them.
proof fn lemma_whole(s: nat, e: int)
    requires
        e >= 0,
    ensures
        decimal_text(nat_text(s) + zeros(e), 0) == Some(round_decimal(s, e)),
{
    let d = nat_text(s);
    let t = d + zeros(e);
    law_nat_text_value(s);
    lemma_trailing_zeros(d, e as nat);
    assert forall|k: int| 0 <= k < t.len() implies is_digit(#[trigger] t[k]) by {
        if k < d.len() {
            assert(t[k] == d[k]);
        }
    }
    lemma_run(t, 0, t.len() as int);
    if e == 0 {
        assert(s * 1 == s) by (nonlinear_arith);
        assert(pow10(0) == 1);
    }
}

/// Digits with a point among them.
proof fn lemma_point_inside(s: nat, n: int)
    requires
        0 < n < nat_text(s).len(),
    ensures
        decimal_text(nat_text(s).take(n) + seq![0x2eu16] + nat_text(s).skip(n), 0) == Some(
            round_decimal(s, n - nat_text(s).len()),
        ),
{
    let d = nat_text(s);
    let k = d.len() as int;
    let t = d.take(n) + seq![0x2eu16] + d.skip(n);
    law_nat_text_value(s);
    assert forall|i: int| 0 <= i < n implies is_digit(#[trigger] t[i]) by {
        assert(t[i] == d[i]);
    }
    assert forall|i: int| n < i < t.len() implies is_digit(#[trigger] t[i]) by {
        assert(t[i] == d[i - 1]);
    }
    assert(t[n] == 0x2e);
    lemma_run(t, 0, n);
    lemma_run(t, n + 1, t.len() as int);
    lemma_two_parts(d, n, k);
    lemma_digits_value_prefix(d, t, 0, n);
    let tail = d.skip(n);
    assert forall|i: int| 0 <= i < k - n implies t[n + 1 + i] == #[trigger] tail[i] by {}
    lemma_digits_value_shift(t, n + 1, tail, (k - n) as nat);
    assert forall|i: int| 0 <= i < k - n implies d[n + i] == #[trigger] tail[i] by {}
    lemma_digits_value_shift(d, n, tail, (k - n) as nat);
    assert(digits_without_point(t, 0, n, k + 1) == s);
}

/// Digits behind a zero, a point and more zeros.
proof fn lemma_point_before(s: nat, z: int)
    requires
        z >= 0,
    ensures
        decimal_text(seq![0x30u16, 0x2e] + zeros(z) + nat_text(s), 0) == Some(
            round_decimal(s, -z - nat_text(s).len()),
        ),
{
    let d = nat_text(s);
    let k = d.len() as int;
    let t = seq![0x30u16, 0x2e] + zeros(z) + d;
    let tail = zeros(z) + d;
    law_nat_text_value(s);
    assert(t =~= seq![0x30u16, 0x2e] + tail);
    assert(t[0] == 0x30 && t[1] == 0x2e);
    assert forall|i: int| 2 <= i < t.len() implies is_digit(#[trigger] t[i]) by {
        assert(t[i] == tail[i - 2]);
        if i - 2 >= z {
            assert(tail[i - 2] == d[i - 2 - z]);
        }
    }
    lemma_run(t, 0, 1);
    lemma_run(t, 2, t.len() as int);
    lemma_leading_zeros(d, z as nat, k);
    assert forall|i: int| 0 <= i < z + k implies t[2 + i] == #[trigger] tail[i] by {}
    lemma_digits_value_shift(t, 2, tail, (z + k) as nat);
    reveal_with_fuel(digits_value, 2);
    let p = pow10((z + k) as nat);
    assert(digits_value(t, 0, 1) == 0);
    assert(0 * p == 0) by (nonlinear_arith);
    assert(digits_without_point(t, 0, 1, z + k + 2) == s);
}

/// Digits with an exponent behind them.
pub proof fn lemma_with_exponent(s: nat, x: int)
    ensures
        decimal_text(pointed(nat_text(s)) + exponent_text(x), 0) == Some(
            round_decimal(s, x - (nat_text(s).len() - 1)),
        ),
{
    let d = nat_text(s);
    let k = d.len() as int;
    let m: nat = if x >= 0 {
        x as nat
    } else {
        (-x) as nat
    };
    let head = pointed(d);
    let h = head.len() as int;
    let w = nat_text(m);
    let t = head + exponent_text(x);
    law_nat_text_value(s);
    law_nat_text_value(m);
    assert(t.len() == h + 2 + w.len());
    assert(t[h] == 0x65);
    assert(t[h + 1] == if x >= 0 {
        0x2bu16
    } else {
        0x2du16
    });
    assert forall|i: int| 0 <= i < w.len() implies t[h + 2 + i] == #[trigger] w[i] by {}
    assert forall|i: int| h + 2 <= i < t.len() implies is_digit(#[trigger] t[i]) by {
        assert(t[h + 2 + (i - h - 2)] == w[i - h - 2]);
    }
    lemma_run(t, h + 2, t.len() as int);
    lemma_digits_value_shift(t, h + 2, w, w.len());
    assert(exponent_part(t, h) == Some(x));
    assert(t[0] == d[0]) by {
        assert(head[0] == d[0]);
    }
    if k == 1 {
        assert(head == d);
        lemma_run(t, 0, 1);
        lemma_digits_value_prefix(d, t, 0, 1);
    } else {
        assert(head =~= d.take(1) + seq![0x2eu16] + d.skip(1));
        assert(t[1] == 0x2e);
        lemma_run(t, 0, 1);
        assert forall|i: int| 2 <= i < k + 1 implies is_digit(#[trigger] t[i]) by {
            assert(t[i] == d[i - 1]);
        }
        lemma_run(t, 2, k + 1);
        lemma_two_parts(d, 1, k);
        lemma_digits_value_prefix(d, t, 0, 1);
        let tail = d.skip(1);
        assert forall|i: int| 0 <= i < k - 1 implies t[2 + i] == #[trigger] tail[i] by {}
        lemma_digits_value_shift(t, 2, tail, (k - 1) as nat);
        assert forall|i: int| 0 <= i < k - 1 implies d[1 + i] == #[trigger] tail[i] by {}
        lemma_digits_value_shift(d, 1, tail, (k - 1) as nat);
        assert(digits_without_point(t, 0, 1, k + 1) == s);
    }
}

// ---------------------------------------------------------------------------
// Signs
// ---------------------------------------------------------------------------

pub proof fn lemma_end_shift(c: u16, t: Seq<u16>, i: int)
    requires
        0 <= i,
    ensures
        digits_end(seq![c] + t, i + 1) == digits_end(t, i) + 1,
    decreases t.len() - i,
{
    let s = seq![c] + t;
    if i < t.len() {
        assert(s[i + 1] == t[i]);
        if is_digit(t[i]) {
            lemma_end_shift(c, t, i + 1);
        }
    }
}

proof fn lemma_value_shift(c: u16, t: Seq<u16>, i: int, j: int)
    requires
        0 <= i <= j <= t.len(),
    ensures
        digits_value(seq![c] + t, i + 1, j + 1) == digits_value(t, i, j),
    decreases j - i,
{
    if i < j {
        lemma_value_shift(c, t, i, j - 1);
        assert((seq![c] + t)[j] == t[j - 1]);
    }
}

/// A decimal behind one more unit is the same decimal.
proof fn lemma_decimal_shift(c: u16, t: Seq<u16>)
    ensures
        decimal_text(seq![c] + t, 1) == decimal_text(t, 0),
{
    let s = seq![c] + t;
    let p = digits_end(t, 0);
    lemma_end_shift(c, t, 0);
    lemma_digits_end(t, 0);
    let point = p < t.len() && t[p] == 0x2e;
    if p < t.len() {
        assert(s[p + 1] == t[p]);
    }
    let j = if point {
        digits_end(t, p + 1)
    } else {
        p
    };
    if point {
        lemma_end_shift(c, t, p + 1);
        lemma_digits_end(t, p + 1);
        lemma_value_shift(c, t, 0, p);
        lemma_value_shift(c, t, p + 1, j);
    } else {
        lemma_value_shift(c, t, 0, j);
    }
    assert(exponent_part(s, j + 1) == exponent_part(t, j)) by {
        if j < t.len() {
            assert(s[j + 1] == t[j]);
            if j + 1 < t.len() {
                assert(s[j + 2] == t[j + 1]);
            }
            let i = if has_sign(t, j + 1) {
                j + 2
            } else {
                j + 1
            };
            if i < t.len() {
                lemma_end_shift(c, t, i);
                lemma_value_shift(c, t, i, t.len() as int);
            }
        }
    }
}

/// A decimal that starts with a digit, behind a sign, denotes what it spells.
pub proof fn lemma_signed_decimal(b: u64, t: Seq<u16>, mag: int)
    requires
        t.len() > 0,
        is_digit(t[0]),
        decimal_text(t, 0) == Some(mag),
    ensures
        text_double(sign_text(b) + t) == Some(with_sign(is_negative(b), mag)),
{
    let s = sign_text(b) + t;
    let i: int = if is_negative(b) {
        1
    } else {
        0
    };
    if is_negative(b) {
        assert(s =~= seq![0x2du16] + t);
        lemma_decimal_shift(0x2d, t);
    } else {
        assert(s =~= t);
    }
    assert(s[i] == t[0]);
    assert(has_sign(s, 0) == is_negative(b));
    assert(has_minus(s, 0) == is_negative(b));
    assert forall|w: Seq<u16>|
        w.len() > 0 && w[0] >= 0x61 implies !(#[trigger] tail_is_word(s, i, w)) by {
        if tail_is_word(s, i, w) {
            assert(s[i + 0] == w[0] || s[i + 0] + 0x20 == w[0]);
        }
    }
    assert(word_inf()[0] >= 0x61 && word_infinity()[0] >= 0x61 && word_nan()[0] >= 0x61);
    assert(decimal_text(s, i) == Some(mag));
}

/// A decimal of the magnitude of a number, behind the sign of the number, denotes it.
proof fn lemma_signed(b: u64, t: Seq<u16>)
    requires
        t.len() > 0,
        is_digit(t[0]),
        decimal_text(t, 0) == Some(magnitude(b)),
        magnitude(b) <= INFINITY,
    ensures
        text_double(sign_text(b) + t) == Some(b),
{
    lemma_signed_decimal(b, t, magnitude(b));
    assert(with_sign(is_negative(b), magnitude(b)) == b);
}

// ---------------------------------------------------------------------------
// Laws
// ---------------------------------------------------------------------------

/// The text that a script sees of a number reads back as the number; the sign of a zero
/// is lost.
pub proof fn law_number_string_reads_back(b: u64)
    requires
        is_finite(b),
        magnitude(b) == 0 ==> !is_negative(b),
    ensures
        text_double(number_string(b)) == Some(b),
{
    if magnitude(b) == 0 {
        let t = seq![0x30u16];
        lemma_whole(0, 0);
        assert(nat_text(0) + zeros(0) =~= t);
        lemma_signed(b, t);
        assert(sign_text(b) + t =~= t);
    } else {
        law_shortest_reads_back(b);
        let (s, e) = shortest_decimal(b);
        let d = nat_text(s);
        let k = d.len() as int;
        let n = k + e;
        law_nat_text_value(s);
        let t = layout(d, n);
        if k <= n <= 21 {
            lemma_whole(s, e);
            assert(t[0] == d[0]);
        } else if 0 < n <= 21 {
            lemma_point_inside(s, n);
            assert(t[0] == d[0]);
        } else if -6 < n <= 0 {
            lemma_point_before(s, -n);
            assert(t[0] == 0x30);
        } else {
            lemma_with_exponent(s, n - 1);
            assert(pointed(d)[0] == d[0]);
            assert(t[0] == d[0]);
        }
        lemma_signed(b, t);
    }
}

/// The text of a finite number without an exponent reads back as the number.
pub proof fn law_double_text_reads_back(b: u64)
    requires
        is_finite(b),
    ensures
        text_double(double_text(b)) == Some(b),
{
    if magnitude(b) == 0 {
        let t = seq![0x30u16];
        lemma_whole(0, 0);
        assert(nat_text(0) + zeros(0) =~= t);
        lemma_signed(b, t);
    } else {
        law_shortest_reads_back(b);
        let (s, e) = shortest_decimal(b);
        let d = nat_text(s);
        let k = d.len() as int;
        law_nat_text_value(s);
        let t = positional(s, e);
        if e >= 0 {
            lemma_whole(s, e);
            assert(t[0] == d[0]);
        } else if k + e > 0 {
            lemma_point_inside(s, k + e);
            assert(t[0] == d[0]);
        } else {
            lemma_point_before(s, -(k + e));
            assert(t[0] == 0x30);
        }
        lemma_signed(b, t);
    }
}

/// Whether a text is made of digits, signs, points and exponent marks.
spec fn plain(t: Seq<u16>) -> bool {
    forall|i: int| 0 <= i < t.len() ==> 0x2b <= #[trigger] t[i] <= 0x65
}

proof fn lemma_plain_concat(a: Seq<u16>, b: Seq<u16>)
    requires
        plain(a),
        plain(b),
    ensures
        plain(a + b),
{
    let s = a + b;
    assert forall|i: int| 0 <= i < s.len() implies 0x2b <= #[trigger] s[i] <= 0x65 by {
        if i < a.len() {
            assert(s[i] == a[i]);
        } else {
            assert(s[i] == b[i - a.len()]);
        }
    }
}

proof fn lemma_plain_digits(n: nat)
    ensures
        plain(nat_text(n)),
{
    law_nat_text_value(n);
    let t = nat_text(n);
    assert forall|i: int| 0 <= i < t.len() implies 0x2b <= #[trigger] t[i] <= 0x65 by {
        assert(is_digit(t[i]));
    }
}

proof fn lemma_number_string_plain(b: u64)
    requires
        is_finite(b),
    ensures
        plain(number_string(b)),
        number_string(b).len() > 0,
{
    if magnitude(b) != 0 {
        law_shortest_reads_back(b);
        let (s, e) = shortest_decimal(b);
        let d = nat_text(s);
        let k = d.len() as int;
        let n = k + e;
        law_nat_text_value(s);
        lemma_plain_digits(s);
        let point = seq![0x2eu16];
        let t = layout(d, n);
        if k <= n <= 21 {
            assert(plain(zeros(n - k)));
            lemma_plain_concat(d, zeros(n - k));
        } else if 0 < n <= 21 {
            assert(plain(d.take(n)));
            assert(plain(d.skip(n)));
            lemma_plain_concat(d.take(n), point);
            lemma_plain_concat(d.take(n) + point, d.skip(n));
        } else if -6 < n <= 0 {
            assert(plain(zeros(-n)));
            assert(plain(seq![0x30u16, 0x2e]));
            lemma_plain_concat(seq![0x30u16, 0x2e], zeros(-n));
            lemma_plain_concat(seq![0x30u16, 0x2e] + zeros(-n), d);
        } else {
            let x = n - 1;
            let m: nat = if x >= 0 {
                x as nat
            } else {
                (-x) as nat
            };
            lemma_plain_digits(m);
            let mark = if x >= 0 {
                seq![0x65u16, 0x2b]
            } else {
                seq![0x65u16, 0x2d]
            };
            assert(plain(mark));
            lemma_plain_concat(mark, nat_text(m));
            if k > 1 {
                assert(plain(d.take(1)));
                assert(plain(d.skip(1)));
                lemma_plain_concat(d.take(1), point);
                lemma_plain_concat(d.take(1) + point, d.skip(1));
            }
            assert(plain(pointed(d)));
            lemma_plain_concat(pointed(d), exponent_text(x));
        }
        assert(plain(t));
        assert(plain(sign_text(b)));
        lemma_plain_concat(sign_text(b), t);
        assert(t.len() > 0);
    }
}

/// A number is what its text is as a number: `Number(String(x))` is `x`, but for the sign
/// of a zero.
pub proof fn law_number_of_string(h: HeapModel, n: usize, b: u64)
    requires
        is_finite(b),
        magnitude(b) == 0 ==> !is_negative(b),
        h.texts[n as int] == number_string(b),
    ensures
        number_of(h, JsValue::Text(n)) == b,
{
    let t = number_string(b);
    lemma_number_string_plain(b);
    law_number_string_reads_back(b);
    assert(well_formed(t) =~= t) by {
        assert forall|i: int| 0 <= i < t.len() implies #[trigger] well_formed(t)[i] == t[i] by {
            assert(t[i] <= 0x65);
        }
    }
    assert(t[0] >= 0x2b && t[t.len() - 1] >= 0x2b);
    assert(spaces_end(t, 0) == 0);
    assert(spaces_start(t, 0, t.len() as int) == t.len());
    assert(trimmed(t) =~= t);
}

} // verus!
