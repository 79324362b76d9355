//! What the number formats promise: how many digits a text has, that it carries the sign
//! of the number, and how far what it spells lies from the number.
use vstd::prelude::*;
use vstd::arithmetic::div_mod::lemma_fundamental_div_mod;

use crate::decimal::{
    decade_den, decade_num, decimal_text, digits_end, digits_value, digits_without_point,
    exponent_part, has_minus, has_sign, in_decade, is_digit, leading_power, lemma_digits_end,
    lemma_pow10_add, lemma_value_bounds, pow10, round_decimal, shortest_decimal, text_double,
    value_den, value_num,
};
use crate::double::{
    INFINITY, NAN, absolute, below, half_even, is_finite, is_negative, magnitude, with_sign,
};
use crate::number::{FIXED_LIMIT, float_end, parsed_float, to_fixed_text};
use crate::number_format::{
    exponent_text, exponential_text, filled, fixed_text, number_string, point_before_last,
    pointed, precision_text, shortest_exponential, sign_text, significant,
};
use crate::number_laws::{
    all_digits, law_number_string_reads_back, lemma_leading_zeros, lemma_run,
    lemma_signed_decimal, lemma_two_parts, lemma_with_exponent,
};
use crate::read_back::{law_shortest_reads_back, lemma_leading_decade};
use crate::text::{
    law_nat_text_value, lemma_digits_value_prefix, lemma_digits_value_shift, lemma_nat_text_len,
    nat_text, zeros,
};

verus! {

/// A text without a minus sign in front.
pub open spec fn unsigned(t: Seq<u16>) -> Seq<u16> {
    if t.len() > 0 && t[0] == 0x2d {
        t.skip(1)
    } else {
        t
    }
}

/// Whether a text is digits with a point in front of the last `d`, and without a point
/// where `d` is 0.
pub open spec fn has_decimals(u: Seq<u16>, d: nat) -> bool {
    if d == 0 {
        u.len() >= 1 && all_digits(u)
    } else {
        &&& u.len() >= d + 2
        &&& u[u.len() - 1 - d] == 0x2e
        &&& forall|i: int|
            0 <= i < u.len() && i != u.len() - 1 - d ==> is_digit(#[trigger] u[i])
    }
}

/// The number that the digits of a text with `d` decimals spell, without the point.
pub open spec fn spelled(u: Seq<u16>, d: nat) -> nat {
    let n = u.len() as int;
    if d == 0 {
        digits_value(u, 0, n)
    } else {
        digits_value(u, 0, n - 1 - d) * pow10(d) + digits_value(u, n - d, n)
    }
}

/// Whether an integer is a ratio rounded to the nearest one, a half to the even one.
pub open spec fn is_nearest(q: nat, n: nat, d: nat) -> bool {
    &&& -(d as int) <= 2 * (q * d - n) <= d
    &&& 2 * (q * d - n) == d || 2 * (n - q * d) == d ==> q % 2 == 0
}

proof fn lemma_half_even_nearest(n: nat, d: nat)
    requires
        d > 0,
    ensures
        is_nearest(half_even(n, d), n, d),
{
    lemma_fundamental_div_mod(n as int, d as int);
    let f = n / d;
    let r = n % d;
    assert(n == d * f + r);
    assert((f + 1) * d == f * d + d) by (nonlinear_arith);
    assert(d * f == f * d) by (nonlinear_arith);
    if 2 * r == d {
        if f % 2 == 1 {
            assert(half_even(n, d) == f + 1);
        }
    }
}

/// Digits with a point among them.
proof fn lemma_pointed_digits(w: Seq<u16>, p: int)
    requires
        all_digits(w),
        0 < p < w.len(),
    ensures
        ({
            let t = w.take(p) + seq![0x2eu16] + w.skip(p);
            let d = (w.len() - p) as nat;
            &&& decimal_text(t, 0) == Some(
                round_decimal(digits_value(w, 0, w.len() as int), p - w.len()),
            )
            &&& has_decimals(t, d)
            &&& spelled(t, d) == digits_value(w, 0, w.len() as int)
        }),
{
    let k = w.len() as int;
    let t = w.take(p) + seq![0x2eu16] + w.skip(p);
    assert forall|i: int| 0 <= i < p implies is_digit(#[trigger] t[i]) by {
        assert(t[i] == w[i]);
    }
    assert forall|i: int| p < i < t.len() implies is_digit(#[trigger] t[i]) by {
        assert(t[i] == w[i - 1]);
    }
    assert(t[p] == 0x2e);
    lemma_run(t, 0, p);
    lemma_run(t, p + 1, t.len() as int);
    lemma_two_parts(w, p, k);
    lemma_digits_value_prefix(w, t, 0, p);
    let tail = w.skip(p);
    assert forall|i: int| 0 <= i < k - p implies t[p + 1 + i] == #[trigger] tail[i] by {}
    lemma_digits_value_shift(t, p + 1, tail, (k - p) as nat);
    assert forall|i: int| 0 <= i < k - p implies w[p + i] == #[trigger] tail[i] by {}
    lemma_digits_value_shift(w, p, tail, (k - p) as nat);
    assert(digits_without_point(t, 0, p, k + 1) == digits_value(w, 0, k));
}

proof fn lemma_plain_digits(w: Seq<u16>)
    requires
        all_digits(w),
        w.len() > 0,
    ensures
        decimal_text(w, 0) == Some(round_decimal(digits_value(w, 0, w.len() as int), 0)),
{
    lemma_run(w, 0, w.len() as int);
}

/// Digits with zeros in front.
proof fn lemma_filled(n: nat, width: nat)
    ensures
        all_digits(filled(n, width)),
        filled(n, width).len() >= width,
        filled(n, width).len() >= 1,
        filled(n, width).len() == if nat_text(n).len() > width {
            nat_text(n).len()
        } else {
            width
        },
        digits_value(filled(n, width), 0, filled(n, width).len() as int) == n,
{
    let d = nat_text(n);
    law_nat_text_value(n);
    let z = width - d.len();
    let w = filled(n, width);
    if z > 0 {
        lemma_leading_zeros(d, z as nat, d.len() as int);
    } else {
        assert(w =~= d);
    }
    assert forall|i: int| 0 <= i < w.len() implies is_digit(#[trigger] w[i]) by {
        if z > 0 && i >= z {
            assert(w[i] == d[i - z]);
        }
    }
}

proof fn lemma_unsigned(b: u64, t: Seq<u16>)
    requires
        t.len() > 0,
        is_digit(t[0]),
    ensures
        unsigned(sign_text(b) + t) == t,
        (sign_text(b) + t)[0] == 0x2d <==> is_negative(b),
{
    let s = sign_text(b) + t;
    if is_negative(b) {
        assert(s[0] == 0x2d);
        assert(s.skip(1) =~= t);
    } else {
        assert(s =~= t);
    }
}

/// `toFixed(d)` of a number below `10^21` starts with a minus sign exactly where the
/// number is negative, has `d` digits behind the point, spells the multiple of `10^-d`
/// that is nearest to the number, a half to the even one, and reads back as the double
/// nearest to that.
pub proof fn law_to_fixed(b: u64, d: nat)
    requires
        is_finite(b),
        below(absolute(b), FIXED_LIMIT),
    ensures
        ({
            let t = to_fixed_text(b, d);
            let u = unsigned(t);
            let q = spelled(u, d);
            &&& t.len() > 0
            &&& t[0] == 0x2d <==> is_negative(b)
            &&& has_decimals(u, d)
            &&& is_nearest(q, value_num(b) * pow10(d), value_den(b))
            &&& text_double(t) == Some(
                with_sign(is_negative(b), round_decimal(q, -(d as int))),
            )
        }),
{
    lemma_fixed(b, d);
}

/// What `law_to_fixed` says, of every finite number in fixed-point notation.
proof fn lemma_fixed(b: u64, d: nat)
    requires
        is_finite(b),
    ensures
        ({
            let t = fixed_text(b, d);
            let u = unsigned(t);
            let q = spelled(u, d);
            &&& t.len() > 0
            &&& t[0] == 0x2d <==> is_negative(b)
            &&& has_decimals(u, d)
            &&& is_nearest(q, value_num(b) * pow10(d), value_den(b))
            &&& text_double(t) == Some(
                with_sign(is_negative(b), round_decimal(q, -(d as int))),
            )
        }),
{
    lemma_den_positive(b);
    let n = half_even(value_num(b) * pow10(d), value_den(b));
    lemma_half_even_nearest(value_num(b) * pow10(d), value_den(b));
    lemma_filled(n, d + 1);
    let w = filled(n, d + 1);
    let u = point_before_last(n, d);
    assert(w == zeros(d + 1 - nat_text(n).len()) + nat_text(n));
    if d == 0 {
        lemma_plain_digits(w);
        assert(u == w);
    } else {
        lemma_pointed_digits(w, w.len() - d);
        assert(u[0] == w[0]);
    }
    lemma_unsigned(b, u);
    lemma_signed_decimal(b, u, round_decimal(n, -(d as int)));
}

proof fn lemma_den_positive(b: u64)
    ensures
        value_den(b) > 0,
{
    if crate::double::exponent(b) < 0 {
        vstd::arithmetic::power2::lemma_pow2_pos((-crate::double::exponent(b)) as nat);
    }
}

proof fn lemma_pow10_positive(k: nat)
    ensures
        pow10(k) > 0,
    decreases k,
{
    if k > 0 {
        lemma_pow10_positive((k - 1) as nat);
    }
}

/// The ratio of a number to a power of ten, written in two ways.
proof fn lemma_scaled(n: nat, m: nat, t: int, d: nat)
    ensures
        (decade_num(n, t) * pow10(d)) * decade_den(m, t - d) == decade_num(n, t - d) * decade_den(
            m,
            t,
        ),
{
    let e = t - d;
    if t <= 0 {
        lemma_pow10_add((-t) as nat, d);
        assert((-e) as nat == (-t) as nat + d);
        let a = pow10((-t) as nat);
        let p = pow10(d);
        if t < 0 {
            assert((n * a) * p * m == (n * (a * p)) * m) by (nonlinear_arith);
        } else {
            assert(pow10(0) == 1);
            assert(1 * p == p) by (nonlinear_arith);
            if d == 0 {
                assert(n * 1 == n) by (nonlinear_arith);
            }
        }
    } else if e >= 0 {
        lemma_pow10_add(e as nat, d);
        assert(t as nat == e as nat + d);
        let a = pow10(e as nat);
        let p = pow10(d);
        if e > 0 {
            assert((n * p) * (m * a) == n * (m * (a * p))) by (nonlinear_arith);
        } else {
            assert(pow10(0) == 1);
            assert(1 * p == p) by (nonlinear_arith);
            assert((n * p) * m == n * (m * p)) by (nonlinear_arith);
        }
    } else {
        lemma_pow10_add(t as nat, (-e) as nat);
        assert(d == t as nat + (-e) as nat);
        let a = pow10(t as nat);
        let c = pow10((-e) as nat);
        assert((n * (a * c)) * m == (n * c) * (m * a)) by (nonlinear_arith);
    }
}

proof fn lemma_nearest_scaled(q: nat, a: nat, b: nat, c: nat, d: nat)
    requires
        b > 0,
        d > 0,
        a * d == c * b,
        -(b as int) <= 2 * (q * b - a) <= b,
    ensures
        -(d as int) <= 2 * (q * d - c) <= d,
{
    let x = q * d - c;
    assert((q * b - a) * d == x * b) by (nonlinear_arith)
        requires
            a * d == c * b,
            x == q * d - c,
    ;
    let y = q * b - a;
    assert(-(d as int) <= 2 * x) by (nonlinear_arith)
        requires
            y * d == x * b,
            -(b as int) <= 2 * y,
            b > 0,
            d > 0,
    ;
    assert(2 * x <= d) by (nonlinear_arith)
        requires
            y * d == x * b,
            2 * y <= b,
            b > 0,
            d > 0,
    ;
}

/// Whether `n * 10^e` lies at most half of `10^e` from the magnitude of a number.
pub open spec fn is_near(b: u64, n: nat, e: int) -> bool {
    let p = decade_num(value_num(b), e);
    let q = decade_den(value_den(b), e);
    -(q as int) <= 2 * (n * q - p) <= q
}

proof fn lemma_decade_positive(b: u64, t: int)
    ensures
        decade_den(value_den(b), t) > 0,
{
    lemma_den_positive(b);
    if t > 0 {
        lemma_pow10_positive(t as nat);
        let m = value_den(b);
        let p = pow10(t as nat);
        assert(m * p > 0) by (nonlinear_arith)
            requires
                m > 0,
                p > 0,
        ;
    }
}

/// The significant digits of a number other than zero: as many as asked for, and they
/// spell a number that is as near as a half of the last digit's place.
pub proof fn law_significant(b: u64, d: nat)
    requires
        is_finite(b),
        magnitude(b) != 0,
    ensures
        ({
            let (n, t) = significant(b, d);
            &&& pow10(d) <= n < pow10(d + 1)
            &&& is_near(b, n, t - d)
        }),
{
    lemma_value_bounds(b);
    lemma_leading_decade(b);
    let t = leading_power(b);
    let p = decade_num(value_num(b), t);
    let q = decade_den(value_den(b), t);
    lemma_decade_positive(b, t);
    lemma_decade_positive(b, t - d);
    lemma_decade_positive(b, t + 1 - d);
    assert(in_decade(value_num(b), value_den(b), t));
    let ten = pow10(d);
    lemma_pow10_positive(d);
    let m = half_even(p * ten, q);
    lemma_half_even_nearest(p * ten, q);
    lemma_scaled(value_num(b), value_den(b), t, d);
    lemma_nearest_scaled(
        m,
        p * ten,
        q,
        decade_num(value_num(b), t - d),
        decade_den(value_den(b), t - d),
    );
    assert(pow10(d + 1) == 10 * ten);
    assert(ten <= m <= 10 * ten) by {
        assert(m >= ten) by (nonlinear_arith)
            requires
                q <= p,
                -(q as int) <= 2 * (m * q - p * ten),
                2 * (m * q - p * ten) == -(q as int) ==> m % 2 == 0,
                q > 0,
                ten > 0,
        ;
        assert(m <= 10 * ten) by (nonlinear_arith)
            requires
                p < 10 * q,
                2 * (m * q - p * ten) <= q,
                q > 0,
                ten > 0,
        ;
    }
    if m == 10 * ten {
        lemma_carried(b, m, ten, t - d);
    }
}

/// A number that rounds to a one and zeros is as near to it as the next place asks for.
proof fn lemma_carried(b: u64, m: nat, ten: nat, e: int)
    requires
        m == 10 * ten,
        is_near(b, m, e),
        decade_den(value_den(b), e) > 0,
        decade_den(value_den(b), e + 1) > 0,
    ensures
        is_near(b, ten, e + 1),
{
    let p = decade_num(value_num(b), e);
    let q = decade_den(value_den(b), e);
    let p1 = decade_num(value_num(b), e + 1);
    let q1 = decade_den(value_den(b), e + 1);
    lemma_scaled(value_num(b), value_den(b), e + 1, 1);
    assert(pow10(1) == 10) by {
        reveal_with_fuel(pow10, 2);
    }
    assert((p1 * 10) * q == p * q1);
    let x = ten * q1 - p1;
    let y = m * q - p;
    assert(10 * (x * q) == y * q1) by (nonlinear_arith)
        requires
            (p1 * 10) * q == p * q1,
            x == ten * q1 - p1,
            y == m * q - p,
            m == 10 * ten,
    ;
    assert(2 * x <= q1) by (nonlinear_arith)
        requires
            10 * (x * q) == y * q1,
            2 * y <= q,
            q > 0,
            q1 > 0,
    ;
    assert(-(q1 as int) <= 2 * x) by (nonlinear_arith)
        requires
            10 * (x * q) == y * q1,
            -(q as int) <= 2 * y,
            q > 0,
            q1 > 0,
    ;
}

/// Digits with a point behind the first, and an exponent.
proof fn lemma_exponential(w: Seq<u16>, x: int)
    requires
        all_digits(w),
        w.len() > 0,
    ensures
        decimal_text(pointed(w) + exponent_text(x), 0) == Some(
            round_decimal(digits_value(w, 0, w.len() as int), x - (w.len() - 1)),
        ),
{
    let k = w.len() as int;
    let m: nat = if x >= 0 {
        x as nat
    } else {
        (-x) as nat
    };
    let head = pointed(w);
    let h = head.len() as int;
    let e = nat_text(m);
    let t = head + exponent_text(x);
    law_nat_text_value(m);
    assert(t.len() == h + 2 + e.len());
    assert(t[h] == 0x65);
    assert(t[h + 1] == if x >= 0 {
        0x2bu16
    } else {
        0x2du16
    });
    assert forall|i: int| 0 <= i < e.len() implies t[h + 2 + i] == #[trigger] e[i] by {}
    assert forall|i: int| h + 2 <= i < t.len() implies is_digit(#[trigger] t[i]) by {
        assert(t[h + 2 + (i - h - 2)] == e[i - h - 2]);
    }
    lemma_run(t, h + 2, t.len() as int);
    lemma_digits_value_shift(t, h + 2, e, e.len());
    assert(exponent_part(t, h) == Some(x));
    assert(t[0] == w[0]) by {
        assert(head[0] == w[0]);
    }
    if k == 1 {
        assert(head == w);
        lemma_run(t, 0, 1);
        lemma_digits_value_prefix(w, t, 0, 1);
    } else {
        assert(head =~= w.take(1) + seq![0x2eu16] + w.skip(1));
        assert(t[1] == 0x2e);
        lemma_run(t, 0, 1);
        assert forall|i: int| 2 <= i < k + 1 implies is_digit(#[trigger] t[i]) by {
            assert(t[i] == w[i - 1]);
        }
        lemma_run(t, 2, k + 1);
        lemma_two_parts(w, 1, k);
        lemma_digits_value_prefix(w, t, 0, 1);
        let tail = w.skip(1);
        assert forall|i: int| 0 <= i < k - 1 implies t[2 + i] == #[trigger] tail[i] by {}
        lemma_digits_value_shift(t, 2, tail, (k - 1) as nat);
        assert forall|i: int| 0 <= i < k - 1 implies w[1 + i] == #[trigger] tail[i] by {}
        lemma_digits_value_shift(w, 1, tail, (k - 1) as nat);
        assert(digits_without_point(t, 0, 1, k + 1) == digits_value(w, 0, k));
    }
}

/// The text with an exponent of a number of `d + 1` digits.
proof fn lemma_exponential_text(b: u64, n: nat, x: int, d: nat)
    requires
        pow10(d) <= n < pow10(d + 1),
    ensures
        ({
            let t = sign_text(b) + pointed(filled(n, d + 1)) + exponent_text(x);
            let u = unsigned(t);
            let k = decimals_len(d);
            &&& t.len() > 0
            &&& t[0] == 0x2d <==> is_negative(b)
            &&& u.len() > k + 2
            &&& 0x31 <= u[0] <= 0x39
            &&& has_decimals(u.take(k), d)
            &&& u[k] == 0x65
            &&& u.skip(k) == exponent_text(x)
            &&& spelled(u.take(k), d) == n
            &&& text_double(t) == Some(with_sign(is_negative(b), round_decimal(n, x - d)))
        }),
{
    lemma_filled(n, d + 1);
    lemma_nat_text_len(n);
    let w = filled(n, d + 1);
    lemma_pow10_positive(d);
    let l = nat_text(n).len();
    if l > d + 1 {
        crate::decimal::lemma_pow10_monotone(d + 1, (l - 1) as nat);
    }
    if l < d + 1 {
        crate::decimal::lemma_pow10_monotone(l, d);
    }
    assert(w =~= nat_text(n));
    law_nat_text_value(n);
    lemma_exponential(w, x);
    let u = pointed(w) + exponent_text(x);
    let k = decimals_len(d);
    assert(pointed(w).len() == k);
    assert(u.take(k) =~= pointed(w));
    assert(u.skip(k) =~= exponent_text(x));
    if d == 0 {
        assert(spelled(w, 0) == n);
    } else {
        lemma_pointed_digits(w, 1);
    }
    assert(u[0] == w[0]);
    lemma_unsigned(b, u);
    lemma_signed_decimal(b, u, round_decimal(n, x - d));
    assert(sign_text(b) + pointed(w) + exponent_text(x) =~= sign_text(b) + u);
    let m: nat = if x >= 0 {
        x as nat
    } else {
        (-x) as nat
    };
    law_nat_text_value(m);
    assert(u[k] == exponent_text(x)[0]);
}

/// How long a digit with `d` decimals is.
pub open spec fn decimals_len(d: nat) -> int {
    if d == 0 {
        1
    } else {
        d as int + 2
    }
}

/// `toExponential(d)` of a number other than zero starts with a minus sign exactly where
/// the number is negative, has one digit other than zero before the point and `d` behind
/// it, and then an exponent; what it spells lies at most half of the last place from the
/// number, and it reads back as the double nearest to that.
pub proof fn law_to_exponential(b: u64, d: nat)
    requires
        is_finite(b),
        magnitude(b) != 0,
    ensures
        ({
            let t = exponential_text(b, d);
            let u = unsigned(t);
            let k = decimals_len(d);
            &&& t.len() > 0
            &&& t[0] == 0x2d <==> is_negative(b)
            &&& u.len() > k + 2
            &&& 0x31 <= u[0] <= 0x39
            &&& has_decimals(u.take(k), d)
            &&& u[k] == 0x65
            &&& exists|x: int|
                {
                    &&& u.skip(k) == #[trigger] exponent_text(x)
                    &&& is_near(b, spelled(u.take(k), d), x - d)
                    &&& text_double(t) == Some(
                        with_sign(is_negative(b), round_decimal(spelled(u.take(k), d), x - d)),
                    )
                }
        }),
{
    let (n, x) = significant(b, d);
    law_significant(b, d);
    lemma_exponential_text(b, n, x, d);
    let u = unsigned(exponential_text(b, d));
    assert(u.skip(decimals_len(d)) == exponent_text(x));
}

proof fn lemma_shortest_text(b: u64, s: nat, x: int)
    ensures
        ({
            let t = sign_text(b) + pointed(nat_text(s)) + exponent_text(x);
            &&& text_double(t) == Some(
                with_sign(is_negative(b), round_decimal(s, x - (nat_text(s).len() - 1))),
            )
            &&& t[0] == 0x2d <==> is_negative(b)
        }),
{
    let d = nat_text(s);
    law_nat_text_value(s);
    lemma_with_exponent(s, x);
    let u = pointed(d) + exponent_text(x);
    assert(u[0] == d[0]) by {
        assert(pointed(d)[0] == d[0]);
    }
    lemma_unsigned(b, u);
    lemma_signed_decimal(b, u, round_decimal(s, x - (d.len() - 1)));
    assert(sign_text(b) + pointed(d) + exponent_text(x) =~= sign_text(b) + u);
}

/// `toExponential()` writes the shortest digits that read back as the number.
pub proof fn law_to_exponential_reads_back(b: u64)
    requires
        is_finite(b),
        magnitude(b) != 0,
    ensures
        text_double(shortest_exponential(b)) == Some(b),
        shortest_exponential(b)[0] == 0x2d <==> is_negative(b),
{
    law_shortest_reads_back(b);
    let (s, e) = shortest_decimal(b);
    lemma_shortest_text(b, s, nat_text(s).len() + e - 1);
    assert(with_sign(is_negative(b), magnitude(b)) == b);
}

/// `toPrecision(p)` is `toExponential(p - 1)` where the number has more than `p` digits
/// before the point or lies below `10^-6`, and else `toFixed` with as many decimals as
/// give `p` digits in all.
pub proof fn law_to_precision(b: u64, p: nat)
    requires
        is_finite(b),
        magnitude(b) != 0,
        p >= 1,
    ensures
        ({
            let (n, x) = significant(b, (p - 1) as nat);
            &&& pow10((p - 1) as nat) <= n < pow10(p)
            &&& is_near(b, n, x - (p - 1))
            &&& (x >= p || x < -6) ==> precision_text(b, p) == exponential_text(b, (p - 1) as nat)
            &&& -6 <= x < p ==> ({
                let t = precision_text(b, p);
                let d = (p - 1 - x) as nat;
                &&& t[0] == 0x2d <==> is_negative(b)
                &&& has_decimals(unsigned(t), d)
                &&& is_nearest(spelled(unsigned(t), d), value_num(b) * pow10(d), value_den(b))
            })
        }),
{
    let (n, x) = significant(b, (p - 1) as nat);
    law_significant(b, (p - 1) as nat);
    if -6 <= x < p {
        lemma_fixed(b, (p - 1 - x) as nat);
    }
}

/// A decimal is read to its end.
proof fn lemma_float_end(s: Seq<u16>)
    requires
        ({
            let i: int = if s.len() > 0 && (s[0] == 0x2d || s[0] == 0x2b) {
                1
            } else {
                0
            };
            decimal_text(s, i) is Some
        }),
    ensures
        float_end(s) == s.len(),
{
    let i: int = if s.len() > 0 && (s[0] == 0x2d || s[0] == 0x2b) {
        1
    } else {
        0
    };
    let p = digits_end(s, i);
    lemma_digits_end(s, i);
    let j = if p < s.len() && s[p] == 0x2e {
        digits_end(s, p + 1)
    } else {
        p
    };
    if p < s.len() && s[p] == 0x2e {
        lemma_digits_end(s, p + 1);
    }
    assert(exponent_part(s, j) is Some);
}

/// `parseFloat` reads the text of a number back as the number; the sign of a zero is lost.
pub proof fn law_parse_float_reads_back(b: u64)
    requires
        is_finite(b),
        magnitude(b) == 0 ==> !is_negative(b),
    ensures
        parsed_float(number_string(b)) == b,
{
    law_number_string_reads_back(b);
    let s = number_string(b);
    let i: int = if has_sign(s, 0) {
        1
    } else {
        0
    };
    assert(decimal_text(s, i) is Some) by {
        assert(magnitude(with_sign(has_minus(s, 0), INFINITY as int)) == INFINITY);
        assert(magnitude(NAN) > INFINITY);
    }
    lemma_float_end(s);
    lemma_digits_end(s, i);
    assert(s.len() > 0 && (has_sign(s, 0) || is_digit(s[0]) || s[0] == 0x2e));
    assert(crate::text::spaces_end(s, 0) == 0);
    assert(s.skip(0) =~= s);
    assert(s.take(s.len() as int) =~= s);
}

} // verus!
