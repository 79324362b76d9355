//! The shortest decimal of a number reads back as the number.
use vstd::prelude::*;
use vstd::arithmetic::power2::pow2;

use crate::decimal::{
    decade_den, decade_num, in_decade, leading_digits, leading_power, leading_rest,
    lemma_pow10_add, lemma_value_bounds, neighbour, pow10, reads_back, round_decimal,
    shortest_decimal, shortest_from, strip_zeros, value_den, value_num,
};
use crate::double::{
    MIN_EXPONENT, exponent, half_even, in_binade, is_finite, lemma_round_ratio_at,
    lemma_round_ratio_scale, magnitude, mantissa, round_ratio, scaled_den, scaled_num,
};

verus! {

/// A fraction that lies nearer to `m` than a half rounds to it.
proof fn lemma_near_half(a: nat, b: nat, m: nat)
    requires
        b > 0,
        2 * a < 2 * (m * b) + b,
        2 * (m * b) < 2 * a + b,
    ensures
        half_even(a, b) == m,
{
    if a >= m * b {
        let r = a - m * b;
        assert(a == m * b + r);
        vstd::arithmetic::div_mod::lemma_fundamental_div_mod_converse(
            a as int,
            b as int,
            m as int,
            r as int,
        );
    } else {
        assert(m > 0) by (nonlinear_arith)
            requires
                a < m * b,
        ;
        let f: int = m - 1;
        let r: int = a - f * b;
        assert(f * b == m * b - b) by (nonlinear_arith)
            requires
                f == m - 1,
        ;
        assert(a == f * b + r);
        vstd::arithmetic::div_mod::lemma_fundamental_div_mod_converse(a as int, b as int, f, r);
    }
}

/// A fraction that lies nearer to a number than to its neighbours rounds to it. Below a
/// power of two the next number is only half as far away.
proof fn lemma_near_rounds(b: u64, n: nat, d: nat)
    requires
        is_finite(b),
        magnitude(b) != 0,
        n > 0,
        d > 0,
        ({
            let x = scaled_num(n, exponent(b));
            let y = scaled_den(d, exponent(b));
            let m = mantissa(b);
            &&& 2 * x < 2 * (m * y) + y
            &&& 2 * (m * y) < 2 * x + y
            &&& m == 0x10_0000_0000_0000 ==> 4 * (m * y) < 4 * x + y
        }),
    ensures
        round_ratio(n, d) == magnitude(b),
{
    let q = exponent(b);
    let m = mantissa(b);
    let x = scaled_num(n, q);
    let y = scaled_den(d, q);
    let mag = magnitude(b);
    assert(y > 0) by {
        if q > 0 {
            vstd::arithmetic::power2::lemma_pow2_pos(q as nat);
            assert(d * pow2(q as nat) > 0) by (nonlinear_arith)
                requires
                    d > 0,
                    pow2(q as nat) > 0,
            ;
        }
    }
    assert(mag == (q - MIN_EXPONENT) * 0x10_0000_0000_0000 + m);
    assert(m < 0x20_0000_0000_0000);
    assert(m > 0);
    if x >= m * y || m > 0x10_0000_0000_0000 || q == MIN_EXPONENT {
        assert(x < 0x20_0000_0000_0000 * y) by (nonlinear_arith)
            requires
                2 * x < 2 * (m * y) + y,
                m + 1 <= 0x20_0000_0000_0000,
                y > 0,
        ;
        if q > MIN_EXPONENT {
            assert(m >= 0x10_0000_0000_0000);
            if x >= m * y {
                assert(x >= 0x10_0000_0000_0000 * y) by (nonlinear_arith)
                    requires
                        x >= m * y,
                        m >= 0x10_0000_0000_0000,
                        y > 0,
                ;
            } else {
                assert(x >= 0x10_0000_0000_0000 * y) by (nonlinear_arith)
                    requires
                        2 * (m * y) < 2 * x + y,
                        m >= 0x10_0000_0000_0000 + 1,
                        y > 0,
                ;
            }
        }
        assert(in_binade(n, d, q));
        lemma_near_half(x, y, m);
        lemma_round_ratio_at(n, d, q);
    } else {
        assert(m == 0x10_0000_0000_0000);
        let p = q - 1;
        let u = scaled_num(n, p);
        let v = scaled_den(d, p);
        assert(u * y == 2 * (x * v) && v > 0) by {
            if q >= 1 {
                // The denominator halves.
                vstd::arithmetic::power2::lemma_pow2_unfold(q as nat);
                assert(u == n && x == n);
                let h = pow2((q - 1) as nat);
                assert(y == d * (2 * h));
                if p > 0 {
                    assert(v == d * h);
                    vstd::arithmetic::power2::lemma_pow2_pos(p as nat);
                    assert(d * h > 0) by (nonlinear_arith)
                        requires
                            d > 0,
                            h > 0,
                    ;
                    assert(n * (d * (2 * h)) == 2 * (n * (d * h))) by (nonlinear_arith);
                } else {
                    vstd::arithmetic::power2::lemma2_to64();
                    assert(h == 1);
                    assert(v == d);
                    assert(n * (d * (2 * h)) == 2 * (n * d)) by (nonlinear_arith)
                        requires
                            h == 1,
                    ;
                }
            } else {
                // The numerator doubles.
                vstd::arithmetic::power2::lemma_pow2_unfold((-p) as nat);
                let h = pow2((-q) as nat);
                assert((-p - 1) as nat == (-q) as nat);
                assert(u == n * (2 * h));
                assert(v == d && y == d);
                if q < 0 {
                    assert(x == n * h);
                    assert(n * (2 * h) * d == 2 * (n * h * d)) by (nonlinear_arith);
                } else {
                    vstd::arithmetic::power2::lemma2_to64();
                    assert(h == 1);
                    assert(x == n);
                    assert(n * (2 * h) * d == 2 * (n * d)) by (nonlinear_arith)
                        requires
                            h == 1,
                    ;
                }
            }
        }
        assert(m * y == 0x10_0000_0000_0000 * y);
        // Twice the fraction lies as near to twice the mantissa.
        assert(u < 0x20_0000_0000_0000 * v) by (nonlinear_arith)
            requires
                u * y == 2 * (x * v),
                x < 0x10_0000_0000_0000 * y,
                y > 0,
                v > 0,
        ;
        assert(u >= 0x10_0000_0000_0000 * v) by (nonlinear_arith)
            requires
                u * y == 2 * (x * v),
                4 * (0x10_0000_0000_0000 * y) < 4 * x + y,
                y > 0,
                v > 0,
        ;
        assert(2 * (0x20_0000_0000_0000 * v) < 2 * u + v) by (nonlinear_arith)
            requires
                u * y == 2 * (x * v),
                4 * (0x10_0000_0000_0000 * y) < 4 * x + y,
                y > 0,
                v > 0,
        ;
        assert(in_binade(n, d, p));
        assert(2 * u < 2 * (0x20_0000_0000_0000 * v) + v);
        lemma_near_half(u, v, 0x20_0000_0000_0000);
        lemma_round_ratio_at(n, d, p);
    }
}

/// The value of a decimal and the value of a number over the decimal's last place: both
/// sides of `s * 10^e / v == (s * den) / (10^16 * num)`.
proof fn lemma_cross(n: nat, d: nat, s: nat, t: int)
    ensures
        ({
            let e = t - 16;
            let num = decade_num(n, t);
            let den = decade_den(d, t);
            let sn = if e > 0 {
                s * pow10(e as nat)
            } else {
                s
            };
            let sd = if e < 0 {
                pow10((-e) as nat)
            } else {
                1
            };
            (sn * d) * (pow10(16) * num) == (sd * n) * (s * den)
        }),
{
    let e = t - 16;
    let p = pow10(16);
    if t < 0 {
        let z = pow10((-t) as nat);
        lemma_pow10_add(16, (-t) as nat);
        assert((-e) as nat == 16 + (-t) as nat);
        assert((s * d) * (p * (n * z)) == ((p * z) * n) * (s * d)) by (nonlinear_arith);
    } else if t == 0 {
        assert((s * d) * (p * n) == (p * n) * (s * d)) by (nonlinear_arith);
    } else {
        let z = pow10(t as nat);
        if e > 0 {
            let w = pow10(e as nat);
            lemma_pow10_add(e as nat, 16);
            assert(e as nat + 16 == t as nat);
            assert(z == w * p);
            assert(((s * w) * d) * (p * n) == (1 * n) * (s * (d * (w * p)))) by (nonlinear_arith);
        } else if e == 0 {
            assert(z == p);
            assert((s * d) * (p * n) == (1 * n) * (s * (d * p))) by (nonlinear_arith);
        } else {
            let w = pow10((-e) as nat);
            lemma_pow10_add((-e) as nat, t as nat);
            assert((-e) as nat + t as nat == 16);
            assert(p == w * z);
            assert((s * d) * ((w * z) * n) == (w * n) * (s * (d * z))) by (nonlinear_arith);
        }
    }
}

/// Two fractions that relate to a number as `x` to `y`, scaled to the number's last place.
proof fn lemma_scaled_cross(b: u64, sn: nat, sd: nat, x: nat, y: nat)
    requires
        (sn * value_den(b)) * y == (sd * value_num(b)) * x,
    ensures
        scaled_num(sn, exponent(b)) * y == (mantissa(b) * scaled_den(sd, exponent(b))) * x,
{
    let q = exponent(b);
    let m = mantissa(b);
    if q < 0 {
        let z = pow2((-q) as nat);
        assert((sn * z) * y == (sd * m) * x);
        assert((m * sd) * x == (sd * m) * x) by (nonlinear_arith);
    } else if q == 0 {
        assert((sn * 1) * y == sn * y) by (nonlinear_arith);
        assert((m * sd) * x == (sd * m) * x) by (nonlinear_arith);
    } else {
        let z = pow2(q as nat);
        assert((sn * 1) * y == sn * y) by (nonlinear_arith);
        assert((m * (sd * z)) * x == (sd * (m * z)) * x) by (nonlinear_arith);
    }
}

/// A decimal of 17 digits that is no farther from a number than half a unit of its last
/// place reads back as the number.
proof fn lemma_close_reads_back(b: u64, s: nat)
    requires
        is_finite(b),
        magnitude(b) != 0,
        s > 0,
        in_decade(value_num(b), value_den(b), leading_power(b)),
        ({
            let den = decade_den(value_den(b), leading_power(b));
            let y = pow10(16) * decade_num(value_num(b), leading_power(b));
            &&& 2 * (s * den) <= 2 * y + den
            &&& 2 * y <= 2 * (s * den) + den
        }),
    ensures
        reads_back(b, s, leading_power(b) - 16),
{
    let t = leading_power(b);
    let e = t - 16;
    let n = value_num(b);
    let d = value_den(b);
    lemma_value_bounds(b);
    let num = decade_num(n, t);
    let den = decade_den(d, t);
    let p = pow10(16);
    let y = p * num;
    let x = s * den;
    let sn = if e > 0 {
        s * pow10(e as nat)
    } else {
        s
    };
    let sd: nat = if e < 0 {
        pow10((-e) as nat)
    } else {
        1
    };
    crate::decimal::lemma_pow10_monotone(0, e as nat);
    crate::decimal::lemma_pow10_monotone(0, (-e) as nat);
    assert(pow10(0) == 1);
    assert(sn > 0) by {
        if e > 0 {
            let w = pow10(e as nat);
            assert(s * w > 0) by (nonlinear_arith)
                requires
                    s > 0,
                    w >= 1,
            ;
        }
    }
    assert(sd > 0);
    lemma_cross(n, d, s, t);
    lemma_scaled_cross(b, sn, sd, x, y);
    let q = exponent(b);
    let m = mantissa(b);
    let u = scaled_num(sn, q);
    let v = scaled_den(sd, q);
    assert(v > 0) by {
        if q > 0 {
            vstd::arithmetic::power2::lemma_pow2_pos(q as nat);
            assert(sd * pow2(q as nat) > 0) by (nonlinear_arith)
                requires
                    sd > 0,
                    pow2(q as nat) > 0,
            ;
        }
    }
    assert(p == 10_000_000_000_000_000) by {
        reveal_with_fuel(pow10, 17);
    }
    assert(den > 0) by {
        if t > 0 {
            crate::decimal::lemma_pow10_monotone(0, t as nat);
            let w = pow10(t as nat);
            assert(d * w > 0) by (nonlinear_arith)
                requires
                    d > 0,
                    w >= 1,
            ;
        }
    }
    assert(num >= den);
    assert(m < 0x20_0000_0000_0000);
    assert(m > 0);
    let k = m * v;
    assert(k > 0) by (nonlinear_arith)
        requires
            k == m * v,
            m > 0,
            v > 0,
    ;
    assert(y >= p * den) by (nonlinear_arith)
        requires
            y == p * num,
            num >= den,
    ;
    assert(y > 0) by (nonlinear_arith)
        requires
            y >= p * den,
            p > 0,
            den > 0,
    ;
    // u * y == k * x, and x is within den / 2 of y, which is at least p * den.
    assert(2 * p * u <= 2 * p * k + k) by (nonlinear_arith)
        requires
            u * y == k * x,
            2 * x <= 2 * y + den,
            y >= p * den,
            y > 0,
            k > 0,
            p > 0,
    ;
    assert(2 * p * k <= 2 * p * u + k) by (nonlinear_arith)
        requires
            u * y == k * x,
            2 * y <= 2 * x + den,
            y >= p * den,
            y > 0,
            k > 0,
            p > 0,
    ;
    assert(k < p * v) by (nonlinear_arith)
        requires
            k == m * v,
            m < p,
            v > 0,
    ;
    assert(2 * u < 2 * k + v) by (nonlinear_arith)
        requires
            2 * p * u <= 2 * p * k + k,
            k < p * v,
            p > 0,
    ;
    assert(2 * k < 2 * u + v) by (nonlinear_arith)
        requires
            2 * p * k <= 2 * p * u + k,
            k < p * v,
            p > 0,
    ;
    if m == 0x10_0000_0000_0000 {
        assert(2 * k < p * v) by (nonlinear_arith)
            requires
                k == m * v,
                2 * m < p,
                v > 0,
        ;
        assert(4 * k < 4 * u + v) by (nonlinear_arith)
            requires
                2 * p * k <= 2 * p * u + k,
                2 * k < p * v,
                p > 0,
        ;
    }
    lemma_near_rounds(b, sn, sd);
}

/// One of the two decimals of 17 digits around a number reads back as it.
proof fn lemma_seventeen_digits(b: u64)
    requires
        is_finite(b),
        magnitude(b) != 0,
        in_decade(value_num(b), value_den(b), leading_power(b)),
    ensures
        neighbour(b, 17) is Some,
{
    let t = leading_power(b);
    let num = decade_num(value_num(b), t);
    let den = decade_den(value_den(b), t);
    let y = pow10(16) * num;
    let lo = leading_digits(b, 17);
    let r = leading_rest(b, 17);
    lemma_value_bounds(b);
    assert(den > 0) by {
        if t > 0 {
            crate::decimal::lemma_pow10_monotone(0, t as nat);
            assert(pow10(0) == 1);
            let w = pow10(t as nat);
            let d = value_den(b);
            assert(d * w > 0) by (nonlinear_arith)
                requires
                    d > 0,
                    w >= 1,
            ;
        }
    }
    assert(num * pow10(16) == y) by (nonlinear_arith)
        requires
            y == pow10(16) * num,
    ;
    vstd::arithmetic::div_mod::lemma_fundamental_div_mod(y as int, den as int);
    vstd::arithmetic::div_mod::lemma_mod_bound(y as int, den as int);
    assert(y == den * lo + r);
    assert(den * lo == lo * den) by (nonlinear_arith);
    assert((lo + 1) * den == lo * den + den) by (nonlinear_arith);
    assert(lo > 0) by {
        crate::decimal::lemma_pow10_monotone(0, 16);
        assert(pow10(0) == 1);
        assert(y >= den) by (nonlinear_arith)
            requires
                y == pow10(16) * num,
                num >= den,
                pow10(16) >= 1,
        ;
        if lo == 0 {
            assert(den * lo == 0) by (nonlinear_arith)
                requires
                    lo == 0,
            ;
        }
    }
    if 2 * r <= den {
        lemma_close_reads_back(b, lo);
    } else {
        lemma_close_reads_back(b, lo + 1);
    }
}

proof fn lemma_shortest_from(b: u64, k: nat)
    requires
        is_finite(b),
        magnitude(b) != 0,
        in_decade(value_num(b), value_den(b), leading_power(b)),
        1 <= k <= 17,
    ensures
        reads_back(b, shortest_from(b, k).0, shortest_from(b, k).1),
    decreases 17 - k,
{
    if k == 17 {
        lemma_seventeen_digits(b);
    } else if neighbour(b, k) is None {
        lemma_shortest_from(b, k + 1);
    }
}

/// Moving a zero from the digits to the exponent leaves the value.
proof fn lemma_strip_zeros(s: nat, e: int)
    ensures
        round_decimal(strip_zeros(s, e).0, strip_zeros(s, e).1) == round_decimal(s, e),
    decreases s,
{
    if s > 0 && s % 10 == 0 {
        lemma_strip_zeros(s / 10, e + 1);
        let c = s / 10;
        assert(s == c * 10);
        if e >= 0 {
            let w = pow10(e as nat);
            assert(pow10((e + 1) as nat) == 10 * w);
            assert(c * (10 * w) == (c * 10) * w) by (nonlinear_arith);
            if e == 0 {
                assert(w == 1);
                assert(c * (10 * w) == s);
            }
        } else {
            let w = pow10((-e - 1) as nat);
            assert(pow10((-e) as nat) == 10 * w);
            crate::decimal::lemma_pow10_monotone(0, (-e - 1) as nat);
            assert(pow10(0) == 1);
            assert(w * 10 == 10 * w) by (nonlinear_arith);
            lemma_round_ratio_scale(c, w, 10);
        }
    }
}

/// A fraction of at least `10^t` lies in some decade.
proof fn lemma_decade_up(n: nat, d: nat, t: int) -> (r: int)
    requires
        d > 0,
        t >= 0,
        decade_num(n, t) >= decade_den(d, t),
        decade_den(d, t) > 0,
    ensures
        in_decade(n, d, r),
    decreases n - decade_den(d, t),
{
    if decade_num(n, t) < 10 * decade_den(d, t) {
        t
    } else {
        crate::decimal::lemma_decade_step(n, d, t);
        lemma_decade_up(n, d, t + 1)
    }
}

/// A fraction below `10^(t + 1)` that is not zero lies in some decade.
proof fn lemma_decade_down(n: nat, d: nat, t: int) -> (r: int)
    requires
        n > 0,
        d > 0,
        t < 0,
        decade_num(n, t) < 10 * decade_den(d, t),
        decade_num(n, t) > 0,
    ensures
        in_decade(n, d, r),
    decreases
            (if decade_num(n, t) < d {
                d - decade_num(n, t)
            } else {
                0
            }),
{
    if decade_num(n, t) >= decade_den(d, t) {
        t
    } else {
        crate::decimal::lemma_decade_step(n, d, t - 1);
        lemma_decade_down(n, d, t - 1)
    }
}

/// The value of a number lies in the decade of its leading digit.
pub proof fn lemma_leading_decade(b: u64)
    requires
        is_finite(b),
        magnitude(b) != 0,
    ensures
        in_decade(value_num(b), value_den(b), leading_power(b)),
{
    lemma_value_bounds(b);
    let n = value_num(b);
    let d = value_den(b);
    if n >= d {
        let t = lemma_decade_up(n, d, 0);
        assert(in_decade(n, d, t));
    } else {
        crate::decimal::lemma_decade_step(n, d, -1);
        let t = lemma_decade_down(n, d, -1);
        assert(in_decade(n, d, t));
    }
}

/// The shortest digits of a number, read as a decimal, give the number again, its sign
/// apart.
pub proof fn law_shortest_reads_back(b: u64)
    requires
        is_finite(b),
        magnitude(b) != 0,
    ensures
        round_decimal(shortest_decimal(b).0, shortest_decimal(b).1) == magnitude(b),
        shortest_decimal(b).0 > 0,
{
    lemma_leading_decade(b);
    lemma_shortest_from(b, 1);
    let (s, e) = shortest_from(b, 1);
    lemma_strip_zeros(s, e);
    let (a, c) = strip_zeros(s, e);
    if a == 0 {
        assert(round_decimal(0, c) == 0) by {
            if c > 0 {
                assert(0 * pow10(c as nat) == 0) by (nonlinear_arith);
            }
        }
    }
}

} // verus!
