//! Texts of numbers in radices from 2 to 36.
use vstd::arithmetic::div_mod::*;
use vstd::arithmetic::power2::*;
use vstd::prelude::*;

use crate::bignat::BigNat;
use crate::decimal::{value_den, value_num};
use crate::double::{
    INFINITY, MIN_EXPONENT, SIGN, decode, difference, exponent, fmul, from_i64, fsub, ftrunc,
    half_even, in_binade, int_double, is_finite, is_negative, lemma_half_even_exact,
    lemma_int_exact, lemma_int_parts, lemma_round_monotone, lemma_round_own_value,
    lemma_round_ratio_at, lemma_round_ratio_range, lemma_truncation, magnitude, mantissa,
    product, round_dyadic, round_ratio, scaled_num, shift_up, signed_mantissa, to_i64,
    trunc_int, truncation, with_sign, zero,
};
use crate::number_format::sign_text;

verus! {

/// The digit `d` of a radix up to 36.
pub open spec fn radix_digit(d: int) -> u16 {
    if d < 10 {
        (0x30 + d) as u16
    } else {
        (0x57 + d) as u16
    }
}

/// The digits of a whole number, first digit first; none of zero.
pub open spec fn digits_in(n: nat, radix: int) -> Seq<u16>
    decreases n,
{
    if n == 0 || radix < 2 {
        seq![]
    } else {
        let q = n as int / radix;
        (if 0 <= q < n {
            digits_in(q as nat, radix)
        } else {
            seq![]
        }).push(radix_digit(n as int % radix))
    }
}

/// What is left of a number behind the point.
pub open spec fn fraction(b: u64) -> u64 {
    difference(b, truncation(b))
}

/// Up to `n` digits of a fraction, as long as something is left of it.
pub open spec fn fraction_digits(f: u64, radix: int, n: nat) -> Seq<u16>
    decreases n,
{
    if n == 0 {
        seq![]
    } else {
        let p = product(f, int_double(radix));
        let d = seq![radix_digit(trunc_int(p))];
        if magnitude(fraction(p)) == 0 {
            d
        } else {
            d + fraction_digits(fraction(p), radix, (n - 1) as nat)
        }
    }
}

/// A finite number in another radix than ten: the digits of its whole part, all of them
/// exact, then up to 14 digits behind the point. Zero has no sign.
pub open spec fn radix_text(b: u64, radix: int) -> Seq<u16> {
    let mag = magnitude(b) as u64;
    let whole = trunc_int(mag);
    let f = fraction(mag);
    (if magnitude(b) == 0 {
        seq![]
    } else {
        sign_text(b)
    }) + (if whole == 0 {
        seq![0x30u16]
    } else {
        digits_in(whole as nat, radix)
    }) + (if magnitude(f) == 0 {
        seq![]
    } else {
        seq![0x2eu16] + fraction_digits(f, radix, 14)
    })
}

// ---------------------------------------------------------------------------
// Bounds
// ---------------------------------------------------------------------------

/// A number whose pattern is below that of an integer has a smaller whole part.
proof fn lemma_below_int(b: u64, n: int)
    requires
        is_finite(b),
        !is_negative(b),
        n >= 0,
        magnitude(b) < round_ratio(n as nat, 1),
    ensures
        0 <= trunc_int(b) < n,
{
    let m = mantissa(b);
    let q = exponent(b);
    let t = trunc_int(b);
    if q < 0 {
        lemma_pow2_pos((-q) as nat);
        lemma_fundamental_div_mod(m as int, pow2((-q) as nat) as int);
        lemma_div_pos_is_pos(m as int, pow2((-q) as nat) as int);
    } else {
        lemma_pow2_pos(q as nat);
        let p = pow2(q as nat);
        assert(m * p >= 0) by (nonlinear_arith)
            requires
                m >= 0,
                p >= 0,
        ;
    }
    if t >= n {
        lemma_round_own_value(b);
        let num = value_num(b);
        let den = value_den(b);
        assert(n * den <= num) by {
            if q < 0 {
                let p = pow2((-q) as nat);
                let f = m / p;
                assert(n * p <= m) by (nonlinear_arith)
                    requires
                        m == p * f + m % p,
                        m % p >= 0,
                        f >= n,
                        p > 0,
                ;
            } else if q == 0 {
                lemma2_to64();
                assert(m * 1 == m) by (nonlinear_arith);
            }
        }
        lemma_round_monotone(n as nat, 1, num, den);
        assert(round_dyadic(m, q) == round_ratio(num, den));
    }
}

/// A number whose pattern is not below that of a small integer has at least it as its
/// whole part.
pub proof fn lemma_not_below_int(b: u64, n: int)
    requires
        is_finite(b),
        !is_negative(b),
        0 <= n < 0x20_0000_0000_0000,
        magnitude(b) >= magnitude(int_double(n)),
    ensures
        trunc_int(b) >= n,
{
    let d = int_double(n);
    lemma_int_exact(n);
    let e = exponent(b);
    let m = mantissa(b);
    if magnitude(b) == magnitude(d) {
        assert(b == d);
    } else if e < 0 {
        // both patterns are read with the same or a smaller exponent
        lemma_int_parts(n);
        let ed = exponent(d);
        let md = mantissa(d);
        let p = pow2((-e) as nat);
        let pd = pow2((-ed) as nat);
        lemma_pow2_pos((-e) as nat);
        lemma_pow2_pos((-ed) as nat);
        assert(md == n * pd);
        assert(ed <= e);
        lemma_pow2_adds((-e) as nat, (e - ed) as nat);
        let w = pow2((e - ed) as nat);
        lemma_pow2_pos((e - ed) as nat);
        assert(m * w >= md) by {
            if ed == e {
                lemma2_to64();
                assert(w == 1);
                assert(m * 1 == m) by (nonlinear_arith);
            } else {
                lemma_pow2_unfold((e - ed) as nat);
                let h = pow2((e - ed - 1) as nat);
                lemma_pow2_pos((e - ed - 1) as nat);
                assert(m >= 0x10_0000_0000_0000);
                assert(md < 0x20_0000_0000_0000);
                assert(m * w >= 0x20_0000_0000_0000) by (nonlinear_arith)
                    requires
                        m >= 0x10_0000_0000_0000,
                        w == 2 * h,
                        h >= 1,
                ;
            }
        }
        assert(m >= n * p) by (nonlinear_arith)
            requires
                m * w >= md,
                md == n * pd,
                pd == p * w,
                w > 0,
        ;
        lemma_fundamental_div_mod(m as int, p as int);
        let f = m / p;
        assert(f >= n) by (nonlinear_arith)
            requires
                m >= n * p,
                m == p * f + m % p,
                m % p < p,
                p > 0,
        ;
    } else {
        lemma2_to64();
        lemma_pow2_pos(e as nat);
        let p = pow2(e as nat);
        assert(m * p >= m) by (nonlinear_arith)
            requires
                p >= 1,
                m >= 0,
        ;
        if e == 0 {
            assert(m * 1 == m) by (nonlinear_arith);
            lemma_int_parts(n);
            let ed = exponent(d);
            if ed == 0 {
                assert(n * 1 == n) by (nonlinear_arith);
                assert(mantissa(d) == n);
            } else {
                lemma_pow2_unfold((-ed) as nat);
                let h = pow2((-ed - 1) as nat);
                lemma_pow2_pos((-ed - 1) as nat);
                assert(n * (2 * h) >= 2 * n) by (nonlinear_arith)
                    requires
                        h >= 1,
                        n >= 0,
                ;
                assert(mantissa(d) < 0x20_0000_0000_0000);
                assert(m >= 0x10_0000_0000_0000);
            }
        } else {
            assert(m >= 0x10_0000_0000_0000);
            lemma_pow2_unfold(e as nat);
            let h = pow2((e - 1) as nat);
            lemma_pow2_pos((e - 1) as nat);
            assert(m * p >= 0x20_0000_0000_0000) by (nonlinear_arith)
                requires
                    m >= 0x10_0000_0000_0000,
                    p == 2 * h,
                    h >= 1,
            ;
        }
    }
}

/// Cutting keeps the sign of what is not negative.
proof fn lemma_truncation_sign(b: u64)
    requires
        is_finite(b),
        !is_negative(b),
    ensures
        !is_negative(truncation(b)),
        is_finite(truncation(b)),
{
    lemma_truncation(b);
    if !(magnitude(b) == 0 || exponent(b) >= 0) {
        lemma_pow2_pos((-exponent(b)) as nat);
        lemma_div_pos_is_pos(mantissa(b) as int, pow2((-exponent(b)) as nat) as int);
        lemma_round_ratio_range(trunc_int(b) as nat, 1);
    }
}

/// The largest double below one, times a radix, rounds below the radix.
proof fn lemma_top_fraction(r: nat, k: int, p: nat)
    requires
        2 <= r <= 36,
        0 < k < 1000,
        p == pow2(k as nat),
        0x10_0000_0000_0000 <= r * p < 0x20_0000_0000_0000,
    ensures
        round_ratio((0x1f_ffff_ffff_ffff * r) as nat, 0x20_0000_0000_0000) < round_ratio(r, 1),
        round_ratio(r, 1) < INFINITY,
{
    let x = r * p;
    lemma_pow2_pos(k as nat);
    // the radix itself
    assert(scaled_num(r, -k) == x);
    assert(in_binade(r, 1, -k));
    lemma_round_ratio_at(r, 1, -k);
    lemma_half_even_exact(x, 1);
    assert(x * 1 == x) by (nonlinear_arith);
    assert(half_even(x, 1) == x);
    let n = (0x1f_ffff_ffff_ffff * r) as nat;
    let d = 0x20_0000_0000_0000nat;
    assert(n * p == 0x1f_ffff_ffff_ffff * x) by (nonlinear_arith)
        requires
            n == 0x1f_ffff_ffff_ffff * r,
            x == r * p,
    ;
    if x > 0x10_0000_0000_0000 {
        assert(scaled_num(n, -k) == n * p);
        assert(0x1f_ffff_ffff_ffff * x == (x - 1) * 0x20_0000_0000_0000 + (0x20_0000_0000_0000 - x));
        lemma_fundamental_div_mod_converse(
            (n * p) as int,
            d as int,
            x - 1,
            0x20_0000_0000_0000 - x,
        );
        assert(half_even((n * p) as nat, d) == x - 1);
        assert(in_binade(n, d, -k));
        lemma_round_ratio_at(n, d, -k);
    } else {
        lemma_pow2_unfold((k + 1) as nat);
        assert(n * (2 * p) == 2 * (n * p)) by (nonlinear_arith);
        assert(scaled_num(n, -k - 1) == 2 * (n * p));
        assert(2 * (n * p) == 0x1f_ffff_ffff_ffff * 0x20_0000_0000_0000);
        lemma_half_even_exact(0x1f_ffff_ffff_ffff, d);
        assert(half_even((2 * (n * p)) as nat, d) == 0x1f_ffff_ffff_ffff);
        assert(in_binade(n, d, -k - 1));
        lemma_round_ratio_at(n, d, -k - 1);
    }
}

/// The largest double below one, times a radix, rounds below the radix.
proof fn lemma_top_fraction_any(r: nat)
    requires
        2 <= r <= 36,
    ensures
        round_ratio((0x1f_ffff_ffff_ffff * r) as nat, 0x20_0000_0000_0000) < round_ratio(r, 1),
        round_ratio(r, 1) < INFINITY,
{
    lemma2_to64();
    lemma2_to64_rest();
    if r < 4 {
        lemma_top_fraction(r, 51, 0x8_0000_0000_0000);
    } else if r < 8 {
        lemma_top_fraction(r, 50, 0x4_0000_0000_0000);
    } else if r < 16 {
        lemma_top_fraction(r, 49, 0x2_0000_0000_0000);
    } else if r < 32 {
        lemma_top_fraction(r, 48, 0x1_0000_0000_0000);
    } else {
        lemma_top_fraction(r, 47, 0x8000_0000_0000);
    }
}

/// Whether a pattern is that of a number from zero up to one.
pub open spec fn is_fraction(f: u64) -> bool {
    f < 0x3ff0_0000_0000_0000
}

/// The next digit of a fraction is a digit of the radix.
proof fn lemma_next_digit(f: u64, radix: int)
    requires
        is_fraction(f),
        2 <= radix <= 36,
    ensures
        is_finite(product(f, int_double(radix))),
        !is_negative(product(f, int_double(radix))),
        0 <= trunc_int(product(f, int_double(radix))) < radix,
{
    let d = int_double(radix);
    let r = radix as nat;
    lemma_int_exact(radix);
    lemma_int_parts(radix);
    let k = (-exponent(d)) as nat;
    let pk = pow2(k);
    lemma_pow2_pos(k);
    let m = mantissa(f);
    let e = exponent(f);
    assert(m <= 0x1f_ffff_ffff_ffff);
    assert(e <= -53);
    let a = (-e) as nat;
    let pa = pow2(a);
    lemma_pow2_pos(a);
    lemma_pow2_adds(53, (a - 53) as nat);
    lemma_pow2_pos((a - 53) as nat);
    lemma2_to64_rest();
    let pb = pow2((a - 53) as nat);
    assert(pa >= 0x20_0000_0000_0000) by (nonlinear_arith)
        requires
            pa == 0x20_0000_0000_0000 * pb,
            pb >= 1,
    ;
    lemma_pow2_adds(a, k);
    let num = m * mantissa(d);
    let den = pow2(a + k);
    assert(mantissa(d) == r * pk);
    assert(num * 0x20_0000_0000_0000 <= (0x1f_ffff_ffff_ffff * r) * den) by (nonlinear_arith)
        requires
            num == m * (r * pk),
            den == pa * pk,
            m <= 0x1f_ffff_ffff_ffff,
            pa >= 0x20_0000_0000_0000,
            r >= 0,
            pk >= 0,
            m >= 0,
    ;
    lemma_pow2_pos(a + k);
    lemma_round_monotone(num, den, (0x1f_ffff_ffff_ffff * r) as nat, 0x20_0000_0000_0000);
    lemma_top_fraction_any(r);
    lemma_round_ratio_range(num, den);
    let p = product(f, d);
    assert(exponent(f) + exponent(d) == -((a + k) as int));
    assert(round_dyadic(num, exponent(f) + exponent(d)) == round_ratio(num, den));
    assert(magnitude(p) == round_ratio(num, den));
    lemma_below_int(p, radix);
}

/// What is behind the point of a number lies between zero and one.
proof fn lemma_fraction(b: u64)
    requires
        is_finite(b),
        !is_negative(b),
    ensures
        is_fraction(fraction(b)),
{
    let t = truncation(b);
    let m = mantissa(b);
    let e = exponent(b);
    lemma_truncation(b);
    lemma_truncation_sign(b);
    let n = crate::double::negation(t);
    assert(magnitude(n) == magnitude(t));
    assert(mantissa(n) == mantissa(t) && exponent(n) == exponent(t));
    assert(is_negative(n));
    if magnitude(b) == 0 || e >= 0 {
        assert(t == b);
        lemma2_to64();
        assert(pow2(0) == 1);
        assert(signed_mantissa(b) * 1 + signed_mantissa(n) * 1 == 0) by (nonlinear_arith)
            requires
                signed_mantissa(b) == -signed_mantissa(n),
        ;
        assert(fraction(b) == 0);
    } else {
        let x = trunc_int(b);
        let pe = pow2((-e) as nat);
        lemma_pow2_pos((-e) as nat);
        lemma_fundamental_div_mod(m as int, pe as int);
        lemma_div_pos_is_pos(m as int, pe as int);
        assert(m == pe * x + m % pe);
        lemma_top_one();
        if x == 0 {
            assert(magnitude(t) == 0);
            assert(t == 0);
            assert(mantissa(n) == 0 && exponent(n) == MIN_EXPONENT);
            let w = pow2((e - MIN_EXPONENT) as nat);
            lemma2_to64();
            assert(m * w + 0 * 1 == m * w) by (nonlinear_arith);
            lemma_small_value(b);
            lemma_round_own_value(b);
            lemma_pow2_pos((e - MIN_EXPONENT) as nat);
            assert(m * w > 0) by (nonlinear_arith)
                requires
                    m > 0,
                    w > 0,
            ;
            lemma_rebase(m, e, MIN_EXPONENT as int);
            assert(fraction(b) == with_sign(false, round_dyadic(m * w, MIN_EXPONENT as int)));
            assert(magnitude(fraction(b)) == magnitude(b));
        } else {
            assert(t == int_double(x));
            assert(x < 0x20_0000_0000_0000) by {
                assert(x <= m) by (nonlinear_arith)
                    requires
                        m == pe * x + m % pe,
                        m % pe >= 0,
                        pe >= 1,
                        x >= 0,
                ;
            }
            lemma_int_parts(x);
            let et = exponent(t);
            let q = if e < et {
                e
            } else {
                et
            };
            let w1 = pow2((e - q) as nat);
            let w2 = pow2((et - q) as nat);
            let pt = pow2((-et) as nat);
            let pq = pow2((-q) as nat);
            lemma_pow2_adds((-e) as nat, (e - q) as nat);
            lemma_pow2_adds((-et) as nat, (et - q) as nat);
            let rest = (m % pe) as int;
            let s = signed_mantissa(b) * w1 + signed_mantissa(n) * w2;
            assert(signed_mantissa(n) == -(x * pt));
            assert(s == rest * w1) by (nonlinear_arith)
                requires
                    s == m * w1 + (-(x * pt)) * w2,
                    m == pe * x + rest,
                    pe * w1 == pq,
                    pt * w2 == pq,
            ;
            lemma_pow2_pos((e - q) as nat);
            assert(s >= 0) by (nonlinear_arith)
                requires
                    s == rest * w1,
                    rest >= 0,
                    w1 > 0,
            ;
            if s > 0 {
                // rest / 2^-e is at most (2^k - 1) / 2^k with k = -e <= 52
                assert(pe <= m) by (nonlinear_arith)
                    requires
                        m == pe * x + rest,
                        rest >= 0,
                        x >= 1,
                        pe >= 0,
                ;
                lemma_exponent_small((-e) as nat, m);
                lemma_rebase(rest as nat, e, q);
                let k = (-e) as nat;
                lemma_pow2_adds(k, (53 - k) as nat);
                lemma2_to64_rest();
                let z = pow2((53 - k) as nat);
                lemma_pow2_pos((53 - k) as nat);
                assert(rest * 0x20_0000_0000_0000 <= 0x1f_ffff_ffff_ffff * pe) by (nonlinear_arith)
                    requires
                        rest <= pe - 1,
                        pe * z == 0x20_0000_0000_0000,
                        z >= 1,
                        rest >= 0,
                ;
                lemma_round_monotone(rest as nat, pe, 0x1f_ffff_ffff_ffff, 0x20_0000_0000_0000);
                lemma_round_ratio_range(rest as nat, pe);
                assert(round_dyadic(rest as nat, e) == round_ratio(rest as nat, pe));
                assert(fraction(b) == with_sign(false, round_dyadic(s as nat, q)));
            }
        }
    }
}

/// `m * 2^e` written over a smaller power of two rounds to the same.
proof fn lemma_rebase(m: nat, e: int, q: int)
    requires
        q <= e < 0,
    ensures
        round_dyadic((m * pow2((e - q) as nat)) as nat, q) == round_dyadic(m, e),
{
    let w = pow2((e - q) as nat);
    lemma_pow2_pos((e - q) as nat);
    lemma_pow2_adds((-e) as nat, (e - q) as nat);
    lemma_pow2_pos((-e) as nat);
    crate::double::lemma_round_ratio_scale(m, pow2((-e) as nat), w);
}

/// The largest double below one has the pattern before that of one.
proof fn lemma_top_one()
    ensures
        round_ratio(0x1f_ffff_ffff_ffff, 0x20_0000_0000_0000) == 0x3fef_ffff_ffff_ffff,
{
    lemma2_to64_rest();
    let n = 0x1f_ffff_ffff_ffffnat;
    let d = 0x20_0000_0000_0000nat;
    assert(pow2(53) == d);
    assert(scaled_num(n, -53) == n * d);
    assert(in_binade(n, d, -53));
    lemma_round_ratio_at(n, d, -53);
    lemma_half_even_exact(n, d);
}

/// A number without a whole part lies below one.
proof fn lemma_small_value(b: u64)
    requires
        is_finite(b),
        !is_negative(b),
        exponent(b) < 0,
        trunc_int(b) == 0,
    ensures
        is_fraction(b),
{
    if b >= 0x3ff0_0000_0000_0000 {
        let m = mantissa(b);
        let k = (-exponent(b)) as nat;
        assert(m >= 0x10_0000_0000_0000);
        assert(k <= 52);
        lemma_pow2_adds(k, (52 - k) as nat);
        lemma_pow2_pos((52 - k) as nat);
        lemma_pow2_pos(k);
        lemma2_to64_rest();
        let p = pow2(k);
        let z = pow2((52 - k) as nat);
        assert(p <= 0x10_0000_0000_0000) by (nonlinear_arith)
            requires
                p * z == 0x10_0000_0000_0000,
                z >= 1,
                p >= 0,
        ;
        lemma_fundamental_div_mod(m as int, p as int);
        let f = m / p;
        assert(f >= 1) by (nonlinear_arith)
            requires
                m == p * f + m % p,
                m % p < p,
                m >= p,
                p > 0,
        ;
    }
}

proof fn lemma_exponent_small(k: nat, m: nat)
    requires
        pow2(k) <= m,
        m < 0x20_0000_0000_0000,
    ensures
        k <= 52,
{
    if k >= 53 {
        lemma_pow2_adds(53, (k - 53) as nat);
        lemma_pow2_pos((k - 53) as nat);
        lemma2_to64_rest();
        let z = pow2((k - 53) as nat);
        let p = pow2(k);
        assert(p >= 0x20_0000_0000_0000) by (nonlinear_arith)
            requires
                p == 0x20_0000_0000_0000 * z,
                z >= 1,
        ;
    }
}

// ---------------------------------------------------------------------------
// Writing
// ---------------------------------------------------------------------------

/// The digit `d` of a radix up to 36.
fn digit_unit(d: u64) -> (r: u16)
    requires
        d < 36,
    ensures
        r == radix_digit(d as int),
{
    if d < 10 {
        0x30 + d as u16
    } else {
        0x57 + d as u16
    }
}

/// The whole part of a number that is not negative.
fn whole_part(b: u64) -> (r: BigNat)
    requires
        is_finite(b),
        !is_negative(b),
    ensures
        r@ == trunc_int(b),
{
    let (_, m, q) = decode(b);
    if q >= 0 {
        let mut n: BigNat = BigNat::from_u64(m);
        shift_up(&mut n, q as u64);
        return n;
    }
    let t: i64 = to_i64(b);
    proof {
        let p = pow2((-q) as nat) as int;
        lemma_pow2_pos((-q) as nat);
        lemma_div_pos_is_pos(m as int, p);
        lemma_div_is_ordered_by_denominator(m as int, 1, p);
    }
    BigNat::from_u64(t as u64)
}

/// Appends the digits of a whole number.
fn push_whole(out: &mut Vec<u16>, n: BigNat, radix: u32)
    requires
        2 <= radix <= 36,
    ensures
        final(out)@ == old(out)@ + digits_in(n@, radix as int),
    decreases n@,
{
    let ghost start = out@;
    if n.is_zero() {
        proof {
            assert(out@ + seq![] =~= out@);
        }
        return;
    }
    let ghost v = n@;
    let mut rest: BigNat = n;
    let d: u32 = rest.divide_small(radix);
    proof {
        lemma_div_decreases(v as int, radix as int);
        lemma_div_pos_is_pos(v as int, radix as int);
    }
    push_whole(out, rest, radix);
    out.push(digit_unit(d as u64));
    proof {
        assert(out@ =~= start + digits_in(v, radix as int));
    }
}

/// Appends up to `n` digits of a fraction.
fn push_fraction(out: &mut Vec<u16>, f: u64, radix: u64, n: u64)
    requires
        is_fraction(f),
        2 <= radix <= 36,
    ensures
        final(out)@ == old(out)@ + fraction_digits(f, radix as int, n as nat),
    decreases n,
{
    let ghost start = out@;
    if n == 0 {
        proof {
            assert(out@ + seq![] =~= out@);
        }
        return;
    }
    let p: u64 = fmul(f, from_i64(radix as i64));
    proof {
        lemma_next_digit(f, radix as int);
        lemma_fraction(p);
    }
    let d: i64 = to_i64(p);
    out.push(digit_unit(d as u64));
    let rest: u64 = fsub(p, ftrunc(p));
    proof {
        assert(out@ =~= start + seq![radix_digit(trunc_int(p))]);
    }
    if !zero(rest) {
        push_fraction(out, rest, radix, n - 1);
    }
    proof {
        assert(out@ =~= start + fraction_digits(f, radix as int, n as nat));
    }
}

/// A finite number in another radix than ten.
pub fn in_radix(b: u64, radix: u64) -> (r: Vec<u16>)
    requires
        is_finite(b),
        2 <= radix <= 36,
    ensures
        r@ == radix_text(b, radix as int),
{
    let mut out: Vec<u16> = Vec::new();
    let mag: u64 = b % SIGN;
    if b > SIGN {
        out.push(0x2d);
    }
    proof {
        assert(out@ =~= if magnitude(b) == 0 {
            seq![]
        } else {
            sign_text(b)
        });
        lemma_truncation(mag);
        lemma_truncation_sign(mag);
        lemma_fraction(mag);
    }
    let whole: BigNat = whole_part(mag);
    if whole.is_zero() {
        out.push(0x30);
    } else {
        push_whole(&mut out, whole, radix as u32);
    }
    let f: u64 = fsub(mag, ftrunc(mag));
    if !zero(f) {
        out.push(0x2e);
        push_fraction(&mut out, f, radix, 14);
    }
    proof {
        assert(out@ =~= radix_text(b, radix as int));
    }
    out
}

} // verus!
