//! IEEE 754 binary64 numbers as bit patterns, computed with integers only.
//!
//! A JavaScript number is held as the `u64` of its bit pattern. Every operation
//! here is stated over the exact rational value of its operands and rounds once,
//! to the nearest double, ties to even.
use vstd::arithmetic::div_mod::*;
use vstd::arithmetic::power2::*;
use vstd::bits::*;
use vstd::prelude::*;

use crate::bignat::BigNat;

verus! {

/// `2^52`: the weight of the exponent field, and the hidden bit.
pub const HIDDEN: u64 = 0x10_0000_0000_0000;

/// The sign bit.
pub const SIGN: u64 = 0x8000_0000_0000_0000;

/// Positive infinity.
pub const INFINITY: u64 = 0x7ff0_0000_0000_0000;

/// The canonical not-a-number.
pub const NAN: u64 = 0x7ff8_0000_0000_0000;

/// Exponent of the smallest double.
pub const MIN_EXPONENT: i64 = -1074;

/// The bit pattern without its sign.
pub open spec fn magnitude(b: u64) -> int {
    b as int % SIGN as int
}

/// Whether the sign bit is set.
pub open spec fn is_negative(b: u64) -> bool {
    b >= SIGN
}

/// Whether the pattern is not a number.
pub open spec fn is_nan(b: u64) -> bool {
    magnitude(b) > INFINITY
}

/// Whether the pattern is an infinity.
pub open spec fn is_infinite(b: u64) -> bool {
    magnitude(b) == INFINITY
}

/// Whether the pattern is neither an infinity nor not-a-number.
pub open spec fn is_finite(b: u64) -> bool {
    magnitude(b) < INFINITY
}

/// Integer significand: the value is `mantissa * 2^exponent`, up to its sign.
pub open spec fn mantissa(b: u64) -> nat {
    let mag = magnitude(b);
    if mag < HIDDEN {
        mag as nat
    } else {
        (mag % (HIDDEN as int) + HIDDEN) as nat
    }
}

/// Binary exponent that goes with [`mantissa`].
pub open spec fn exponent(b: u64) -> int {
    let mag = magnitude(b);
    if mag < HIDDEN {
        MIN_EXPONENT as int
    } else {
        mag / (HIDDEN as int) - 1075
    }
}

/// The bit pattern `mag` with the given sign.
pub open spec fn with_sign(negative: bool, mag: int) -> u64 {
    if negative {
        (mag + SIGN) as u64
    } else {
        mag as u64
    }
}

// ---------------------------------------------------------------------------
// Rounding a fraction to the nearest double
// ---------------------------------------------------------------------------

/// Numerator of `n / d` divided by `2^q`.
pub open spec fn scaled_num(n: nat, q: int) -> nat {
    if q < 0 {
        n * pow2((-q) as nat)
    } else {
        n
    }
}

/// Denominator of `n / d` divided by `2^q`.
pub open spec fn scaled_den(d: nat, q: int) -> nat {
    if q > 0 {
        d * pow2(q as nat)
    } else {
        d
    }
}

/// Whether doubles near `n / d` are multiples of `2^q`.
pub open spec fn in_binade(n: nat, d: nat, q: int) -> bool {
    &&& q >= MIN_EXPONENT
    &&& scaled_num(n, q) < 0x20_0000_0000_0000 * scaled_den(d, q)
    &&& q > MIN_EXPONENT ==> scaled_num(n, q) >= 0x10_0000_0000_0000 * scaled_den(d, q)
}

/// The integer nearest to `n / d`, the even one of two.
pub open spec fn half_even(n: nat, d: nat) -> nat {
    let f = n / d;
    let r = n % d;
    if 2 * r < d {
        f
    } else if 2 * r > d {
        f + 1
    } else {
        f + f % 2
    }
}

/// Magnitude bits of the double nearest to `n / d` (ties to even; infinity
/// where the nearest multiple lies past the largest double).
pub open spec fn round_ratio(n: nat, d: nat) -> int {
    if n == 0 {
        0
    } else {
        let q = choose|q: int| in_binade(n, d, q);
        let bits = (q - MIN_EXPONENT) * 0x10_0000_0000_0000 + half_even(scaled_num(n, q), scaled_den(d, q));
        if bits > INFINITY {
            INFINITY as int
        } else {
            bits
        }
    }
}

proof fn lemma_scale_step(n: nat, d: nat, q: int)
    ensures
        q >= 0 ==> scaled_num(n, q + 1) == scaled_num(n, q) && scaled_den(d, q + 1) == 2
            * scaled_den(d, q),
        q < 0 ==> scaled_num(n, q) == 2 * scaled_num(n, q + 1) && scaled_den(d, q + 1)
            == scaled_den(d, q),
{
    if q >= 0 {
        lemma_pow2_unfold((q + 1) as nat);
        let p = pow2(q as nat);
        assert(d * (2 * p) == 2 * (d * p)) by (nonlinear_arith);
        if q == 0 {
            lemma2_to64();
            assert(d * 1 == d) by (nonlinear_arith);
        }
    } else {
        lemma_pow2_unfold((-q) as nat);
        let p = pow2((-q - 1) as nat);
        assert(n * (2 * p) == 2 * (n * p)) by (nonlinear_arith);
        if q == -1 {
            lemma2_to64();
            assert(n * 1 == n) by (nonlinear_arith);
        }
    }
}

proof fn lemma_scaled_den_pos(d: nat, q: int)
    requires
        d > 0,
    ensures
        scaled_den(d, q) > 0,
{
    if q > 0 {
        lemma_pow2_pos(q as nat);
        let p = pow2(q as nat);
        assert(d * p > 0) by (nonlinear_arith)
            requires
                d > 0,
                p > 0,
        ;
    }
}

proof fn lemma_pow2_exceeds(k: nat)
    ensures
        pow2(k) > k,
    decreases k,
{
    if k == 0 {
        lemma2_to64();
    } else {
        lemma_pow2_unfold(k);
        lemma_pow2_exceeds((k - 1) as nat);
    }
}

proof fn lemma_binade_up(n: nat, d: nat, q: int) -> (r: int)
    requires
        d > 0,
        q >= MIN_EXPONENT,
        q > MIN_EXPONENT ==> scaled_num(n, q) >= 0x10_0000_0000_0000 * scaled_den(d, q),
    ensures
        r >= q,
        in_binade(n, d, r),
    decreases n - q + 2000,
{
    if scaled_num(n, q) < 0x20_0000_0000_0000 * scaled_den(d, q) {
        q
    } else {
        lemma_scale_step(n, d, q);
        lemma_scaled_den_pos(d, q);
        if q >= 0 {
            lemma_pow2_exceeds(q as nat);
            let p = pow2(q as nat);
            if q > 0 {
                assert(d * p >= p) by (nonlinear_arith)
                    requires
                        d >= 1,
                ;
            }
        }
        lemma_binade_up(n, d, q + 1)
    }
}

proof fn lemma_reaches_down(n: nat, d: nat, q1: int, q2: int)
    requires
        q1 <= q2,
        scaled_num(n, q2) >= 0x10_0000_0000_0000 * scaled_den(d, q2),
    ensures
        scaled_num(n, q1) >= 0x10_0000_0000_0000 * scaled_den(d, q1),
    decreases q2 - q1,
{
    if q1 < q2 {
        lemma_scale_step(n, d, q2 - 1);
        lemma_reaches_down(n, d, q1, q2 - 1);
    }
}

/// At most one power of two spaces the doubles near a fraction.
proof fn lemma_binade_unique(n: nat, d: nat, q1: int, q2: int)
    requires
        in_binade(n, d, q1),
        in_binade(n, d, q2),
    ensures
        q1 == q2,
{
    if q1 < q2 {
        lemma_reaches_down(n, d, q1 + 1, q2);
        lemma_scale_step(n, d, q1);
    } else if q2 < q1 {
        lemma_reaches_down(n, d, q2 + 1, q1);
        lemma_scale_step(n, d, q2);
    }
}

pub proof fn lemma_round_ratio_at(n: nat, d: nat, q: int)
    requires
        n > 0,
        in_binade(n, d, q),
    ensures
        round_ratio(n, d) == {
            let bits = (q - MIN_EXPONENT) * 0x10_0000_0000_0000 + half_even(scaled_num(n, q), scaled_den(d, q));
            if bits > INFINITY {
                INFINITY as int
            } else {
                bits
            }
        },
{
    let c = choose|c: int| in_binade(n, d, c);
    lemma_binade_unique(n, d, c, q);
}

proof fn lemma_half_even_least(n: nat, d: nat, k: nat)
    requires
        d > 0,
        n >= k * d,
    ensures
        half_even(n, d) >= k,
{
    lemma_fundamental_div_mod(n as int, d as int);
    let f = n / d;
    let r = n % d;
    assert(r < d);
    assert(f >= k) by (nonlinear_arith)
        requires
            n == d * f + r,
            r < d,
            n >= k * d,
    ;
}

proof fn lemma_half_even_most(n: nat, d: nat, k: nat)
    requires
        d > 0,
        n < k * d,
    ensures
        half_even(n, d) <= k,
{
    lemma_fundamental_div_mod(n as int, d as int);
    let f = n / d;
    assert(f < k) by (nonlinear_arith)
        requires
            n == d * f + n % d,
            n < k * d,
    ;
}

/// The result of [`round_ratio`] is the magnitude of a finite double or of infinity.
pub proof fn lemma_round_ratio_range(n: nat, d: nat)
    requires
        d > 0,
    ensures
        0 <= round_ratio(n, d) <= INFINITY,
{
    if n > 0 {
        let q = lemma_some_binade(n, d);
        lemma_round_ratio_at(n, d, q);
        assert((q - MIN_EXPONENT) * 0x10_0000_0000_0000 >= 0) by (nonlinear_arith)
            requires
                q >= MIN_EXPONENT,
        ;
    }
}

pub proof fn lemma_some_binade(n: nat, d: nat) -> (q: int)
    requires
        d > 0,
    ensures
        in_binade(n, d, q),
{
    lemma_binade_up(n, d, MIN_EXPONENT as int)
}

pub proof fn lemma_past_largest(n: nat, d: nat, q: int)
    requires
        n > 0,
        d > 0,
        q >= 971,
        scaled_num(n, q) >= 0x20_0000_0000_0000 * scaled_den(d, q),
    ensures
        round_ratio(n, d) == INFINITY,
{
    lemma_scale_step(n, d, q);
    let r = lemma_binade_up(n, d, q + 1);
    lemma_round_ratio_at(n, d, r);
    lemma_scaled_den_pos(d, r);
    lemma_half_even_least(scaled_num(n, r), scaled_den(d, r), 0x10_0000_0000_0000);
    assert((r - MIN_EXPONENT) * 0x10_0000_0000_0000 >= 2046 * 0x10_0000_0000_0000) by (nonlinear_arith)
        requires
            r >= 972,
    ;
}

/// `n` doubled.
fn double(n: &mut BigNat)
    ensures
        final(n)@ == 2 * old(n)@,
{
    n.mul_add(2, 0);
}

/// Quotient and remainder, for a quotient below `2^63`.
pub fn divide(n: &BigNat, d: &BigNat) -> (r: (u64, BigNat))
    requires
        d@ > 0,
        n@ < 0x8000_0000_0000_0000 * d@,
    ensures
        r.0 == n@ / d@,
        r.1@ == n@ % d@,
{
    let mut multiples: Vec<BigNat> = Vec::new();
    let mut step: BigNat = d.copy();
    let mut i: usize = 0;
    proof {
        lemma2_to64();
        assert(d@ * 1 == d@) by (nonlinear_arith);
    }
    while i < 63
        invariant
            i <= 63,
            multiples@.len() == i,
            step@ == d@ * pow2(i as nat),
            forall|j: int| 0 <= j < i ==> (#[trigger] multiples@[j])@ == d@ * pow2(j as nat),
        decreases 63 - i,
    {
        multiples.push(step.copy());
        double(&mut step);
        proof {
            lemma_pow2_unfold((i + 1) as nat);
            let p = pow2(i as nat);
            assert(2 * (d@ * p) == d@ * (2 * p)) by (nonlinear_arith);
        }
        i = i + 1;
    }
    let mut quotient: u64 = 0;
    let mut rest: BigNat = n.copy();
    let ghost dv = d@;
    proof {
        lemma2_to64_rest();
        assert(pow2(63) == 0x8000_0000_0000_0000);
        assert(dv * pow2(63) == 0x8000_0000_0000_0000 * dv) by (nonlinear_arith)
            requires
                pow2(63) == 0x8000_0000_0000_0000,
        ;
    }
    while i > 0
        invariant
            i <= 63,
            dv == d@,
            dv > 0,
            n@ < 0x8000_0000_0000_0000 * dv,
            multiples@.len() == 63,
            forall|j: int| 0 <= j < 63 ==> (#[trigger] multiples@[j])@ == dv * pow2(j as nat),
            n@ == quotient * (dv * pow2(i as nat)) + rest@,
            rest@ < dv * pow2(i as nat),
        decreases i,
    {
        proof {
            lemma_pow2_unfold(i as nat);
            let p = pow2((i - 1) as nat);
            let qn = quotient as nat;
            assert(dv * (2 * p) == 2 * (dv * p)) by (nonlinear_arith);
            assert(qn * (2 * (dv * p)) == (2 * qn) * (dv * p)) by (nonlinear_arith);
            assert((2 * qn + 1) * (dv * p) == (2 * qn) * (dv * p) + dv * p) by (nonlinear_arith);
            lemma_pow2_pos((i - 1) as nat);
            assert(qn < 0x8000_0000_0000_0000) by (nonlinear_arith)
                requires
                    n@ < 0x8000_0000_0000_0000 * dv,
                    n@ >= (2 * qn) * (dv * p),
                    p >= 1,
                    dv >= 1,
            ;
        }
        i = i - 1;
        if rest.less(&multiples[i]) {
            quotient = 2 * quotient;
        } else {
            rest.subtract(&multiples[i]);
            quotient = 2 * quotient + 1;
        }
    }
    proof {
        assert(dv * pow2(0) == dv) by (nonlinear_arith)
            requires
                pow2(0) == 1,
        ;
        lemma_fundamental_div_mod_converse(n@ as int, dv as int, quotient as int, rest@ as int);
    }
    (quotient, rest)
}

/// The double nearest to `n / d`, ties to even.
pub fn round_to_double(n: &BigNat, d: &BigNat) -> (r: u64)
    requires
        d@ > 0,
    ensures
        r == round_ratio(n@, d@),
        r <= INFINITY,
{
    if n.is_zero() {
        return 0;
    }
    let ghost nv = n@;
    let ghost dv = d@;
    let mut num: BigNat = n.copy();
    let mut den: BigNat = d.copy();
    let mut floor: BigNat = d.copy();
    floor.mul_add(0x400_0000, 0);
    floor.mul_add(0x400_0000, 0);
    let mut ceiling: BigNat = floor.copy();
    double(&mut ceiling);
    let mut q: i64 = 0;
    while !num.less(&ceiling)
        invariant
            0 <= q <= 971,
            nv == n@,
            dv == d@,
            nv > 0,
            dv > 0,
            num@ == scaled_num(nv, q as int),
            den@ == scaled_den(dv, q as int),
            floor@ == 0x10_0000_0000_0000 * den@,
            ceiling@ == 2 * floor@,
            q > 0 ==> num@ >= floor@,
        decreases 971 - q,
    {
        if q == 971 {
            proof {
                lemma_past_largest(nv, dv, 971);
            }
            return INFINITY;
        }
        proof {
            lemma_scale_step(nv, dv, q as int);
        }
        double(&mut den);
        double(&mut floor);
        double(&mut ceiling);
        q = q + 1;
    }
    while num.less(&floor) && q > MIN_EXPONENT
        invariant
            MIN_EXPONENT <= q <= 971,
            nv > 0,
            dv > 0,
            num@ == scaled_num(nv, q as int),
            den@ == scaled_den(dv, q as int),
            floor@ == 0x10_0000_0000_0000 * den@,
            num@ < 2 * floor@,
            q > 0 ==> num@ >= floor@,
        decreases q - MIN_EXPONENT,
    {
        proof {
            lemma_scale_step(nv, dv, q - 1);
        }
        double(&mut num);
        q = q - 1;
    }
    proof {
        lemma_scaled_den_pos(dv, q as int);
        lemma_half_even_most(num@, den@, 0x20_0000_0000_0000);
        lemma_round_ratio_at(nv, dv, q as int);
        assert((q - MIN_EXPONENT) * 0x10_0000_0000_0000 <= 2045 * 0x10_0000_0000_0000) by (nonlinear_arith)
            requires
                q <= 971,
        ;
        assert((q - MIN_EXPONENT) * 0x10_0000_0000_0000 >= 0) by (nonlinear_arith)
            requires
                q >= MIN_EXPONENT,
        ;
    }
    let (quotient, rest) = divide(&num, &den);
    let mut twice: BigNat = rest.copy();
    double(&mut twice);
    let m: u64 = if twice.less(&den) {
        quotient
    } else if den.less(&twice) {
        quotient + 1
    } else {
        quotient + quotient % 2
    };
    proof {
        lemma_fundamental_div_mod(num@ as int, den@ as int);
        assert(quotient < 0x20_0000_0000_0000) by (nonlinear_arith)
            requires
                num@ == den@ * quotient + rest@,
                num@ < 2 * (0x10_0000_0000_0000 * den@),
        ;
        assert(m == half_even(num@, den@));
    }
    ((q - MIN_EXPONENT) as u64) * 0x10_0000_0000_0000 + m
}

// ---------------------------------------------------------------------------
// Reading a bit pattern
// ---------------------------------------------------------------------------

/// [`mantissa`] with the sign of the number.
pub open spec fn signed_mantissa(b: u64) -> int {
    if is_negative(b) {
        -(mantissa(b) as int)
    } else {
        mantissa(b) as int
    }
}

/// The integer part of a finite number, toward zero.
pub open spec fn trunc_int(b: u64) -> int {
    let m = if exponent(b) >= 0 {
        mantissa(b) * pow2(exponent(b) as nat)
    } else {
        mantissa(b) / pow2((-exponent(b)) as nat)
    };
    if is_negative(b) {
        -(m as int)
    } else {
        m as int
    }
}

/// The greatest integer that a finite number is not below.
pub open spec fn floor_int(b: u64) -> int {
    if exponent(b) >= 0 {
        signed_mantissa(b) * pow2(exponent(b) as nat)
    } else {
        signed_mantissa(b) / (pow2((-exponent(b)) as nat) as int)
    }
}

/// Whether a number is finite and an integer.
pub open spec fn is_integral(b: u64) -> bool {
    is_finite(b) && (exponent(b) >= 0 || mantissa(b) % pow2((-exponent(b)) as nat) == 0)
}

/// The double nearest to an integer.
pub open spec fn int_double(n: int) -> u64 {
    if n < 0 {
        with_sign(true, round_ratio((-n) as nat, 1))
    } else {
        with_sign(false, round_ratio(n as nat, 1))
    }
}

/// The double nearest to `m * 2^q`, without its sign.
pub open spec fn round_dyadic(m: nat, q: int) -> int {
    round_ratio(
        if q > 0 {
            m * pow2(q as nat)
        } else {
            m
        },
        if q < 0 {
            pow2((-q) as nat)
        } else {
            1
        },
    )
}

/// Sign, significand and exponent of a number.
pub fn decode(b: u64) -> (r: (bool, u64, i64))
    requires
        is_finite(b),
    ensures
        r.0 == is_negative(b),
        r.1 == mantissa(b),
        r.2 == exponent(b),
        r.1 < 0x20_0000_0000_0000,
        MIN_EXPONENT <= r.2 <= 971,
        r.2 > MIN_EXPONENT ==> r.1 >= HIDDEN,
{
    let mag: u64 = b % SIGN;
    if mag < HIDDEN {
        (b >= SIGN, mag, MIN_EXPONENT)
    } else {
        (b >= SIGN, mag % HIDDEN + HIDDEN, (mag / HIDDEN) as i64 - 1075)
    }
}

/// Whether `b` is not a number.
pub fn nan(b: u64) -> (r: bool)
    ensures
        r == is_nan(b),
{
    b % SIGN > INFINITY
}

/// Whether `b` is finite.
pub fn finite(b: u64) -> (r: bool)
    ensures
        r == is_finite(b),
{
    b % SIGN < INFINITY
}

/// Whether `b` is zero of either sign.
pub fn zero(b: u64) -> (r: bool)
    ensures
        r == (magnitude(b) == 0),
{
    b % SIGN == 0
}

/// `n * 2^k`.
pub fn shift_up(n: &mut BigNat, k: u64)
    ensures
        final(n)@ == old(n)@ * pow2(k as nat),
{
    let ghost start = n@;
    let mut i: u64 = 0;
    proof {
        lemma2_to64();
        assert(start * 1 == start) by (nonlinear_arith);
    }
    while i < k
        invariant
            i <= k,
            n@ == start * pow2(i as nat),
        decreases k - i,
    {
        double(n);
        proof {
            lemma_pow2_unfold((i + 1) as nat);
            let p = pow2(i as nat);
            assert(2 * (start * p) == start * (2 * p)) by (nonlinear_arith);
        }
        i = i + 1;
    }
}

/// The double nearest to `m * 2^q`, without its sign.
pub fn round_shifted(m: BigNat, q: i64) -> (r: u64)
    requires
        -10_000 <= q <= 10_000,
    ensures
        r == round_dyadic(m@, q as int),
        r <= INFINITY,
{
    let mut num: BigNat = m;
    let mut den: BigNat = BigNat::from_u64(1);
    if q > 0 {
        shift_up(&mut num, q as u64);
    } else if q < 0 {
        shift_up(&mut den, (-q) as u64);
        proof {
            lemma_pow2_pos((-q) as nat);
            let p = pow2((-q) as nat);
            assert(1 * p == p) by (nonlinear_arith);
        }
    }
    round_to_double(&num, &den)
}

/// A magnitude with a sign put on it.
fn signed(negative: bool, mag: u64) -> (r: u64)
    requires
        mag <= INFINITY,
    ensures
        r == with_sign(negative, mag as int),
{
    if negative {
        mag + SIGN
    } else {
        mag
    }
}

// ---------------------------------------------------------------------------
// Arithmetic
// ---------------------------------------------------------------------------

/// `a + b`.
pub open spec fn sum(a: u64, b: u64) -> u64 {
    if is_nan(a) || is_nan(b) {
        NAN
    } else if is_infinite(a) {
        if is_infinite(b) && is_negative(a) != is_negative(b) {
            NAN
        } else {
            a
        }
    } else if is_infinite(b) {
        b
    } else {
        let q = if exponent(a) < exponent(b) {
            exponent(a)
        } else {
            exponent(b)
        };
        let s = signed_mantissa(a) * pow2((exponent(a) - q) as nat) + signed_mantissa(b) * pow2(
            (exponent(b) - q) as nat,
        );
        if s == 0 {
            with_sign(is_negative(a) && is_negative(b), 0)
        } else if s < 0 {
            with_sign(true, round_dyadic((-s) as nat, q))
        } else {
            with_sign(false, round_dyadic(s as nat, q))
        }
    }
}

/// `-a`.
pub open spec fn negation(a: u64) -> u64 {
    if is_negative(a) {
        (a - SIGN) as u64
    } else {
        (a + SIGN) as u64
    }
}

/// `a * b`.
pub open spec fn product(a: u64, b: u64) -> u64 {
    let negative = is_negative(a) != is_negative(b);
    if is_nan(a) || is_nan(b) {
        NAN
    } else if is_infinite(a) || is_infinite(b) {
        if magnitude(a) == 0 || magnitude(b) == 0 {
            NAN
        } else {
            with_sign(negative, INFINITY as int)
        }
    } else {
        with_sign(negative, round_dyadic(mantissa(a) * mantissa(b), exponent(a) + exponent(b)))
    }
}

/// `a / b`.
pub open spec fn quotient(a: u64, b: u64) -> u64 {
    let negative = is_negative(a) != is_negative(b);
    if is_nan(a) || is_nan(b) {
        NAN
    } else if is_infinite(a) {
        if is_infinite(b) {
            NAN
        } else {
            with_sign(negative, INFINITY as int)
        }
    } else if is_infinite(b) {
        with_sign(negative, 0)
    } else if magnitude(b) == 0 {
        if magnitude(a) == 0 {
            NAN
        } else {
            with_sign(negative, INFINITY as int)
        }
    } else {
        let q = exponent(a) - exponent(b);
        with_sign(
            negative,
            round_ratio(
                if q > 0 {
                    mantissa(a) * pow2(q as nat)
                } else {
                    mantissa(a)
                },
                if q < 0 {
                    mantissa(b) * pow2((-q) as nat)
                } else {
                    mantissa(b)
                },
            ),
        )
    }
}

/// `a + b`.
pub fn fadd(a: u64, b: u64) -> (r: u64)
    ensures
        r == sum(a, b),
{
    if nan(a) || nan(b) {
        return NAN;
    }
    if !finite(a) {
        if !finite(b) && (a >= SIGN) != (b >= SIGN) {
            return NAN;
        }
        return a;
    }
    if !finite(b) {
        return b;
    }
    let (na, ma, qa) = decode(a);
    let (nb, mb, qb) = decode(b);
    let q: i64 = if qa < qb { qa } else { qb };
    let mut x: BigNat = BigNat::from_u64(ma);
    shift_up(&mut x, (qa - q) as u64);
    let mut y: BigNat = BigNat::from_u64(mb);
    shift_up(&mut y, (qb - q) as u64);
    proof {
        let pa = pow2((qa - q) as nat);
        let pb = pow2((qb - q) as nat);
        assert((-(ma as int)) * pa == -(ma * pa)) by (nonlinear_arith);
        assert((-(mb as int)) * pb == -(mb * pb)) by (nonlinear_arith);
    }
    if na == nb {
        x.add_to(&y);
        if x.is_zero() {
            return signed(na && nb, 0);
        }
        let mag: u64 = round_shifted(x, q);
        return signed(na, mag);
    }
    if x.less(&y) {
        y.subtract(&x);
        let mag: u64 = round_shifted(y, q);
        signed(nb, mag)
    } else {
        x.subtract(&y);
        if x.is_zero() {
            return 0;
        }
        let mag: u64 = round_shifted(x, q);
        signed(na, mag)
    }
}

/// `-a`.
pub fn fneg(a: u64) -> (r: u64)
    ensures
        r == negation(a),
{
    if a >= SIGN {
        a - SIGN
    } else {
        a + SIGN
    }
}

/// `a * b` as a natural number.
fn multiply(a: u64, b: u64) -> (r: BigNat)
    ensures
        r@ == a * b,
{
    let lo: u32 = (b % 0x1_0000_0000) as u32;
    let hi: u32 = (b / 0x1_0000_0000) as u32;
    let mut x: BigNat = BigNat::from_u64(a);
    x.mul_add(hi, 0);
    x.mul_add(0x8000_0000, 0);
    x.mul_add(2, 0);
    let mut y: BigNat = BigNat::from_u64(a);
    y.mul_add(lo, 0);
    x.add_to(&y);
    proof {
        assert((a as nat * hi as nat) * 0x8000_0000 * 2 + a as nat * lo as nat == a as nat * b as nat)
            by (nonlinear_arith)
            requires
                b as nat == hi as nat * 0x1_0000_0000 + lo as nat,
        ;
    }
    x
}

/// `a * b`.
pub fn fmul(a: u64, b: u64) -> (r: u64)
    ensures
        r == product(a, b),
{
    if nan(a) || nan(b) {
        return NAN;
    }
    let negative: bool = (a >= SIGN) != (b >= SIGN);
    if !finite(a) || !finite(b) {
        if zero(a) || zero(b) {
            return NAN;
        }
        return signed(negative, INFINITY);
    }
    let (_, ma, qa) = decode(a);
    let (_, mb, qb) = decode(b);
    let x: BigNat = multiply(ma, mb);
    let mag: u64 = round_shifted(x, qa + qb);
    signed(negative, mag)
}

/// `a / b`.
pub fn fdiv(a: u64, b: u64) -> (r: u64)
    ensures
        r == quotient(a, b),
{
    if nan(a) || nan(b) {
        return NAN;
    }
    let negative: bool = (a >= SIGN) != (b >= SIGN);
    if !finite(a) {
        if !finite(b) {
            return NAN;
        }
        return signed(negative, INFINITY);
    }
    if !finite(b) {
        return signed(negative, 0);
    }
    if zero(b) {
        if zero(a) {
            return NAN;
        }
        return signed(negative, INFINITY);
    }
    let (_, ma, qa) = decode(a);
    let (_, mb, qb) = decode(b);
    let q: i64 = qa - qb;
    let mut num: BigNat = BigNat::from_u64(ma);
    let mut den: BigNat = BigNat::from_u64(mb);
    if q > 0 {
        shift_up(&mut num, q as u64);
    } else if q < 0 {
        shift_up(&mut den, (-q) as u64);
        proof {
            lemma_pow2_pos((-q) as nat);
            let p = pow2((-q) as nat);
            assert(mb * p > 0) by (nonlinear_arith)
                requires
                    mb > 0,
                    p > 0,
            ;
        }
    }
    let mag: u64 = round_to_double(&num, &den);
    signed(negative, mag)
}

// ---------------------------------------------------------------------------
// Comparison
// ---------------------------------------------------------------------------

/// An integer that orders the numbers as their values do; both zeros have key 0.
pub open spec fn order_key(b: u64) -> int {
    if is_negative(b) {
        -magnitude(b)
    } else {
        magnitude(b)
    }
}

/// `a == b`: never true of not-a-number, and true of the two zeros.
pub open spec fn equal(a: u64, b: u64) -> bool {
    !is_nan(a) && !is_nan(b) && order_key(a) == order_key(b)
}

/// `a < b`: never true of not-a-number.
pub open spec fn below(a: u64, b: u64) -> bool {
    !is_nan(a) && !is_nan(b) && order_key(a) < order_key(b)
}

/// `a == b`.
pub fn feq(a: u64, b: u64) -> (r: bool)
    ensures
        r == equal(a, b),
{
    !nan(a) && !nan(b) && (a == b || (zero(a) && zero(b)))
}

/// `a < b`.
pub fn flt(a: u64, b: u64) -> (r: bool)
    ensures
        r == below(a, b),
{
    if nan(a) || nan(b) {
        return false;
    }
    let x: u64 = a % SIGN;
    let y: u64 = b % SIGN;
    if a >= SIGN {
        if b >= SIGN {
            y < x
        } else {
            x != 0 || y != 0
        }
    } else if b >= SIGN {
        false
    } else {
        x < y
    }
}

// ---------------------------------------------------------------------------
// Integers
// ---------------------------------------------------------------------------

/// A finite number, or an infinity, as the nearest `i64` on the way to zero;
/// not-a-number gives zero.
pub open spec fn saturated(b: u64) -> int {
    if is_nan(b) {
        0
    } else if is_infinite(b) {
        if is_negative(b) {
            i64::MIN as int
        } else {
            i64::MAX as int
        }
    } else if trunc_int(b) < i64::MIN {
        i64::MIN as int
    } else if trunc_int(b) > i64::MAX {
        i64::MAX as int
    } else {
        trunc_int(b)
    }
}

/// The floor of a number.
pub open spec fn floor(b: u64) -> u64 {
    if !is_finite(b) || magnitude(b) == 0 || exponent(b) >= 0 {
        b
    } else {
        int_double(floor_int(b))
    }
}

/// The least integer that a number does not exceed.
pub open spec fn ceiling(b: u64) -> u64 {
    negation(floor(negation(b)))
}

/// The integer part of a number, with the number's sign.
pub open spec fn truncation(b: u64) -> u64 {
    if !is_finite(b) || magnitude(b) == 0 || exponent(b) >= 0 {
        b
    } else if is_negative(b) {
        with_sign(true, round_ratio((-trunc_int(b)) as nat, 1))
    } else {
        with_sign(false, round_ratio(trunc_int(b) as nat, 1))
    }
}

proof fn lemma_shr(m: u64, k: u64)
    requires
        k < 64,
    ensures
        m >> k == m as nat / pow2(k as nat),
{
    lemma_u64_shr_is_div(m, k);
}

/// `floor(m / 2^k)` and whether the division leaves a rest.
fn shift_down(m: u64, k: u64) -> (r: (u64, bool))
    requires
        m < 0x20_0000_0000_0000,
    ensures
        r.0 == m as nat / pow2(k as nat),
        r.1 == (m as nat % pow2(k as nat) != 0),
        r.0 <= m,
{
    proof {
        lemma_pow2_pos(k as nat);
        lemma_fundamental_div_mod(m as int, pow2(k as nat) as int);
    }
    if k >= 53 {
        proof {
            lemma2_to64_rest();
            if k > 53 {
                lemma_pow2_strictly_increases(53, k as nat);
            }
            lemma_small_mod(m as nat, pow2(k as nat));
            lemma_basic_div(m as int, pow2(k as nat) as int);
        }
        (0, m != 0)
    } else {
        let f: u64 = m >> k;
        let back: u64 = f << k;
        proof {
            lemma_shr(m, k);
            let p = pow2(k as nat);
            assert(f * p <= m) by (nonlinear_arith)
                requires
                    m == p * f + m as nat % p,
                    m as nat % p >= 0,
            ;
            lemma_u64_shl_is_mul(f, k);
            assert(p * f == f * p) by (nonlinear_arith);
            assert(f <= m) by (nonlinear_arith)
                requires
                    f * p <= m,
                    p >= 1,
            ;
        }
        (f, back != m)
    }
}

/// `m * 2^q` where it fits, the largest `u64` where it does not.
fn shift_up_saturating(m: u64, q: u64) -> (r: u64)
    requires
        q > 0 ==> HIDDEN <= m < 0x20_0000_0000_0000,
        m < 0x20_0000_0000_0000,
    ensures
        r == m * pow2(q as nat) || (r == u64::MAX && m * pow2(q as nat) >= 0x8000_0000_0000_0000),
{
    if q > 10 {
        proof {
            lemma2_to64();
            if q > 11 {
                lemma_pow2_strictly_increases(11, q as nat);
            }
            let p = pow2(q as nat);
            assert(m * p >= 0x10_0000_0000_0000 * 2048) by (nonlinear_arith)
                requires
                    p >= 2048,
                    m >= 0x10_0000_0000_0000,
            ;
        }
        u64::MAX
    } else {
        proof {
            lemma2_to64();
            if q < 10 {
                lemma_pow2_strictly_increases(q as nat, 10);
            }
            let p = pow2(q as nat);
            assert(m * p <= 0x20_0000_0000_0000 * 1024) by (nonlinear_arith)
                requires
                    p <= 1024,
                    m <= 0x20_0000_0000_0000,
            ;
            lemma_u64_shl_is_mul(m, q);
        }
        m << q
    }
}

/// The number as an `i64`: toward zero, held to the range; zero of not-a-number.
pub fn to_i64(b: u64) -> (r: i64)
    ensures
        r == saturated(b),
{
    if nan(b) {
        return 0;
    }
    if !finite(b) {
        if b >= SIGN {
            return i64::MIN;
        }
        return i64::MAX;
    }
    let (negative, m, q) = decode(b);
    let mag: u64 = if q >= 0 {
        shift_up_saturating(m, q as u64)
    } else {
        let (f, _) = shift_down(m, (-q) as u64);
        f
    };
    if negative {
        if mag >= 0x8000_0000_0000_0000 {
            i64::MIN
        } else {
            -(mag as i64)
        }
    } else if mag > 0x7fff_ffff_ffff_ffff {
        i64::MAX
    } else {
        mag as i64
    }
}

/// The double nearest to `n`.
pub fn from_i64(n: i64) -> (r: u64)
    ensures
        r == int_double(n as int),
{
    let mag: u64 = if n == i64::MIN {
        0x8000_0000_0000_0000
    } else if n < 0 {
        (-n) as u64
    } else {
        n as u64
    };
    let one: BigNat = BigNat::from_u64(1);
    let bits: u64 = round_to_double(&BigNat::from_u64(mag), &one);
    signed(n < 0, bits)
}

/// Whether the number is a finite integer.
pub fn integral(b: u64) -> (r: bool)
    ensures
        r == is_integral(b),
{
    if !finite(b) {
        return false;
    }
    let (_, m, q) = decode(b);
    if q >= 0 {
        true
    } else {
        let (_, rest) = shift_down(m, (-q) as u64);
        !rest
    }
}

/// The floor of a number.
pub fn ffloor(b: u64) -> (r: u64)
    ensures
        r == floor(b),
{
    if !finite(b) || zero(b) {
        return b;
    }
    let (negative, m, q) = decode(b);
    if q >= 0 {
        return b;
    }
    let (f, rest) = shift_down(m, (-q) as u64);
    proof {
        let p = pow2((-q) as nat) as int;
        lemma_pow2_pos((-q) as nat);
        lemma_fundamental_div_mod(m as int, p);
        if negative {
            if rest {
                assert(-(m as int) == (-(f as int) - 1) * p + (p - m as int % p)) by (nonlinear_arith)
                    requires
                        m == p * f + m as int % p,
                ;
                lemma_fundamental_div_mod_converse(
                    -(m as int),
                    p,
                    -(f as int) - 1,
                    p - m as int % p,
                );
            } else {
                assert(-(m as int) == (-(f as int)) * p + 0) by (nonlinear_arith)
                    requires
                        m == p * f + 0,
                ;
                lemma_fundamental_div_mod_converse(-(m as int), p, -(f as int), 0);
            }
        }
    }
    if negative {
        if rest {
            from_i64(-(f as i64) - 1)
        } else {
            from_i64(-(f as i64))
        }
    } else {
        from_i64(f as i64)
    }
}

/// The least integer that a number does not exceed.
pub fn fceil(b: u64) -> (r: u64)
    ensures
        r == ceiling(b),
{
    fneg(ffloor(fneg(b)))
}

/// The integer part of a number.
pub fn ftrunc(b: u64) -> (r: u64)
    ensures
        r == truncation(b),
{
    if !finite(b) || zero(b) {
        return b;
    }
    let (negative, m, q) = decode(b);
    if q >= 0 {
        return b;
    }
    let (f, _) = shift_down(m, (-q) as u64);
    let one: BigNat = BigNat::from_u64(1);
    let bits: u64 = round_to_double(&BigNat::from_u64(f), &one);
    signed(negative, bits)
}

/// Integers below `2^53` are doubles: nothing is lost.
pub proof fn lemma_int_exact(n: int)
    requires
        -0x20_0000_0000_0000 < n < 0x20_0000_0000_0000,
    ensures
        is_finite(int_double(n)),
        is_integral(int_double(n)),
        trunc_int(int_double(n)) == n,
        is_negative(int_double(n)) == (n < 0),
        magnitude(int_double(n)) == 0 <==> n == 0,
{
    let a: nat = if n < 0 {
        (-n) as nat
    } else {
        n as nat
    };
    let b = int_double(n);
    lemma_pow2_pos(1074);
    if a == 0 {
        lemma_basic_div(0, pow2(1074) as int);
        lemma_small_mod(0, pow2(1074));
    } else {
        let q = lemma_some_binade(a, 1);
        lemma_round_ratio_at(a, 1, q);
        if q > 0 {
            lemma_pow2_pos(q as nat);
            lemma2_to64();
            if q > 1 {
                lemma_pow2_strictly_increases(1, q as nat);
            }
            assert(1 * pow2(q as nat) == pow2(q as nat)) by (nonlinear_arith);
        }
        assert(q <= 0);
        if q < -52 {
            lemma2_to64_rest();
            if q < -53 {
                lemma_pow2_strictly_increases(53, (-q) as nat);
            }
            let p = pow2((-q) as nat);
            assert(a * p >= p) by (nonlinear_arith)
                requires
                    a >= 1,
            ;
        }
        let p = pow2((-q) as nat);
        let m = scaled_num(a, q);
        if q == 0 {
            lemma2_to64();
            assert(a * 1 == a) by (nonlinear_arith);
        }
        assert(m == a * p);
        lemma_pow2_pos((-q) as nat);
        assert(half_even(m, 1) == m) by {
            lemma_div_basics(m as int);
            assert(m as int % 1 == 0);
        }
        let mag = (q - MIN_EXPONENT) * 0x10_0000_0000_0000 + m;
        assert(mag <= 1074 * 0x10_0000_0000_0000 + m) by (nonlinear_arith)
            requires
                q <= 0,
                mag == (q - MIN_EXPONENT) * 0x10_0000_0000_0000 + m,
        ;
        assert(magnitude(b) == mag);
        assert(mag / 0x10_0000_0000_0000 == q - MIN_EXPONENT + 1 && mag % 0x10_0000_0000_0000 == m
            - 0x10_0000_0000_0000) by {
            lemma_fundamental_div_mod_converse(
                mag,
                0x10_0000_0000_0000,
                q - MIN_EXPONENT + 1,
                m - 0x10_0000_0000_0000,
            );
        }
        assert(mantissa(b) == m && exponent(b) == q);
        if q < 0 {
            lemma_div_multiples_vanish(a as int, p as int);
            lemma_mod_multiples_basic(a as int, p as int);
            assert(p * a == a * p) by (nonlinear_arith);
        } else {
            assert(m * pow2(0) == m) by (nonlinear_arith)
                requires
                    pow2(0) == 1,
            ;
        }
    }
}

// ---------------------------------------------------------------------------
// Exact results
// ---------------------------------------------------------------------------

pub proof fn lemma_half_even_scale(n: nat, d: nat, k: nat)
    requires
        d > 0,
        k > 0,
    ensures
        half_even(n * k, d * k) == half_even(n, d),
{
    let f = n / d;
    let r = n % d;
    lemma_fundamental_div_mod(n as int, d as int);
    assert(d * k > 0) by (nonlinear_arith)
        requires
            d > 0,
            k > 0,
    ;
    assert(n * k == f * (d * k) + r * k) by (nonlinear_arith)
        requires
            n == d * f + r,
    ;
    assert(r * k < d * k) by (nonlinear_arith)
        requires
            r < d,
            k > 0,
    ;
    lemma_fundamental_div_mod_converse((n * k) as int, (d * k) as int, f as int, (r * k) as int);
    assert(2 * r < d ==> 2 * (r * k) < d * k) by (nonlinear_arith)
        requires
            k > 0,
    ;
    assert(2 * r > d ==> 2 * (r * k) > d * k) by (nonlinear_arith)
        requires
            k > 0,
    ;
    assert(2 * r == d ==> 2 * (r * k) == d * k) by (nonlinear_arith);
}

/// A fraction and the same fraction expanded round alike.
pub proof fn lemma_round_ratio_scale(n: nat, d: nat, k: nat)
    requires
        d > 0,
        k > 0,
    ensures
        round_ratio(n * k, d * k) == round_ratio(n, d),
{
    if n == 0 {
        assert(0 * k == 0) by (nonlinear_arith);
    } else {
        let q = lemma_some_binade(n, d);
        let a = scaled_num(n, q);
        let b = scaled_den(d, q);
        lemma_scaled_den_pos(d, q);
        assert(n * k > 0) by (nonlinear_arith)
            requires
                n > 0,
                k > 0,
        ;
        assert(scaled_num(n * k, q) == a * k) by {
            if q < 0 {
                let p = pow2((-q) as nat);
                assert((n * k) * p == (n * p) * k) by (nonlinear_arith);
            }
        }
        assert(scaled_den(d * k, q) == b * k) by {
            if q > 0 {
                let p = pow2(q as nat);
                assert((d * k) * p == (d * p) * k) by (nonlinear_arith);
            }
        }
        assert(a * k < 0x20_0000_0000_0000 * (b * k)) by (nonlinear_arith)
            requires
                a < 0x20_0000_0000_0000 * b,
                k > 0,
        ;
        if q > MIN_EXPONENT {
            assert(a * k >= 0x10_0000_0000_0000 * (b * k)) by (nonlinear_arith)
                requires
                    a >= 0x10_0000_0000_0000 * b,
                    k > 0,
            ;
        }
        assert(in_binade(n * k, d * k, q));
        lemma_round_ratio_at(n, d, q);
        lemma_round_ratio_at(n * k, d * k, q);
        lemma_half_even_scale(a, b, k);
    }
}

/// Significand and exponent of an integer below `2^53`.
pub proof fn lemma_int_parts(n: int)
    requires
        -0x20_0000_0000_0000 < n < 0x20_0000_0000_0000,
    ensures
        is_finite(int_double(n)),
        exponent(int_double(n)) <= 0,
        signed_mantissa(int_double(n)) == n * pow2((-exponent(int_double(n))) as nat),
        is_negative(int_double(n)) == (n < 0),
{
    lemma_int_exact(n);
    let b = int_double(n);
    let q = exponent(b);
    let m = mantissa(b);
    if q > 0 {
        lemma2_to64();
        if q > 1 {
            lemma_pow2_strictly_increases(1, q as nat);
        }
        let p = pow2(q as nat);
        assert(m * p >= 0x10_0000_0000_0000 * 2) by (nonlinear_arith)
            requires
                p >= 2,
                m >= 0x10_0000_0000_0000,
        ;
    }
    let p = pow2((-q) as nat);
    lemma_pow2_pos((-q) as nat);
    if q == 0 {
        lemma2_to64();
        assert(m * 1 == m) by (nonlinear_arith);
        assert(n * 1 == n) by (nonlinear_arith);
    } else {
        lemma_fundamental_div_mod(m as int, p as int);
        let f = m / p;
        assert(m == f * p) by (nonlinear_arith)
            requires
                m == p * f + m % p,
                m % p == 0,
        ;
        assert((-(f as int)) * p == -(f * p)) by (nonlinear_arith);
    }
}

proof fn lemma_dyadic_int(n: nat, q: int)
    requires
        q <= 0,
    ensures
        round_dyadic(n * pow2((-q) as nat), q) == round_ratio(n, 1),
{
    let p = pow2((-q) as nat);
    lemma_pow2_pos((-q) as nat);
    lemma_round_ratio_scale(n, 1, p);
    assert(1 * p == p) by (nonlinear_arith);
    if q == 0 {
        lemma2_to64();
    }
}

/// Integers below `2^53` add without rounding.
pub proof fn lemma_sum_exact(a: int, b: int)
    requires
        -0x20_0000_0000_0000 < a < 0x20_0000_0000_0000,
        -0x20_0000_0000_0000 < b < 0x20_0000_0000_0000,
    ensures
        sum(int_double(a), int_double(b)) == int_double(a + b),
{
    let x = int_double(a);
    let y = int_double(b);
    lemma_int_parts(a);
    lemma_int_parts(b);
    let qa = exponent(x);
    let qb = exponent(y);
    let q = if qa < qb {
        qa
    } else {
        qb
    };
    let pa = pow2((qa - q) as nat);
    let pb = pow2((qb - q) as nat);
    lemma_pow2_adds((-qa) as nat, (qa - q) as nat);
    lemma_pow2_adds((-qb) as nat, (qb - q) as nat);
    let p = pow2((-q) as nat);
    lemma_pow2_pos((-q) as nat);
    let s = signed_mantissa(x) * pa + signed_mantissa(y) * pb;
    let ua = pow2((-qa) as nat);
    let ub = pow2((-qb) as nat);
    assert((a * ua) * pa == a * p) by (nonlinear_arith)
        requires
            ua * pa == p,
    ;
    assert((b * ub) * pb == b * p) by (nonlinear_arith)
        requires
            ub * pb == p,
    ;
    assert(a * p + b * p == (a + b) * p) by (nonlinear_arith);
    assert(s == (a + b) * p);
    if a + b == 0 {
        assert(s == 0) by (nonlinear_arith)
            requires
                s == (a + b) * p,
                a + b == 0,
        ;
    } else if a + b < 0 {
        assert(s < 0) by (nonlinear_arith)
            requires
                s == (a + b) * p,
                a + b < 0,
                p > 0,
        ;
        assert(-s == (-(a + b)) * p) by (nonlinear_arith)
            requires
                s == (a + b) * p,
        ;
        lemma_dyadic_int((-(a + b)) as nat, q);
    } else {
        assert(s > 0) by (nonlinear_arith)
            requires
                s == (a + b) * p,
                a + b > 0,
                p > 0,
        ;
        lemma_dyadic_int((a + b) as nat, q);
    }
}

proof fn lemma_mantissa_abs(n: int)
    requires
        -0x20_0000_0000_0000 < n < 0x20_0000_0000_0000,
    ensures
        mantissa(int_double(n)) == (if n < 0 {
            -n
        } else {
            n
        }) * pow2((-exponent(int_double(n))) as nat),
{
    lemma_int_parts(n);
    let p = pow2((-exponent(int_double(n))) as nat);
    assert((-n) * p == -(n * p)) by (nonlinear_arith);
}

/// Integers below `2^53` multiply to the double nearest to their product.
pub proof fn lemma_product_exact(a: int, b: int)
    requires
        -0x20_0000_0000_0000 < a < 0x20_0000_0000_0000,
        -0x20_0000_0000_0000 < b < 0x20_0000_0000_0000,
        a * b != 0 || (a >= 0 && b >= 0),
    ensures
        product(int_double(a), int_double(b)) == int_double(a * b),
{
    lemma_int_parts(a);
    lemma_int_parts(b);
    lemma_mantissa_abs(a);
    lemma_mantissa_abs(b);
    let qa = exponent(int_double(a));
    let qb = exponent(int_double(b));
    let aa: nat = if a < 0 {
        (-a) as nat
    } else {
        a as nat
    };
    let ab: nat = if b < 0 {
        (-b) as nat
    } else {
        b as nat
    };
    let pa = pow2((-qa) as nat);
    let pb = pow2((-qb) as nat);
    lemma_pow2_adds((-qa) as nat, (-qb) as nat);
    assert((aa * pa) * (ab * pb) == (aa * ab) * (pa * pb)) by (nonlinear_arith);
    lemma_dyadic_int(aa * ab, qa + qb);
    assert(a * b == if (a < 0) != (b < 0) {
        -(aa * ab)
    } else {
        (aa * ab) as int
    }) by {
        assert((-(aa as int)) * ab == -(aa * ab)) by (nonlinear_arith);
        assert(aa * (-(ab as int)) == -(aa * ab)) by (nonlinear_arith);
        assert((-(aa as int)) * (-(ab as int)) == aa * ab) by (nonlinear_arith);
    }
    if (a < 0) != (b < 0) {
        assert(a * b < 0) by (nonlinear_arith)
            requires
                a * b != 0,
                (a < 0 && b >= 0) || (a >= 0 && b < 0),
        ;
    } else {
        assert(a * b >= 0) by (nonlinear_arith)
            requires
                (a < 0 && b < 0) || (a >= 0 && b >= 0),
        ;
    }
}

/// Significand and exponent of a rounded fraction, from the power of two that
/// spaces the doubles near it.
proof fn lemma_rounded_parts(b: u64, n: nat, d: nat, q: int, negative: bool)
    requires
        n > 0,
        d > 0,
        in_binade(n, d, q),
        MIN_EXPONENT < q <= 0,
        half_even(scaled_num(n, q), scaled_den(d, q)) < 0x20_0000_0000_0000,
        b == with_sign(negative, round_ratio(n, d)),
    ensures
        is_finite(b),
        is_negative(b) == negative,
        mantissa(b) == half_even(scaled_num(n, q), scaled_den(d, q)),
        exponent(b) == q,
        magnitude(b) != 0,
{
    lemma_round_ratio_at(n, d, q);
    lemma_scaled_den_pos(d, q);
    lemma_half_even_least(scaled_num(n, q), scaled_den(d, q), 0x10_0000_0000_0000);
    let m = half_even(scaled_num(n, q), scaled_den(d, q));
    let mag = (q - MIN_EXPONENT) * 0x10_0000_0000_0000 + m;
    assert(0 < mag <= 1074 * 0x10_0000_0000_0000 + m) by (nonlinear_arith)
        requires
            q <= 0,
            q >= MIN_EXPONENT,
            m >= 1,
            mag == (q - MIN_EXPONENT) * 0x10_0000_0000_0000 + m,
    ;
    assert(mag / 0x10_0000_0000_0000 == q - MIN_EXPONENT + 1 && mag % 0x10_0000_0000_0000 == m
        - 0x10_0000_0000_0000) by {
        lemma_fundamental_div_mod_converse(
            mag,
            0x10_0000_0000_0000,
            q - MIN_EXPONENT + 1,
            m - 0x10_0000_0000_0000,
        );
    }
}

/// The spacing of the doubles near a fraction of integers: less than two parts of the
/// denominator.
proof fn lemma_small_binade(n: nat, d: nat) -> (q: int)
    requires
        0 < n < 0x20_0000_0000_0000,
        2 <= d <= 1024,
    ensures
        in_binade(n, d, q),
        MIN_EXPONENT < q < 0,
        2 * pow2((-q) as nat) > d,
{
    let q = lemma_some_binade(n, d);
    lemma2_to64();
    if q >= 0 {
        lemma_pow2_pos(q as nat);
        let p = pow2(q as nat);
        if q > 0 {
            assert(d * p >= 2) by (nonlinear_arith)
                requires
                    d >= 2,
                    p >= 1,
            ;
        }
    }
    if q == MIN_EXPONENT {
        lemma_pow2_strictly_increases(64, 1074);
        lemma2_to64_rest();
        let p = pow2(1074);
        assert(n * p >= p) by (nonlinear_arith)
            requires
                n >= 1,
        ;
        assert(0x20_0000_0000_0000 * d <= 0x20_0000_0000_0000 * 1024);
    }
    let p = pow2((-q) as nat);
    lemma_pow2_pos((-q) as nat);
    assert(2 * p > d) by (nonlinear_arith)
        requires
            n * p >= 0x10_0000_0000_0000 * d,
            n < 0x20_0000_0000_0000,
            p > 0,
    ;
    q
}

/// Dividing an integer by a small one and rounding down gives the integer quotient:
/// the rounding of the division never reaches the next integer.
pub proof fn lemma_floor_quotient(x: int, c: int)
    requires
        2 <= c <= 1024,
        -0x20_0000_0000_0000 < x < 0x20_0000_0000_0000,
    ensures
        floor(quotient(int_double(x), int_double(c))) == int_double(x / c),
{
    let bx = int_double(x);
    let bc = int_double(c);
    lemma_int_exact(x);
    lemma_int_exact(c);
    lemma_int_parts(x);
    lemma_int_parts(c);
    lemma_mantissa_abs(x);
    lemma_mantissa_abs(c);
    let n: nat = if x < 0 {
        (-x) as nat
    } else {
        x as nat
    };
    let d = c as nat;
    let qx = exponent(bx);
    let qc = exponent(bc);
    let q = qx - qc;
    let ux = pow2((-qx) as nat);
    let uc = pow2((-qc) as nat);
    lemma_pow2_pos((-qx) as nat);
    lemma_pow2_pos((-qc) as nat);
    let num = if q > 0 {
        mantissa(bx) * pow2(q as nat)
    } else {
        mantissa(bx)
    };
    let den = if q < 0 {
        mantissa(bc) * pow2((-q) as nat)
    } else {
        mantissa(bc)
    };
    let k = if q >= 0 {
        uc
    } else {
        ux
    };
    assert(num == n * k && den == d * k) by {
        if q > 0 {
            lemma_pow2_adds((-qx) as nat, q as nat);
            let p = pow2(q as nat);
            assert((n * ux) * p == n * (ux * p)) by (nonlinear_arith);
        } else if q < 0 {
            lemma_pow2_adds((-qc) as nat, (-q) as nat);
            let p = pow2((-q) as nat);
            assert((d * uc) * p == d * (uc * p)) by (nonlinear_arith);
        }
    }
    lemma_round_ratio_scale(n, d, k);
    let b = quotient(bx, bc);
    assert(b == with_sign(x < 0, round_ratio(n, d)));
    if x == 0 {
        lemma_basic_div(0, c);
    } else {
        let e = lemma_small_binade(n, d);
        let p = pow2((-e) as nat);
        lemma_pow2_pos((-e) as nat);
        let f = n / d;
        let r = n % d;
        lemma_fundamental_div_mod(n as int, d as int);
        let m = half_even(n * p, d);
        // m lies from f * p to (f + 1) * p, both ends left out where r is not zero
        assert(n * p == d * (f * p) + r * p) by (nonlinear_arith)
            requires
                n == d * f + r,
        ;
        lemma_quotient_near(n * p, d, f * p, r, p);
        lemma_rounded_bits(f, r, p, m, e, n, d);
        lemma_rounded_parts(b, n, d, e, x < 0);
        assert(mantissa(b) == m && exponent(b) == e);
        let pi = p as int;
        if x > 0 {
            assert(m as int == f * pi + (m - f * p)) by (nonlinear_arith)
                requires
                    pi == p,
            ;
            lemma_fundamental_div_mod_converse(m as int, pi, f as int, m - f * p);
        } else if r == 0 {
            assert(-(m as int) == (-(f as int)) * pi + 0) by (nonlinear_arith)
                requires
                    m == f * p,
                    pi == p,
            ;
            lemma_fundamental_div_mod_converse(-(m as int), pi, -(f as int), 0);
            assert(x == (-(f as int)) * c + 0) by (nonlinear_arith)
                requires
                    -x == d * f,
                    c == d,
            ;
            lemma_fundamental_div_mod_converse(x, c, -(f as int), 0);
        } else {
            let rest = f * p + p - m;
            assert(-(m as int) == (-(f as int) - 1) * pi + rest) by (nonlinear_arith)
                requires
                    rest == f * p + p - m,
                    pi == p,
            ;
            lemma_fundamental_div_mod_converse(-(m as int), pi, -(f as int) - 1, rest);
            assert(x == (-(f as int) - 1) * c + (d - r)) by (nonlinear_arith)
                requires
                    -x == d * f + r,
                    c == d,
            ;
            lemma_fundamental_div_mod_converse(x, c, -(f as int) - 1, d - r);
        }
    }
}

proof fn lemma_quotient_near(num: nat, d: nat, base: nat, r: nat, p: nat)
    requires
        0 < d < 2 * p,
        r < d,
        num == d * base + r * p,
    ensures
        r == 0 ==> half_even(num, d) == base,
        r > 0 ==> base < half_even(num, d) < base + p,
{
    let g = r * p / d;
    let t = r * p % d;
    lemma_fundamental_div_mod((r * p) as int, d as int);
    assert(num == (base + g) * d + t) by (nonlinear_arith)
        requires
            num == d * base + r * p,
            r * p == d * g + t,
    ;
    lemma_fundamental_div_mod_converse(num as int, d as int, (base + g) as int, t as int);
    if r == 0 {
        assert(r * p == 0) by (nonlinear_arith)
            requires
                r == 0,
        ;
        lemma_basic_div(0, d as int);
    } else {
        if g == 0 {
            assert(r * p >= p && d * g == 0) by (nonlinear_arith)
                requires
                    r >= 1,
                    g == 0,
            ;
        }
        assert(g < p) by (nonlinear_arith)
            requires
                r * p == d * g + t,
                t >= 0,
                r < d,
                p > 0,
        ;
        if g == p - 1 {
            assert(t <= d - p) by (nonlinear_arith)
                requires
                    r * p == d * g + t,
                    g == p - 1,
                    r <= d - 1,
                    p > 0,
            ;
        }
    }
}

proof fn lemma_rounded_bits(f: nat, r: nat, p: nat, m: nat, e: int, n: nat, d: nat)
    requires
        e < 0,
        p == pow2((-e) as nat),
        in_binade(n, d, e),
        0 < d <= 1024,
        m == half_even(n * p, d),
        r == 0 ==> m == f * p,
        r > 0 ==> f * p < m < f * p + p,
        n == d * f + r,
        r < d,
    ensures
        m < 0x20_0000_0000_0000,
{
    lemma_half_even_most(n * p, d, 0x20_0000_0000_0000);
    if m == 0x20_0000_0000_0000 {
        if r == 0 {
            assert(n * p == d * m) by (nonlinear_arith)
                requires
                    n == d * f,
                    m == f * p,
            ;
            assert(d * m == 0x20_0000_0000_0000 * d) by (nonlinear_arith)
                requires
                    m == 0x20_0000_0000_0000,
            ;
        } else {
            // a power of two between two neighbouring multiples of a smaller one
            lemma2_to64_rest();
            let k = (-e) as nat;
            if k <= 53 {
                lemma_pow2_adds(k, (53 - k) as nat);
                let w = pow2((53 - k) as nat);
                assert(f < w && w < f + 1) by (nonlinear_arith)
                    requires
                        f * p < p * w,
                        p * w < f * p + p,
                        p > 0,
                ;
            } else {
                lemma_pow2_adds(53, (k - 53) as nat);
                let w = pow2((k - 53) as nat);
                let top = 0x20_0000_0000_0000int;
                let big = n * p;
                assert(big == (n * w) * top) by (nonlinear_arith)
                    requires
                        big == n * p,
                        p == top * w,
                ;
                assert(n * w < d) by (nonlinear_arith)
                    requires
                        (n * w) * top < top * d,
                        top > 0,
                ;
                lemma_fundamental_div_mod(big as int, d as int);
                let g = big / d;
                assert(g < top) by (nonlinear_arith)
                    requires
                        big == d * g + big % d,
                        big % d >= 0,
                        big < top * d,
                ;
                assert(g == top - 1);
                assert(d * g == top * d - d) by (nonlinear_arith)
                    requires
                        g == top - 1,
                ;
            }
        }
    }
}

/// `a - b`.
pub open spec fn difference(a: u64, b: u64) -> u64 {
    sum(a, negation(b))
}

/// `a - b`.
pub fn fsub(a: u64, b: u64) -> (r: u64)
    ensures
        r == difference(a, b),
{
    fadd(a, fneg(b))
}

/// Changing the sign of an integer that is not zero.
pub proof fn lemma_negation_int(n: int)
    requires
        -0x20_0000_0000_0000 < n < 0x20_0000_0000_0000,
        n != 0,
    ensures
        negation(int_double(n)) == int_double(-n),
{
    lemma_int_exact(n);
    lemma_int_exact(-n);
    let a: nat = if n < 0 {
        (-n) as nat
    } else {
        n as nat
    };
    lemma_round_ratio_range(a, 1);
}

/// Integers below `2^53` subtract without rounding.
pub proof fn lemma_difference_exact(a: int, b: int)
    requires
        -0x20_0000_0000_0000 < a < 0x20_0000_0000_0000,
        -0x20_0000_0000_0000 < b < 0x20_0000_0000_0000,
    ensures
        difference(int_double(a), int_double(b)) == int_double(a - b),
{
    if b == 0 {
        lemma_int_exact(a);
        lemma_sum_exact(a, 0);
        let x = int_double(a);
        let z = int_double(0);
        assert(z == 0);
        assert(signed_mantissa(negation(z)) == 0 && signed_mantissa(z) == 0);
        assert(exponent(negation(z)) == exponent(z));
        if a == 0 {
            assert(x == 0);
            let p = pow2(0);
            assert(0 * p == 0) by (nonlinear_arith);
        } else {
            let q = exponent(z);
            let m = if exponent(x) < q {
                exponent(x)
            } else {
                q
            };
            let p = pow2((exponent(x) - m) as nat);
            let sx = signed_mantissa(x);
            lemma_pow2_pos((exponent(x) - m) as nat);
            assert(sx * p != 0) by (nonlinear_arith)
                requires
                    sx != 0,
                    p > 0,
            ;
        }
    } else {
        lemma_negation_int(b);
        lemma_sum_exact(a, -b);
    }
}

/// The magnitude of a number.
pub open spec fn absolute(b: u64) -> u64 {
    magnitude(b) as u64
}

/// The whole part of a finite number modulo a small integer.
pub fn int_mod(b: u64, m: u64) -> (r: u64)
    requires
        is_finite(b),
        0 < m <= 0x1_0000_0000,
    ensures
        r == trunc_int(b) % (m as int),
{
    let (negative, mant, q) = decode(b);
    let mut v: u64 = 0;
    if q >= 0 {
        v = mant % m;
        let mut i: i64 = 0;
        proof {
            lemma2_to64();
            assert(mant * 1 == mant) by (nonlinear_arith);
        }
        while i < q
            invariant
                0 <= i <= q,
                0 < m <= 0x1_0000_0000,
                v == (mant * pow2(i as nat)) % (m as int),
                v < m,
            decreases q - i,
        {
            proof {
                lemma_pow2_unfold((i + 1) as nat);
                let p = pow2(i as nat);
                assert(mant * (2 * p) == 2 * (mant * p)) by (nonlinear_arith);
                lemma_mul_mod_noop_right(2, (mant * p) as int, m as int);
            }
            v = (2 * v) % m;
            i = i + 1;
        }
    } else {
        let (f, _) = shift_down(mant, (-q) as u64);
        v = f % m;
    }
    proof {
        lemma_negative_mod(
            (if q >= 0 {
                mant * pow2(q as nat)
            } else {
                (mant as nat / pow2((-q) as nat)) as int
            }),
            m as int,
        );
    }
    if negative && v != 0 {
        m - v
    } else {
        v
    }
}

proof fn lemma_negative_mod(n: int, m: int)
    requires
        n >= 0,
        m > 0,
    ensures
        (-n) % m == if n % m == 0 {
            0
        } else {
            m - n % m
        },
{
    lemma_fundamental_div_mod(n, m);
    let f = n / m;
    let r = n % m;
    if r == 0 {
        assert(-n == (-f) * m + 0) by (nonlinear_arith)
            requires
                n == m * f,
        ;
        lemma_fundamental_div_mod_converse(-n, m, -f, 0);
    } else {
        assert(-n == (-f - 1) * m + (m - r)) by (nonlinear_arith)
            requires
                n == m * f + r,
        ;
        lemma_fundamental_div_mod_converse(-n, m, -f - 1, m - r);
    }
}

/// The integer part of a finite number is an integer, with the same integer part.
pub proof fn lemma_truncation(b: u64)
    requires
        is_finite(b),
    ensures
        is_integral(truncation(b)),
        trunc_int(truncation(b)) == trunc_int(b),
        trunc_int(b) != 0 && exponent(b) < 0 ==> truncation(b) == int_double(trunc_int(b)),
        trunc_int(b) == 0 ==> magnitude(truncation(b)) == 0,
{
    let q = exponent(b);
    lemma_pow2_pos(1074);
    if magnitude(b) == 0 {
        lemma_small_mod(0, pow2(1074));
        lemma_basic_div(0, pow2(1074) as int);
    } else if q < 0 {
        let m = mantissa(b);
        let p = pow2((-q) as nat);
        lemma_pow2_pos((-q) as nat);
        lemma_fundamental_div_mod(m as int, p as int);
        let v = m / p;
        assert(v <= m) by (nonlinear_arith)
            requires
                m == p * v + m % p,
                m % p >= 0,
                p >= 1,
        ;
        if v == 0 {
            lemma_small_mod(0, pow2(1074));
            lemma_basic_div(0, pow2(1074) as int);
        } else {
            lemma_int_exact(trunc_int(b));
        }
    } else {
        let p = pow2(q as nat);
        let m = mantissa(b);
        lemma_pow2_pos(q as nat);
        assert(m * p != 0) by (nonlinear_arith)
            requires
                m > 0,
                p > 0,
        ;
    }
}

/// A number with `m * 2^q` as its value, in the range of a binade, is the rounding
/// of that value.
pub proof fn lemma_round_own_value(b: u64)
    requires
        is_finite(b),
    ensures
        round_dyadic(mantissa(b), exponent(b)) == magnitude(b),
{
    let m = mantissa(b);
    let q = exponent(b);
    let n = if q > 0 {
        m * pow2(q as nat)
    } else {
        m
    };
    let d = if q < 0 {
        pow2((-q) as nat)
    } else {
        1
    };
    if m > 0 {
        if q > 0 {
            lemma_pow2_pos(q as nat);
            let p = pow2(q as nat);
            assert(m * p > 0) by (nonlinear_arith)
                requires
                    m > 0,
                    p > 0,
            ;
            assert(1 * p == p) by (nonlinear_arith);
            assert(m * p < 0x20_0000_0000_0000 * p) by (nonlinear_arith)
                requires
                    m < 0x20_0000_0000_0000,
                    p > 0,
            ;
            assert(m * p >= 0x10_0000_0000_0000 * p) by (nonlinear_arith)
                requires
                    m >= 0x10_0000_0000_0000,
                    p > 0,
            ;
            assert(in_binade(n, d, q));
            lemma_half_even_exact(m, p);
        } else if q < 0 {
            lemma_pow2_pos((-q) as nat);
            let p = pow2((-q) as nat);
            assert(m * p < 0x20_0000_0000_0000 * p) by (nonlinear_arith)
                requires
                    m < 0x20_0000_0000_0000,
                    p > 0,
            ;
            if q > MIN_EXPONENT {
                assert(m * p >= 0x10_0000_0000_0000 * p) by (nonlinear_arith)
                    requires
                        m >= 0x10_0000_0000_0000,
                        p > 0,
                ;
            }
            assert(in_binade(n, d, q));
            lemma_half_even_exact(m, p);
        } else {
            assert(in_binade(n, d, q));
            assert(m * 1 == m) by (nonlinear_arith);
            lemma_half_even_exact(m, 1);
        }
        lemma_round_ratio_at(n, d, q);
        let mag = magnitude(b);
        if mag >= HIDDEN {
            lemma_fundamental_div_mod(mag, 0x10_0000_0000_0000);
            assert((q - MIN_EXPONENT) * 0x10_0000_0000_0000 == (mag / 0x10_0000_0000_0000 - 1)
                * 0x10_0000_0000_0000);
        }
    }
}

pub proof fn lemma_half_even_exact(m: nat, d: nat)
    requires
        d > 0,
    ensures
        half_even(m * d, d) == m,
{
    assert(m * d == m * d + 0);
    lemma_fundamental_div_mod_converse((m * d) as int, d as int, m as int, 0);
}

/// A number that is an integer is the double of that integer, but for a negative zero.
pub proof fn lemma_integral_is_int(b: u64)
    requires
        is_integral(b),
        magnitude(b) != 0,
    ensures
        b == int_double(trunc_int(b)),
{
    lemma_round_own_value(b);
    let m = mantissa(b);
    let q = exponent(b);
    if q >= 0 {
        lemma_pow2_pos(q as nat);
        let p = pow2(q as nat);
        assert(m * p > 0) by (nonlinear_arith)
            requires
                m > 0,
                p > 0,
        ;
        if q == 0 {
            lemma2_to64();
            assert(m * 1 == m) by (nonlinear_arith);
        }
        assert(round_ratio(m * p, 1) == magnitude(b));
    } else {
        let p = pow2((-q) as nat);
        lemma_pow2_pos((-q) as nat);
        lemma_fundamental_div_mod(m as int, p as int);
        let v = m / p;
        assert(m == v * p) by (nonlinear_arith)
            requires
                m == p * v + m % p,
                m % p == 0,
        ;
        assert(v > 0) by (nonlinear_arith)
            requires
                m == v * p,
                m > 0,
        ;
        lemma_round_ratio_scale(v, 1, p);
        assert(1 * p == p) by (nonlinear_arith);
    }
}

/// Rounding keeps the order of fractions.
pub proof fn lemma_round_monotone(n1: nat, d1: nat, n2: nat, d2: nat)
    requires
        d1 > 0,
        d2 > 0,
        n1 * d2 <= n2 * d1,
    ensures
        round_ratio(n1, d1) <= round_ratio(n2, d2),
{
    // bring both fractions to one denominator
    lemma_round_ratio_scale(n1, d1, d2);
    lemma_round_ratio_scale(n2, d2, d1);
    assert(d1 * d2 == d2 * d1) by (nonlinear_arith);
    assert(d1 * d2 > 0) by (nonlinear_arith)
        requires
            d1 > 0,
            d2 > 0,
    ;
    lemma_round_monotone_common(n1 * d2, n2 * d1, d1 * d2);
}

proof fn lemma_round_monotone_common(a: nat, b: nat, d: nat)
    requires
        d > 0,
        a <= b,
    ensures
        round_ratio(a, d) <= round_ratio(b, d),
{
    lemma_round_ratio_range(b, d);
    if a > 0 && a < b {
        let qa = lemma_some_binade(a, d);
        let qb = lemma_some_binade(b, d);
        lemma_round_ratio_at(a, d, qa);
        lemma_round_ratio_at(b, d, qb);
        lemma_scaled_den_pos(d, qa);
        lemma_scaled_den_pos(d, qb);
        if qa == qb {
            let na = scaled_num(a, qa);
            let nb = scaled_num(b, qa);
            assert(na <= nb) by {
                if qa < 0 {
                    let p = pow2((-qa) as nat);
                    assert(a * p <= b * p) by (nonlinear_arith)
                        requires
                            a <= b,
                    ;
                }
            }
            lemma_half_even_monotone(na, nb, scaled_den(d, qa));
        } else if qa < qb {
            lemma_half_even_most(scaled_num(a, qa), scaled_den(d, qa), 0x20_0000_0000_0000);
            lemma_half_even_least(scaled_num(b, qb), scaled_den(d, qb), 0x10_0000_0000_0000);
            assert((qb - MIN_EXPONENT) * 0x10_0000_0000_0000 >= (qa - MIN_EXPONENT)
                * 0x10_0000_0000_0000 + 0x10_0000_0000_0000) by (nonlinear_arith)
                requires
                    qb >= qa + 1,
            ;
        } else {
            // a >= 2^(52 + qa) > b
            lemma_reaches_down(a, d, qb + 1, qa);
            lemma_scale_step(b, d, qb);
            let na = scaled_num(a, qb + 1);
            let nb = scaled_num(b, qb + 1);
            assert(na <= nb) by {
                if qb + 1 < 0 {
                    let p = pow2((-(qb + 1)) as nat);
                    assert(a * p <= b * p) by (nonlinear_arith)
                        requires
                            a <= b,
                    ;
                }
            }
        }
    }
}

proof fn lemma_half_even_monotone(a: nat, b: nat, d: nat)
    requires
        d > 0,
        a <= b,
    ensures
        half_even(a, d) <= half_even(b, d),
{
    lemma_fundamental_div_mod(a as int, d as int);
    lemma_fundamental_div_mod(b as int, d as int);
    let fa = a / d;
    let fb = b / d;
    let ra = a % d;
    let rb = b % d;
    assert(fa <= fb) by (nonlinear_arith)
        requires
            a == d * fa + ra,
            b == d * fb + rb,
            a <= b,
            rb < d,
            ra >= 0,
    ;
    if fa == fb {
        assert(ra <= rb);
    }
}

/// Integers below `2^53` are ordered as their doubles.
pub proof fn lemma_int_order(a: int, b: int)
    requires
        0 <= a <= b,
    ensures
        order_key(int_double(a)) <= order_key(int_double(b)),
{
    assert(a * 1 <= b * 1);
    lemma_round_monotone(a as nat, 1, b as nat, 1);
    lemma_round_ratio_range(a as nat, 1);
    lemma_round_ratio_range(b as nat, 1);
}

/// A number whose magnitude does not exceed that of an integer has an integer part
/// that does not either.
pub proof fn lemma_magnitude_bound(b: u64, n: int)
    requires
        is_finite(b),
        0 <= n < 0x20_0000_0000_0000,
        magnitude(b) <= magnitude(int_double(n)),
    ensures
        -n <= trunc_int(b) <= n,
{
    lemma_int_exact(n);
    let t = if trunc_int(b) < 0 {
        -trunc_int(b)
    } else {
        trunc_int(b)
    };
    if t > n {
        // the integer part of b is at least n + 1, whose double lies above n's
        lemma_truncation(b);
        let v = n + 1;
        lemma_round_own_value(b);
        let m = mantissa(b);
        let q = exponent(b);
        let num = if q > 0 {
            m * pow2(q as nat)
        } else {
            m
        };
        let den = if q < 0 {
            pow2((-q) as nat)
        } else {
            1
        };
        assert(num >= v * den) by {
            if q < 0 {
                let p = pow2((-q) as nat);
                lemma_pow2_pos((-q) as nat);
                lemma_fundamental_div_mod(m as int, p as int);
                let f = m / p;
                assert(m >= v * p) by (nonlinear_arith)
                    requires
                        m == p * f + m % p,
                        m % p >= 0,
                        f >= v,
                        p > 0,
                ;
            } else if q == 0 {
                lemma2_to64();
                assert(m * 1 == m) by (nonlinear_arith);
            }
        }
        if q < 0 {
            lemma_pow2_pos((-q) as nat);
        }
        assert(v * den <= num * 1);
        lemma_round_monotone(v as nat, 1, num, den);
        lemma_int_strict(n);
        lemma_round_ratio_range(n as nat, 1);
        assert(magnitude(int_double(n)) == round_ratio(n as nat, 1));
        assert(round_ratio(num, den) == magnitude(b));
    }
}

/// An integer below `2^53 - 1` has a smaller double than the next one.
proof fn lemma_int_strict(n: int)
    requires
        0 <= n < 0x20_0000_0000_0000,
    ensures
        round_ratio(n as nat, 1) < round_ratio((n + 1) as nat, 1),
{
    lemma_round_monotone_common(n as nat, (n + 1) as nat, 1);
    if round_ratio(n as nat, 1) == round_ratio((n + 1) as nat, 1) {
        lemma_int_exact(n);
        if n + 1 < 0x20_0000_0000_0000 {
            lemma_int_exact(n + 1);
            assert(int_double(n) == int_double(n + 1));
        } else {
            lemma_top_int();
        }
    }
}

proof fn lemma_top_int()
    ensures
        round_ratio(0x1f_ffff_ffff_ffff, 1) < round_ratio(0x20_0000_0000_0000, 1),
{
    lemma2_to64();
    let n: nat = 0x1f_ffff_ffff_ffff;
    let m: nat = 0x20_0000_0000_0000;
    assert(in_binade(n, 1, 0));
    assert(1 * pow2(1) == 2) by (nonlinear_arith)
        requires
            pow2(1) == 2,
    ;
    assert(in_binade(m, 1, 1));
    lemma_round_ratio_at(n, 1, 0);
    lemma_round_ratio_at(m, 1, 1);
    assert(half_even(n, 1) == n) by {
        lemma_half_even_exact(n, 1);
        assert(n * 1 == n) by (nonlinear_arith);
    }
    assert(half_even(m, 2) == 0x10_0000_0000_0000);
}

} // verus!
