//! Texts of numbers: shortest, fixed-point, exponential and in other radices.
use vstd::prelude::*;

use crate::bignat::{BigNat, divide_big};
use crate::decimal::{
    decade_den, decade_num, find_decade, in_decade, leading_power, lemma_decade_unique,
    lemma_value_bounds, pow10, scale10, shortest, shortest_decimal, value_den, value_num,
    value_ratio,
};
use crate::double::{SIGN, finite, half_even, is_finite, is_nan, is_negative, magnitude, nan, zero};
use crate::text::{copy_range, nat_text, push_all, push_nat, push_zeros, utf16, utf16_of, zeros};

verus! {

// ---------------------------------------------------------------------------
// Number::toString
// ---------------------------------------------------------------------------

/// Text of the exponent of a number.
pub open spec fn exponent_text(e: int) -> Seq<u16> {
    if e >= 0 {
        seq![0x65u16, 0x2b] + nat_text(e as nat)
    } else {
        seq![0x65u16, 0x2d] + nat_text((-e) as nat)
    }
}

/// Digits with a point behind the first one, where there are more.
pub open spec fn pointed(d: Seq<u16>) -> Seq<u16> {
    if d.len() <= 1 {
        d
    } else {
        d.take(1) + seq![0x2eu16] + d.skip(1)
    }
}

/// The digits `d` of `0.d * 10^n`, as `Number::toString` lays them out: in decimals where
/// `-6 < n <= 21`, else with an exponent.
pub open spec fn layout(d: Seq<u16>, n: int) -> Seq<u16> {
    let k = d.len() as int;
    if k <= n <= 21 {
        d + zeros(n - k)
    } else if 0 < n <= 21 {
        d.take(n) + seq![0x2eu16] + d.skip(n)
    } else if -6 < n <= 0 {
        seq![0x30u16, 0x2e] + zeros(-n) + d
    } else {
        pointed(d) + exponent_text(n - 1)
    }
}

/// The sign in front of a number.
pub open spec fn sign_text(b: u64) -> Seq<u16> {
    if is_negative(b) {
        seq![0x2du16]
    } else {
        seq![]
    }
}

/// Text of a number that is not finite.
pub open spec fn special_text(b: u64) -> Seq<u16> {
    if is_nan(b) {
        utf16_of("NaN"@)
    } else if is_negative(b) {
        utf16_of("-Infinity"@)
    } else {
        utf16_of("Infinity"@)
    }
}

/// `Number::toString`: the shortest digits that read back as the number; zero has no
/// sign.
pub open spec fn number_string(b: u64) -> Seq<u16> {
    if !is_finite(b) {
        special_text(b)
    } else if magnitude(b) == 0 {
        seq![0x30u16]
    } else {
        let (s, e) = shortest_decimal(b);
        sign_text(b) + layout(nat_text(s), nat_text(s).len() + e)
    }
}

/// Text of a number that is not finite.
pub fn special(b: u64) -> (r: Vec<u16>)
    requires
        !is_finite(b),
    ensures
        r@ == special_text(b),
{
    if nan(b) {
        utf16("NaN")
    } else if b >= SIGN {
        utf16("-Infinity")
    } else {
        utf16("Infinity")
    }
}

/// Appends the text of the exponent of a number.
fn push_exponent(out: &mut Vec<u16>, e: i64)
    requires
        e > i64::MIN,
    ensures
        final(out)@ == old(out)@ + exponent_text(e as int),
{
    out.push(0x65);
    if e >= 0 {
        out.push(0x2b);
        push_nat(out, e as u64);
    } else {
        out.push(0x2d);
        push_nat(out, (-e) as u64);
    }
    proof {
        assert(out@ =~= old(out)@ + exponent_text(e as int));
    }
}

/// Appends digits with a point behind the first one, where there are more.
fn push_pointed(out: &mut Vec<u16>, d: &[u16])
    ensures
        final(out)@ == old(out)@ + pointed(d@),
{
    if d.len() <= 1 {
        push_all(out, d);
    } else {
        let head: Vec<u16> = copy_range(d, 0, 1);
        let tail: Vec<u16> = copy_range(d, 1, d.len());
        push_all(out, head.as_slice());
        out.push(0x2e);
        push_all(out, tail.as_slice());
    }
    proof {
        assert(out@ =~= old(out)@ + pointed(d@));
    }
}

/// Appends digits as `Number::toString` lays them out.
fn push_layout(out: &mut Vec<u16>, d: &[u16], n: i64)
    requires
        -1_000_000 < n < 1_000_000,
        d@.len() < 1_000_000,
    ensures
        final(out)@ == old(out)@ + layout(d@, n as int),
{
    let k: i64 = d.len() as i64;
    if k <= n && n <= 21 {
        push_all(out, d);
        push_zeros(out, n - k);
    } else if 0 < n && n <= 21 {
        let head: Vec<u16> = copy_range(d, 0, n as usize);
        let tail: Vec<u16> = copy_range(d, n as usize, d.len());
        push_all(out, head.as_slice());
        out.push(0x2e);
        push_all(out, tail.as_slice());
    } else if -6 < n && n <= 0 {
        out.push(0x30);
        out.push(0x2e);
        push_zeros(out, -n);
        push_all(out, d);
    } else {
        push_pointed(out, d);
        push_exponent(out, n - 1);
    }
    proof {
        assert(out@ =~= old(out)@ + layout(d@, n as int));
    }
}

/// `Number::toString`: the shortest digits that read back as the number, in decimals
/// between `1e-7` and `1e21`, else with an exponent.
pub fn number_to_string(b: u64) -> (r: Vec<u16>)
    ensures
        r@ == number_string(b),
{
    if !finite(b) {
        return special(b);
    }
    let mut out: Vec<u16> = Vec::new();
    if zero(b) {
        out.push(0x30);
        proof {
            assert(out@ =~= seq![0x30u16]);
        }
        return out;
    }
    let (s, e) = shortest(b);
    if b >= SIGN {
        out.push(0x2d);
    }
    proof {
        assert(out@ =~= sign_text(b));
    }
    let mut digits: Vec<u16> = Vec::new();
    push_nat(&mut digits, s);
    proof {
        assert(digits@ =~= nat_text(s as nat));
    }
    let k: u64 = crate::text::digit_count(s);
    push_layout(&mut out, digits.as_slice(), k as i64 + e);
    out
}

// ---------------------------------------------------------------------------
// Fixed-point and exponential notation
// ---------------------------------------------------------------------------

/// The digits of `n` with a point in front of the last `d`.
pub open spec fn point_before_last(n: nat, d: nat) -> Seq<u16> {
    let t = zeros(d + 1 - nat_text(n).len()) + nat_text(n);
    if d == 0 {
        t
    } else {
        t.take(t.len() - d) + seq![0x2eu16] + t.skip(t.len() - d)
    }
}

/// A finite number in fixed-point notation with `d` decimals, rounded half to even.
pub open spec fn fixed_text(b: u64, d: nat) -> Seq<u16> {
    sign_text(b) + point_before_last(half_even(value_num(b) * pow10(d), value_den(b)), d)
}

/// The first `d + 1` digits of a finite number, rounded half to even, and the power of
/// ten of the first.
pub open spec fn significant(b: u64, d: nat) -> (nat, int) {
    if magnitude(b) == 0 {
        (0, 0)
    } else {
        let t = leading_power(b);
        let n = half_even(decade_num(value_num(b), t) * pow10(d), decade_den(value_den(b), t));
        if n == pow10(d + 1) {
            (pow10(d), t + 1)
        } else {
            (n, t)
        }
    }
}

/// The digits of a number, at least `width` of them.
pub open spec fn filled(n: nat, width: nat) -> Seq<u16> {
    zeros(width - nat_text(n).len()) + nat_text(n)
}

/// A finite number in exponential notation with `d` decimals, rounded half to even.
pub open spec fn exponential_text(b: u64, d: nat) -> Seq<u16> {
    let (n, t) = significant(b, d);
    sign_text(b) + pointed(filled(n, d + 1)) + exponent_text(t)
}

/// A finite number in exponential notation with the shortest digits that read back as
/// it.
pub open spec fn shortest_exponential(b: u64) -> Seq<u16> {
    if magnitude(b) == 0 {
        sign_text(b) + seq![0x30u16] + exponent_text(0)
    } else {
        let (s, e) = shortest_decimal(b);
        sign_text(b) + pointed(nat_text(s)) + exponent_text(nat_text(s).len() + e - 1)
    }
}

/// A finite number with `p` significant digits: with an exponent where the number has
/// more digits in front of the point, or more than six zeros behind it.
pub open spec fn precision_text(b: u64, p: nat) -> Seq<u16> {
    let (n, t) = significant(b, (p - 1) as nat);
    if t + 1 > p || t < -6 {
        exponential_text(b, (p - 1) as nat)
    } else {
        fixed_text(b, (p - 1 - t) as nat)
    }
}

/// The text of a number that may be large.
fn push_big(out: &mut Vec<u16>, n: &BigNat)
    ensures
        final(out)@ == old(out)@ + nat_text(n@),
    decreases n@,
{
    let ten: BigNat = BigNat::from_u64(10);
    if n.less(&ten) {
        let mut d: u16 = 0x30;
        let mut k: BigNat = BigNat::from_u64(0);
        while k.less(n)
            invariant
                n@ < 10,
                k@ <= n@,
                d == 0x30 + k@,
            decreases n@ - k@,
        {
            k.mul_add(1, 1);
            d = d + 1;
        }
        out.push(d);
        proof {
            assert(out@ =~= old(out)@ + nat_text(n@));
        }
        return;
    }
    let (q, r) = divide_big(n, &ten);
    let ghost start = out@;
    push_big(out, &q);
    let ghost mid = out@;
    push_big(out, &r);
    proof {
        assert(nat_text(r@) =~= seq![(0x30 + r@) as u16]);
        assert(out@ =~= start + nat_text(n@));
    }
}

/// `n / d` rounded half to even.
pub fn divide_half_even(n: &BigNat, d: &BigNat) -> (r: BigNat)
    requires
        d@ > 0,
    ensures
        r@ == half_even(n@, d@),
{
    let (mut q, rest) = divide_big(n, d);
    let mut twice: BigNat = rest.copy();
    twice.mul_add(2, 0);
    if twice.less(d) {
        return q;
    }
    if d.less(&twice) {
        q.mul_add(1, 1);
        return q;
    }
    let (_, odd) = divide_big(&q, &BigNat::from_u64(2));
    q.add_to(&odd);
    q
}

/// The digits of a number, at least `width` of them.
fn filled_digits(n: &BigNat, width: u64) -> (r: Vec<u16>)
    requires
        width <= 0x1_0000,
    ensures
        r@ == filled(n@, width as nat),
{
    let mut digits: Vec<u16> = Vec::new();
    push_big(&mut digits, n);
    proof {
        assert(digits@ =~= nat_text(n@));
    }
    let mut out: Vec<u16> = Vec::new();
    if digits.len() < width as usize {
        push_zeros(&mut out, width as i64 - digits.len() as i64);
    }
    push_all(&mut out, digits.as_slice());
    proof {
        assert(out@ =~= filled(n@, width as nat));
    }
    out
}

/// A finite number in fixed-point notation with `d` decimals.
pub fn fixed(b: u64, d: u64) -> (r: Vec<u16>)
    requires
        is_finite(b),
        d <= 1000,
    ensures
        r@ == fixed_text(b, d as nat),
{
    let (mut num, den) = value_ratio(b);
    scale10(&mut num, d);
    let n: BigNat = divide_half_even(&num, &den);
    let t: Vec<u16> = filled_digits(&n, d + 1);
    let mut out: Vec<u16> = Vec::new();
    if b >= SIGN {
        out.push(0x2d);
    }
    proof {
        assert(out@ =~= sign_text(b));
        assert(t@ =~= zeros(d + 1 - nat_text(n@).len()) + nat_text(n@));
    }
    if d == 0 {
        push_all(&mut out, t.as_slice());
    } else {
        let cut: usize = t.len() - d as usize;
        let head: Vec<u16> = copy_range(t.as_slice(), 0, cut);
        let tail: Vec<u16> = copy_range(t.as_slice(), cut, t.len());
        push_all(&mut out, head.as_slice());
        out.push(0x2e);
        push_all(&mut out, tail.as_slice());
    }
    proof {
        assert(out@ =~= fixed_text(b, d as nat));
    }
    out
}

/// The first `d + 1` digits of a finite number, and the power of ten of the first.
fn significant_digits(b: u64, d: u64) -> (r: (BigNat, i64))
    requires
        is_finite(b),
        d <= 1000,
    ensures
        (r.0@, r.1 as int) == significant(b, d as nat),
        -2000 < r.1 < 2000,
{
    if zero(b) {
        return (BigNat::from_u64(0), 0);
    }
    let (n, m) = value_ratio(b);
    proof {
        lemma_value_bounds(b);
    }
    let (mut num, den, t) = find_decade(n, m);
    proof {
        assert(in_decade(value_num(b), value_den(b), t as int));
        lemma_decade_unique(value_num(b), value_den(b), t as int, leading_power(b));
    }
    scale10(&mut num, d);
    let digits: BigNat = divide_half_even(&num, &den);
    let mut top: BigNat = BigNat::from_u64(1);
    scale10(&mut top, d);
    let mut over: BigNat = top.copy();
    over.mul_add(10, 0);
    proof {
        assert(1 * pow10(d as nat) == pow10(d as nat)) by (nonlinear_arith);
        assert(over@ == pow10((d + 1) as nat));
    }
    if !digits.less(&over) && !over.less(&digits) {
        return (top, t + 1);
    }
    (digits, t)
}

/// A finite number in exponential notation with `d` decimals, or with the shortest
/// digits that read back as it.
pub fn format_scientific(b: u64, fraction_digits: Option<u64>) -> (r: Vec<u16>)
    requires
        is_finite(b),
        fraction_digits matches Some(d) ==> d <= 1000,
    ensures
        r@ == match fraction_digits {
            Some(d) => exponential_text(b, d as nat),
            None => shortest_exponential(b),
        },
{
    let mut out: Vec<u16> = Vec::new();
    if b >= SIGN {
        out.push(0x2d);
    }
    proof {
        assert(out@ =~= sign_text(b));
    }
    match fraction_digits {
        Some(d) => {
            let (n, t) = significant_digits(b, d);
            let digits: Vec<u16> = filled_digits(&n, d + 1);
            push_pointed(&mut out, digits.as_slice());
            push_exponent(&mut out, t);
        },
        None => {
            if zero(b) {
                out.push(0x30);
                proof {
                    assert(out@ =~= sign_text(b) + seq![0x30u16]);
                }
                push_exponent(&mut out, 0);
            } else {
                let (s, e) = shortest(b);
                let mut digits: Vec<u16> = Vec::new();
                push_nat(&mut digits, s);
                proof {
                    assert(digits@ =~= nat_text(s as nat));
                }
                let k: u64 = crate::text::digit_count(s);
                push_pointed(&mut out, digits.as_slice());
                push_exponent(&mut out, k as i64 + e - 1);
            }
        },
    }
    out
}

/// A finite number with `p` significant digits.
pub fn precision(b: u64, p: u64) -> (r: Vec<u16>)
    requires
        is_finite(b),
        1 <= p <= 100,
    ensures
        r@ == precision_text(b, p as nat),
{
    let (_, t) = significant_digits(b, p - 1);
    if t + 1 > p as i64 || t < -6 {
        format_scientific(b, Some(p - 1))
    } else {
        fixed(b, (p as i64 - 1 - t) as u64)
    }
}

} // verus!
