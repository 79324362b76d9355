//! Whole numbers in other radices read back.
use vstd::prelude::*;
use vstd::arithmetic::power2::pow2;

use crate::date_arith::lemma_truncation_int;
use crate::double::{
    exponent, int_double, is_integral, is_negative, lemma_difference_exact, lemma_int_exact,
    lemma_integral_is_int, lemma_product_exact, lemma_round_ratio_range, lemma_sum_exact,
    lemma_truncation, magnitude, mantissa, negation, signed_mantissa, trunc_int, truncation,
};
use crate::number::{any_digit, parsed_int, radix_end, scanned};
use crate::number_format::sign_text;
use crate::radix::{digits_in, fraction, radix_digit, radix_text};
use crate::text::{is_space, spaces_end, spaces_start, trimmed};

verus! {

proof fn lemma_quotient_smaller(n: nat, radix: int)
    requires
        n > 0,
        radix >= 2,
    ensures
        0 <= n as int / radix < n,
        0 <= n as int % radix < radix,
        n == (n as int / radix) * radix + n as int % radix,
{
    vstd::arithmetic::div_mod::lemma_fundamental_div_mod(n as int, radix);
    vstd::arithmetic::div_mod::lemma_mod_bound(n as int, radix);
    vstd::arithmetic::div_mod::lemma_div_pos_is_pos(n as int, radix);
    vstd::arithmetic::div_mod::lemma_div_decreases(n as int, radix);
    let q = n as int / radix;
    assert(radix * q == q * radix) by (nonlinear_arith);
}

proof fn lemma_digit_range(n: nat, radix: int)
    requires
        2 <= radix <= 36,
    ensures
        n > 0 ==> digits_in(n, radix).len() > 0,
        forall|i: int|
            0 <= i < digits_in(n, radix).len() ==> 0 <= any_digit(
                #[trigger] digits_in(n, radix)[i],
            ) < radix,
    decreases n,
{
    if n > 0 {
        lemma_quotient_smaller(n, radix);
        let q = (n as int / radix) as nat;
        lemma_digit_range(q, radix);
        let a = digits_in(q, radix);
        let b = digits_in(n, radix);
        assert forall|i: int| 0 <= i < b.len() implies 0 <= any_digit(#[trigger] b[i]) < radix by {
            if i < a.len() {
                assert(b[i] == a[i]);
            } else {
                assert(any_digit(radix_digit(n as int % radix)) == n as int % radix);
            }
        }
    }
}

proof fn lemma_scanned(s: Seq<u16>, from: int, n: nat, radix: int)
    requires
        2 <= radix <= 36,
        n < 0x20_0000_0000_0000,
        0 <= from,
        from + digits_in(n, radix).len() <= s.len(),
        s.subrange(from, from + digits_in(n, radix).len()) == digits_in(n, radix),
    ensures
        scanned(s, from, from + digits_in(n, radix).len(), radix) == int_double(n as int),
    decreases n,
{
    if n > 0 {
        lemma_quotient_smaller(n, radix);
        let q = (n as int / radix) as nat;
        let d = n as int % radix;
        let a = digits_in(q, radix);
        let b = digits_in(n, radix);
        let j = from + b.len() as int;
        assert(s.subrange(from, j)[b.len() - 1] == s[j - 1]);
        assert(s[j - 1] == radix_digit(d));
        assert(any_digit(radix_digit(d)) == d);
        assert(s.subrange(from, from + a.len()) =~= s.subrange(from, j).take(a.len() as int));
        assert(b.take(a.len() as int) =~= a);
        lemma_scanned(s, from, q, radix);
        lemma_product_exact(q as int, radix);
        assert(q * radix <= n);
        lemma_sum_exact(q * radix, d);
    }
}

proof fn lemma_radix_end(s: Seq<u16>, i: int, radix: int)
    requires
        0 <= i <= s.len(),
        forall|k: int| i <= k < s.len() ==> 0 <= any_digit(#[trigger] s[k]) < radix,
    ensures
        radix_end(s, i, radix) == s.len(),
    decreases s.len() - i,
{
    if i < s.len() {
        lemma_radix_end(s, i + 1, radix);
    }
}

/// The text of a whole number in a radix: its sign and its digits.
proof fn lemma_radix_text(n: int, radix: int)
    requires
        2 <= radix <= 36,
        -0x20_0000_0000_0000 < n < 0x20_0000_0000_0000,
    ensures
        radix_text(int_double(n), radix) == (if n < 0 {
            seq![0x2du16]
        } else {
            seq![]
        }) + (if n == 0 {
            seq![0x30u16]
        } else {
            digits_in(
                (if n < 0 {
                    -n
                } else {
                    n
                }) as nat,
                radix,
            )
        }),
{
    let b = int_double(n);
    let m: nat = if n < 0 {
        (-n) as nat
    } else {
        n as nat
    };
    lemma_int_exact(n);
    lemma_int_exact(m as int);
    lemma_round_ratio_range(m, 1);
    let mag = magnitude(b) as u64;
    assert(mag == int_double(m as int));
    lemma_truncation_int(m as int);
    lemma_difference_exact(m as int, m as int);
    lemma_int_exact(0);
    assert(truncation(mag) == mag);
    assert(fraction(mag) == int_double(0));
    assert(magnitude(fraction(mag)) == 0);
    let sign: Seq<u16> = if n < 0 {
        seq![0x2du16]
    } else {
        seq![]
    };
    let body = if n == 0 {
        seq![0x30u16]
    } else {
        digits_in(m, radix)
    };
    let none: Seq<u16> = seq![];
    assert(sign + body + none =~= sign + body);
}

/// Digits of a radix, behind a sign or not, are read as their number.
proof fn lemma_digits_parsed(t: Seq<u16>, from: int, m: nat, radix: int)
    requires
        2 <= radix <= 36,
        0 < m < 0x20_0000_0000_0000,
        from == 0 || from == 1,
        t.len() == from + digits_in(m, radix).len(),
        t.subrange(from, t.len() as int) == digits_in(m, radix),
        from == 1 ==> t[0] == 0x2d,
    ensures
        parsed_int(t, radix) == int_double(
            if from == 1 {
                -(m as int)
            } else {
                m as int
            },
        ),
{
    let d = digits_in(m, radix);
    lemma_digit_range(m, radix);
    assert forall|k: int| from <= k < t.len() implies 0 <= any_digit(#[trigger] t[k]) < radix by {
        assert(t.subrange(from, t.len() as int)[k - from] == t[k]);
    }
    assert(0 <= any_digit(t[from]));
    assert(0 <= any_digit(t[t.len() - 1]));
    assert(!is_space(t[0]) && !is_space(t[t.len() - 1]));
    assert(spaces_end(t, 0) == 0);
    assert(spaces_start(t, 0, t.len() as int) == t.len());
    assert(trimmed(t) =~= t);
    lemma_radix_end(t, from, radix);
    lemma_scanned(t, from, m, radix);
    if from == 1 {
        lemma_product_exact(-1, m as int);
    } else {
        lemma_product_exact(1, m as int);
    }
}

/// The number that digits of a radix spell.
pub open spec fn spelled(s: Seq<u16>, radix: int) -> int
    decreases s.len(),
{
    if s.len() == 0 {
        0
    } else {
        spelled(s.drop_last(), radix) * radix + any_digit(s.last())
    }
}

proof fn lemma_spelled(n: nat, radix: int)
    requires
        2 <= radix <= 36,
    ensures
        spelled(digits_in(n, radix), radix) == n,
        n > 0 ==> digits_in(n, radix).len() > 0 && digits_in(n, radix)[0] != 0x30,
    decreases n,
{
    if n > 0 {
        lemma_quotient_smaller(n, radix);
        let q = (n as int / radix) as nat;
        let d = n as int % radix;
        lemma_spelled(q, radix);
        let s = digits_in(n, radix);
        assert(s.drop_last() =~= digits_in(q, radix));
        assert(s.last() == radix_digit(d));
        assert(any_digit(radix_digit(d)) == d);
        if q > 0 {
            assert(s[0] == digits_in(q, radix)[0]);
        } else {
            assert(0 * radix == 0) by (nonlinear_arith);
        }
    }
}

/// Nothing is behind the point of a whole number.
proof fn lemma_no_fraction(b: u64)
    requires
        is_integral(b),
        !is_negative(b),
    ensures
        magnitude(fraction(b)) == 0,
{
    if magnitude(b) != 0 {
        lemma_truncation(b);
        lemma_integral_is_int(b);
        if exponent(b) < 0 && trunc_int(b) == 0 {
            lemma_int_exact(0);
        }
    }
    let n = negation(b);
    assert(truncation(b) == b);
    assert(magnitude(n) == magnitude(b));
    assert(mantissa(n) == mantissa(b) && exponent(n) == exponent(b));
    vstd::arithmetic::power2::lemma2_to64();
    assert(pow2(0) == 1);
    assert(signed_mantissa(b) * 1 + signed_mantissa(n) * 1 == 0) by (nonlinear_arith)
        requires
            signed_mantissa(b) == -signed_mantissa(n),
    ;
}

/// The text of a whole number of any size is exact: a minus sign where it is below zero,
/// then digits of the radix that spell it, without a zero in front.
pub proof fn law_radix_exact(b: u64, radix: int)
    requires
        2 <= radix <= 36,
        is_integral(b),
    ensures
        ({
            let t = radix_text(b, radix);
            let below = trunc_int(b) < 0;
            let digits = if below {
                t.skip(1)
            } else {
                t
            };
            &&& digits.len() > 0
            &&& below ==> t[0] == 0x2d
            &&& forall|i: int|
                0 <= i < digits.len() ==> 0 <= any_digit(#[trigger] digits[i]) < radix
            &&& digits[0] == 0x30 ==> digits.len() == 1
            &&& spelled(digits, radix) == if below {
                -trunc_int(b)
            } else {
                trunc_int(b)
            }
        }),
{
    let mag = magnitude(b) as u64;
    assert(mantissa(mag) == mantissa(b) && exponent(mag) == exponent(b));
    lemma_no_fraction(mag);
    let n = trunc_int(mag);
    lemma_whole_sign(mag);
    lemma_spelled(n as nat, radix);
    lemma_digit_range(n as nat, radix);
    let t = radix_text(b, radix);
    let none: Seq<u16> = seq![];
    let body = if n == 0 {
        seq![0x30u16]
    } else {
        digits_in(n as nat, radix)
    };
    if magnitude(b) != 0 && n == 0 {
        lemma_integral_is_int(mag);
        lemma_int_exact(0);
    }
    if n == 0 {
        reveal_with_fuel(spelled, 2);
        assert(0 * radix == 0) by (nonlinear_arith);
        assert(body.drop_last() =~= none);
    }
    if trunc_int(b) < 0 {
        if magnitude(b) == 0 {
            vstd::arithmetic::power2::lemma_pow2_pos(1074);
            vstd::arithmetic::div_mod::lemma_basic_div(0, pow2(1074) as int);
        }
        assert(is_negative(b) && n > 0);
        assert(sign_text(b) =~= seq![0x2du16]);
        assert(t =~= seq![0x2du16] + body);
        assert(t.skip(1) =~= body);
    } else {
        assert(t =~= body);
    }
}

/// The whole part of a number that is not negative is not negative.
proof fn lemma_whole_sign(b: u64)
    requires
        !is_negative(b),
    ensures
        trunc_int(b) >= 0,
{
    let m = mantissa(b) as int;
    if exponent(b) < 0 {
        let p = pow2((-exponent(b)) as nat) as int;
        vstd::arithmetic::power2::lemma_pow2_pos((-exponent(b)) as nat);
        vstd::arithmetic::div_mod::lemma_div_pos_is_pos(m, p);
    }
}

/// A whole number below 2^53 that is written in a radix reads back as the number.
pub proof fn law_radix_reads_back(n: int, radix: int)
    requires
        2 <= radix <= 36,
        -0x20_0000_0000_0000 < n < 0x20_0000_0000_0000,
    ensures
        parsed_int(radix_text(int_double(n), radix), radix) == int_double(n),
{
    lemma_radix_text(n, radix);
    let t = radix_text(int_double(n), radix);
    if n == 0 {
        assert(t =~= seq![0x30u16]);
        assert(spaces_end(t, 0) == 0);
        assert(spaces_start(t, 0, 1) == 1);
        assert(trimmed(t) =~= t);
        lemma_radix_end(t, 0, radix);
        reveal_with_fuel(scanned, 3);
        lemma_product_exact(0, radix);
        lemma_sum_exact(0, 0);
        lemma_product_exact(1, 0);
    } else if n < 0 {
        let d = digits_in((-n) as nat, radix);
        assert(t == seq![0x2du16] + d);
        assert(t.subrange(1, t.len() as int) =~= d);
        lemma_digits_parsed(t, 1, (-n) as nat, radix);
    } else {
        let d = digits_in(n as nat, radix);
        assert(t =~= d);
        assert(t.subrange(0, t.len() as int) =~= d);
        lemma_digits_parsed(t, 0, n as nat, radix);
    }
}

} // verus!
