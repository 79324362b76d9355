//! What `parseInt` reads: a sign, digits of a radix, and nothing of what follows them.
use vstd::prelude::*;

use crate::double::{
    int_double, is_nan, lemma_int_exact, lemma_product_exact, lemma_sum_exact, magnitude, product,
};
use crate::number::{any_digit, parsed_int, radix_end, scanned};
use crate::radix_laws::spelled;
use crate::text::trimmed;

verus! {

/// Whether every unit is a digit of a radix.
pub open spec fn all_digits(s: Seq<u16>, radix: int) -> bool {
    forall|i: int| 0 <= i < s.len() ==> 0 <= any_digit(#[trigger] s[i]) < radix
}

/// Whether a text is empty or starts with no digit of a radix.
pub open spec fn ends_digits(s: Seq<u16>, radix: int) -> bool {
    s.len() > 0 ==> !(0 <= any_digit(s[0]) < radix)
}

/// Whether a text is a sign: nothing, a plus or a minus.
pub open spec fn is_sign(s: Seq<u16>) -> bool {
    s.len() == 0 || (s.len() == 1 && (s[0] == 0x2b || s[0] == 0x2d))
}

/// Whether a sign turns a number round.
pub open spec fn turns(s: Seq<u16>) -> bool {
    s.len() == 1 && s[0] == 0x2d
}

/// Digits have the values that they are known by: `0` to `9`, and letters of either case
/// from ten on; nothing else is one.
pub proof fn law_digit_values(u: u16)
    ensures
        0x30 <= u <= 0x39 ==> any_digit(u) == u - 0x30,
        0x61 <= u <= 0x7a ==> any_digit(u) == 10 + (u - 0x61) && any_digit((u - 32) as u16)
            == any_digit(u),
        any_digit(u) >= 0 ==> 0x30 <= u <= 0x39 || 0x41 <= u <= 0x5a || 0x61 <= u <= 0x7a,
        any_digit(u) < 36,
{
}

proof fn lemma_spelled_sign(s: Seq<u16>, radix: int)
    requires
        all_digits(s, radix),
        radix >= 2,
    ensures
        spelled(s, radix) >= 0,
    decreases s.len(),
{
    if s.len() > 0 {
        let t = s.drop_last();
        assert forall|i: int| 0 <= i < t.len() implies 0 <= any_digit(#[trigger] t[i]) < radix by {
            assert(t[i] == s[i]);
        }
        lemma_spelled_sign(t, radix);
        assert(0 <= any_digit(s.last()));
        assert(spelled(t, radix) * radix >= 0) by (nonlinear_arith)
            requires
                spelled(t, radix) >= 0,
                radix >= 2,
        ;
    }
}

proof fn lemma_scanned(s: Seq<u16>, i: int, j: int, radix: int)
    requires
        0 <= i <= j <= s.len(),
        2 <= radix <= 36,
        all_digits(s.subrange(i, j), radix),
        spelled(s.subrange(i, j), radix) < 0x20_0000_0000_0000,
    ensures
        scanned(s, i, j, radix) == int_double(spelled(s.subrange(i, j), radix)),
    decreases j - i,
{
    let t = s.subrange(i, j);
    if i < j {
        let p = s.subrange(i, j - 1);
        assert(t.drop_last() =~= p);
        assert forall|k: int| 0 <= k < p.len() implies 0 <= any_digit(#[trigger] p[k]) < radix by {
            assert(p[k] == t[k]);
        }
        lemma_spelled_sign(p, radix);
        let m = spelled(p, radix);
        let d = any_digit(t.last());
        assert(0 <= d < radix);
        assert(0 <= m <= m * radix) by (nonlinear_arith)
            requires
                m >= 0,
                radix >= 2,
        ;
        lemma_scanned(s, i, j - 1, radix);
        lemma_product_exact(m, radix);
        lemma_sum_exact(m * radix, d);
        assert(t.last() == s[j - 1]);
    } else {
        assert(t.len() == 0);
    }
}

proof fn lemma_end(s: Seq<u16>, i: int, j: int, radix: int)
    requires
        0 <= i <= j <= s.len(),
        all_digits(s.subrange(i, j), radix),
        j < s.len() ==> !(0 <= any_digit(s[j]) < radix),
    ensures
        radix_end(s, i, radix) == j,
    decreases j - i,
{
    if i < j {
        let t = s.subrange(i, j);
        assert(t[0] == s[i]);
        let p = s.subrange(i + 1, j);
        assert forall|k: int| 0 <= k < p.len() implies 0 <= any_digit(#[trigger] p[k]) < radix by {
            assert(p[k] == t[k + 1]);
        }
        lemma_end(s, i + 1, j, radix);
    }
}

/// Whether a number is an integer, up to the sign of a zero.
pub open spec fn is_int(b: u64, n: int) -> bool {
    b == int_double(n) || (n == 0 && magnitude(b) == 0)
}

proof fn lemma_read(sign: Seq<u16>, lead: Seq<u16>, digits: Seq<u16>, rest: Seq<u16>, radix: int)
    requires
        is_sign(sign),
        2 <= radix <= 36,
        all_digits(digits, radix),
        ends_digits(rest, radix),
        spelled(digits, radix) < 0x20_0000_0000_0000,
    ensures
        ({
            let s = sign + lead + digits + rest;
            let i = (sign + lead).len() as int;
            let n = spelled(digits, radix);
            &&& radix_end(s, i, radix) == i + digits.len()
            &&& scanned(s, i, i + digits.len(), radix) == int_double(n)
            &&& n >= 0
            &&& is_int(product(int_double(1), int_double(n)), n)
            &&& is_int(product(int_double(-1), int_double(n)), -n)
        }),
{
    let s = sign + lead + digits + rest;
    let i = (sign + lead).len() as int;
    let j = i + digits.len();
    assert(s.subrange(i, j) =~= digits);
    if j < s.len() {
        assert(s[j] == rest[0]);
    }
    lemma_end(s, i, j, radix);
    lemma_scanned(s, i, j, radix);
    lemma_spelled_sign(digits, radix);
    let n = spelled(digits, radix);
    lemma_product_exact(1, n);
    if n > 0 {
        lemma_product_exact(-1, n);
    } else {
        lemma_int_exact(0);
        lemma_int_exact(-1);
        let a = crate::double::mantissa(int_double(-1));
        let b = crate::double::mantissa(int_double(0));
        assert(b == 0);
        assert(a * b == 0) by (nonlinear_arith)
            requires
                b == 0,
        ;
        let q = crate::double::exponent(int_double(-1)) + crate::double::exponent(int_double(0));
        let p = vstd::arithmetic::power2::pow2(q as nat);
        assert(0 * p == 0) by (nonlinear_arith);
    }
}

/// A sign, digits of a given radix and anything that is no such digit read as the number
/// that the digits spell, turned round by a minus.
pub proof fn law_parse_int(sign: Seq<u16>, digits: Seq<u16>, rest: Seq<u16>, radix: int)
    requires
        is_sign(sign),
        2 <= radix <= 36,
        digits.len() > 0,
        all_digits(digits, radix),
        ends_digits(rest, radix),
        spelled(digits, radix) < 0x20_0000_0000_0000,
        trimmed(sign + digits + rest) == sign + digits + rest,
    ensures
        is_int(
            parsed_int(sign + digits + rest, radix),
            if turns(sign) {
                -spelled(digits, radix)
            } else {
                spelled(digits, radix)
            },
        ),
{
    let none: Seq<u16> = seq![];
    lemma_read(sign, none, digits, rest, radix);
    assert(sign + none + digits + rest =~= sign + digits + rest);
    let s = sign + digits + rest;
    if sign.len() == 0 {
        assert(s[0] == digits[0]);
        assert(any_digit(0x2d) == -1 && any_digit(0x2b) == -1);
    } else {
        assert(s[0] == sign[0]);
    }
}

/// Without a radix, digits read in base ten, unless `0x` is in front of hexadecimal ones.
pub proof fn law_parse_int_any(sign: Seq<u16>, digits: Seq<u16>, rest: Seq<u16>)
    requires
        is_sign(sign),
        digits.len() > 0,
        all_digits(digits, 10),
        ends_digits(rest, 10),
        !(digits.len() == 1 && rest.len() > 0 && (rest[0] == 0x78 || rest[0] == 0x58)),
        spelled(digits, 10) < 0x20_0000_0000_0000,
        trimmed(sign + digits + rest) == sign + digits + rest,
    ensures
        is_int(
            parsed_int(sign + digits + rest, 0),
            if turns(sign) {
                -spelled(digits, 10)
            } else {
                spelled(digits, 10)
            },
        ),
{
    let none: Seq<u16> = seq![];
    lemma_read(sign, none, digits, rest, 10);
    assert(sign + none + digits + rest =~= sign + digits + rest);
    let s = sign + digits + rest;
    let i = sign.len() as int;
    assert(s[i] == digits[0]);
    if digits.len() > 1 {
        assert(s[i + 1] == digits[1]);
    } else if rest.len() > 0 {
        assert(s[i + 1] == rest[0]);
    }
    if sign.len() == 0 {
        assert(any_digit(0x2d) == -1 && any_digit(0x2b) == -1);
    } else {
        assert(s[0] == sign[0]);
    }
}

/// Hexadecimal digits behind `0x` are read in base 16 where no radix is given.
pub proof fn law_parse_int_hex(sign: Seq<u16>, x: u16, digits: Seq<u16>, rest: Seq<u16>)
    requires
        is_sign(sign),
        x == 0x78 || x == 0x58,
        digits.len() > 0,
        all_digits(digits, 16),
        ends_digits(rest, 16),
        spelled(digits, 16) < 0x20_0000_0000_0000,
        trimmed(sign + seq![0x30u16, x] + digits + rest) == sign + seq![0x30u16, x] + digits + rest,
    ensures
        is_int(
            parsed_int(sign + seq![0x30u16, x] + digits + rest, 0),
            if turns(sign) {
                -spelled(digits, 16)
            } else {
                spelled(digits, 16)
            },
        ),
{
    let lead = seq![0x30u16, x];
    lemma_read(sign, lead, digits, rest, 16);
    let s = sign + lead + digits + rest;
    let i = sign.len() as int;
    assert(s[i] == 0x30 && s[i + 1] == x);
    if sign.len() > 0 {
        assert(s[0] == sign[0]);
    }
}

/// A text without digits, and any text in a radix that is out of range, is not a number.
pub proof fn law_parse_int_nothing(sign: Seq<u16>, rest: Seq<u16>, radix: int, t: Seq<u16>)
    requires
        is_sign(sign),
        2 <= radix <= 36,
        ends_digits(rest, radix),
        sign.len() == 0 ==> rest.len() == 0 || (rest[0] != 0x2b && rest[0] != 0x2d),
        trimmed(sign + rest) == sign + rest,
    ensures
        is_nan(parsed_int(sign + rest, radix)),
        is_nan(parsed_int(t, 1)),
        is_nan(parsed_int(t, 37)),
        is_nan(parsed_int(t, -radix)),
{
    let s = sign + rest;
    let i = sign.len() as int;
    assert(s.subrange(i, i).len() == 0);
    if rest.len() > 0 {
        assert(s[i] == rest[0]);
    }
    if sign.len() > 0 {
        assert(s[0] == sign[0]);
    }
    lemma_end(s, i, i, radix);
}

} // verus!
