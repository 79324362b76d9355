//! What rounding, extremes, signs and integer operations of `Math` give.
use vstd::arithmetic::div_mod::{lemma_fundamental_div_mod, lemma_small_mod};
use vstd::arithmetic::power2::{
    lemma2_to64, lemma2_to64_rest, lemma_pow2_adds, lemma_pow2_pos, lemma_pow2_strictly_increases,
    lemma_pow2_unfold, pow2,
};
use vstd::prelude::*;

use crate::convert::{number_of, number_value};
use crate::double::{
    HIDDEN, INFINITY, absolute, below, ceiling, exponent, floor, in_binade, int_double, is_finite,
    is_infinite, is_integral, is_nan, is_negative, lemma_floor_quotient, lemma_int_exact,
    lemma_int_parts, lemma_negation_int, lemma_product_exact, lemma_round_own_value,
    lemma_round_ratio_at, lemma_round_ratio_scale, lemma_sum_exact, lemma_truncation, magnitude, mantissa, negation, order_key, quotient,
    round_ratio, signed_mantissa, sum, trunc_int, truncation, with_sign,
};
use crate::heap::HeapModel;
use crate::math::{
    HALF, bit_length, extreme, floor_root, full_width, has_infinite, int32_of, is_floor_root,
    lemma_floor_root_unique, nearest_root, root, rounded, rounded_value, sign_of, square_sum,
    wrapped_i32,
};
use crate::value::JsValue;

verus! {

// ---------------------------------------------------------------------------
// Rounding
// ---------------------------------------------------------------------------

/// The floor of a number with a fractional part is the integer at or below it, with no
/// other integer between; numbers without one, infinities and not-a-number stay.
pub proof fn law_floor(b: u64)
    ensures
        !is_finite(b) || is_integral(b) ==> order_key(floor(b)) == order_key(b) && is_nan(floor(b))
            == is_nan(b),
        is_finite(b) && exponent(b) < 0 ==> {
            let n = trunc_int(floor(b));
            let p = pow2((-exponent(b)) as nat) as int;
            &&& is_integral(floor(b))
            &&& n * p <= signed_mantissa(b) < (n + 1) * p
        },
{
    if is_finite(b) && exponent(b) < 0 {
        let p = pow2((-exponent(b)) as nat) as int;
        lemma_pow2_pos((-exponent(b)) as nat);
        if magnitude(b) == 0 {
            lemma_truncation(b);
            assert(trunc_int(b) == 0) by {
                lemma_small_mod(0, p as nat);
                lemma_fundamental_div_mod(0, p);
                assert(0int / p == 0) by (nonlinear_arith)
                    requires
                        p > 0,
                ;
            }
            assert(truncation(b) == b);
            assert(0 * p <= 0 < (0 + 1) * p) by (nonlinear_arith)
                requires
                    p > 0,
            ;
        } else {
            let m = signed_mantissa(b);
            let n = m / p;
            lemma_fundamental_div_mod(m, p);
            assert(n * p <= m < (n + 1) * p) by (nonlinear_arith)
                requires
                    m == p * n + m % p,
                    0 <= m % p < p,
            ;
            assert(-0x20_0000_0000_0000 < n < 0x20_0000_0000_0000) by (nonlinear_arith)
                requires
                    n * p <= m < (n + 1) * p,
                    p >= 1,
                    -0x20_0000_0000_0000 < m < 0x20_0000_0000_0000,
            ;
            lemma_int_exact(n);
            if is_integral(b) {
                lemma_whole_floor(b);
            }
        }
    }
}

proof fn lemma_whole_floor(b: u64)
    requires
        is_integral(b),
        exponent(b) < 0,
        magnitude(b) != 0,
    ensures
        signed_mantissa(b) / (pow2((-exponent(b)) as nat) as int) == trunc_int(b),
        floor(b) == b,
{
    let p = pow2((-exponent(b)) as nat) as int;
    lemma_pow2_pos((-exponent(b)) as nat);
    let m = mantissa(b) as int;
    lemma_fundamental_div_mod(m, p);
    let v = m / p;
    assert((-m) / p == -v) by {
        assert(-m == (-v) * p + 0) by (nonlinear_arith)
            requires
                m == p * v,
        ;
        vstd::arithmetic::div_mod::lemma_fundamental_div_mod_converse(-m, p, -v, 0);
    }
    crate::double::lemma_integral_is_int(b);
}

/// The ceiling of a number with a fractional part is the integer at or above it, with no
/// other integer between; the sign stays with a zero.
pub proof fn law_ceiling(b: u64)
    ensures
        !is_finite(b) || is_integral(b) ==> order_key(ceiling(b)) == order_key(b) && is_nan(
            ceiling(b),
        ) == is_nan(b),
        is_finite(b) && exponent(b) < 0 ==> {
            let n = trunc_int(ceiling(b));
            let p = pow2((-exponent(b)) as nat) as int;
            &&& is_integral(ceiling(b))
            &&& (n - 1) * p < signed_mantissa(b) <= n * p
        },
{
    let c = negation(b);
    law_floor(c);
    lemma_negated(b);
    lemma_negated(floor(c));
    if is_finite(b) && exponent(b) < 0 {
        let p = pow2((-exponent(b)) as nat) as int;
        let n = trunc_int(floor(c));
        let m = signed_mantissa(b);
        assert((-n - 1) * p < m <= (-n) * p) by (nonlinear_arith)
            requires
                n * p <= -m < (n + 1) * p,
        ;
    }
}

proof fn lemma_negated(b: u64)
    ensures
        order_key(negation(b)) == -order_key(b),
        is_nan(negation(b)) == is_nan(b),
        is_finite(negation(b)) == is_finite(b),
        is_integral(negation(b)) == is_integral(b),
        exponent(negation(b)) == exponent(b),
        signed_mantissa(negation(b)) == -signed_mantissa(b),
        trunc_int(negation(b)) == -trunc_int(b),
{
    assert(magnitude(negation(b)) == magnitude(b));
}

/// Dropping the fractional part gives the integer next to the number on the way to zero,
/// and keeps the sign.
pub proof fn law_trunc(b: u64)
    ensures
        !is_finite(b) ==> truncation(b) == b,
        is_finite(b) ==> is_integral(truncation(b)) && is_negative(truncation(b)) == is_negative(b),
        is_finite(b) && exponent(b) < 0 ==> {
            let n = trunc_int(truncation(b));
            let a = if n < 0 {
                -n
            } else {
                n
            };
            let p = pow2((-exponent(b)) as nat) as int;
            &&& a * p <= mantissa(b) < (a + 1) * p
            &&& n != 0 ==> is_negative(b) == (n < 0)
        },
{
    if is_finite(b) {
        lemma_truncation(b);
        if exponent(b) < 0 {
            let p = pow2((-exponent(b)) as nat) as int;
            lemma_pow2_pos((-exponent(b)) as nat);
            let m = mantissa(b) as int;
            lemma_fundamental_div_mod(m, p);
            let v = m / p;
            assert(0 <= v && v * p <= m < (v + 1) * p && v <= m) by (nonlinear_arith)
                requires
                    m == p * v + m % p,
                    0 <= m % p < p,
                    m >= 0,
            ;
            if magnitude(b) != 0 {
                lemma_int_exact(v);
                lemma_int_exact(-v);
            }
        }
    }
}

/// The half of an integer, exactly: its parts, and its magnitude.
proof fn lemma_half(x: int)
    requires
        -0x10_0000_0000_0000 < x < 0x10_0000_0000_0000,
        x != 0,
    ensures
        ({
            let h = quotient(int_double(x), int_double(2));
            let a = if x < 0 {
                -x
            } else {
                x
            };
            let q = exponent(int_double(x));
            &&& h == with_sign(x < 0, round_ratio(a as nat, 2))
            &&& is_finite(h)
            &&& is_negative(h) == (x < 0)
            &&& magnitude(h) != 0
            &&& magnitude(h) == magnitude(int_double(x)) - HIDDEN
            &&& exponent(h) == q - 1
            &&& signed_mantissa(h) == x * pow2((-q) as nat)
            &&& -52 <= q <= 0
            &&& a >= 2 ==> magnitude(h) > HALF
            &&& a == 1 ==> magnitude(h) == HALF
        }),
{
    let bx = int_double(x);
    let two = int_double(2);
    lemma_int_exact(x);
    lemma_int_parts(x);
    lemma_two();
    let q = exponent(bx);
    let m = mantissa(bx);
    let a: nat = if x < 0 {
        (-x) as nat
    } else {
        x as nat
    };
    let p = pow2((-q) as nat);
    lemma_pow2_pos((-q) as nat);
    assert(m == a * p) by (nonlinear_arith)
        requires
            signed_mantissa(bx) == x * p,
            signed_mantissa(bx) == if x < 0 {
                -(m as int)
            } else {
                m as int
            },
            a == if x < 0 {
                -x
            } else {
                x
            },
    ;
    lemma2_to64();
    lemma2_to64_rest();
    // an integer is at least one, so that it takes 53 bits
    assert(m >= HIDDEN) by {
        if m < HIDDEN {
            assert(q == -1074);
            lemma_pow2_strictly_increases(53, 1074);
            assert(a * p >= p) by (nonlinear_arith)
                requires
                    a >= 1,
                    p >= 0,
            ;
        }
    }
    if -q > 52 {
        if -q > 53 {
            lemma_pow2_strictly_increases(53, (-q) as nat);
        }
        assert(a * p >= p) by (nonlinear_arith)
            requires
                a >= 1,
                p >= 0,
        ;
    }
    assert(q >= -52);
    let c = (magnitude(bx) - HIDDEN) as u64;
    assert(magnitude(bx) >= 2 * HIDDEN);
    assert(mantissa(c) == m && exponent(c) == q - 1);
    lemma_round_own_value(c);
    let d = pow2((1 - q) as nat);
    assert(round_ratio(m, d) == magnitude(c));
    lemma_pow2_unfold((1 - q) as nat);
    assert(d == 2 * p);
    lemma_round_ratio_scale(a, 2, p);
    assert(2 * p == p * 2) by (nonlinear_arith);
    assert(round_ratio(a, 2) == magnitude(c));
    // the quotient is the same fraction
    let e = q + 51;
    if e >= 0 {
        let k = pow2(e as nat);
        lemma_pow2_pos(e as nat);
        lemma_pow2_adds((-q) as nat, e as nat);
        assert(p * k == 0x8_0000_0000_0000);
        assert(m * k == a * 0x8_0000_0000_0000) by (nonlinear_arith)
            requires
                m == a * p,
                p * k == 0x8_0000_0000_0000,
        ;
        lemma_round_ratio_scale(a, 2, 0x8_0000_0000_0000);
        if e == 0 {
            assert(k == 1);
        }
    } else {
        assert(p == 0x10_0000_0000_0000);
        assert(mantissa(two) * pow2(1) == 0x20_0000_0000_0000);
        lemma_round_ratio_scale(a, 2, 0x10_0000_0000_0000);
    }
    if a >= 2 {
        assert(q >= -51) by {
            if q == -52 {
                assert(a * p >= 2 * p) by (nonlinear_arith)
                    requires
                        a >= 2,
                        p >= 0,
                ;
            }
        }
    } else {
        assert(m == p) by (nonlinear_arith)
            requires
                m == a * p,
                a == 1,
        ;
        assert(q == -52) by {
            if -q < 52 {
                lemma_pow2_strictly_increases((-q) as nat, 52);
            }
        }
    }
}

proof fn lemma_two()
    ensures
        mantissa(int_double(2)) == HIDDEN,
        exponent(int_double(2)) == -51,
        is_finite(int_double(2)),
        !is_negative(int_double(2)),
        magnitude(int_double(2)) != 0,
{
    lemma_int_exact(2);
    lemma_int_parts(2);
    lemma2_to64();
    lemma2_to64_rest();
    let b = int_double(2);
    let q = exponent(b);
    let p = pow2((-q) as nat);
    if -q < 51 {
        lemma_pow2_strictly_increases((-q) as nat, 51);
    } else if -q > 51 {
        if -q > 52 {
            lemma_pow2_strictly_increases(52, (-q) as nat);
        }
    }
}

/// Rounding half of an integer gives the integer nearest to it, and of two the greater
/// one; minus one half is rounded to a negative zero.
pub proof fn law_round_halves(x: int)
    requires
        -0x8_0000_0000_0000 < x < 0x8_0000_0000_0000,
    ensures
        ({
            let b = quotient(int_double(x), int_double(2));
            &&& x == -1 ==> rounded_value(b) == JsValue::Double(0x8000_0000_0000_0000)
            &&& x != -1 && x != 0 ==> rounded(b) == int_double((x + 1) / 2)
        }),
{
    let b = quotient(int_double(x), int_double(2));
    if x != 0 {
        lemma_half(x);
        if x != -1 {
            let q = exponent(int_double(x));
            lemma2_to64();
            lemma2_to64_rest();
            lemma_half(x + 1);
            lemma_floor_quotient(x + 1, 2);
            let e = q + 52;
            let p = pow2((-q) as nat);
            let k = pow2(e as nat);
            lemma_pow2_adds((-q) as nat, e as nat);
            assert(p * k == 0x10_0000_0000_0000);
            let s = signed_mantissa(b) * k + 0x10_0000_0000_0000;
            assert(s == (x + 1) * 0x10_0000_0000_0000) by (nonlinear_arith)
                requires
                    signed_mantissa(b) == x * p,
                    p * k == 0x10_0000_0000_0000,
                    s == signed_mantissa(b) * k + 0x10_0000_0000_0000,
            ;
            assert(mantissa(HALF) == 0x10_0000_0000_0000 && exponent(HALF) == -53);
            assert(0x10_0000_0000_0000 * pow2(0) == 0x10_0000_0000_0000);
            let a: nat = if x + 1 < 0 {
                (-(x + 1)) as nat
            } else {
                (x + 1) as nat
            };
            lemma_round_ratio_scale(a, 2, 0x10_0000_0000_0000);
            assert(sum(b, HALF) == with_sign(x + 1 < 0, round_ratio(a, 2)));
        }
    }
}

// ---------------------------------------------------------------------------
// Roots
// ---------------------------------------------------------------------------

/// Zeros, infinity and not-a-number are their own roots; what is below zero has none.
pub proof fn law_root_special(b: u64)
    ensures
        magnitude(b) == 0 || is_nan(b) || b == INFINITY ==> root(b) == b,
        is_negative(b) && magnitude(b) != 0 && !is_nan(b) ==> is_nan(root(b)),
{
}

/// The root of a square is the number that was squared.
pub proof fn law_root_of_square(n: int)
    requires
        0 < n < 0x400_0000,
    ensures
        root(int_double(n * n)) == int_double(n),
{
    let sq = n * n;
    assert(0 < sq < 0x10_0000_0000_0000) by (nonlinear_arith)
        requires
            0 < n < 0x400_0000,
            sq == n * n,
    ;
    let b = int_double(sq);
    lemma_int_exact(sq);
    lemma_int_parts(sq);
    lemma_half(sq);
    let q = exponent(b);
    let m = mantissa(b);
    assert(m >= HIDDEN) by {
        assert(magnitude(b) >= HIDDEN);
    }
    assert(full_width(m, q) == (m, q));
    let k: int = if q % 2 == 0 {
        52
    } else {
        53
    };
    let j = (k - q) / 2;
    assert((q - k) % 2 == 0 && k - q == 2 * j && (q - k) / 2 == -j);
    let r = n * pow2(j as nat);
    lemma_pow2_adds((-q) as nat, k as nat);
    lemma_pow2_adds(j as nat, j as nat);
    lemma2_to64();
    lemma2_to64_rest();
    let whole = m * pow2(k as nat);
    let p = pow2(j as nat);
    assert(p > 0) by {
        lemma_pow2_pos(j as nat);
    }
    assert(whole == r * r) by (nonlinear_arith)
        requires
            whole == m * pow2(k as nat),
            m == sq * pow2((-q) as nat),
            sq == n * n,
            pow2((-q) as nat) * pow2(k as nat) == p * p,
            r == n * p,
    ;
    assert(r > 0) by (nonlinear_arith)
        requires
            r == n * p,
            n > 0,
            p > 0,
    ;
    assert(is_floor_root(whole, r as nat)) by {
        assert(r * r < (r + 1) * (r + 1)) by (nonlinear_arith)
            requires
                r > 0,
        ;
    }
    lemma_floor_root_unique(whole, r as nat, floor_root(whole));
    assert(nearest_root(whole) == r);
    let w = pow2(k as nat);
    assert(w == 0x10_0000_0000_0000 || w == 0x20_0000_0000_0000);
    assert(0x10_0000_0000_0000 <= r < 0x20_0000_0000_0000) by (nonlinear_arith)
        requires
            r > 0,
            r * r == m * w,
            0x10_0000_0000_0000 <= m < 0x20_0000_0000_0000,
            w == 0x10_0000_0000_0000 || w == 0x20_0000_0000_0000,
    ;
    assert(in_binade(n as nat, 1, -j)) by {
        assert(n as nat * p == r);
    }
    lemma_round_ratio_at(n as nat, 1, -j);
    lemma_fundamental_div_mod(r, 1);
}

/// The hypotenuse of a right triangle with whole sides is the whole number that it is.
pub proof fn law_hypotenuse(h: HeapModel, args: Seq<JsValue>, a: int, b: int, c: int)
    requires
        args.len() == 2,
        number_of(h, args[0]) == int_double(a),
        number_of(h, args[1]) == int_double(b),
        0 <= a < 0x200_0000,
        0 <= b < 0x200_0000,
        0 < c < 0x400_0000,
        a * a + b * b == c * c,
    ensures
        root(square_sum(h, args, 2)) == int_double(c),
{
    assert(0 <= a * a < 0x4_0000_0000_0000 && 0 <= b * b < 0x4_0000_0000_0000) by (nonlinear_arith)
        requires
            0 <= a < 0x200_0000,
            0 <= b < 0x200_0000,
    ;
    lemma_product_exact(a, a);
    lemma_product_exact(b, b);
    lemma_sum_exact(0, a * a);
    lemma_sum_exact(a * a, b * b);
    reveal_with_fuel(square_sum, 3);
    law_root_of_square(c);
}

// ---------------------------------------------------------------------------
// Extremes
// ---------------------------------------------------------------------------

/// The largest of no numbers is negative infinity, and the smallest is infinity.
pub proof fn law_extreme_of_none(h: HeapModel, args: Seq<JsValue>)
    ensures
        ({
            let x = extreme(h, args, 0, true);
            is_infinite(x) && is_negative(x)
        }),
        ({
            let x = extreme(h, args, 0, false);
            is_infinite(x) && !is_negative(x)
        }),
{
}

/// The largest of some numbers is one of them and below none; the smallest is one of them
/// and none is below it; one that is not a number decides.
pub proof fn law_extreme(h: HeapModel, args: Seq<JsValue>, k: int, largest: bool)
    requires
        0 < k <= args.len(),
    ensures
        ({
            let x = extreme(h, args, k, largest);
            &&& is_nan(x) <==> exists|i: int|
                0 <= i < k && is_nan(#[trigger] number_of(h, args[i]))
            &&& !is_nan(x) ==> {
                &&& exists|i: int|
                    0 <= i < k && order_key(#[trigger] number_of(h, args[i])) == order_key(x)
                &&& forall|i: int|
                    0 <= i < k ==> if largest {
                        !below(x, #[trigger] number_of(h, args[i]))
                    } else {
                        !below(number_of(h, args[i]), x)
                    }
            }
        }),
    decreases k,
{
    let n = number_of(h, args[k - 1]);
    assert(0 <= k - 1 < k && is_nan(number_of(h, args[k - 1])) == is_nan(n));
    if k > 1 {
        law_extreme(h, args, k - 1, largest);
        let y = extreme(h, args, k - 1, largest);
        if !is_nan(y) {
            let i = choose|i: int|
                0 <= i < k - 1 && order_key(#[trigger] number_of(h, args[i])) == order_key(y);
            assert(0 <= i < k && order_key(number_of(h, args[i])) == order_key(y));
        } else {
            let i = choose|i: int| 0 <= i < k - 1 && is_nan(#[trigger] number_of(h, args[i]));
            assert(0 <= i < k && is_nan(number_of(h, args[i])));
        }
    } else {
        law_extreme_of_none(h, args);
        assert(order_key(n) == order_key(number_of(h, args[0])));
    }
}

/// The hypotenuse is infinite where a side is.
pub proof fn law_has_infinite(h: HeapModel, args: Seq<JsValue>, k: int)
    requires
        0 <= k <= args.len(),
    ensures
        has_infinite(h, args, k) <==> exists|i: int|
            0 <= i < k && is_infinite(#[trigger] number_of(h, args[i])),
    decreases k,
{
    if k > 0 {
        law_has_infinite(h, args, k - 1);
        assert(is_infinite(number_of(h, args[k - 1])) == is_infinite(number_of(h, args[k - 1])));
    }
}

// ---------------------------------------------------------------------------
// Signs and integers
// ---------------------------------------------------------------------------

/// The absolute value is not below zero and equals the number or its negation; that of an
/// integer is the integer without its sign.
pub proof fn law_abs(b: u64, n: i32)
    ensures
        order_key(absolute(b)) >= 0,
        order_key(absolute(b)) == order_key(b) || order_key(absolute(b)) == -order_key(b),
        !is_negative(absolute(b)),
        is_nan(absolute(b)) == is_nan(b),
        absolute(int_double(n as int)) == int_double(
            if n < 0 {
                -n
            } else {
                n as int
            },
        ),
{
    lemma_int_exact(n as int);
    lemma_int_exact(-n);
    if n < 0 {
        lemma_negation_int(n as int);
    }
}

/// The sign of a number above zero is 1, that of one below zero is -1, and zeros and
/// not-a-number are their own.
pub proof fn law_sign(b: u64)
    ensures
        below(int_double(0), b) ==> number_value(sign_of(b)) == JsValue::Smi(1),
        below(b, int_double(0)) ==> number_value(sign_of(b)) == JsValue::Smi((-1) as i32),
        magnitude(b) == 0 || is_nan(b) ==> sign_of(b) == b,
{
    lemma_int_exact(0);
    lemma_int_exact(1);
    lemma_int_exact(-1);
}

/// A number above zero takes as many bits as the power of two above it says.
pub proof fn law_bit_length(n: nat)
    ensures
        bit_length(0) == 0,
        n > 0 ==> bit_length(n) > 0 && pow2((bit_length(n) - 1) as nat) <= n < pow2(bit_length(n)),
    decreases n,
{
    lemma2_to64();
    if n > 0 {
        law_bit_length(n / 2);
        let k = bit_length(n);
        if n / 2 > 0 {
            lemma_pow2_unfold((k - 1) as nat);
            lemma_pow2_unfold(k);
        } else {
            reveal_with_fuel(bit_length, 2);
            assert(n == 1);
            assert(k == 1);
        }
    }
}

/// A wrapped integer lies in the range of 32 bits with a sign, and differs from the
/// integer by a multiple of `2^32`; one in that range stays.
pub proof fn law_wrapped(n: int)
    ensures
        i32::MIN <= wrapped_i32(n) <= i32::MAX,
        (wrapped_i32(n) - n) % 0x1_0000_0000 == 0,
        i32::MIN <= n <= i32::MAX ==> wrapped_i32(n) == n,
{
}

/// A 32-bit integer is read as itself, whatever its sign, and what is not finite as 0.
pub proof fn law_int32(n: i32, b: u64)
    ensures
        int32_of(int_double(n as int)) == n,
        !is_finite(b) ==> int32_of(b) == 0,
{
    lemma_int_exact(n as int);
}

} // verus!
