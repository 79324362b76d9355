//! `Math`: what can be computed on doubles without approximation.
use vstd::arithmetic::power2::*;
use vstd::prelude::*;

use crate::bignat::BigNat;
use crate::convert::{js_number, number_of, number_value};
use crate::ctx::{Ctx, arg, arg_of, gives_value, valid_args};
use crate::double::{
    INFINITY, MIN_EXPONENT, NAN, SIGN, absolute, below, ceiling, decode, exponent, fadd, fceil,
    ffloor, finite, floor, flt, fmul, from_i64, ftrunc, half_even, int_double, is_finite,
    is_infinite, is_nan, is_negative, magnitude, mantissa, nan, product, round_dyadic,
    round_shifted, shift_up, sum, truncation, with_sign, zero,
};
use crate::heap::HeapModel;
use crate::number_format::divide_half_even;
use crate::object_define::{to_uint32, uint32_of};
use crate::value::{JsValue, Throw};

verus! {

/// The first argument as a number.
pub open spec fn first_number(h: HeapModel, args: Seq<JsValue>) -> u64 {
    number_of(h, arg_of(args, 0))
}

/// The first argument as a number.
fn one_arg(ctx: &Ctx, args: &[JsValue]) -> (r: u64)
    requires
        ctx.wf(),
        valid_args(ctx.heap@, args@),
    ensures
        r == first_number(ctx.heap@, args@),
{
    ctx.to_number(arg(args, 0))
}

/// `Math.abs(x)`.
pub fn math_abs(ctx: &mut Ctx, _this: JsValue, args: &[JsValue]) -> (r: Result<JsValue, Throw>)
    requires
        old(ctx).wf(),
        valid_args(old(ctx).heap@, args@),
    ensures
        gives_value(
            *old(ctx),
            *final(ctx),
            r,
            number_value(absolute(first_number(old(ctx).heap@, args@))),
        ),
{
    let b: u64 = one_arg(ctx, args);
    Ok(js_number(b % SIGN))
}

/// `Math.floor(x)`.
pub fn math_floor(ctx: &mut Ctx, _this: JsValue, args: &[JsValue]) -> (r: Result<JsValue, Throw>)
    requires
        old(ctx).wf(),
        valid_args(old(ctx).heap@, args@),
    ensures
        gives_value(
            *old(ctx),
            *final(ctx),
            r,
            number_value(floor(first_number(old(ctx).heap@, args@))),
        ),
{
    let b: u64 = one_arg(ctx, args);
    Ok(js_number(ffloor(b)))
}

/// `Math.ceil(x)`.
pub fn math_ceil(ctx: &mut Ctx, _this: JsValue, args: &[JsValue]) -> (r: Result<JsValue, Throw>)
    requires
        old(ctx).wf(),
        valid_args(old(ctx).heap@, args@),
    ensures
        gives_value(
            *old(ctx),
            *final(ctx),
            r,
            number_value(ceiling(first_number(old(ctx).heap@, args@))),
        ),
{
    let b: u64 = one_arg(ctx, args);
    Ok(js_number(fceil(b)))
}

/// `Math.trunc(x)`.
pub fn math_trunc(ctx: &mut Ctx, _this: JsValue, args: &[JsValue]) -> (r: Result<JsValue, Throw>)
    requires
        old(ctx).wf(),
        valid_args(old(ctx).heap@, args@),
    ensures
        gives_value(
            *old(ctx),
            *final(ctx),
            r,
            number_value(truncation(first_number(old(ctx).heap@, args@))),
        ),
{
    let b: u64 = one_arg(ctx, args);
    Ok(js_number(ftrunc(b)))
}

/// One half.
pub const HALF: u64 = 0x3fe0_0000_0000_0000;

/// Rounding to the nearest whole number, halves up; zeros and what is not finite stay, and
/// what lies from minus one half up to zero is a negative zero.
pub open spec fn rounded(b: u64) -> u64 {
    if !is_finite(b) || magnitude(b) == 0 {
        b
    } else if is_negative(b) && magnitude(b) <= HALF {
        SIGN
    } else {
        floor(sum(b, HALF))
    }
}

/// Rounds to the nearest whole number, halves up.
pub fn round_half_up(b: u64) -> (r: u64)
    ensures
        r == rounded(b),
{
    if !finite(b) || zero(b) {
        b
    } else if b >= SIGN && b - SIGN <= HALF {
        SIGN
    } else {
        ffloor(fadd(b, HALF))
    }
}

/// A rounded number as a value: a negative zero is a double, anything else as usual.
pub open spec fn rounded_value(b: u64) -> JsValue {
    if rounded(b) == SIGN {
        JsValue::Double(SIGN)
    } else {
        number_value(rounded(b))
    }
}

/// `Math.round(x)`.
pub fn math_round(ctx: &mut Ctx, _this: JsValue, args: &[JsValue]) -> (r: Result<JsValue, Throw>)
    requires
        old(ctx).wf(),
        valid_args(old(ctx).heap@, args@),
    ensures
        gives_value(
            *old(ctx),
            *final(ctx),
            r,
            rounded_value(first_number(old(ctx).heap@, args@)),
        ),
{
    let b: u64 = round_half_up(one_arg(ctx, args));
    if b == SIGN {
        return Ok(JsValue::Double(b));
    }
    Ok(js_number(b))
}

// ---------------------------------------------------------------------------
// max and min
// ---------------------------------------------------------------------------

/// Negative infinity.
pub const NEG_INFINITY: u64 = 0xfff0_0000_0000_0000;

/// The largest of the first `k` arguments or the smallest, not-a-number where one of
/// them is.
pub open spec fn extreme(h: HeapModel, args: Seq<JsValue>, k: int, largest: bool) -> u64
    decreases k,
{
    if k <= 0 {
        if largest {
            NEG_INFINITY
        } else {
            INFINITY
        }
    } else {
        let m = extreme(h, args, k - 1, largest);
        let n = number_of(h, args[k - 1]);
        if is_nan(m) || is_nan(n) {
            NAN
        } else if if largest {
            below(m, n)
        } else {
            below(n, m)
        } {
            n
        } else {
            m
        }
    }
}

proof fn lemma_extreme_nan(h: HeapModel, args: Seq<JsValue>, k: int, n: int, largest: bool)
    requires
        0 < k <= n,
        extreme(h, args, k, largest) == NAN,
    ensures
        extreme(h, args, n, largest) == NAN,
    decreases n - k,
{
    if k < n {
        lemma_extreme_nan(h, args, k, n - 1, largest);
    }
}

/// The largest argument or the smallest.
fn find_extreme(ctx: &Ctx, args: &[JsValue], largest: bool) -> (r: u64)
    requires
        ctx.wf(),
        valid_args(ctx.heap@, args@),
    ensures
        r == extreme(ctx.heap@, args@, args@.len() as int, largest),
{
    let mut m: u64 = if largest {
        NEG_INFINITY
    } else {
        INFINITY
    };
    let mut i: usize = 0;
    while i < args.len()
        invariant
            ctx.wf(),
            valid_args(ctx.heap@, args@),
            i <= args@.len(),
            !is_nan(m),
            m == extreme(ctx.heap@, args@, i as int, largest),
        decreases args@.len() - i,
    {
        proof {
            assert(ctx.heap@.valid(args@[i as int]));
        }
        let n: u64 = ctx.to_number(args[i]);
        if nan(n) {
            proof {
                lemma_extreme_nan(ctx.heap@, args@, i + 1, args@.len() as int, largest);
            }
            return NAN;
        }
        let better: bool = if largest {
            flt(m, n)
        } else {
            flt(n, m)
        };
        if better {
            m = n;
        }
        i = i + 1;
    }
    m
}

/// `Math.max(...)`.
pub fn math_max(ctx: &mut Ctx, _this: JsValue, args: &[JsValue]) -> (r: Result<JsValue, Throw>)
    requires
        old(ctx).wf(),
        valid_args(old(ctx).heap@, args@),
    ensures
        gives_value(
            *old(ctx),
            *final(ctx),
            r,
            number_value(extreme(old(ctx).heap@, args@, args@.len() as int, true)),
        ),
{
    let b: u64 = find_extreme(ctx, args, true);
    Ok(js_number(b))
}

/// `Math.min(...)`.
pub fn math_min(ctx: &mut Ctx, _this: JsValue, args: &[JsValue]) -> (r: Result<JsValue, Throw>)
    requires
        old(ctx).wf(),
        valid_args(old(ctx).heap@, args@),
    ensures
        gives_value(
            *old(ctx),
            *final(ctx),
            r,
            number_value(extreme(old(ctx).heap@, args@, args@.len() as int, false)),
        ),
{
    let b: u64 = find_extreme(ctx, args, false);
    Ok(js_number(b))
}

// ---------------------------------------------------------------------------
// Random numbers
// ---------------------------------------------------------------------------

/// `2^-53`.
pub const UNIT: u64 = 0x3ca0_0000_0000_0000;

/// The next state of the generator: three shifts.
pub open spec fn next_state(x: u64) -> u64 {
    let a = x ^ (x << 13);
    let b = a ^ (a >> 7);
    b ^ (b << 17)
}

/// State that the generator starts with.
pub const RNG_SEED: u64 = 0x9e37_79b9_7f4a_7c15;

/// `Math.random()`: the number that a state of the generator gives, from 0 up to 1, and
/// the next state.
pub fn math_random(state: u64) -> (r: (JsValue, u64))
    ensures
        r.1 == next_state(state),
        r.0 == JsValue::Double(product(int_double((next_state(state) >> 11) as int), UNIT)),
{
    let a: u64 = state ^ (state << 13);
    let b: u64 = a ^ (a >> 7);
    let x: u64 = b ^ (b << 17);
    let k: u64 = x >> 11;
    assert(k < 0x20_0000_0000_0000) by (bit_vector)
        requires
            k == x >> 11,
    ;
    (JsValue::Double(fmul(from_i64(k as i64), UNIT)), x)
}

// ---------------------------------------------------------------------------
// Signs and integers
// ---------------------------------------------------------------------------

/// The sign of a number; zeros and not-a-number stay.
pub open spec fn sign_of(b: u64) -> u64 {
    if is_nan(b) || magnitude(b) == 0 {
        b
    } else if is_negative(b) {
        int_double(-1)
    } else {
        int_double(1)
    }
}

/// `Math.sign(x)`.
pub fn math_sign(ctx: &mut Ctx, _this: JsValue, args: &[JsValue]) -> (r: Result<JsValue, Throw>)
    requires
        old(ctx).wf(),
        valid_args(old(ctx).heap@, args@),
    ensures
        gives_value(
            *old(ctx),
            *final(ctx),
            r,
            number_value(sign_of(first_number(old(ctx).heap@, args@))),
        ),
{
    let b: u64 = one_arg(ctx, args);
    let s: u64 = if nan(b) || zero(b) {
        b
    } else if b >= SIGN {
        from_i64(-1)
    } else {
        from_i64(1)
    };
    Ok(js_number(s))
}

/// How many bits a number takes.
pub open spec fn bit_length(n: nat) -> nat
    decreases n,
{
    if n == 0 {
        0
    } else {
        bit_length(n / 2) + 1
    }
}

/// `Math.clz32(x)`: leading zeros of the number as an unsigned 32-bit integer.
pub fn math_clz32(ctx: &mut Ctx, _this: JsValue, args: &[JsValue]) -> (r: Result<JsValue, Throw>)
    requires
        old(ctx).wf(),
        valid_args(old(ctx).heap@, args@),
    ensures
        gives_value(
            *old(ctx),
            *final(ctx),
            r,
            JsValue::Smi(
                (32 - bit_length(uint32_of(first_number(old(ctx).heap@, args@)) as nat)) as i32,
            ),
        ),
{
    let b: u64 = one_arg(ctx, args);
    let n: u32 = to_uint32(b);
    let mut x: u32 = n;
    let mut used: i32 = 0;
    proof {
        reveal_with_fuel(pow2, 1);
        lemma2_to64();
        assert(x * pow2(0) == x) by (nonlinear_arith)
            requires
                pow2(0) == 1,
        ;
    }
    while x > 0
        invariant
            0 <= used <= 32,
            used < 32 || x == 0,
            bit_length(n as nat) == bit_length(x as nat) + used,
            x * pow2(used as nat) <= n,
            pow2(32) == 0x1_0000_0000,
        decreases x,
    {
        proof {
            lemma_pow2_unfold((used + 1) as nat);
            let p = pow2(used as nat);
            assert((x / 2) * (2 * p) <= x * p) by (nonlinear_arith)
                requires
                    2 * (x / 2) <= x,
                    p >= 0,
            ;
            if used + 1 == 32 && x / 2 > 0 {
                assert((x / 2) * (2 * p) >= 2 * p) by (nonlinear_arith)
                    requires
                        x / 2 >= 1,
                        p >= 0,
                ;
            }
        }
        x = x / 2;
        used = used + 1;
    }
    Ok(JsValue::Smi(32 - used))
}

/// A whole number wrapped into 32 bits with a sign.
pub open spec fn wrapped_i32(n: int) -> int {
    let m = n % 0x1_0000_0000;
    if m >= 0x8000_0000 {
        m - 0x1_0000_0000
    } else {
        m
    }
}

/// `ToInt32`: the integer part wrapped into 32 bits with a sign, 0 where it has none.
pub open spec fn int32_of(b: u64) -> int {
    wrapped_i32(uint32_of(b))
}

/// `Math.imul(x, y)`: the product of two 32-bit integers, wrapped.
pub fn math_imul(ctx: &mut Ctx, _this: JsValue, args: &[JsValue]) -> (r: Result<JsValue, Throw>)
    requires
        old(ctx).wf(),
        valid_args(old(ctx).heap@, args@),
    ensures
        gives_value(
            *old(ctx),
            *final(ctx),
            r,
            JsValue::Smi(
                wrapped_i32(
                    int32_of(first_number(old(ctx).heap@, args@)) * int32_of(
                        number_of(old(ctx).heap@, arg_of(args@, 1)),
                    ),
                ) as i32,
            ),
        ),
{
    let a: i64 = to_int32(one_arg(ctx, args));
    let b: i64 = to_int32(ctx.to_number(arg(args, 1)));
    assert(-0x4000_0000_0000_0000 <= a * b <= 0x4000_0000_0000_0000) by (nonlinear_arith)
        requires
            -0x8000_0000 <= a <= 0x7fff_ffff,
            -0x8000_0000 <= b <= 0x7fff_ffff,
    ;
    let p: i64 = a * b;
    let m: i64 = crate::calendar::floor_mod(p, 0x1_0000_0000);
    let n: i64 = if m >= 0x8000_0000 {
        m - 0x1_0000_0000
    } else {
        m
    };
    Ok(JsValue::Smi(n as i32))
}

/// A number as a 32-bit integer with a sign.
fn to_int32(b: u64) -> (r: i64)
    ensures
        r == int32_of(b),
        -0x8000_0000 <= r <= 0x7fff_ffff,
{
    let n: i64 = to_uint32(b) as i64;
    if n >= 0x8000_0000 {
        n - 0x1_0000_0000
    } else {
        n
    }
}

// ---------------------------------------------------------------------------
// Single precision
// ---------------------------------------------------------------------------

/// Exponent of the last bit that a number keeps in single precision.
pub open spec fn single_exponent(b: u64) -> int {
    if exponent(b) + 29 > -149 {
        exponent(b) + 29
    } else {
        -149
    }
}

/// The nearest number in single precision, as a double.
pub open spec fn single(b: u64) -> u64 {
    if !is_finite(b) {
        b
    } else {
        let q = single_exponent(b);
        let n = half_even(mantissa(b), pow2((q - exponent(b)) as nat));
        with_sign(
            is_negative(b),
            if q > 104 || (q == 104 && n >= 0x100_0000) {
                INFINITY as int
            } else {
                round_dyadic(n, q)
            },
        )
    }
}

/// `Math.fround(x)`.
pub fn math_fround(ctx: &mut Ctx, _this: JsValue, args: &[JsValue]) -> (r: Result<JsValue, Throw>)
    requires
        old(ctx).wf(),
        valid_args(old(ctx).heap@, args@),
    ensures
        gives_value(
            *old(ctx),
            *final(ctx),
            r,
            number_value(single(first_number(old(ctx).heap@, args@))),
        ),
{
    let b: u64 = one_arg(ctx, args);
    Ok(js_number(to_single(b)))
}

/// The nearest number in single precision, as a double.
pub fn to_single(b: u64) -> (r: u64)
    ensures
        r == single(b),
{
    if !finite(b) {
        return b;
    }
    let (negative, m, e) = decode(b);
    let q: i64 = if e + 29 > -149 {
        e + 29
    } else {
        -149
    };
    let mut den: BigNat = BigNat::from_u64(1);
    shift_up(&mut den, (q - e) as u64);
    proof {
        let p = pow2((q - e) as nat);
        lemma_pow2_pos((q - e) as nat);
        assert(1 * p == p) by (nonlinear_arith);
    }
    let n: BigNat = divide_half_even(&BigNat::from_u64(m), &den);
    let mag: u64 = if q > 104 || (q == 104 && !n.less(&BigNat::from_u64(0x100_0000))) {
        INFINITY
    } else {
        round_shifted(n, q)
    };
    if negative {
        mag + SIGN
    } else {
        mag
    }
}

// ---------------------------------------------------------------------------
// Square roots
// ---------------------------------------------------------------------------

/// Whether `s` is the whole part of the square root of `n`.
pub open spec fn is_floor_root(n: nat, s: nat) -> bool {
    s * s <= n && n < (s + 1) * (s + 1)
}

/// The whole part of the square root.
pub open spec fn floor_root(n: nat) -> nat {
    choose|s: nat| is_floor_root(n, s)
}

/// The whole number nearest to the square root.
pub open spec fn nearest_root(n: nat) -> nat {
    let s = floor_root(n);
    if n > s * s + s {
        s + 1
    } else {
        s
    }
}

/// A significand and its exponent, doubled until it takes 53 bits.
pub open spec fn full_width(m: nat, e: int) -> (nat, int)
    decreases 0x20_0000_0000_0000 - m,
{
    if m == 0 || m >= 0x10_0000_0000_0000 {
        (m, e)
    } else {
        full_width(2 * m, e - 1)
    }
}

/// The square root of a number, rounded to the nearest double; not-a-number of what is
/// below zero.
pub open spec fn root(b: u64) -> u64 {
    if is_nan(b) || magnitude(b) == 0 || b == INFINITY {
        b
    } else if is_negative(b) {
        NAN
    } else {
        let (m, e) = full_width(mantissa(b), exponent(b));
        let k: int = if e % 2 == 0 {
            52
        } else {
            53
        };
        ((((e - k) / 2) - MIN_EXPONENT) * 0x10_0000_0000_0000 + nearest_root(m * pow2(k as nat))) as u64
    }
}

/// A number has one whole part of its square root.
pub proof fn lemma_floor_root_unique(n: nat, a: nat, b: nat)
    requires
        is_floor_root(n, a),
        is_floor_root(n, b),
    ensures
        a == b,
{
    if a < b {
        assert((a + 1) * (a + 1) <= b * b) by (nonlinear_arith)
            requires
                a + 1 <= b,
        ;
    } else if b < a {
        assert((b + 1) * (b + 1) <= a * a) by (nonlinear_arith)
            requires
                b + 1 <= a,
        ;
    }
}

/// The whole part of the square root of a number below `2^106`.
fn integer_root(n: u128) -> (r: u64)
    requires
        n < 0x400_0000_0000_0000_0000_0000_0000,
    ensures
        r == floor_root(n as nat),
        is_floor_root(n as nat, r as nat),
        r < 0x20_0000_0000_0000,
{
    let mut r: u64 = 0;
    let mut bit: u64 = 0x20_0000_0000_0000;
    proof {
        lemma2_to64_rest();
        assert(bit == pow2(53));
    }
    while bit > 1
        invariant
            1 <= bit <= 0x20_0000_0000_0000,
            r + bit <= 0x20_0000_0000_0000,
            r * r <= n,
            n < (r + bit) * (r + bit),
            bit > 1 ==> bit % 2 == 0,
            exists|k: nat| k <= 53 && bit == pow2(k),
        decreases bit,
    {
        proof {
            let k = choose|k: nat| k <= 53 && bit == pow2(k);
            lemma2_to64();
            lemma_pow2_unfold(k);
            assert(bit / 2 == pow2((k - 1) as nat));
            if k >= 2 {
                lemma_pow2_unfold((k - 1) as nat);
            }
        }
        let half: u64 = bit / 2;
        let t: u64 = r + half;
        assert(t * t <= 0x400_0000_0000_0000_0000_0000_0000) by (nonlinear_arith)
            requires
                t <= 0x20_0000_0000_0000,
        ;
        if t as u128 * t as u128 <= n {
            r = t;
        }
        proof {
            assert(bit == 2 * half);
        }
        bit = half;
    }
    proof {
        lemma_floor_root_unique(n as nat, r as nat, floor_root(n as nat));
    }
    r
}

/// A significand and its exponent, doubled until it takes 53 bits.
fn widen(m: u64, e: i64) -> (r: (u64, i64))
    requires
        0 < m < 0x20_0000_0000_0000,
        -1074 <= e <= 971,
    ensures
        (r.0 as nat, r.1 as int) == full_width(m as nat, e as int),
        0x10_0000_0000_0000 <= r.0 < 0x20_0000_0000_0000,
        -1130 < r.1 <= 971,
{
    let mut x: u64 = m;
    let mut q: i64 = e;
    let mut steps: i64 = 0;
    proof {
        lemma2_to64();
        lemma2_to64_rest();
        assert(m * pow2(0) == m) by (nonlinear_arith)
            requires
                pow2(0) == 1,
        ;
    }
    while x < 0x10_0000_0000_0000
        invariant
            0 < m <= x < 0x20_0000_0000_0000,
            -1074 <= e <= 971,
            q == e - steps,
            0 <= steps <= 52,
            x == m * pow2(steps as nat),
            pow2(52) == 0x10_0000_0000_0000,
            full_width(m as nat, e as int) == full_width(x as nat, q as int),
        decreases 0x20_0000_0000_0000 - x,
    {
        proof {
            lemma_pow2_unfold((steps + 1) as nat);
            let p = pow2(steps as nat);
            assert(m * (2 * p) == 2 * (m * p)) by (nonlinear_arith);
            if steps == 52 {
                assert(m * p >= p) by (nonlinear_arith)
                    requires
                        m >= 1,
                        p >= 0,
                ;
            }
        }
        x = 2 * x;
        q = q - 1;
        steps = steps + 1;
    }
    (x, q)
}

/// The square root of a number.
pub fn square_root(b: u64) -> (r: u64)
    ensures
        r == root(b),
{
    if nan(b) || zero(b) || b == INFINITY {
        return b;
    }
    if b >= SIGN {
        return NAN;
    }
    let (_, m0, e0) = decode(b);
    let (m, e) = widen(m0, e0);
    let odd: bool = e % 2 != 0;
    let k: i64 = if odd {
        53
    } else {
        52
    };
    let p: u128 = if odd {
        0x20_0000_0000_0000
    } else {
        0x10_0000_0000_0000
    };
    proof {
        lemma2_to64();
        lemma2_to64_rest();
        assert(p == pow2(k as nat));
        assert(m * p < 0x400_0000_0000_0000_0000_0000_0000) by (nonlinear_arith)
            requires
                m < 0x20_0000_0000_0000,
                p <= 0x20_0000_0000_0000,
        ;
    }
    let n: u128 = m as u128 * p;
    let s: u64 = integer_root(n);
    assert(s * s + s <= 0x800_0000_0000_0000_0000_0000_0000) by (nonlinear_arith)
        requires
            s <= 0x20_0000_0000_0000,
    ;
    let nearest: u64 = if n > s as u128 * s as u128 + s as u128 {
        s + 1
    } else {
        s
    };
    let q: i64 = (e - k) / 2 + 1074;
    proof {
        assert((e - k) % 2 == 0);
        assert(q == (e as int - k as int) / 2 + 1074);
    }
    q as u64 * 0x10_0000_0000_0000 + nearest
}

/// `Math.sqrt(x)`.
pub fn math_sqrt(ctx: &mut Ctx, _this: JsValue, args: &[JsValue]) -> (r: Result<JsValue, Throw>)
    requires
        old(ctx).wf(),
        valid_args(old(ctx).heap@, args@),
    ensures
        gives_value(
            *old(ctx),
            *final(ctx),
            r,
            number_value(root(first_number(old(ctx).heap@, args@))),
        ),
{
    let b: u64 = one_arg(ctx, args);
    Ok(js_number(square_root(b)))
}

/// The sum of the squares of the first `k` arguments.
pub open spec fn square_sum(h: HeapModel, args: Seq<JsValue>, k: int) -> u64
    decreases k,
{
    if k <= 0 {
        int_double(0)
    } else {
        let n = number_of(h, args[k - 1]);
        sum(square_sum(h, args, k - 1), product(n, n))
    }
}

/// Whether one of the first `k` arguments is infinite.
pub open spec fn has_infinite(h: HeapModel, args: Seq<JsValue>, k: int) -> bool
    decreases k,
{
    k > 0 && (is_infinite(number_of(h, args[k - 1])) || has_infinite(h, args, k - 1))
}

proof fn lemma_has_infinite(h: HeapModel, args: Seq<JsValue>, k: int, n: int)
    requires
        0 < k <= n,
        is_infinite(number_of(h, args[k - 1])),
    ensures
        has_infinite(h, args, n),
    decreases n - k,
{
    if k < n {
        lemma_has_infinite(h, args, k, n - 1);
    }
}

/// `Math.hypot(...)`: infinite where an argument is.
pub fn math_hypot(ctx: &mut Ctx, _this: JsValue, args: &[JsValue]) -> (r: Result<JsValue, Throw>)
    requires
        old(ctx).wf(),
        valid_args(old(ctx).heap@, args@),
    ensures
        gives_value(
            *old(ctx),
            *final(ctx),
            r,
            if has_infinite(old(ctx).heap@, args@, args@.len() as int) {
                JsValue::Double(INFINITY)
            } else {
                number_value(root(square_sum(old(ctx).heap@, args@, args@.len() as int)))
            },
        ),
{
    let mut total: u64 = from_i64(0);
    let mut i: usize = 0;
    while i < args.len()
        invariant
            ctx.wf(),
            *ctx == *old(ctx),
            valid_args(ctx.heap@, args@),
            i <= args@.len(),
            total == square_sum(ctx.heap@, args@, i as int),
            !has_infinite(ctx.heap@, args@, i as int),
        decreases args@.len() - i,
    {
        proof {
            assert(ctx.heap@.valid(args@[i as int]));
        }
        let n: u64 = ctx.to_number(args[i]);
        if !finite(n) && !nan(n) {
            proof {
                lemma_has_infinite(ctx.heap@, args@, i + 1, args@.len() as int);
            }
            return Ok(JsValue::Double(INFINITY));
        }
        total = fadd(total, fmul(n, n));
        i = i + 1;
    }
    Ok(js_number(square_root(total)))
}

/// `Math.E`: Euler's number.
pub fn math_const_e(ctx: &mut Ctx, _this: JsValue, _args: &[JsValue]) -> (r: Result<
    JsValue,
    Throw,
>)
    ensures
        gives_value(*old(ctx), *final(ctx), r, JsValue::Double(0x4005_bf0a_8b14_5769)),
{
    Ok(JsValue::Double(0x4005_bf0a_8b14_5769))
}

/// `Math.LN2`: the natural logarithm of 2.
pub fn math_const_ln2(ctx: &mut Ctx, _this: JsValue, _args: &[JsValue]) -> (r: Result<
    JsValue,
    Throw,
>)
    ensures
        gives_value(*old(ctx), *final(ctx), r, JsValue::Double(0x3fe6_2e42_fefa_39ef)),
{
    Ok(JsValue::Double(0x3fe6_2e42_fefa_39ef))
}

/// `Math.LN10`: the natural logarithm of 10.
pub fn math_const_ln10(ctx: &mut Ctx, _this: JsValue, _args: &[JsValue]) -> (r: Result<
    JsValue,
    Throw,
>)
    ensures
        gives_value(*old(ctx), *final(ctx), r, JsValue::Double(0x4002_6bb1_bbb5_5516)),
{
    Ok(JsValue::Double(0x4002_6bb1_bbb5_5516))
}

/// `Math.LOG2E`: the logarithm of e to base 2.
pub fn math_const_log2e(ctx: &mut Ctx, _this: JsValue, _args: &[JsValue]) -> (r: Result<
    JsValue,
    Throw,
>)
    ensures
        gives_value(*old(ctx), *final(ctx), r, JsValue::Double(0x3ff7_1547_652b_82fe)),
{
    Ok(JsValue::Double(0x3ff7_1547_652b_82fe))
}

/// `Math.LOG10E`: the logarithm of e to base 10.
pub fn math_const_log10e(ctx: &mut Ctx, _this: JsValue, _args: &[JsValue]) -> (r: Result<
    JsValue,
    Throw,
>)
    ensures
        gives_value(*old(ctx), *final(ctx), r, JsValue::Double(0x3fdb_cb7b_1526_e50e)),
{
    Ok(JsValue::Double(0x3fdb_cb7b_1526_e50e))
}

/// `Math.PI`: the ratio of a circle's circumference to its diameter.
pub fn math_const_pi(ctx: &mut Ctx, _this: JsValue, _args: &[JsValue]) -> (r: Result<
    JsValue,
    Throw,
>)
    ensures
        gives_value(*old(ctx), *final(ctx), r, JsValue::Double(0x4009_21fb_5444_2d18)),
{
    Ok(JsValue::Double(0x4009_21fb_5444_2d18))
}

/// `Math.SQRT1_2`: the square root of one half.
pub fn math_const_sqrt1_2(ctx: &mut Ctx, _this: JsValue, _args: &[JsValue]) -> (r: Result<
    JsValue,
    Throw,
>)
    ensures
        gives_value(*old(ctx), *final(ctx), r, JsValue::Double(0x3fe6_a09e_667f_3bcd)),
{
    Ok(JsValue::Double(0x3fe6_a09e_667f_3bcd))
}

/// `Math.SQRT2`: the square root of 2.
pub fn math_const_sqrt2(ctx: &mut Ctx, _this: JsValue, _args: &[JsValue]) -> (r: Result<
    JsValue,
    Throw,
>)
    ensures
        gives_value(*old(ctx), *final(ctx), r, JsValue::Double(0x3ff6_a09e_667f_3bcd)),
{
    Ok(JsValue::Double(0x3ff6_a09e_667f_3bcd))
}

} // verus!
