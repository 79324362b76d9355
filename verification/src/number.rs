//! `Number` and the global number functions.
use vstd::prelude::*;

use crate::convert::{
    as_number, error, error3, is_error, js_number, number_of, number_value, text_of,
    value_number,
};
use crate::ctx::{Ctx, arg, arg_of, gives_error, gives_text, gives_value, valid_args};
use crate::decimal::{digits_end, parse_double, skip_digits, text_double};
use crate::double::{
    INFINITY, NAN, SIGN, absolute, below, fadd, finite, flt, fmul, from_i64, int_double,
    integral, is_finite, is_integral, is_nan, magnitude, nan, product, saturated, sum, to_i64,
    trunc_int,
};
use crate::heap::HeapModel;
use crate::number_format::{
    exponential_text, fixed, fixed_text, format_scientific, number_string, number_to_string,
    precision, precision_text, shortest_exponential, special, special_text,
};
use crate::radix::{in_radix, radix_text};
use crate::text::{copy_range, skip_spaces, spaces_end, trim, trimmed};
use crate::value::{JsValue, Throw};

verus! {

/// `Number.isNaN(value)`: true of not-a-number only, without conversion.
pub fn number_is_nan(ctx: &mut Ctx, _this: JsValue, args: &[JsValue]) -> (r: Result<JsValue, Throw>)
    ensures
        gives_value(
            *old(ctx),
            *final(ctx),
            r,
            JsValue::Bool(arg_of(args@, 0) is Double && is_nan(arg_of(args@, 0)->Double_0)),
        ),
{
    Ok(
        JsValue::Bool(
            match arg(args, 0) {
                JsValue::Double(b) => nan(b),
                _ => false,
            },
        ),
    )
}

/// Whether a value is a number that is finite.
pub open spec fn finite_number(v: JsValue) -> bool {
    v is Smi || (v is Double && is_finite(v->Double_0))
}

/// `Number.isFinite(value)`: true of finite numbers only, without conversion.
pub fn number_is_finite(ctx: &mut Ctx, _this: JsValue, args: &[JsValue]) -> (r: Result<
    JsValue,
    Throw,
>)
    ensures
        gives_value(*old(ctx), *final(ctx), r, JsValue::Bool(finite_number(arg_of(args@, 0)))),
{
    Ok(
        JsValue::Bool(
            match arg(args, 0) {
                JsValue::Smi(_) => true,
                JsValue::Double(b) => finite(b),
                _ => false,
            },
        ),
    )
}

/// Global `isNaN(value)`: converts to a number first.
pub fn global_is_nan(ctx: &mut Ctx, _this: JsValue, args: &[JsValue]) -> (r: Result<JsValue, Throw>)
    requires
        old(ctx).wf(),
        valid_args(old(ctx).heap@, args@),
    ensures
        gives_value(
            *old(ctx),
            *final(ctx),
            r,
            JsValue::Bool(is_nan(number_of(old(ctx).heap@, arg_of(args@, 0)))),
        ),
{
    let n: u64 = ctx.to_number(arg(args, 0));
    Ok(JsValue::Bool(nan(n)))
}

/// Global `isFinite(value)`: converts to a number first.
pub fn global_is_finite(ctx: &mut Ctx, _this: JsValue, args: &[JsValue]) -> (r: Result<
    JsValue,
    Throw,
>)
    requires
        old(ctx).wf(),
        valid_args(old(ctx).heap@, args@),
    ensures
        gives_value(
            *old(ctx),
            *final(ctx),
            r,
            JsValue::Bool(is_finite(number_of(old(ctx).heap@, arg_of(args@, 0)))),
        ),
{
    let n: u64 = ctx.to_number(arg(args, 0));
    Ok(JsValue::Bool(finite(n)))
}

// ---------------------------------------------------------------------------
// parseInt
// ---------------------------------------------------------------------------

/// Value of a digit in radices up to 36, `-1` of anything else.
pub open spec fn any_digit(u: u16) -> int {
    if 0x30 <= u <= 0x39 {
        u - 0x30
    } else if 0x41 <= u <= 0x5a {
        u - 0x37
    } else if 0x61 <= u <= 0x7a {
        u - 0x57
    } else {
        -1
    }
}

/// Index of the first unit from `i` on that is no digit of the radix.
pub open spec fn radix_end(s: Seq<u16>, i: int, radix: int) -> int
    decreases s.len() - i,
{
    if 0 <= i < s.len() && 0 <= any_digit(s[i]) < radix {
        radix_end(s, i + 1, radix)
    } else {
        i
    }
}

/// The number that the digits `s[i..j]` spell, rounded digit by digit.
pub open spec fn scanned(s: Seq<u16>, i: int, j: int, radix: int) -> u64
    decreases j - i,
{
    if j <= i {
        int_double(0)
    } else {
        sum(
            product(scanned(s, i, j - 1, radix), int_double(radix)),
            int_double(any_digit(s[j - 1])),
        )
    }
}

/// The number that the digits from `i` on spell, not-a-number without any.
pub open spec fn scanned_int(s: Seq<u16>, i: int, radix: int, sign: u64) -> u64 {
    let j = radix_end(s, i, radix);
    if j == i {
        NAN
    } else {
        product(sign, scanned(s, i, j, radix))
    }
}

/// Value of a digit in radices up to 36, 99 of anything else.
fn digit_value(u: u16) -> (r: u16)
    ensures
        any_digit(u) >= 0 ==> r == any_digit(u) && r < 36,
        any_digit(u) < 0 ==> r == 99,
{
    if 0x30 <= u && u <= 0x39 {
        u - 0x30
    } else if 0x41 <= u && u <= 0x5a {
        u - 0x37
    } else if 0x61 <= u && u <= 0x7a {
        u - 0x57
    } else {
        99
    }
}

/// The number that the digits from `i` on spell, not-a-number without any.
fn scan_int_digits(s: &[u16], i: usize, radix: u16, sign: u64) -> (r: u64)
    requires
        i <= s@.len(),
        2 <= radix <= 36,
    ensures
        r == scanned_int(s@, i as int, radix as int, sign),
{
    let n: usize = s.len();
    let mut j: usize = i;
    let mut value: u64 = from_i64(0);
    while j < n && digit_value(s[j]) < radix
        invariant
            n == s@.len(),
            i <= j <= n,
            radix <= 36,
            radix_end(s@, i as int, radix as int) == radix_end(s@, j as int, radix as int),
            value == scanned(s@, i as int, j as int, radix as int),
        decreases n - j,
    {
        let d: u16 = digit_value(s[j]);
        value = fadd(fmul(value, from_i64(radix as i64)), from_i64(d as i64));
        j = j + 1;
    }
    if j == i {
        return NAN;
    }
    fmul(sign, value)
}

/// A number as a 32-bit integer: cut, and held within the range.
pub open spec fn clamped_i32(b: u64) -> int {
    if saturated(b) > i32::MAX {
        i32::MAX as int
    } else if saturated(b) < i32::MIN {
        i32::MIN as int
    } else {
        saturated(b)
    }
}

/// Whether a text starts with `0x` at `i`.
pub open spec fn hex_prefix(s: Seq<u16>, i: int) -> bool {
    i + 2 <= s.len() && s[i] == 0x30 && (s[i + 1] == 0x78 || s[i + 1] == 0x58)
}

/// What `parseInt` makes of a text: white space, a sign, `0x` where no radix is given,
/// then digits as far as they go.
pub open spec fn parsed_int(text: Seq<u16>, radix: int) -> u64 {
    let s = trimmed(text);
    let signed = s.len() > 0 && (s[0] == 0x2d || s[0] == 0x2b);
    let sign = if s.len() > 0 && s[0] == 0x2d {
        int_double(-1)
    } else {
        int_double(1)
    };
    let i = if signed {
        1int
    } else {
        0
    };
    if radix == 0 {
        if hex_prefix(s, i) {
            scanned_int(s, i + 2, 16, sign)
        } else {
            scanned_int(s, i, 10, sign)
        }
    } else if 2 <= radix <= 36 {
        scanned_int(s, i, radix, sign)
    } else {
        NAN
    }
}

/// The text of the first argument, the empty text without one.
pub open spec fn first_text(h: HeapModel, args: Seq<JsValue>) -> Seq<u16> {
    if args.len() == 0 {
        seq![]
    } else {
        text_of(h, args[0])
    }
}

/// The text of the first argument, the empty text without one.
fn first_arg_text(ctx: &Ctx, args: &[JsValue]) -> (r: Vec<u16>)
    requires
        ctx.wf(),
        valid_args(ctx.heap@, args@),
    ensures
        r@ == first_text(ctx.heap@, args@),
{
    if args.len() == 0 {
        let r: Vec<u16> = Vec::new();
        proof {
            assert(r@ =~= Seq::<u16>::empty());
        }
        r
    } else {
        ctx.to_string(args[0])
    }
}

/// `parseInt(string, radix)`.
pub fn global_parse_int(ctx: &mut Ctx, _this: JsValue, args: &[JsValue]) -> (r: Result<
    JsValue,
    Throw,
>)
    requires
        old(ctx).wf(),
        valid_args(old(ctx).heap@, args@),
    ensures
        gives_value(
            *old(ctx),
            *final(ctx),
            r,
            number_value(
                parsed_int(
                    first_text(old(ctx).heap@, args@),
                    if args@.len() < 2 {
                        0
                    } else {
                        clamped_i32(number_of(old(ctx).heap@, args@[1]))
                    },
                ),
            ),
        ),
{
    let radix: i64 = if args.len() < 2 {
        0
    } else {
        let n: i64 = to_i64(ctx.to_number(args[1]));
        if n > 0x7fff_ffff {
            0x7fff_ffff
        } else if n < -0x8000_0000 {
            -0x8000_0000
        } else {
            n
        }
    };
    let text: Vec<u16> = first_arg_text(ctx, args);
    let t: Vec<u16> = trim(text.as_slice());
    let s: &[u16] = t.as_slice();
    let signed: bool = s.len() > 0 && (s[0] == 0x2d || s[0] == 0x2b);
    let sign: u64 = if s.len() > 0 && s[0] == 0x2d {
        from_i64(-1)
    } else {
        from_i64(1)
    };
    let i: usize = if signed {
        1
    } else {
        0
    };
    let b: u64 = if radix == 0 {
        if s.len() - i >= 2 && s[i] == 0x30 && (s[i + 1] == 0x78 || s[i + 1] == 0x58) {
            scan_int_digits(s, i + 2, 16, sign)
        } else {
            scan_int_digits(s, i, 10, sign)
        }
    } else if 2 <= radix && radix <= 36 {
        scan_int_digits(s, i, radix as u16, sign)
    } else {
        NAN
    };
    proof {
        assert(b == parsed_int(text@, radix as int));
    }
    Ok(js_number(b))
}

// ---------------------------------------------------------------------------
// parseFloat
// ---------------------------------------------------------------------------

/// Index behind the decimal literal at the front of a text; 0 without a digit or a
/// point behind the sign.
pub open spec fn float_end(s: Seq<u16>) -> int {
    let a = if s.len() > 0 && (s[0] == 0x2d || s[0] == 0x2b) {
        1int
    } else {
        0
    };
    let b = digits_end(s, a);
    let c = if b < s.len() && s[b] == 0x2e {
        digits_end(s, b + 1)
    } else {
        b
    };
    if c == a {
        0
    } else if c < s.len() && (s[c] == 0x65 || s[c] == 0x45) {
        let d = if c + 1 < s.len() && (s[c + 1] == 0x2d || s[c + 1] == 0x2b) {
            c + 2
        } else {
            c + 1
        };
        if digits_end(s, d) == d {
            c
        } else {
            digits_end(s, d)
        }
    } else {
        c
    }
}

/// What `parseFloat` makes of a text: white space, then a decimal literal as far as it
/// goes, an exponent without digits left out.
pub open spec fn parsed_float(text: Seq<u16>) -> u64 {
    let s = text.skip(spaces_end(text, 0));
    match text_double(s.take(float_end(s))) {
        Some(b) => if float_end(s) == 0 {
            NAN
        } else {
            b
        },
        None => NAN,
    }
}

/// Index behind the decimal literal at the front of a text.
fn float_prefix(s: &[u16]) -> (r: usize)
    ensures
        r == float_end(s@),
        r <= s@.len(),
{
    let n: usize = s.len();
    let a: usize = if n > 0 && (s[0] == 0x2d || s[0] == 0x2b) {
        1
    } else {
        0
    };
    let b: usize = skip_digits(s, a);
    let c: usize = if b < n && s[b] == 0x2e {
        skip_digits(s, b + 1)
    } else {
        b
    };
    if c == a {
        return 0;
    }
    if c < n && (s[c] == 0x65 || s[c] == 0x45) {
        let d: usize = if c + 1 < n && (s[c + 1] == 0x2d || s[c + 1] == 0x2b) {
            c + 2
        } else {
            c + 1
        };
        let e: usize = skip_digits(s, d);
        if e == d {
            return c;
        }
        return e;
    }
    c
}

/// `parseFloat(string)`: a double, never a small integer.
pub fn global_parse_float(ctx: &mut Ctx, _this: JsValue, args: &[JsValue]) -> (r: Result<
    JsValue,
    Throw,
>)
    requires
        old(ctx).wf(),
        valid_args(old(ctx).heap@, args@),
    ensures
        gives_value(
            *old(ctx),
            *final(ctx),
            r,
            JsValue::Double(parsed_float(first_text(old(ctx).heap@, args@))),
        ),
{
    let text: Vec<u16> = first_arg_text(ctx, args);
    let at: usize = skip_spaces(text.as_slice(), 0);
    let rest: Vec<u16> = copy_range(text.as_slice(), at, text.len());
    proof {
        assert(rest@ =~= text@.skip(at as int));
    }
    let end: usize = float_prefix(rest.as_slice());
    if end == 0 {
        return Ok(JsValue::Double(NAN));
    }
    let consumed: Vec<u16> = copy_range(rest.as_slice(), 0, end);
    proof {
        assert(consumed@ =~= rest@.take(end as int));
    }
    match parse_double(consumed.as_slice()) {
        Some(b) => Ok(JsValue::Double(b)),
        None => Ok(JsValue::Double(NAN)),
    }
}

/// `Number(value)`: the value as a number, zero without one.
pub fn number_construct(ctx: &mut Ctx, _this: JsValue, args: &[JsValue]) -> (r: Result<
    JsValue,
    Throw,
>)
    requires
        old(ctx).wf(),
        valid_args(old(ctx).heap@, args@),
    ensures
        gives_value(
            *old(ctx),
            *final(ctx),
            r,
            if args@.len() == 0 {
                number_value(int_double(0))
            } else {
                number_value(number_of(old(ctx).heap@, args@[0]))
            },
        ),
{
    if args.len() == 0 {
        return Ok(js_number(from_i64(0)));
    }
    let n: u64 = ctx.to_number(args[0]);
    Ok(js_number(n))
}

// ---------------------------------------------------------------------------
// Methods of numbers
// ---------------------------------------------------------------------------

/// Text of the error of a method that is called on something else than a number.
pub open spec fn not_a_number_error(method: Seq<char>) -> Seq<char> {
    "TypeError: Number.prototype."@ + method + " requires that 'this' be a Number"@
}

/// The number that a receiver is.
fn this_number(this: JsValue, method: &str) -> (r: Result<u64, Throw>)
    ensures
        match as_number(this) {
            Some(b) => r == Ok::<u64, Throw>(b),
            None => r is Err && is_error(r->Err_0, not_a_number_error(method@)),
        },
{
    match value_number(this) {
        Some(b) => Ok(b),
        None => Err(
            error3("TypeError: Number.prototype.", method, " requires that 'this' be a Number"),
        ),
    }
}

/// Whether `lo <= b <= hi`.
pub open spec fn between(b: u64, lo: int, hi: int) -> bool {
    !is_nan(b) && !below(b, int_double(lo)) && !below(int_double(hi), b)
}

/// Whether `lo <= b <= hi`.
fn in_range(b: u64, lo: i64, hi: i64) -> (r: bool)
    requires
        0 <= lo <= hi <= 1000,
    ensures
        r == between(b, lo as int, hi as int),
        r ==> is_finite(b) && lo <= saturated(b) <= hi,
{
    let r: bool = !nan(b) && !flt(b, from_i64(lo)) && !flt(from_i64(hi), b);
    proof {
        if r {
            crate::double::lemma_int_exact(lo as int);
            crate::double::lemma_int_exact(hi as int);
            assert(magnitude(b) <= magnitude(int_double(hi as int))) by {
                if crate::double::is_negative(b) {
                    assert(magnitude(b) == 0);
                }
            }
            crate::double::lemma_magnitude_bound(b, hi as int);
            lemma_at_least(b, lo as int);
        }
    }
    r
}

/// A number that is not below an integer has at least it as its whole part.
proof fn lemma_at_least(b: u64, n: int)
    requires
        is_finite(b),
        0 <= n <= 1000,
        !below(b, int_double(n)),
    ensures
        trunc_int(b) >= n,
{
    crate::double::lemma_int_exact(n);
    if crate::double::is_negative(b) {
        assert(magnitude(b) == 0 && n == 0);
        vstd::arithmetic::power2::lemma_pow2_pos(1074);
        assert(0int / (vstd::arithmetic::power2::pow2(1074) as int) == 0);
        assert(trunc_int(b) == 0);
    } else {
        assert(magnitude(b) >= magnitude(int_double(n)));
        crate::radix::lemma_not_below_int(b, n);
    }
}

/// What `Number.prototype.toString` makes of a number and a radix.
pub open spec fn to_radix_text(b: u64, radix: int) -> Seq<u16> {
    if radix == 10 || !is_finite(b) {
        number_string(b)
    } else {
        radix_text(b, radix)
    }
}

/// `Number.prototype.toString(radix)`.
pub fn number_proto_to_string(ctx: &mut Ctx, this: JsValue, args: &[JsValue]) -> (r: Result<
    JsValue,
    Throw,
>)
    requires
        old(ctx).wf(),
        valid_args(old(ctx).heap@, args@),
    ensures
        match as_number(this) {
            None => gives_error(*old(ctx), *final(ctx), r, not_a_number_error("toString"@)),
            Some(b) => if arg_of(args@, 0) == JsValue::Undefined {
                gives_text(*old(ctx), *final(ctx), r, number_string(b))
            } else {
                let radix = number_of(old(ctx).heap@, arg_of(args@, 0));
                if between(radix, 2, 36) && is_integral(radix) {
                    gives_text(*old(ctx), *final(ctx), r, to_radix_text(b, trunc_int(radix)))
                } else {
                    gives_error(
                        *old(ctx),
                        *final(ctx),
                        r,
                        "RangeError: toString() radix must be between 2 and 36"@,
                    )
                }
            },
        },
{
    let b: u64 = match this_number(this, "toString") {
        Ok(b) => b,
        Err(t) => {
            return Err(t);
        },
    };
    let v: JsValue = arg(args, 0);
    let radix: u64 = if v == JsValue::Undefined {
        10
    } else {
        let n: u64 = ctx.to_number(v);
        if !in_range(n, 2, 36) || !integral(n) {
            return Err(error("RangeError: toString() radix must be between 2 and 36"));
        }
        to_i64(n) as u64
    };
    let text: Vec<u16> = if radix == 10 || !finite(b) {
        number_to_string(b)
    } else {
        in_radix(b, radix)
    };
    ctx.text_value(text.as_slice())
}

/// `1e21`, from which on fixed-point notation is not used.
pub const FIXED_LIMIT: u64 = 0x444b_1ae4_d6e2_ef50;

/// What `Number.prototype.toFixed` makes of a number.
pub open spec fn to_fixed_text(b: u64, digits: nat) -> Seq<u16> {
    if !is_finite(b) {
        special_text(b)
    } else if !below(absolute(b), FIXED_LIMIT) {
        number_string(b)
    } else {
        fixed_text(b, digits)
    }
}

/// `Number.prototype.toFixed(digits)`.
pub fn number_to_fixed(ctx: &mut Ctx, this: JsValue, args: &[JsValue]) -> (r: Result<JsValue, Throw>)
    requires
        old(ctx).wf(),
        valid_args(old(ctx).heap@, args@),
    ensures
        match as_number(this) {
            None => gives_error(*old(ctx), *final(ctx), r, not_a_number_error("toFixed"@)),
            Some(b) => if args@.len() == 0 {
                gives_text(*old(ctx), *final(ctx), r, to_fixed_text(b, 0))
            } else {
                let d = number_of(old(ctx).heap@, args@[0]);
                if between(d, 0, 100) {
                    gives_text(*old(ctx), *final(ctx), r, to_fixed_text(b, trunc_int(d) as nat))
                } else {
                    gives_error(
                        *old(ctx),
                        *final(ctx),
                        r,
                        "RangeError: toFixed() digits argument must be between 0 and 100"@,
                    )
                }
            },
        },
{
    let b: u64 = match this_number(this, "toFixed") {
        Ok(b) => b,
        Err(t) => {
            return Err(t);
        },
    };
    let digits: u64 = if args.len() == 0 {
        0
    } else {
        let d: u64 = ctx.to_number(args[0]);
        if !in_range(d, 0, 100) {
            return Err(error("RangeError: toFixed() digits argument must be between 0 and 100"));
        }
        to_i64(d) as u64
    };
    let text: Vec<u16> = if !finite(b) {
        special(b)
    } else if !flt(b % SIGN, FIXED_LIMIT) {
        number_to_string(b)
    } else {
        fixed(b, digits)
    };
    ctx.text_value(text.as_slice())
}

/// `Number.prototype.toPrecision(precision)`.
pub fn number_to_precision(ctx: &mut Ctx, this: JsValue, args: &[JsValue]) -> (r: Result<
    JsValue,
    Throw,
>)
    requires
        old(ctx).wf(),
        valid_args(old(ctx).heap@, args@),
    ensures
        match as_number(this) {
            None => gives_error(*old(ctx), *final(ctx), r, not_a_number_error("toPrecision"@)),
            Some(b) => if arg_of(args@, 0) == JsValue::Undefined {
                gives_text(*old(ctx), *final(ctx), r, number_string(b))
            } else {
                let p = number_of(old(ctx).heap@, arg_of(args@, 0));
                if !between(p, 1, 100) {
                    gives_error(
                        *old(ctx),
                        *final(ctx),
                        r,
                        "RangeError: toPrecision() argument must be between 1 and 100"@,
                    )
                } else if !is_finite(b) {
                    gives_text(*old(ctx), *final(ctx), r, special_text(b))
                } else {
                    gives_text(*old(ctx), *final(ctx), r, precision_text(b, trunc_int(p) as nat))
                }
            },
        },
{
    let b: u64 = match this_number(this, "toPrecision") {
        Ok(b) => b,
        Err(t) => {
            return Err(t);
        },
    };
    let v: JsValue = arg(args, 0);
    if v == JsValue::Undefined {
        let text: Vec<u16> = number_to_string(b);
        return ctx.text_value(text.as_slice());
    }
    let p: u64 = ctx.to_number(v);
    if !in_range(p, 1, 100) {
        return Err(error("RangeError: toPrecision() argument must be between 1 and 100"));
    }
    let text: Vec<u16> = if !finite(b) {
        special(b)
    } else {
        precision(b, to_i64(p) as u64)
    };
    ctx.text_value(text.as_slice())
}

/// `Number.prototype.toExponential(digits)`.
pub fn number_to_exponential(ctx: &mut Ctx, this: JsValue, args: &[JsValue]) -> (r: Result<
    JsValue,
    Throw,
>)
    requires
        old(ctx).wf(),
        valid_args(old(ctx).heap@, args@),
    ensures
        match as_number(this) {
            None => gives_error(*old(ctx), *final(ctx), r, not_a_number_error("toExponential"@)),
            Some(b) => if !is_finite(b) {
                gives_text(*old(ctx), *final(ctx), r, special_text(b))
            } else if arg_of(args@, 0) == JsValue::Undefined {
                gives_text(*old(ctx), *final(ctx), r, shortest_exponential(b))
            } else {
                let d = number_of(old(ctx).heap@, arg_of(args@, 0));
                if between(d, 0, 100) {
                    gives_text(*old(ctx), *final(ctx), r, exponential_text(b, trunc_int(d) as nat))
                } else {
                    gives_error(
                        *old(ctx),
                        *final(ctx),
                        r,
                        "RangeError: toExponential() argument must be between 0 and 100"@,
                    )
                }
            },
        },
{
    let b: u64 = match this_number(this, "toExponential") {
        Ok(b) => b,
        Err(t) => {
            return Err(t);
        },
    };
    if !finite(b) {
        let text: Vec<u16> = special(b);
        return ctx.text_value(text.as_slice());
    }
    let v: JsValue = arg(args, 0);
    let digits: Option<u64> = if v == JsValue::Undefined {
        None
    } else {
        let d: u64 = ctx.to_number(v);
        if !in_range(d, 0, 100) {
            return Err(error("RangeError: toExponential() argument must be between 0 and 100"));
        }
        Some(to_i64(d) as u64)
    };
    let text: Vec<u16> = format_scientific(b, digits);
    ctx.text_value(text.as_slice())
}

/// `Number.prototype.valueOf`: the receiver, which must be a number.
pub fn number_proto_value_of(ctx: &mut Ctx, this: JsValue, _args: &[JsValue]) -> (r: Result<
    JsValue,
    Throw,
>)
    ensures
        match as_number(this) {
            None => gives_error(*old(ctx), *final(ctx), r, not_a_number_error("valueOf"@)),
            Some(_) => gives_value(*old(ctx), *final(ctx), r, this),
        },
{
    match this_number(this, "valueOf") {
        Ok(_) => Ok(this),
        Err(t) => Err(t),
    }
}

/// `Number.isInteger(value)`: true of whole numbers only, without conversion.
pub fn number_is_integer(ctx: &mut Ctx, _this: JsValue, args: &[JsValue]) -> (r: Result<
    JsValue,
    Throw,
>)
    ensures
        gives_value(
            *old(ctx),
            *final(ctx),
            r,
            JsValue::Bool(
                match as_number(arg_of(args@, 0)) {
                    Some(b) => is_integral(b),
                    None => false,
                },
            ),
        ),
{
    Ok(
        JsValue::Bool(
            match value_number(arg(args, 0)) {
                Some(b) => integral(b),
                None => false,
            },
        ),
    )
}

/// `Number.isSafeInteger(value)`: true of whole numbers up to `2^53 - 1` only.
pub fn number_is_safe_integer(ctx: &mut Ctx, _this: JsValue, args: &[JsValue]) -> (r: Result<
    JsValue,
    Throw,
>)
    ensures
        gives_value(
            *old(ctx),
            *final(ctx),
            r,
            JsValue::Bool(
                match as_number(arg_of(args@, 0)) {
                    Some(b) => is_integral(b) && !below(int_double(0x1f_ffff_ffff_ffff), absolute(b)),
                    None => false,
                },
            ),
        ),
{
    Ok(
        JsValue::Bool(
            match value_number(arg(args, 0)) {
                Some(b) => integral(b) && !flt(from_i64(0x1f_ffff_ffff_ffff), b % SIGN),
                None => false,
            },
        ),
    )
}

/// `Number.MAX_SAFE_INTEGER`: 2^53 - 1.
pub fn number_const_max_safe_integer(ctx: &mut Ctx, _this: JsValue, _args: &[JsValue]) -> (r: Result<
    JsValue,
    Throw,
>)
    ensures
        gives_value(*old(ctx), *final(ctx), r, JsValue::Double(0x433f_ffff_ffff_ffff)),
{
    Ok(JsValue::Double(0x433f_ffff_ffff_ffff))
}

/// `Number.MIN_SAFE_INTEGER`: -(2^53 - 1).
pub fn number_const_min_safe_integer(ctx: &mut Ctx, _this: JsValue, _args: &[JsValue]) -> (r: Result<
    JsValue,
    Throw,
>)
    ensures
        gives_value(*old(ctx), *final(ctx), r, JsValue::Double(0xc33f_ffff_ffff_ffff)),
{
    Ok(JsValue::Double(0xc33f_ffff_ffff_ffff))
}

/// `Number.EPSILON`: 2^-52.
pub fn number_const_epsilon(ctx: &mut Ctx, _this: JsValue, _args: &[JsValue]) -> (r: Result<
    JsValue,
    Throw,
>)
    ensures
        gives_value(*old(ctx), *final(ctx), r, JsValue::Double(0x3cb0_0000_0000_0000)),
{
    Ok(JsValue::Double(0x3cb0_0000_0000_0000))
}

/// `Number.MAX_VALUE`: the largest finite number.
pub fn number_const_max_value(ctx: &mut Ctx, _this: JsValue, _args: &[JsValue]) -> (r: Result<
    JsValue,
    Throw,
>)
    ensures
        gives_value(*old(ctx), *final(ctx), r, JsValue::Double(0x7fef_ffff_ffff_ffff)),
{
    Ok(JsValue::Double(0x7fef_ffff_ffff_ffff))
}

/// `Number.MIN_VALUE`: the smallest positive number.
pub fn number_const_min_value(ctx: &mut Ctx, _this: JsValue, _args: &[JsValue]) -> (r: Result<
    JsValue,
    Throw,
>)
    ensures
        gives_value(*old(ctx), *final(ctx), r, JsValue::Double(1)),
{
    Ok(JsValue::Double(1))
}

/// `Number.POSITIVE_INFINITY`: infinity.
pub fn number_const_positive_infinity(ctx: &mut Ctx, _this: JsValue, _args: &[JsValue]) -> (r: Result<
    JsValue,
    Throw,
>)
    ensures
        gives_value(*old(ctx), *final(ctx), r, JsValue::Double(INFINITY)),
{
    Ok(JsValue::Double(INFINITY))
}

/// `Number.NEGATIVE_INFINITY`: negative infinity.
pub fn number_const_negative_infinity(ctx: &mut Ctx, _this: JsValue, _args: &[JsValue]) -> (r: Result<
    JsValue,
    Throw,
>)
    ensures
        gives_value(*old(ctx), *final(ctx), r, JsValue::Double(0xfff0_0000_0000_0000)),
{
    Ok(JsValue::Double(0xfff0_0000_0000_0000))
}

/// `Number.NaN`: not a number.
pub fn number_const_nan(ctx: &mut Ctx, _this: JsValue, _args: &[JsValue]) -> (r: Result<
    JsValue,
    Throw,
>)
    ensures
        gives_value(*old(ctx), *final(ctx), r, JsValue::Double(NAN)),
{
    Ok(JsValue::Double(NAN))
}

} // verus!
