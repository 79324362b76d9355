//! Decimal texts of doubles.
use vstd::arithmetic::div_mod::*;
use vstd::arithmetic::power2::*;
use vstd::prelude::*;

use crate::bignat::BigNat;
use crate::double::{
    INFINITY, NAN, SIGN, decode, divide, exponent, in_binade, is_finite, lemma_past_largest,
    lemma_round_ratio_at, magnitude, mantissa, round_ratio, round_to_double, scaled_num,
    shift_up, with_sign,
};

verus! {

/// `10^k`.
pub open spec fn pow10(k: nat) -> nat
    decreases k,
{
    if k == 0 {
        1
    } else {
        10 * pow10((k - 1) as nat)
    }
}

/// Whether a code unit is an ASCII digit.
pub open spec fn is_digit(c: u16) -> bool {
    0x30 <= c <= 0x39
}

/// Index of the first unit from `i` on that is no digit.
pub open spec fn digits_end(s: Seq<u16>, i: int) -> int
    decreases s.len() - i,
{
    if 0 <= i < s.len() && is_digit(s[i]) {
        digits_end(s, i + 1)
    } else {
        i
    }
}

/// The number that the digits `s[i..j]` spell.
pub open spec fn digits_value(s: Seq<u16>, i: int, j: int) -> nat
    decreases j - i,
{
    if i < j {
        (10 * digits_value(s, i, j - 1) + (s[j - 1] - 0x30)) as nat
    } else {
        0
    }
}

/// The double nearest to `d * 10^e`, without a sign.
pub open spec fn round_decimal(d: nat, e: int) -> int {
    round_ratio(
        if e > 0 {
            d * pow10(e as nat)
        } else {
            d
        },
        if e < 0 {
            pow10((-e) as nat)
        } else {
            1
        },
    )
}

/// Whether `s[i..]` is `word`, upper or lower case; `word` is in lower case.
pub open spec fn tail_is_word(s: Seq<u16>, i: int, word: Seq<u16>) -> bool {
    s.len() - i == word.len() && forall|k: int|
        #![trigger word[k]]
        0 <= k < word.len() ==> s[i + k] == word[k] || s[i + k] + 0x20 == word[k]
}

/// `inf`.
pub open spec fn word_inf() -> Seq<u16> {
    seq![0x69u16, 0x6e, 0x66]
}

/// `infinity`.
pub open spec fn word_infinity() -> Seq<u16> {
    seq![0x69u16, 0x6e, 0x66, 0x69, 0x6e, 0x69, 0x74, 0x79]
}

/// `nan`.
pub open spec fn word_nan() -> Seq<u16> {
    seq![0x6eu16, 0x61, 0x6e]
}

/// Whether a text starts with a sign.
pub open spec fn has_sign(s: Seq<u16>, i: int) -> bool {
    0 <= i < s.len() && (s[i] == 0x2b || s[i] == 0x2d)
}

/// Whether a text starts with a minus sign.
pub open spec fn has_minus(s: Seq<u16>, i: int) -> bool {
    0 <= i < s.len() && s[i] == 0x2d
}

/// Exponent part of a decimal: `Some(0)` at the end of the text, the number
/// behind `e` up to the end of the text, `None` for anything else.
pub open spec fn exponent_part(s: Seq<u16>, i: int) -> Option<int> {
    if i >= s.len() {
        Some(0)
    } else if s[i] == 0x65 || s[i] == 0x45 {
        let j = if has_sign(s, i + 1) {
            i + 2
        } else {
            i + 1
        };
        if j < s.len() && digits_end(s, j) == s.len() {
            let v = digits_value(s, j, s.len() as int) as int;
            Some(
                if has_minus(s, i + 1) {
                    -v
                } else {
                    v
                },
            )
        } else {
            None
        }
    } else {
        None
    }
}

/// Digits of `s[i..j]` with the point at `p` left out (`p == j` where there is none).
pub open spec fn digits_without_point(s: Seq<u16>, i: int, p: int, j: int) -> nat {
    if p < j {
        digits_value(s, i, p) * pow10((j - p - 1) as nat) + digits_value(s, p + 1, j)
    } else {
        digits_value(s, i, j)
    }
}

/// Number of digits behind the point.
pub open spec fn fraction_len(p: int, j: int) -> int {
    if p < j {
        j - p - 1
    } else {
        0
    }
}

/// The double that a decimal text without its sign denotes: digits with at most
/// one point among them and an exponent behind them.
pub open spec fn decimal_text(s: Seq<u16>, i: int) -> Option<int> {
    let p = digits_end(s, i);
    let j = if p < s.len() && s[p] == 0x2e {
        digits_end(s, p + 1)
    } else {
        p
    };
    if (p - i) + fraction_len(p, j) == 0 {
        None
    } else {
        match exponent_part(s, j) {
            None => None,
            Some(e) => Some(
                round_decimal(digits_without_point(s, i, p, j), e - fraction_len(p, j)),
            ),
        }
    }
}

/// The double that a text denotes: an optional sign, then a decimal or one of the
/// words `inf`, `infinity` and `nan` in any case.
pub open spec fn text_double(s: Seq<u16>) -> Option<u64> {
    let i: int = if has_sign(s, 0) {
        1
    } else {
        0
    };
    if tail_is_word(s, i, word_inf()) || tail_is_word(s, i, word_infinity()) {
        Some(with_sign(has_minus(s, 0), INFINITY as int))
    } else if tail_is_word(s, i, word_nan()) {
        Some(NAN)
    } else {
        match decimal_text(s, i) {
            None => None,
            Some(mag) => Some(with_sign(has_minus(s, 0), mag)),
        }
    }
}

proof fn lemma_pow10_pos(k: nat)
    ensures
        pow10(k) > 0,
    decreases k,
{
    if k > 0 {
        lemma_pow10_pos((k - 1) as nat);
    }
}

pub proof fn lemma_pow10_add(a: nat, b: nat)
    ensures
        pow10(a + b) == pow10(a) * pow10(b),
    decreases b,
{
    if b == 0 {
        assert(pow10(a) * 1 == pow10(a)) by (nonlinear_arith);
    } else {
        lemma_pow10_add(a, (b - 1) as nat);
        let x = pow10(a);
        let y = pow10((b - 1) as nat);
        assert(10 * (x * y) == x * (10 * y)) by (nonlinear_arith);
        assert((a + b - 1) as nat == a + (b - 1) as nat);
    }
}

pub proof fn lemma_pow10_monotone(a: nat, b: nat)
    ensures
        a <= b ==> pow10(a) <= pow10(b),
    decreases b,
{
    if a < b {
        lemma_pow10_monotone(a, (b - 1) as nat);
        lemma_pow10_pos((b - 1) as nat);
    }
}

/// `10^k` is at least `8^k`.
proof fn lemma_pow10_over_pow2(k: nat)
    ensures
        pow10(k) >= pow2(3 * k),
    decreases k,
{
    if k == 0 {
        lemma2_to64();
    } else {
        let j = (k - 1) as nat;
        lemma_pow10_over_pow2(j);
        lemma_pow2_unfold(3 * k);
        lemma_pow2_unfold((3 * k - 1) as nat);
        lemma_pow2_unfold((3 * k - 2) as nat);
        assert((3 * k - 3) as nat == 3 * j);
    }
}

proof fn lemma_pow2_monotone(a: nat, b: nat)
    requires
        a <= b,
    ensures
        pow2(a) <= pow2(b),
{
    if a < b {
        lemma_pow2_strictly_increases(a, b);
    }
}

pub proof fn lemma_digits_end(s: Seq<u16>, i: int)
    requires
        0 <= i,
    ensures
        i <= s.len() ==> i <= digits_end(s, i) <= s.len(),
        i > s.len() ==> digits_end(s, i) == i,
        forall|k: int| i <= k < digits_end(s, i) && k < s.len() ==> is_digit(#[trigger] s[k]),
        digits_end(s, i) < s.len() ==> !is_digit(s[digits_end(s, i)]),
    decreases s.len() - i,
{
    if 0 <= i < s.len() && is_digit(s[i]) {
        lemma_digits_end(s, i + 1);
    }
}

pub proof fn lemma_digits_value_bound(s: Seq<u16>, i: int, j: int)
    requires
        0 <= i <= j <= s.len(),
        forall|k: int| i <= k < j ==> is_digit(#[trigger] s[k]),
    ensures
        digits_value(s, i, j) < pow10((j - i) as nat),
    decreases j - i,
{
    if i < j {
        lemma_digits_value_bound(s, i, j - 1);
        assert(is_digit(s[j - 1]));
        assert((j - i - 1) as nat == (j - 1 - i) as nat);
    }
}

proof fn lemma_without_point_bound(s: Seq<u16>, i: int, p: int, j: int)
    requires
        0 <= i <= p <= j <= s.len(),
        forall|k: int| i <= k < p ==> is_digit(#[trigger] s[k]),
        forall|k: int| p < k < j ==> is_digit(#[trigger] s[k]),
    ensures
        digits_without_point(s, i, p, j) < pow10(((p - i) + fraction_len(p, j)) as nat),
{
    lemma_digits_value_bound(s, i, p);
    if p < j {
        lemma_digits_value_bound(s, p + 1, j);
        let a = (p - i) as nat;
        let b = (j - p - 1) as nat;
        lemma_pow10_add(a, b);
        let x = digits_value(s, i, p);
        let y = digits_value(s, p + 1, j);
        let u = pow10(a);
        let w = pow10(b);
        assert(j - (p + 1) == j - p - 1);
        assert(x * w + y < u * w) by (nonlinear_arith)
            requires
                x + 1 <= u,
                y < w,
        ;
    }
}

proof fn lemma_decimal_overflow(d: nat, e: int)
    requires
        d > 0,
        e >= 400,
    ensures
        round_decimal(d, e) == INFINITY,
{
    let k = e as nat;
    lemma_pow10_over_pow2(k);
    lemma_pow10_pos(k);
    lemma_pow2_monotone(1024, 3 * k);
    lemma_pow2_adds(53, 971);
    lemma2_to64_rest();
    let n = d * pow10(k);
    let p = pow10(k);
    assert(n >= p) by (nonlinear_arith)
        requires
            n == d * p,
            d >= 1,
    ;
    let t = pow2(971);
    assert(1 * t == t) by (nonlinear_arith);
    lemma_past_largest(n, 1, 971);
}

proof fn lemma_decimal_underflow(d: nat, e: int, len: nat)
    requires
        d > 0,
        d < pow10(len),
        e < 0,
        e + len <= -400,
    ensures
        round_decimal(d, e) == 0,
{
    let k = (-e) as nat;
    let rest = (k - len) as nat;
    lemma_pow10_add(len, rest);
    lemma_pow10_over_pow2(rest);
    lemma_pow2_monotone(1076, 3 * rest);
    lemma_pow2_unfold(1076);
    lemma_pow2_unfold(1075);
    let den = pow10(k);
    let p = pow2(1074);
    let w = pow10(len);
    let z = pow10(rest);
    lemma_pow2_pos(1074);
    assert(den == w * z);
    assert(4 * (d * p) < den) by (nonlinear_arith)
        requires
            den == w * z,
            d < w,
            z >= 4 * p,
            p > 0,
    ;
    assert(scaled_num(d, -1074) == d * p);
    assert(in_binade(d, den, -1074));
    lemma_round_ratio_at(d, den, -1074);
    lemma_basic_div((d * p) as int, den as int);
    lemma_small_mod(d * p, den);
}

/// `n * 10^k`.
pub fn scale10(n: &mut BigNat, k: u64)
    ensures
        final(n)@ == old(n)@ * pow10(k as nat),
{
    let ghost start = n@;
    let mut i: u64 = 0;
    assert(start * 1 == start) by (nonlinear_arith);
    while i < k
        invariant
            i <= k,
            n@ == start * pow10(i as nat),
        decreases k - i,
    {
        n.mul_add(10, 0);
        proof {
            let p = pow10(i as nat);
            assert((start * p) * 10 == start * (10 * p)) by (nonlinear_arith);
        }
        i = i + 1;
    }
}

/// The double nearest to `d * 10^e`, for a `d` of at most `len` digits.
pub fn round_decimal_double(d: BigNat, e: i128, len: usize) -> (r: u64)
    requires
        d@ < pow10(len as nat),
    ensures
        r == round_decimal(d@, e as int),
        r <= INFINITY,
{
    if d.is_zero() {
        proof {
            if e > 0 {
                let p = pow10(e as nat);
                assert(0 * p == 0) by (nonlinear_arith);
            }
        }
        return 0;
    }
    if e >= 400 {
        proof {
            lemma_decimal_overflow(d@, e as int);
        }
        return INFINITY;
    }
    if e <= -400 - (len as i128) {
        proof {
            lemma_decimal_underflow(d@, e as int, len as nat);
        }
        return 0;
    }
    let mut num: BigNat = d;
    let mut den: BigNat = BigNat::from_u64(1);
    if e > 0 {
        scale10(&mut num, e as u64);
    } else if e < 0 {
        scale_negative(&mut den, e, len);
        proof {
            lemma_pow10_pos((-e) as nat);
        }
    }
    round_to_double(&num, &den)
}

/// `10^(-e)`, for an `e` above `-400 - len`.
fn scale_negative(den: &mut BigNat, e: i128, len: usize)
    requires
        old(den)@ == 1,
        -400 - len < e < 0,
    ensures
        final(den)@ == pow10((-e) as nat),
{
    let mut i: i128 = e;
    while i < 0
        invariant
            e <= i <= 0,
            e > i128::MIN,
            den@ == pow10((i - e) as nat),
        decreases -i,
    {
        den.mul_add(10, 0);
        proof {
            let p = pow10((i - e) as nat);
            assert(p * 10 == 10 * p) by (nonlinear_arith);
        }
        i = i + 1;
    }
}

/// Index of the first unit from `i` on that is no digit.
pub fn skip_digits(s: &[u16], i: usize) -> (r: usize)
    requires
        i <= s@.len(),
    ensures
        r == digits_end(s@, i as int),
        i <= r <= s@.len(),
{
    let mut j: usize = i;
    while j < s.len() && 0x30 <= s[j] && s[j] <= 0x39
        invariant
            i <= j <= s@.len(),
            digits_end(s@, i as int) == digits_end(s@, j as int),
        decreases s@.len() - j,
    {
        j = j + 1;
    }
    j
}

/// `n` with the digits `s[i..j]` put behind its own.
fn append_digits(n: &mut BigNat, s: &[u16], i: usize, j: usize)
    requires
        i <= j <= s@.len(),
        forall|k: int| i <= k < j ==> is_digit(#[trigger] s@[k]),
    ensures
        final(n)@ == old(n)@ * pow10((j - i) as nat) + digits_value(s@, i as int, j as int),
{
    let ghost start = n@;
    let mut k: usize = i;
    assert(start * 1 == start) by (nonlinear_arith);
    while k < j
        invariant
            i <= k <= j <= s@.len(),
            forall|k: int| i <= k < j ==> is_digit(#[trigger] s@[k]),
            n@ == start * pow10((k - i) as nat) + digits_value(s@, i as int, k as int),
        decreases j - k,
    {
        assert(is_digit(s@[k as int]));
        n.mul_add(10, (s[k] - 0x30) as u32);
        proof {
            let p = pow10((k - i) as nat);
            let v = digits_value(s@, i as int, k as int);
            assert((start * p + v) * 10 == start * (10 * p) + 10 * v) by (nonlinear_arith);
            assert(((k + 1 - i) as nat - 1) as nat == (k - i) as nat);
        }
        k = k + 1;
    }
}

/// Whether `s[i..]` is `word` in any case.
fn matches_word(s: &[u16], i: usize, word: &[u16]) -> (r: bool)
    requires
        i <= s@.len(),
        forall|k: int| 0 <= k < word@.len() ==> word@[k] >= 0x20,
    ensures
        r == tail_is_word(s@, i as int, word@),
{
    let n: usize = s.len();
    if n - i != word.len() {
        return false;
    }
    let mut k: usize = 0;
    while k < word.len()
        invariant
            n == s@.len(),
            i <= n,
            n - i == word@.len(),
            k <= word@.len(),
            forall|k: int| 0 <= k < word@.len() ==> word@[k] >= 0x20,
            forall|j: int|
                #![trigger word@[j]]
                0 <= j < k ==> s@[i + j] == word@[j] || s@[i + j] + 0x20 == word@[j],
        decreases word@.len() - k,
    {
        let c: u16 = s[i + k];
        if c != word[k] && c != word[k] - 0x20 {
            assert(!(s@[i + k] == word@[k as int] || s@[i + k] + 0x20 == word@[k as int]));
            return false;
        }
        k = k + 1;
    }
    true
}

/// Limit past which an exponent decides the result alone.
const EXPONENT_CAP: i128 = 1_000_000_000_000_000_000_000_000;

/// Value of the digits `s[i..]`, held to [`EXPONENT_CAP`].
fn capped_value(s: &[u16], i: usize) -> (r: i128)
    requires
        i <= s@.len(),
        forall|k: int| i <= k < s@.len() ==> is_digit(#[trigger] s@[k]),
    ensures
        0 <= r <= EXPONENT_CAP,
        r == digits_value(s@, i as int, s@.len() as int) || (r == EXPONENT_CAP && r <= digits_value(
            s@,
            i as int,
            s@.len() as int,
        )),
{
    let mut v: i128 = 0;
    let mut k: usize = i;
    while k < s.len()
        invariant
            i <= k <= s@.len(),
            forall|k: int| i <= k < s@.len() ==> is_digit(#[trigger] s@[k]),
            0 <= v <= EXPONENT_CAP,
            v == digits_value(s@, i as int, k as int) || (v == EXPONENT_CAP && v <= digits_value(
                s@,
                i as int,
                k as int,
            )),
        decreases s@.len() - k,
    {
        assert(is_digit(s@[k as int]));
        let d: i128 = (s[k] - 0x30) as i128;
        if v * 10 + d > EXPONENT_CAP {
            v = EXPONENT_CAP;
        } else {
            v = v * 10 + d;
        }
        k = k + 1;
    }
    v
}

/// Whether `x` stands for the exponent `e`: equal, or both past the cap.
spec fn capped(x: int, e: int) -> bool {
    x == e || (x == EXPONENT_CAP && e >= EXPONENT_CAP) || (x == -EXPONENT_CAP && e <= -EXPONENT_CAP)
}

/// Exponent part of a decimal, held to [`EXPONENT_CAP`].
fn parse_exponent(s: &[u16], i: usize) -> (r: Option<i128>)
    requires
        i <= s@.len(),
    ensures
        match exponent_part(s@, i as int) {
            None => r is None,
            Some(e) => r is Some && capped(r.unwrap() as int, e) && -EXPONENT_CAP <= r.unwrap()
                <= EXPONENT_CAP,
        },
{
    if i >= s.len() {
        return Some(0);
    }
    if s[i] != 0x65 && s[i] != 0x45 {
        return None;
    }
    let minus: bool = i + 1 < s.len() && s[i + 1] == 0x2d;
    let k: usize = if i + 1 < s.len() && (s[i + 1] == 0x2b || s[i + 1] == 0x2d) {
        i + 2
    } else {
        i + 1
    };
    if k >= s.len() {
        return None;
    }
    let end: usize = skip_digits(s, k);
    if end != s.len() {
        return None;
    }
    proof {
        lemma_digits_end(s@, k as int);
    }
    let v: i128 = capped_value(s, k);
    if minus {
        Some(-v)
    } else {
        Some(v)
    }
}

proof fn lemma_capped_decimal(d: nat, x: int, e: int, fraction: int, len: nat)
    requires
        capped(x, e),
        0 <= fraction <= usize::MAX,
        len <= usize::MAX,
        d < pow10(len),
    ensures
        round_decimal(d, x - fraction) == round_decimal(d, e - fraction),
{
    if x != e {
        if d == 0 {
            lemma_zero_decimal(x - fraction);
            lemma_zero_decimal(e - fraction);
        } else if x > 0 {
            lemma_decimal_overflow(d, x - fraction);
            lemma_decimal_overflow(d, e - fraction);
        } else {
            lemma_decimal_underflow(d, x - fraction, len);
            lemma_decimal_underflow(d, e - fraction, len);
        }
    }
}

/// The double that a decimal text without its sign denotes.
fn parse_decimal(s: &[u16], i: usize) -> (r: Option<u64>)
    requires
        i <= s@.len(),
    ensures
        match decimal_text(s@, i as int) {
            None => r is None,
            Some(mag) => r is Some && r.unwrap() == mag && r.unwrap() <= INFINITY,
        },
{
    let p: usize = skip_digits(s, i);
    let pointed: bool = p < s.len() && s[p] == 0x2e;
    let j: usize = if pointed {
        skip_digits(s, p + 1)
    } else {
        p
    };
    proof {
        lemma_digits_end(s@, i as int);
        lemma_digits_end(s@, p + 1);
    }
    let fraction: usize = if pointed { j - p - 1 } else { 0 };
    if p - i + fraction == 0 {
        return None;
    }
    let exp: i128 = match parse_exponent(s, j) {
        None => {
            return None;
        },
        Some(x) => x,
    };
    let mut d: BigNat = BigNat::from_u64(0);
    append_digits(&mut d, s, i, p);
    if pointed {
        append_digits(&mut d, s, p + 1, j);
    }
    let len: usize = p - i + fraction;
    proof {
        assert(0 * pow10((p - i) as nat) == 0) by (nonlinear_arith);
        lemma_without_point_bound(s@, i as int, p as int, j as int);
        lemma_capped_decimal(
            digits_without_point(s@, i as int, p as int, j as int),
            exp as int,
            exponent_part(s@, j as int).unwrap(),
            fraction as int,
            len as nat,
        );
    }
    Some(round_decimal_double(d, exp - (fraction as i128), len))
}

/// The double that a text denotes.
pub fn parse_double(s: &[u16]) -> (r: Option<u64>)
    ensures
        r == text_double(s@),
{
    let signed: bool = s.len() > 0 && (s[0] == 0x2b || s[0] == 0x2d);
    let negative: bool = s.len() > 0 && s[0] == 0x2d;
    let i: usize = if signed { 1 } else { 0 };
    let inf: [u16; 3] = [0x69, 0x6e, 0x66];
    let infinity: [u16; 8] = [0x69, 0x6e, 0x66, 0x69, 0x6e, 0x69, 0x74, 0x79];
    let word: [u16; 3] = [0x6e, 0x61, 0x6e];
    proof {
        assert(inf@ == word_inf());
        assert(infinity@ == word_infinity());
        assert(word@ == word_nan());
    }
    if matches_word(s, i, &inf) || matches_word(s, i, &infinity) {
        return Some(
            if negative {
                INFINITY + SIGN
            } else {
                INFINITY
            },
        );
    }
    if matches_word(s, i, &word) {
        return Some(NAN);
    }
    match parse_decimal(s, i) {
        None => None,
        Some(mag) => Some(
            if negative {
                mag + SIGN
            } else {
                mag
            },
        ),
    }
}

proof fn lemma_zero_decimal(e: int)
    ensures
        round_decimal(0, e) == 0,
{
    if e > 0 {
        let p = pow10(e as nat);
        assert(0 * p == 0) by (nonlinear_arith);
    }
}

// ---------------------------------------------------------------------------
// The shortest decimal that reads back as a double
// ---------------------------------------------------------------------------

/// Numerator of `n / d` divided by `10^t`.
pub open spec fn decade_num(n: nat, t: int) -> nat {
    if t < 0 {
        n * pow10((-t) as nat)
    } else {
        n
    }
}

/// Denominator of `n / d` divided by `10^t`.
pub open spec fn decade_den(d: nat, t: int) -> nat {
    if t > 0 {
        d * pow10(t as nat)
    } else {
        d
    }
}

/// Whether `10^t <= n / d < 10^(t + 1)`.
pub open spec fn in_decade(n: nat, d: nat, t: int) -> bool {
    decade_den(d, t) <= decade_num(n, t) < 10 * decade_den(d, t)
}

/// Numerator of the value of a finite number.
pub open spec fn value_num(b: u64) -> nat {
    if exponent(b) > 0 {
        mantissa(b) * pow2(exponent(b) as nat)
    } else {
        mantissa(b)
    }
}

/// Denominator of the value of a finite number.
pub open spec fn value_den(b: u64) -> nat {
    if exponent(b) < 0 {
        pow2((-exponent(b)) as nat)
    } else {
        1
    }
}

/// Power of ten of the leading digit of a number that is not zero.
pub open spec fn leading_power(b: u64) -> int {
    choose|t: int| in_decade(value_num(b), value_den(b), t)
}

/// The first `k` digits of a number, as a number.
pub open spec fn leading_digits(b: u64, k: nat) -> nat {
    decade_num(value_num(b), leading_power(b)) * pow10((k - 1) as nat) / decade_den(
        value_den(b),
        leading_power(b),
    )
}

/// What the first `k` digits leave, as a numerator over the scaled denominator.
pub open spec fn leading_rest(b: u64, k: nat) -> nat {
    decade_num(value_num(b), leading_power(b)) * pow10((k - 1) as nat) % decade_den(
        value_den(b),
        leading_power(b),
    )
}

/// Whether `s * 10^e` reads back as the number, its sign apart.
pub open spec fn reads_back(b: u64, s: nat, e: int) -> bool {
    round_decimal(s, e) == magnitude(b)
}

/// The `k`-digit neighbour of the number that reads back as it: the nearer one
/// where both do, `None` where neither does.
pub open spec fn neighbour(b: u64, k: nat) -> Option<nat> {
    let lo = leading_digits(b, k);
    let e = leading_power(b) - (k - 1);
    let r = leading_rest(b, k);
    let den = decade_den(value_den(b), leading_power(b));
    let lo_ok = reads_back(b, lo, e);
    let hi_ok = reads_back(b, lo + 1, e);
    if lo_ok && hi_ok {
        Some(
            if 2 * r < den || (2 * r == den && lo % 2 == 0) {
                lo
            } else {
                lo + 1
            },
        )
    } else if lo_ok {
        Some(lo)
    } else if hi_ok {
        Some(lo + 1)
    } else {
        None
    }
}

/// Most digits that a double ever needs.
pub const MAX_DIGITS: u64 = 17;

/// Digits and power of ten of the shortest decimal of at least `k` digits.
pub open spec fn shortest_from(b: u64, k: nat) -> (nat, int)
    decreases MAX_DIGITS - k,
{
    match neighbour(b, k) {
        Some(s) => (s, leading_power(b) - (k - 1)),
        None => if k >= MAX_DIGITS {
            (leading_digits(b, k), leading_power(b) - (k - 1))
        } else {
            shortest_from(b, k + 1)
        },
    }
}

/// `(s, e)` with the zeros at the end of `s` moved to the exponent.
pub open spec fn strip_zeros(s: nat, e: int) -> (nat, int)
    decreases s,
{
    if s > 0 && s % 10 == 0 {
        strip_zeros(s / 10, e + 1)
    } else {
        (s, e)
    }
}

/// Digits and power of ten of the shortest decimal that reads back as a number
/// that is finite and not zero, its sign apart; the last digit is not zero.
pub open spec fn shortest_decimal(b: u64) -> (nat, int) {
    let (s, e) = shortest_from(b, 1);
    strip_zeros(s, e)
}

pub proof fn lemma_decade_step(n: nat, d: nat, t: int)
    ensures
        t >= 0 ==> decade_num(n, t + 1) == decade_num(n, t) && decade_den(d, t + 1) == 10
            * decade_den(d, t),
        t < 0 ==> decade_num(n, t) == 10 * decade_num(n, t + 1) && decade_den(d, t + 1)
            == decade_den(d, t),
{
    if t >= 0 {
        let p = pow10(t as nat);
        assert(d * (10 * p) == 10 * (d * p)) by (nonlinear_arith);
        assert(d * 1 == d) by (nonlinear_arith);
        assert(((t + 1) as nat - 1) as nat == t as nat);
    } else {
        let p = pow10((-t - 1) as nat);
        assert(n * (10 * p) == 10 * (n * p)) by (nonlinear_arith);
        assert(n * 1 == n) by (nonlinear_arith);
        assert(((-t) as nat - 1) as nat == (-t - 1) as nat);
    }
}

proof fn lemma_decade_down(n: nat, d: nat, t1: int, t2: int)
    requires
        t1 <= t2,
        decade_num(n, t2) >= decade_den(d, t2),
    ensures
        decade_num(n, t1) >= decade_den(d, t1),
    decreases t2 - t1,
{
    if t1 < t2 {
        lemma_decade_step(n, d, t2 - 1);
        lemma_decade_down(n, d, t1, t2 - 1);
    }
}

/// A positive fraction lies in one decade only.
pub proof fn lemma_decade_unique(n: nat, d: nat, t1: int, t2: int)
    requires
        in_decade(n, d, t1),
        in_decade(n, d, t2),
    ensures
        t1 == t2,
{
    if t1 < t2 {
        lemma_decade_down(n, d, t1 + 1, t2);
        lemma_decade_step(n, d, t1);
    } else if t2 < t1 {
        lemma_decade_down(n, d, t2 + 1, t1);
        lemma_decade_step(n, d, t2);
    }
}

proof fn lemma_pow10_at_least_pow2(k: nat)
    ensures
        pow10(k) >= pow2(k),
{
    lemma_pow10_over_pow2(k);
    lemma_pow2_monotone(k, 3 * k);
}

proof fn lemma_pow10_small(k: nat, bound: nat, x: nat)
    requires
        pow10(k) <= x,
        x < pow2(bound),
    ensures
        k < bound,
{
    lemma_pow10_at_least_pow2(k);
    if k >= bound {
        lemma_pow2_monotone(bound, k);
    }
}

/// The decade of a positive fraction, with the fraction scaled to it.
pub fn find_decade(n: BigNat, d: BigNat) -> (r: (BigNat, BigNat, i64))
    requires
        0 < n@ < pow2(1200),
        0 < d@ < pow2(1200),
    ensures
        in_decade(n@, d@, r.2 as int),
        r.0@ == decade_num(n@, r.2 as int),
        r.1@ == decade_den(d@, r.2 as int),
        -1300 < r.2 < 1300,
{
    let ghost nv = n@;
    let ghost dv = d@;
    let mut num: BigNat = n;
    let mut den: BigNat = d;
    let mut top: BigNat = den.copy();
    top.mul_add(10, 0);
    let mut t: i64 = 0;
    while !num.less(&top)
        invariant
            0 <= t < 1200,
            0 < nv < pow2(1200),
            0 < dv < pow2(1200),
            num@ == decade_num(nv, t as int),
            den@ == decade_den(dv, t as int),
            top@ == 10 * den@,
            den@ > 0,
            t > 0 ==> num@ >= den@,
        decreases num@ - den@,
    {
        proof {
            lemma_decade_step(nv, dv, t as int);
            let p = pow10((t + 1) as nat);
            assert(dv * p >= p) by (nonlinear_arith)
                requires
                    dv >= 1,
            ;
            lemma_pow10_small((t + 1) as nat, 1200, nv);
        }
        den.mul_add(10, 0);
        top.mul_add(10, 0);
        t = t + 1;
    }
    while num.less(&den)
        invariant
            -1203 < t < 1200,
            0 < nv < pow2(1200),
            0 < dv < pow2(1200),
            num@ == decade_num(nv, t as int),
            den@ == decade_den(dv, t as int),
            num@ < 10 * den@,
            num@ > 0,
            t > 0 ==> num@ >= den@,
        decreases 10 * den@ - num@,
    {
        proof {
            lemma_decade_step(nv, dv, t - 1);
            let p = pow10((-t) as nat);
            if t < 0 {
                assert(nv * p >= p) by (nonlinear_arith)
                    requires
                        nv >= 1,
                ;
            } else {
                lemma_pow2_pos(1200);
            }
            lemma_pow10_small((-t) as nat, 1200, num@);
        }
        num.mul_add(10, 0);
        t = t - 1;
    }
    (num, den, t)
}

proof fn lemma_quotient_bound(num: nat, den: nat, k: nat)
    requires
        den > 0,
        num < 10 * den,
        1 <= k <= 17,
    ensures
        num * pow10((k - 1) as nat) < 0x8000_0000_0000_0000 * den,
        num * pow10((k - 1) as nat) / den < 1_000_000_000_000_000_000,
{
    let p = pow10((k - 1) as nat);
    lemma_pow10_up_to(16, (k - 1) as nat);
    assert(num * p <= 10 * den * 10_000_000_000_000_000) by (nonlinear_arith)
        requires
            num <= 10 * den,
            p <= 10_000_000_000_000_000,
    ;
    lemma_fundamental_div_mod((num * p) as int, den as int);
    let f = num * p / den;
    assert(f <= 100_000_000_000_000_000) by (nonlinear_arith)
        requires
            num * p == den * f + (num * p) % den,
            num * p <= 10 * den * 10_000_000_000_000_000,
            (num * p) % den >= 0,
            den > 0,
    ;
}

proof fn lemma_pow10_up_to(k: nat, j: nat)
    requires
        k <= 16,
        j <= k,
    ensures
        pow10(j) <= pow10(k),
        pow10(16) == 10_000_000_000_000_000,
    decreases k,
{
    reveal_with_fuel(pow10, 17);
    if j < k {
        lemma_pow10_up_to((k - 1) as nat, j);
        lemma_pow10_pos((k - 1) as nat);
    }
}

/// `s * 10^e` rounded to a double.
fn decimal_double(s: u64, e: i64) -> (r: u64)
    requires
        s < 10_000_000_000_000_000_000,
    ensures
        r == round_decimal(s as nat, e as int),
{
    proof {
        reveal_with_fuel(pow10, 20);
        assert(pow10(19) == 10_000_000_000_000_000_000);
    }
    round_decimal_double(BigNat::from_u64(s), e as i128, 19)
}

/// The value of a finite number as a ratio.
pub fn value_ratio(b: u64) -> (r: (BigNat, BigNat))
    requires
        is_finite(b),
    ensures
        r.0@ == value_num(b),
        r.1@ == value_den(b),
        r.1@ > 0,
{
    let (_, m, q) = decode(b);
    let mut n: BigNat = BigNat::from_u64(m);
    let mut d: BigNat = BigNat::from_u64(1);
    if q > 0 {
        shift_up(&mut n, q as u64);
    } else if q < 0 {
        shift_up(&mut d, (-q) as u64);
        proof {
            let p = pow2((-q) as nat);
            assert(1 * p == p) by (nonlinear_arith);
            lemma_pow2_pos((-q) as nat);
        }
    }
    (n, d)
}

/// Digits and power of ten of the shortest decimal that reads back as `b`.
pub fn shortest(b: u64) -> (r: (u64, i64))
    requires
        is_finite(b),
        magnitude(b) != 0,
    ensures
        (r.0 as nat, r.1 as int) == shortest_decimal(b),
        0 < r.0 <= 1_000_000_000_000_000_000,
        r.0 % 10 != 0,
        -2000 < r.1 < 2000,
{
    let mag: u64 = b % SIGN;
    let (n, d) = value_ratio(b);
    proof {
        lemma_value_bounds(b);
    }
    let (num, den, t) = find_decade(n, d);
    let ghost dec = in_decade(value_num(b), value_den(b), t as int);
    proof {
        lemma_decade_unique(value_num(b), value_den(b), t as int, leading_power(b));
    }
    let mut scaled: BigNat = num;
    let ghost num0 = scaled@;
    let mut k: u64 = 1;
    assert(num0 * 1 == num0) by (nonlinear_arith);
    loop
        invariant
            1 <= k <= MAX_DIGITS,
            mag == magnitude(b),
            is_finite(b),
            magnitude(b) != 0,
            -1300 < t < 1300,
            t == leading_power(b),
            num0 == decade_num(value_num(b), t as int),
            den@ == decade_den(value_den(b), t as int),
            den@ > 0,
            den@ <= num0 < 10 * den@,
            scaled@ == num0 * pow10((k - 1) as nat),
            shortest_from(b, 1) == shortest_from(b, k as nat),
        decreases MAX_DIGITS - k,
    {
        proof {
            lemma_quotient_bound(num0, den@, k as nat);
            lemma_leading_positive(num0, den@, k as nat);
        }
        let (lo, rest) = divide(&scaled, &den);
        let e: i64 = t - (k as i64 - 1);
        let lo_ok: bool = decimal_double(lo, e) == mag;
        let hi_ok: bool = decimal_double(lo + 1, e) == mag;
        if lo_ok && hi_ok {
            let mut twice: BigNat = rest.copy();
            twice.mul_add(2, 0);
            let under: bool = twice.less(&den);
            let over: bool = den.less(&twice);
            if under || (!over && lo % 2 == 0) {
                return drop_zeros(lo, e);
            }
            return drop_zeros(lo + 1, e);
        }
        if lo_ok {
            return drop_zeros(lo, e);
        }
        if hi_ok {
            return drop_zeros(lo + 1, e);
        }
        if k >= MAX_DIGITS {
            return drop_zeros(lo, e);
        }
        scaled.mul_add(10, 0);
        proof {
            let p = pow10((k - 1) as nat);
            assert((num0 * p) * 10 == num0 * (10 * p)) by (nonlinear_arith);
        }
        k = k + 1;
    }
}

proof fn lemma_leading_positive(num: nat, den: nat, k: nat)
    requires
        den > 0,
        num >= den,
        k >= 1,
    ensures
        num * pow10((k - 1) as nat) / den >= 1,
{
    let p = pow10((k - 1) as nat);
    lemma_pow10_pos((k - 1) as nat);
    assert(num * p >= den) by (nonlinear_arith)
        requires
            num >= den,
            p >= 1,
    ;
    lemma_fundamental_div_mod((num * p) as int, den as int);
    let f = num * p / den;
    if f == 0 {
        assert(den * f == 0) by (nonlinear_arith)
            requires
                f == 0,
        ;
    }
}

pub proof fn lemma_value_bounds(b: u64)
    requires
        is_finite(b),
        magnitude(b) != 0,
    ensures
        0 < value_num(b) < pow2(1200),
        0 < value_den(b) < pow2(1200),
{
    let q = exponent(b);
    let m = mantissa(b);
    lemma2_to64_rest();
    if q > 0 {
        let p = pow2(q as nat);
        lemma_pow2_monotone(q as nat, 971);
        lemma_pow2_pos(q as nat);
        lemma_pow2_adds(53, 971);
        lemma_pow2_strictly_increases(1024, 1200);
        assert(m * p < pow2(53) * pow2(971)) by (nonlinear_arith)
            requires
                m < pow2(53),
                p <= pow2(971),
                p > 0,
        ;
        assert(m * p > 0) by (nonlinear_arith)
            requires
                m > 0,
                p > 0,
        ;
    } else {
        lemma_pow2_strictly_increases(53, 1200);
    }
    if q < 0 {
        lemma_pow2_pos((-q) as nat);
        lemma_pow2_strictly_increases((-q) as nat, 1200);
    } else {
        lemma_pow2_strictly_increases(0, 1200);
        lemma2_to64();
    }
}

/// `(s, e)` with the zeros at the end of `s` moved to the exponent.
fn drop_zeros(s: u64, e: i64) -> (r: (u64, i64))
    requires
        0 < s <= 1_000_000_000_000_000_000,
        -1400 < e < 1400,
    ensures
        (r.0 as nat, r.1 as int) == strip_zeros(s as nat, e as int),
        0 < r.0 <= s,
        r.0 % 10 != 0,
        -2000 < r.1 < 2000,
{
    let mut x: u64 = s;
    let mut y: i64 = e;
    let ghost mut steps: nat = 18;
    proof {
        reveal_with_fuel(pow10, 19);
    }
    while x % 10 == 0
        invariant
            0 < x <= s,
            strip_zeros(s as nat, e as int) == strip_zeros(x as nat, y as int),
            steps <= 18,
            x <= pow10(steps),
            y == e + 18 - steps,
            -1400 < e < 1400,
        decreases x,
    {
        proof {
            if steps == 0 {
                assert(x <= 1);
            }
            steps = (steps - 1) as nat;
        }
        x = x / 10;
        y = y + 1;
    }
    (x, y)
}

} // verus!
