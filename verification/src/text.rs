//! Texts as UTF-16 code units, and the texts of numbers.
use vstd::prelude::*;
use vstd::string::*;

use crate::decimal::{
    digits_end, digits_value, is_digit, lemma_digits_end, lemma_pow10_monotone, pow10, shortest,
    shortest_decimal, skip_digits,
};
use crate::double::{SIGN, finite, is_finite, is_nan, is_negative, magnitude, nan, zero};

verus! {

/// UTF-16 code units of one character.
pub open spec fn char_units(c: char) -> Seq<u16> {
    let n = c as int;
    if n < 0x1_0000 {
        seq![n as u16]
    } else {
        seq![(0xd800 + (n - 0x1_0000) / 0x400) as u16, (0xdc00 + (n - 0x1_0000) % 0x400) as u16]
    }
}

/// UTF-16 code units of a string.
pub open spec fn utf16_of(s: Seq<char>) -> Seq<u16>
    decreases s.len(),
{
    if s.len() == 0 {
        seq![]
    } else {
        utf16_of(s.drop_last()) + char_units(s.last())
    }
}

/// UTF-16 code units of a string.
pub fn utf16(text: &str) -> (r: Vec<u16>)
    ensures
        r@ == utf16_of(text@),
{
    let mut out: Vec<u16> = Vec::new();
    let n: usize = text.unicode_len();
    let mut i: usize = 0;
    while i < n
        invariant
            i <= n,
            n == text@.len(),
            out@ == utf16_of(text@.take(i as int)),
        decreases n - i,
    {
        let c: char = text.get_char(i);
        push_char(&mut out, c);
        proof {
            assert(text@.take(i + 1).drop_last() == text@.take(i as int));
            assert(text@.take(i + 1).last() == c);
        }
        i = i + 1;
    }
    proof {
        assert(text@.take(n as int) == text@);
    }
    out
}

/// Appends the code units of a character.
pub fn push_char(out: &mut Vec<u16>, c: char)
    ensures
        final(out)@ == old(out)@ + char_units(c),
{
    let n: u32 = c as u32;
    if n < 0x1_0000 {
        out.push(n as u16);
    } else {
        let v: u32 = n - 0x1_0000;
        out.push((0xd800 + v / 0x400) as u16);
        out.push((0xdc00 + v % 0x400) as u16);
    }
    proof {
        assert(out@ == old(out)@ + char_units(c));
    }
}

/// Appends code units.
pub fn push_all(out: &mut Vec<u16>, s: &[u16])
    ensures
        final(out)@ == old(out)@ + s@,
{
    let ghost start = out@;
    let mut i: usize = 0;
    while i < s.len()
        invariant
            i <= s@.len(),
            out@ == start + s@.take(i as int),
        decreases s@.len() - i,
    {
        out.push(s[i]);
        i = i + 1;
    }
    proof {
        assert(s@.take(s@.len() as int) == s@);
    }
}

/// The units `s[from..to]`.
pub fn copy_range(s: &[u16], from: usize, to: usize) -> (r: Vec<u16>)
    requires
        from <= to <= s@.len(),
    ensures
        r@ == s@.subrange(from as int, to as int),
{
    let mut out: Vec<u16> = Vec::new();
    let mut i: usize = from;
    while i < to
        invariant
            from <= i <= to <= s@.len(),
            out@ == s@.subrange(from as int, i as int),
        decreases to - i,
    {
        out.push(s[i]);
        proof {
            assert(out@ == s@.subrange(from as int, i + 1));
        }
        i = i + 1;
    }
    out
}

/// Whether two texts are the same.
pub fn same_units(a: &[u16], b: &[u16]) -> (r: bool)
    ensures
        r == (a@ == b@),
{
    if a.len() != b.len() {
        return false;
    }
    let mut i: usize = 0;
    while i < a.len()
        invariant
            i <= a@.len(),
            a@.len() == b@.len(),
            forall|k: int| 0 <= k < i ==> a@[k] == b@[k],
        decreases a@.len() - i,
    {
        if a[i] != b[i] {
            return false;
        }
        i = i + 1;
    }
    proof {
        assert(a@ =~= b@);
    }
    true
}

// ---------------------------------------------------------------------------
// Decimal texts of integers
// ---------------------------------------------------------------------------

/// Decimal digits of a natural number.
pub open spec fn nat_text(n: nat) -> Seq<u16>
    decreases n,
{
    if n < 10 {
        seq![(0x30 + n) as u16]
    } else {
        nat_text(n / 10).push((0x30 + n % 10) as u16)
    }
}

/// Decimal text of an integer.
pub open spec fn int_text(n: int) -> Seq<u16> {
    if n < 0 {
        seq![0x2du16] + nat_text((-n) as nat)
    } else {
        nat_text(n as nat)
    }
}

/// `n` zeros.
pub open spec fn zeros(n: int) -> Seq<u16> {
    Seq::new(
        if n > 0 {
            n as nat
        } else {
            0
        },
        |i: int| 0x30u16,
    )
}

/// Decimal text of a natural number, filled up with zeros to `width` digits.
pub open spec fn padded(n: nat, width: nat) -> Seq<u16> {
    zeros(width - nat_text(n).len()) + nat_text(n)
}

/// Appends the decimal digits of `n`.
pub fn push_nat(out: &mut Vec<u16>, n: u64)
    ensures
        final(out)@ == old(out)@ + nat_text(n as nat),
    decreases n,
{
    if n >= 10 {
        push_nat(out, n / 10);
    }
    out.push((0x30 + n % 10) as u16);
    proof {
        assert(out@ == old(out)@ + nat_text(n as nat));
    }
}

/// Appends `n` zeros.
pub fn push_zeros(out: &mut Vec<u16>, n: i64)
    ensures
        final(out)@ == old(out)@ + zeros(n as int),
{
    let ghost start = out@;
    let mut i: i64 = 0;
    while i < n
        invariant
            0 <= i,
            i <= n || n < 0,
            n < 0 ==> i == 0,
            out@ == start + zeros(i as int),
        decreases n - i,
    {
        out.push(0x30);
        proof {
            assert(out@ == start + zeros(i + 1));
        }
        i = i + 1;
    }
    proof {
        assert(out@ == start + zeros(n as int));
    }
}

/// Number of decimal digits.
pub fn digit_count(n: u64) -> (r: u64)
    ensures
        r == nat_text(n as nat).len(),
        1 <= r <= 20,
        n < 10_000_000_000_000_000_000 ==> r <= 19,
{
    let mut x: u64 = n;
    let mut c: u64 = 1;
    proof {
        reveal_with_fuel(crate::decimal::pow10, 21);
        assert(n * 1 == n) by (nonlinear_arith);
    }
    while x >= 10
        invariant
            1 <= c <= 20,
            n < 10_000_000_000_000_000_000 ==> c <= 19,
            nat_text(n as nat).len() == nat_text(x as nat).len() + c - 1,
            x * crate::decimal::pow10((c - 1) as nat) <= n,
            crate::decimal::pow10(19) == 10_000_000_000_000_000_000,
        decreases x,
    {
        proof {
            let p = crate::decimal::pow10((c - 1) as nat);
            assert((x / 10) * (10 * p) <= x * p) by (nonlinear_arith)
                requires
                    10 * (x / 10) <= x,
            ;
            crate::decimal::lemma_pow10_monotone(19, c as nat);
            assert((x / 10) * (10 * p) >= 10 * p) by (nonlinear_arith)
                requires
                    x / 10 >= 1,
            ;
        }
        x = x / 10;
        c = c + 1;
    }
    c
}

/// Appends `n` filled up with zeros to `width` digits.
pub fn push_padded(out: &mut Vec<u16>, n: u64, width: u64)
    requires
        width <= 1000,
    ensures
        final(out)@ == old(out)@ + padded(n as nat, width as nat),
{
    let len: u64 = digit_count(n);
    push_zeros(out, width as i64 - len as i64);
    push_nat(out, n);
    proof {
        assert(out@ == old(out)@ + padded(n as nat, width as nat));
    }
}

/// Decimal text of an integer.
pub fn integer_text(n: i64) -> (r: Vec<u16>)
    ensures
        r@ == int_text(n as int),
{
    let mut out: Vec<u16> = Vec::new();
    if n < 0 {
        out.push(0x2d);
        if n == i64::MIN {
            push_nat(&mut out, 0x8000_0000_0000_0000);
        } else {
            push_nat(&mut out, (-n) as u64);
        }
    } else {
        push_nat(&mut out, n as u64);
    }
    proof {
        assert(out@ == int_text(n as int));
    }
    out
}

/// The digits of a number spell the number.
pub proof fn law_nat_text_value(n: nat)
    ensures
        nat_text(n).len() >= 1,
        forall|i: int| 0 <= i < nat_text(n).len() ==> is_digit(#[trigger] nat_text(n)[i]),
        digits_value(nat_text(n), 0, nat_text(n).len() as int) == n,
        nat_text(n)[0] == 0x30 ==> n == 0,
    decreases n,
{
    if n >= 10 {
        let h = nat_text(n / 10);
        law_nat_text_value(n / 10);
        lemma_digits_value_prefix(h, nat_text(n), 0, h.len() as int);
        assert(nat_text(n)[0] == h[0]);
    } else {
        reveal_with_fuel(digits_value, 2);
    }
}

pub proof fn lemma_digits_value_prefix(s: Seq<u16>, t: Seq<u16>, i: int, j: int)
    requires
        0 <= i <= j <= s.len(),
        j <= t.len(),
        forall|k: int| i <= k < j ==> s[k] == t[k],
    ensures
        digits_value(s, i, j) == digits_value(t, i, j),
    decreases j - i,
{
    if i < j {
        lemma_digits_value_prefix(s, t, i, j - 1);
    }
}

/// A number filled up to a width that it fits has that many digits, which spell it.
pub proof fn lemma_padded(n: nat, width: nat)
    requires
        n < pow10(width),
        width >= 1,
    ensures
        padded(n, width).len() == width,
        forall|i: int| 0 <= i < width ==> is_digit(#[trigger] padded(n, width)[i]),
        digits_value(padded(n, width), 0, width as int) == n,
{
    let d = nat_text(n);
    law_nat_text_value(n);
    lemma_nat_text_len(n);
    if d.len() > width {
        lemma_pow10_monotone(width, (d.len() - 1) as nat);
        assert(n == 0);
        assert(nat_text(0).len() == 1);
    }
    let z = width - d.len();
    let p = padded(n, width);
    assert(p =~= zeros(z) + d);
    lemma_leading_zeros(d, z as nat, d.len());
}

proof fn lemma_leading_zeros(d: Seq<u16>, z: nat, k: nat)
    requires
        k <= d.len(),
    ensures
        digits_value(zeros(z as int) + d, 0, (z + k) as int) == digits_value(d, 0, k as int),
    decreases z + k,
{
    let s = zeros(z as int) + d;
    if k > 0 {
        lemma_leading_zeros(d, z, (k - 1) as nat);
        assert(s[z + k - 1] == d[k - 1]);
    } else if z > 0 {
        lemma_leading_zeros(d, (z - 1) as nat, 0);
        lemma_digits_value_prefix(zeros(z - 1) + d, s, 0, z - 1);
        assert(s[z - 1] == 0x30);
    }
}

/// Digits spell the same number wherever they stand.
pub proof fn lemma_digits_value_shift(s: Seq<u16>, i: int, t: Seq<u16>, n: nat)
    requires
        0 <= i,
        i + n <= s.len(),
        n <= t.len(),
        forall|k: int| 0 <= k < n ==> s[i + k] == #[trigger] t[k],
    ensures
        digits_value(s, i, i + n) == digits_value(t, 0, n as int),
    decreases n,
{
    if n > 0 {
        lemma_digits_value_shift(s, i, t, (n - 1) as nat);
        assert(s[i + (n - 1)] == t[n - 1]);
    }
}

/// The array index that a text spells: at most ten digits without a zero in front
/// of others, up to the largest `u32`.
pub open spec fn index_of_text(t: Seq<u16>) -> Option<u32> {
    if 1 <= t.len() <= 10 && digits_end(t, 0) == t.len() && (t.len() > 1 ==> t[0] != 0x30)
        && digits_value(t, 0, t.len() as int) <= u32::MAX {
        Some(digits_value(t, 0, t.len() as int) as u32)
    } else {
        None
    }
}

/// The array index that a text spells.
pub fn text_index(t: &[u16]) -> (r: Option<u32>)
    ensures
        r == index_of_text(t@),
{
    let n: usize = t.len();
    if n == 0 || n > 10 {
        return None;
    }
    let end: usize = skip_digits(t, 0);
    if end != n || (n > 1 && t[0] == 0x30) {
        return None;
    }
    let mut v: u64 = 0;
    let mut i: usize = 0;
    proof {
        lemma_digits_end(t@, 0);
        reveal_with_fuel(pow10, 11);
    }
    while i < n
        invariant
            n == t@.len(),
            n <= 10,
            i <= n,
            forall|k: int| 0 <= k < n ==> is_digit(#[trigger] t@[k]),
            v == digits_value(t@, 0, i as int),
            v < pow10(i as nat),
            pow10(10) == 10_000_000_000,
        decreases n - i,
    {
        assert(is_digit(t@[i as int]));
        proof {
            lemma_pow10_monotone(i as nat, 10);
        }
        v = v * 10 + (t[i] - 0x30) as u64;
        i = i + 1;
    }
    if v <= 0xffff_ffff {
        Some(v as u32)
    } else {
        None
    }
}

pub proof fn lemma_nat_text_len(n: nat)
    ensures
        pow10((nat_text(n).len() - 1) as nat) <= n || n == 0,
        n < pow10(nat_text(n).len()),
        nat_text(n).len() >= 1,
    decreases n,
{
    if n >= 10 {
        lemma_nat_text_len(n / 10);
        let k = nat_text(n / 10).len();
        assert(nat_text(n).len() == k + 1);
        assert(pow10(k) == 10 * pow10((k - 1) as nat));
        assert(pow10(k + 1) == 10 * pow10(k));
    } else {
        assert(pow10(1) == 10) by {
            reveal_with_fuel(pow10, 2);
        }
    }
}

proof fn lemma_all_digits_end(t: Seq<u16>, i: int)
    requires
        0 <= i <= t.len(),
        forall|k: int| i <= k < t.len() ==> is_digit(#[trigger] t[k]),
    ensures
        digits_end(t, i) == t.len(),
    decreases t.len() - i,
{
    if i < t.len() {
        lemma_all_digits_end(t, i + 1);
    }
}

/// The text of an array index spells that index.
pub proof fn law_index_text(n: u32)
    ensures
        index_of_text(nat_text(n as nat)) == Some(n),
{
    let t = nat_text(n as nat);
    law_nat_text_value(n as nat);
    lemma_nat_text_len(n as nat);
    lemma_all_digits_end(t, 0);
    if t.len() > 10 {
        reveal_with_fuel(pow10, 11);
        lemma_pow10_monotone(10, (t.len() - 1) as nat);
    }
    if t.len() > 1 && t[0] == 0x30 {
        assert(nat_text(0).len() == 1);
    }
}

/// Only the decimal text of an index spells it: no index has two texts.
pub proof fn law_index_text_unique(t: Seq<u16>)
    requires
        index_of_text(t) is Some,
    ensures
        t == nat_text(index_of_text(t).unwrap() as nat),
{
    lemma_digits_end(t, 0);
    lemma_digits_text(t);
}

proof fn lemma_digits_text(t: Seq<u16>)
    requires
        t.len() >= 1,
        forall|k: int| 0 <= k < t.len() ==> is_digit(#[trigger] t[k]),
        t.len() > 1 ==> t[0] != 0x30,
    ensures
        nat_text(digits_value(t, 0, t.len() as int)) == t,
        t[0] != 0x30 ==> digits_value(t, 0, t.len() as int) > 0,
    decreases t.len(),
{
    let n = t.len() as int;
    let last = t[n - 1];
    assert(is_digit(last));
    if n == 1 {
        reveal_with_fuel(digits_value, 2);
        assert(nat_text((last - 0x30) as nat) =~= t);
    } else {
        let h = t.drop_last();
        assert(is_digit(t[0]));
        assert forall|k: int| 0 <= k < h.len() implies is_digit(#[trigger] h[k]) by {
            assert(h[k] == t[k]);
        }
        lemma_digits_text(h);
        lemma_digits_value_prefix(h, t, 0, n - 1);
        let v = digits_value(t, 0, n);
        let w = digits_value(t, 0, n - 1);
        assert(v == 10 * w + (last - 0x30));
        assert(w > 0);
        assert(v / 10 == w && v % 10 == last - 0x30);
        assert(nat_text(v) =~= t);
    }
}

// ---------------------------------------------------------------------------
// Texts of doubles
// ---------------------------------------------------------------------------

/// `s * 10^e` written out without an exponent.
pub open spec fn positional(s: nat, e: int) -> Seq<u16> {
    let d = nat_text(s);
    let k = d.len() as int;
    if e >= 0 {
        d + zeros(e)
    } else if k + e > 0 {
        d.take(k + e) + seq![0x2eu16] + d.skip(k + e)
    } else {
        seq![0x30u16, 0x2e] + zeros(-(k + e)) + d
    }
}

/// Text of a finite number: the shortest decimal that reads back as it, without
/// an exponent; both zeros keep their sign.
pub open spec fn finite_text(b: u64) -> Seq<u16> {
    let sign = if is_negative(b) {
        seq![0x2du16]
    } else {
        seq![]
    };
    if magnitude(b) == 0 {
        sign + seq![0x30u16]
    } else {
        let (s, e) = shortest_decimal(b);
        sign + positional(s, e)
    }
}

/// Text of a number.
pub open spec fn double_text(b: u64) -> Seq<u16> {
    if is_nan(b) {
        utf16_of("NaN"@)
    } else if !is_finite(b) {
        if is_negative(b) {
            utf16_of("-Infinity"@)
        } else {
            utf16_of("Infinity"@)
        }
    } else {
        finite_text(b)
    }
}

/// Appends `s * 10^e` written out without an exponent.
pub fn push_positional(out: &mut Vec<u16>, s: u64, e: i64)
    requires
        -5000 < e < 5000,
    ensures
        final(out)@ == old(out)@ + positional(s as nat, e as int),
{
    let ghost start = out@;
    let mut digits: Vec<u16> = Vec::new();
    push_nat(&mut digits, s);
    proof {
        assert(digits@ == nat_text(s as nat));
    }
    let k: i64 = digit_count(s) as i64;
    if e >= 0 {
        push_all(out, digits.as_slice());
        push_zeros(out, e);
    } else if k + e > 0 {
        let cut: usize = (k + e) as usize;
        let whole: Vec<u16> = copy_range(digits.as_slice(), 0, cut);
        let rest: Vec<u16> = copy_range(digits.as_slice(), cut, digits.len());
        push_all(out, whole.as_slice());
        out.push(0x2e);
        push_all(out, rest.as_slice());
    } else {
        out.push(0x30);
        out.push(0x2e);
        push_zeros(out, -(k + e));
        push_all(out, digits.as_slice());
    }
    proof {
        assert(out@ == start + positional(s as nat, e as int));
    }
}

/// Text of a number.
pub fn number_text(b: u64) -> (r: Vec<u16>)
    ensures
        r@ == double_text(b),
{
    if nan(b) {
        return utf16("NaN");
    }
    if !finite(b) {
        if b >= SIGN {
            return utf16("-Infinity");
        }
        return utf16("Infinity");
    }
    let mut out: Vec<u16> = Vec::new();
    if b >= SIGN {
        out.push(0x2d);
    }
    if zero(b) {
        out.push(0x30);
    } else {
        let (s, e) = shortest(b);
        push_positional(&mut out, s, e);
    }
    proof {
        assert(out@ == finite_text(b));
    }
    out
}

// ---------------------------------------------------------------------------
// Lone surrogates
// ---------------------------------------------------------------------------

/// Whether a unit is the first half of a surrogate pair.
pub open spec fn is_high(c: u16) -> bool {
    0xd800 <= c <= 0xdbff
}

/// Whether a unit is the second half of a surrogate pair.
pub open spec fn is_low(c: u16) -> bool {
    0xdc00 <= c <= 0xdfff
}

/// Whether the unit at `i` is half of a pair without its other half beside it.
pub open spec fn is_lone(s: Seq<u16>, i: int) -> bool {
    ||| is_high(s[i]) && !(i + 1 < s.len() && is_low(s[i + 1]))
    ||| is_low(s[i]) && !(i > 0 && is_high(s[i - 1]))
}

/// The text with every lone half of a pair replaced by U+FFFD.
pub open spec fn well_formed(s: Seq<u16>) -> Seq<u16> {
    Seq::new(
        s.len(),
        |i: int|
            if is_lone(s, i) {
                0xfffdu16
            } else {
                s[i]
            },
    )
}

/// The text with every lone half of a pair replaced by U+FFFD.
pub fn to_well_formed(s: &[u16]) -> (r: Vec<u16>)
    ensures
        r@ == well_formed(s@),
{
    let n: usize = s.len();
    let mut out: Vec<u16> = Vec::new();
    let mut i: usize = 0;
    while i < n
        invariant
            n == s@.len(),
            i <= n,
            out@.len() == i,
            forall|k: int| 0 <= k < i ==> out@[k] == well_formed(s@)[k],
        decreases n - i,
    {
        let c: u16 = s[i];
        let high: bool = 0xd800 <= c && c <= 0xdbff;
        let low: bool = 0xdc00 <= c && c <= 0xdfff;
        let next_low: bool = i + 1 < n && 0xdc00 <= s[i + 1] && s[i + 1] <= 0xdfff;
        let prev_high: bool = i > 0 && 0xd800 <= s[i - 1] && s[i - 1] <= 0xdbff;
        if (high && !next_low) || (low && !prev_high) {
            out.push(0xfffd);
        } else {
            out.push(c);
        }
        i = i + 1;
    }
    proof {
        assert(out@ =~= well_formed(s@));
    }
    out
}

// ---------------------------------------------------------------------------
// White space and words
// ---------------------------------------------------------------------------

/// Whether a unit is white space as Unicode has it.
pub open spec fn is_space(c: u16) -> bool {
    (9 <= c <= 13) || c == 0x20 || c == 0x85 || c == 0xa0 || c == 0x1680 || (0x2000 <= c <= 0x200a)
        || c == 0x2028 || c == 0x2029 || c == 0x202f || c == 0x205f || c == 0x3000
}

/// Whether a unit is white space as Unicode has it.
pub fn space(c: u16) -> (r: bool)
    ensures
        r == is_space(c),
{
    (9 <= c && c <= 13) || c == 0x20 || c == 0x85 || c == 0xa0 || c == 0x1680 || (0x2000 <= c && c
        <= 0x200a) || c == 0x2028 || c == 0x2029 || c == 0x202f || c == 0x205f || c == 0x3000
}

/// Index of the first unit from `i` on that is no white space.
pub open spec fn spaces_end(s: Seq<u16>, i: int) -> int
    decreases s.len() - i,
{
    if 0 <= i < s.len() && is_space(s[i]) {
        spaces_end(s, i + 1)
    } else {
        i
    }
}

/// Index of the first white space from `i` on.
pub open spec fn word_end(s: Seq<u16>, i: int) -> int
    decreases s.len() - i,
{
    if 0 <= i < s.len() && !is_space(s[i]) {
        word_end(s, i + 1)
    } else {
        i
    }
}

/// Index behind the last unit before `j` that is no white space and not before `i`.
pub open spec fn spaces_start(s: Seq<u16>, i: int, j: int) -> int
    decreases j - i,
{
    if i < j <= s.len() && is_space(s[j - 1]) {
        spaces_start(s, i, j - 1)
    } else {
        j
    }
}

/// The text without the white space at its ends.
pub open spec fn trimmed(s: Seq<u16>) -> Seq<u16> {
    let a = spaces_end(s, 0);
    s.subrange(a, spaces_start(s, a, s.len() as int))
}

/// The words of a text from `i` on.
pub open spec fn words(s: Seq<u16>, i: int) -> Seq<Seq<u16>>
    decreases s.len() - i,
{
    let a = spaces_end(s, i);
    if 0 <= i <= a < s.len() && a < word_end(s, a) <= s.len() {
        seq![s.subrange(a, word_end(s, a))] + words(s, word_end(s, a))
    } else {
        seq![]
    }
}

/// Index of the first unit from `i` on that is no white space.
pub fn skip_spaces(s: &[u16], i: usize) -> (r: usize)
    requires
        i <= s@.len(),
    ensures
        r == spaces_end(s@, i as int),
        i <= r <= s@.len(),
        r < s@.len() ==> !is_space(s@[r as int]),
{
    let mut j: usize = i;
    while j < s.len() && space(s[j])
        invariant
            i <= j <= s@.len(),
            spaces_end(s@, i as int) == spaces_end(s@, j as int),
        decreases s@.len() - j,
    {
        j = j + 1;
    }
    j
}

/// The text without the white space at its ends.
pub fn trim(s: &[u16]) -> (r: Vec<u16>)
    ensures
        r@ == trimmed(s@),
{
    let a: usize = skip_spaces(s, 0);
    let mut j: usize = s.len();
    while j > a && space(s[j - 1])
        invariant
            a <= j <= s@.len(),
            spaces_start(s@, a as int, s@.len() as int) == spaces_start(s@, a as int, j as int),
        decreases j,
    {
        j = j - 1;
    }
    copy_range(s, a, j)
}

/// The texts that a vector of texts holds.
pub open spec fn views(v: Seq<Vec<u16>>) -> Seq<Seq<u16>> {
    v.map_values(|x: Vec<u16>| x@)
}

/// The words of a text.
pub fn split_words(s: &[u16]) -> (r: Vec<Vec<u16>>)
    ensures
        views(r@) == words(s@, 0),
{
    let mut out: Vec<Vec<u16>> = Vec::new();
    let mut i: usize = 0;
    proof {
        assert(views(out@) =~= seq![]);
        assert(views(out@) + words(s@, 0) =~= words(s@, 0));
    }
    loop
        invariant
            i <= s@.len(),
            words(s@, 0) == views(out@) + words(s@, i as int),
        ensures
            words(s@, 0) == views(out@),
        decreases s@.len() - i,
    {
        let a: usize = skip_spaces(s, i);
        if a >= s.len() {
            proof {
                assert(views(out@) + words(s@, i as int) =~= views(out@));
            }
            break ;
        }
        let mut j: usize = a;
        while j < s.len() && !space(s[j])
            invariant
                a <= j <= s@.len(),
                word_end(s@, a as int) == word_end(s@, j as int),
            decreases s@.len() - j,
        {
            j = j + 1;
        }
        proof {
            assert(word_end(s@, a as int) == word_end(s@, a + 1));
            lemma_word_end(s@, a + 1);
        }
        let word: Vec<u16> = copy_range(s, a, j);
        let ghost before = views(out@);
        let ghost w = word@;
        out.push(word);
        proof {
            assert(views(out@) =~= before.push(w));
            assert(words(s@, i as int) == seq![w] + words(s@, j as int));
            assert(before + (seq![w] + words(s@, j as int)) =~= before.push(w) + words(s@, j as int));
        }
        i = j;
    }
    out
}

proof fn lemma_word_end(s: Seq<u16>, i: int)
    ensures
        word_end(s, i) >= i,
        i <= s.len() ==> word_end(s, i) <= s.len(),
    decreases s.len() - i,
{
    if 0 <= i < s.len() && !is_space(s[i]) {
        lemma_word_end(s, i + 1);
    }
}

/// Whether two texts of one length are the same but for the case of ASCII letters.
pub open spec fn same_ignoring_case(a: Seq<u16>, b: Seq<u16>) -> bool {
    a.len() == b.len() && forall|i: int|
        #![trigger a[i]]
        0 <= i < a.len() ==> lower(a[i]) == lower(b[i])
}

/// The unit in lower case where it is an ASCII letter.
pub open spec fn lower(c: u16) -> u16 {
    if 0x41 <= c <= 0x5a {
        (c + 0x20) as u16
    } else {
        c
    }
}

/// The unit in lower case where it is an ASCII letter.
fn lower_unit(c: u16) -> (r: u16)
    ensures
        r == lower(c),
{
    if 0x41 <= c && c <= 0x5a {
        c + 0x20
    } else {
        c
    }
}

/// Whether two texts are the same but for the case of ASCII letters.
pub fn eq_ignore_case(a: &[u16], b: &[u16]) -> (r: bool)
    ensures
        r == same_ignoring_case(a@, b@),
{
    if a.len() != b.len() {
        return false;
    }
    let mut i: usize = 0;
    while i < a.len()
        invariant
            i <= a@.len(),
            a@.len() == b@.len(),
            forall|k: int| #![trigger a@[k]] 0 <= k < i ==> lower(a@[k]) == lower(b@[k]),
        decreases a@.len() - i,
    {
        if lower_unit(a[i]) != lower_unit(b[i]) {
            assert(lower(a@[i as int]) != lower(b@[i as int]));
            return false;
        }
        i = i + 1;
    }
    true
}

/// Two strings with the same units are the same.
pub proof fn law_units_unique(a: Seq<char>, b: Seq<char>)
    requires
        utf16_of(a) == utf16_of(b),
    ensures
        a == b,
    decreases a.len(),
{
    if a.len() == 0 {
        assert(utf16_of(a).len() == 0);
        if b.len() > 0 {
            lemma_char_units(b.last());
            assert(utf16_of(b) == utf16_of(b.drop_last()) + char_units(b.last()));
            assert(utf16_of(b).len() > 0);
        }
        assert(b.len() == 0);
        assert(a =~= b);
    } else {
        lemma_char_units(a.last());
        assert(utf16_of(a) == utf16_of(a.drop_last()) + char_units(a.last()));
        assert(utf16_of(a).len() > 0);
        assert(b.len() > 0);
        let u = utf16_of(a);
        let x = char_units(a.last());
        let y = char_units(b.last());
        let p = utf16_of(a.drop_last());
        let q = utf16_of(b.drop_last());
        assert(u == p + x && u == q + y);
        let n = u.len() as int;
        assert(u[n - 1] == x[x.len() - 1]);
        assert(u[n - 1] == y[y.len() - 1]);
        lemma_char_units(a.last());
        lemma_char_units(b.last());
        assert(x.len() == y.len());
        if x.len() == 2 {
            assert(u[n - 2] == x[0]);
            assert(u[n - 2] == y[0]);
        }
        assert(x =~= y);
        assert(a.last() == b.last());
        assert(p =~= u.take(n - x.len()));
        assert(q =~= u.take(n - x.len()));
        law_units_unique(a.drop_last(), b.drop_last());
        assert(a =~= a.drop_last().push(a.last()));
        assert(b =~= b.drop_last().push(b.last()));
    }
}

/// Units of one character: a surrogate pair, or one unit that is no surrogate.
proof fn lemma_char_units(c: char)
    ensures
        char_units(c).len() == 1 ==> c as int == char_units(c)[0] as int && !is_high(
            char_units(c)[0],
        ) && !is_low(char_units(c)[0]),
        char_units(c).len() == 2 ==> is_high(char_units(c)[0]) && is_low(char_units(c)[1]) && c as int
            == 0x1_0000 + (char_units(c)[0] - 0xd800) * 0x400 + (char_units(c)[1] - 0xdc00),
{
    let n = c as u32;
    assert(n <= 0x10_ffff);
    assert(!(0xd800 <= n <= 0xdfff));
}

// ---------------------------------------------------------------------------
// Characters
// ---------------------------------------------------------------------------

/// `String::from_utf16_lossy`: the characters that the units spell, with lone
/// surrogates replaced.
#[verifier::external_body]
fn lossy_string(units: &[u16]) -> (r: String)
    ensures
        utf16_of(r@) == well_formed(units@),
{
    String::from_utf16_lossy(units)
}

/// Whether characters spell a text with its lone surrogates replaced.
pub open spec fn spells(chars: Seq<char>, t: Seq<u16>) -> bool {
    utf16_of(chars) == well_formed(t)
}

/// The characters that a text spells, with lone surrogates replaced.
pub open spec fn chars_of(t: Seq<u16>) -> Seq<char> {
    choose|chars: Seq<char>| spells(chars, t)
}

/// The characters that a text spells, with lone surrogates replaced.
pub fn to_chars(t: &[u16]) -> (r: String)
    ensures
        r@ == chars_of(t@),
{
    let r: String = lossy_string(t);
    proof {
        assert(spells(r@, t@));
        law_units_unique(r@, chars_of(t@));
    }
    r
}

} // verus!
