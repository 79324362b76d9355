//! JSON texts: string literals, number literals and white space.
use vstd::prelude::*;

use crate::decimal::{digits_end, skip_digits};
use crate::message::{nat_chars, numbered};
use crate::text::{index_of_text, is_high, is_lone, is_low, push_all, text_index};

verus! {

// ---------------------------------------------------------------------------
// Quoting
// ---------------------------------------------------------------------------

/// Lower-case hexadecimal digit.
pub open spec fn hex_digit(d: int) -> u16 {
    if d < 10 {
        (0x30 + d) as u16
    } else {
        (0x57 + d) as u16
    }
}

/// The escape `\uXXXX` of a unit.
pub open spec fn unicode_escape(u: u16) -> Seq<u16> {
    seq![
        0x5cu16,
        0x75,
        hex_digit(u as int / 4096),
        hex_digit(u as int / 256 % 16),
        hex_digit(u as int / 16 % 16),
        hex_digit(u as int % 16),
    ]
}

/// How the unit at `i` is written in a string literal: short escapes where there are
/// any, `\uXXXX` for other controls and for lone surrogates, else the unit itself.
pub open spec fn quoted_unit(s: Seq<u16>, i: int) -> Seq<u16> {
    let u = s[i];
    if u == 0x08 {
        seq![0x5cu16, 0x62]
    } else if u == 0x09 {
        seq![0x5cu16, 0x74]
    } else if u == 0x0a {
        seq![0x5cu16, 0x6e]
    } else if u == 0x0c {
        seq![0x5cu16, 0x66]
    } else if u == 0x0d {
        seq![0x5cu16, 0x72]
    } else if u == 0x22 {
        seq![0x5cu16, 0x22]
    } else if u == 0x5c {
        seq![0x5cu16, 0x5c]
    } else if u < 0x20 || is_lone(s, i) {
        unicode_escape(u)
    } else {
        seq![u]
    }
}

/// The first `k` units, as they are written in a string literal.
pub open spec fn quoted_prefix(s: Seq<u16>, k: int) -> Seq<u16>
    decreases k,
{
    if k <= 0 {
        seq![]
    } else {
        quoted_prefix(s, k - 1) + quoted_unit(s, k - 1)
    }
}

/// The string literal of a text.
pub open spec fn quoted(s: Seq<u16>) -> Seq<u16> {
    seq![0x22u16] + quoted_prefix(s, s.len() as int) + seq![0x22u16]
}

/// Lower-case hexadecimal digit.
fn hex_unit(d: u16) -> (r: u16)
    requires
        d < 16,
    ensures
        r == hex_digit(d as int),
{
    if d < 10 {
        0x30 + d
    } else {
        0x57 + d
    }
}

/// Appends the escape `\uXXXX` of a unit.
fn push_unicode_escape(u: u16, out: &mut Vec<u16>)
    ensures
        final(out)@ == old(out)@ + unicode_escape(u),
{
    out.push(0x5c);
    out.push(0x75);
    out.push(hex_unit(u / 4096));
    out.push(hex_unit(u / 256 % 16));
    out.push(hex_unit(u / 16 % 16));
    out.push(hex_unit(u % 16));
    proof {
        assert(out@ =~= old(out)@ + unicode_escape(u));
    }
}

/// Appends a backslash and a unit.
fn push_escape(c: u16, out: &mut Vec<u16>)
    ensures
        final(out)@ == old(out)@ + seq![0x5cu16, c],
{
    out.push(0x5c);
    out.push(c);
    proof {
        assert(out@ =~= old(out)@ + seq![0x5cu16, c]);
    }
}

/// Appends the string literal of a text. Lone surrogates are escaped, not replaced.
pub fn quote_units(units: &[u16], out: &mut Vec<u16>)
    ensures
        final(out)@ == old(out)@ + quoted(units@),
{
    let ghost start = out@;
    let n: usize = units.len();
    out.push(0x22);
    let mut i: usize = 0;
    proof {
        assert(out@ =~= start + seq![0x22u16] + quoted_prefix(units@, 0));
    }
    while i < n
        invariant
            n == units@.len(),
            i <= n,
            out@ == start + seq![0x22u16] + quoted_prefix(units@, i as int),
        decreases n - i,
    {
        let ghost before = out@;
        let u: u16 = units[i];
        let high: bool = 0xd800 <= u && u <= 0xdbff;
        let low: bool = 0xdc00 <= u && u <= 0xdfff;
        let next_low: bool = i + 1 < n && 0xdc00 <= units[i + 1] && units[i + 1] <= 0xdfff;
        let prev_high: bool = i > 0 && 0xd800 <= units[i - 1] && units[i - 1] <= 0xdbff;
        if u == 0x08 {
            push_escape(0x62, out);
        } else if u == 0x09 {
            push_escape(0x74, out);
        } else if u == 0x0a {
            push_escape(0x6e, out);
        } else if u == 0x0c {
            push_escape(0x66, out);
        } else if u == 0x0d {
            push_escape(0x72, out);
        } else if u == 0x22 {
            push_escape(0x22, out);
        } else if u == 0x5c {
            push_escape(0x5c, out);
        } else if u < 0x20 || (high && !next_low) || (low && !prev_high) {
            push_unicode_escape(u, out);
        } else {
            out.push(u);
            proof {
                assert(out@ =~= before + seq![u]);
            }
        }
        proof {
            assert(out@ == before + quoted_unit(units@, i as int));
            assert(out@ =~= start + seq![0x22u16] + quoted_prefix(units@, i + 1));
        }
        i = i + 1;
    }
    out.push(0x22);
    proof {
        assert(out@ =~= start + quoted(units@));
    }
}

// ---------------------------------------------------------------------------
// Positions
// ---------------------------------------------------------------------------

/// Bytes that a unit takes in UTF-8.
pub open spec fn unit_bytes(u: u16) -> nat {
    if u < 0x80 {
        1
    } else if u < 0x800 || 0xd800 <= u <= 0xdfff {
        2
    } else {
        3
    }
}

/// Bytes that the first `k` units of a text take in UTF-8.
pub open spec fn byte_position(s: Seq<u16>, k: int) -> nat
    decreases k,
{
    if k <= 0 {
        0
    } else {
        byte_position(s, k - 1) + unit_bytes(s[k - 1])
    }
}

proof fn lemma_byte_monotone(s: Seq<u16>, i: int, j: int)
    requires
        0 <= i <= j,
    ensures
        byte_position(s, i) + (j - i) <= byte_position(s, j),
    decreases j - i,
{
    if i < j {
        lemma_byte_monotone(s, i, j - 1);
    }
}

/// A message with the position of a unit in bytes.
pub open spec fn at_position(text: Seq<char>, s: Seq<u16>, i: int) -> Seq<char> {
    text + nat_chars(byte_position(s, i))
}

/// Bytes that the first `k` units of a text take in UTF-8.
fn bytes_before(s: &[u16], k: usize) -> (r: u128)
    requires
        k <= s@.len(),
    ensures
        r == byte_position(s@, k as int),
        r <= 3 * k,
{
    let mut n: u128 = 0;
    let mut i: usize = 0;
    while i < k
        invariant
            i <= k <= s@.len(),
                n == byte_position(s@, i as int),
            n <= 3 * i,
            i <= usize::MAX,
        decreases k - i,
    {
        let u: u16 = s[i];
        n = n + if u < 0x80 {
            1
        } else if u < 0x800 || (0xd800 <= u && u <= 0xdfff) {
            2
        } else {
            3
        };
        i = i + 1;
    }
    n
}

// ---------------------------------------------------------------------------
// Reading string literals
// ---------------------------------------------------------------------------

/// Value of a hexadecimal digit, `-1` of anything else.
pub open spec fn hex_value(u: u16) -> int {
    if 0x30 <= u <= 0x39 {
        u - 0x30
    } else if 0x41 <= u <= 0x46 {
        u - 0x37
    } else if 0x61 <= u <= 0x66 {
        u - 0x57
    } else {
        -1
    }
}

/// Whether `s[i..i + 4]` is four hexadecimal digits.
pub open spec fn is_hex4(s: Seq<u16>, i: int) -> bool {
    &&& 0 <= i
    &&& i + 4 <= s.len()
    &&& hex_value(s[i]) >= 0
    &&& hex_value(s[i + 1]) >= 0
    &&& hex_value(s[i + 2]) >= 0
    &&& hex_value(s[i + 3]) >= 0
}

/// The number in hexadecimal at `i`.
pub open spec fn hex4(s: Seq<u16>, i: int) -> u16 {
    (hex_value(s[i]) * 4096 + hex_value(s[i + 1]) * 256 + hex_value(s[i + 2]) * 16 + hex_value(
        s[i + 3],
    )) as u16
}

/// One element of a string literal at `i`: what it stands for and the index behind it,
/// or what is wrong with it.
pub open spec fn string_element(s: Seq<u16>, i: int) -> Result<(Seq<u16>, int), Seq<char>> {
    let c = s[i];
    if c != 0x5c {
        if c < 0x20 {
            Err(at_position("Unexpected control character at position "@, s, i))
        } else {
            Ok((seq![c], i + 1))
        }
    } else if i + 1 >= s.len() {
        Err("Unterminated escape"@)
    } else {
        let e = s[i + 1];
        if e == 0x22 || e == 0x5c || e == 0x2f {
            Ok((seq![e], i + 2))
        } else if e == 0x62 {
            Ok((seq![0x08u16], i + 2))
        } else if e == 0x66 {
            Ok((seq![0x0cu16], i + 2))
        } else if e == 0x6e {
            Ok((seq![0x0au16], i + 2))
        } else if e == 0x72 {
            Ok((seq![0x0du16], i + 2))
        } else if e == 0x74 {
            Ok((seq![0x09u16], i + 2))
        } else if e == 0x75 {
            if byte_position(s, s.len() as int) < byte_position(s, i + 2) + 4 {
                Err("Truncated \\u escape"@)
            } else if !is_hex4(s, i + 2) {
                Err("Invalid \\u escape"@)
            } else {
                let u = hex4(s, i + 2);
                if is_high(u) && i + 7 < s.len() && s[i + 6] == 0x5c && s[i + 7] == 0x75 && is_hex4(
                    s,
                    i + 8,
                ) && is_low(hex4(s, i + 8)) {
                    Ok((seq![u, hex4(s, i + 8)], i + 12))
                } else if is_high(u) || is_low(u) {
                    Err("Lone surrogate"@)
                } else {
                    Ok((seq![u], i + 6))
                }
            }
        } else {
            Err("Invalid escape"@)
        }
    }
}

/// What the rest of a string literal stands for, and the index behind it; `out` is
/// what came before.
pub open spec fn string_rest(s: Seq<u16>, i: int, out: Seq<u16>) -> Result<
    (Seq<u16>, int),
    Seq<char>,
>
    decreases s.len() - i,
{
    if i < 0 || i >= s.len() {
        Err("Unterminated string"@)
    } else if s[i] == 0x22 {
        Ok((out, i + 1))
    } else {
        match string_element(s, i) {
            Err(e) => Err(e),
            Ok((piece, next)) => if i < next {
                string_rest(s, next, out + piece)
            } else {
                Err("Unterminated string"@)
            },
        }
    }
}

/// What a string literal at `i` stands for, and the index behind it.
pub open spec fn string_literal(s: Seq<u16>, i: int) -> Result<(Seq<u16>, int), Seq<char>> {
    if 0 <= i < s.len() && s[i] == 0x22 {
        string_rest(s, i + 1, seq![])
    } else {
        Err(at_position("Unexpected character at position "@, s, i))
    }
}

/// Whether a unit is JSON white space.
pub open spec fn is_json_space(u: u16) -> bool {
    u == 0x20 || u == 0x09 || u == 0x0a || u == 0x0d
}

/// Index of the first unit from `i` on that is no JSON white space.
pub open spec fn json_space_end(s: Seq<u16>, i: int) -> int
    decreases s.len() - i,
{
    if 0 <= i < s.len() && is_json_space(s[i]) {
        json_space_end(s, i + 1)
    } else {
        i
    }
}

pub proof fn lemma_json_space_end(s: Seq<u16>, i: int)
    ensures
        json_space_end(s, i) >= i,
        i <= s.len() ==> json_space_end(s, i) <= s.len(),
    decreases s.len() - i,
{
    if 0 <= i < s.len() && is_json_space(s[i]) {
        lemma_json_space_end(s, i + 1);
    }
}

/// Index behind the number literal at `i`: a minus sign or none, a zero or digits that
/// do not start with one, a point and digits or none, an exponent with digits or none.
/// `None` where this is not what stands there.
pub open spec fn number_end(s: Seq<u16>, i: int) -> Option<int> {
    let a = if 0 <= i < s.len() && s[i] == 0x2d {
        i + 1
    } else {
        i
    };
    let b = digits_end(s, a);
    if b == a || (s[a] == 0x30 && b > a + 1) {
        None
    } else {
        let c = if b < s.len() && s[b] == 0x2e {
            digits_end(s, b + 1)
        } else {
            b
        };
        if c == b + 1 {
            None
        } else if c < s.len() && (s[c] == 0x65 || s[c] == 0x45) {
            let d = if c + 1 < s.len() && (s[c + 1] == 0x2b || s[c + 1] == 0x2d) {
                c + 2
            } else {
                c + 1
            };
            let e = digits_end(s, d);
            if e == d {
                None
            } else {
                Some(e)
            }
        } else {
            Some(c)
        }
    }
}

/// Reads a JSON text.
pub struct Parser<'p> {
    /// The text.
    pub chars: &'p [u16],
    /// Index of the next unit.
    pub pos: usize,
}

impl<'p> Parser<'p> {
    /// Whether the position lies in the text.
    pub open spec fn wf(&self) -> bool {
        self.pos <= self.chars@.len()
    }

    /// Skips white space.
    pub fn ws(&mut self)
        requires
            old(self).wf(),
        ensures
            final(self).wf(),
            final(self).chars == old(self).chars,
            final(self).pos == json_space_end(old(self).chars@, old(self).pos as int),
            final(self).pos >= old(self).pos,
    {
        let n: usize = self.chars.len();
        let ghost start = self.pos;
        while self.pos < n && (self.chars[self.pos] == 0x20 || self.chars[self.pos] == 0x09
            || self.chars[self.pos] == 0x0a || self.chars[self.pos] == 0x0d)
            invariant
                n == self.chars@.len(),
                self.wf(),
                self.chars == old(self).chars,
                start <= self.pos,
                json_space_end(self.chars@, start as int) == json_space_end(
                    self.chars@,
                    self.pos as int,
                ),
            decreases n - self.pos,
        {
            self.pos = self.pos + 1;
        }
    }

    /// The next unit.
    pub fn peek(&self) -> (r: Option<u16>)
        ensures
            r == if self.pos < self.chars@.len() {
                Some(self.chars@[self.pos as int])
            } else {
                None
            },
    {
        if self.pos < self.chars.len() {
            Some(self.chars[self.pos])
        } else {
            None
        }
    }

    /// Takes the unit `b`, or fails.
    pub fn expect(&mut self, b: u16) -> (r: Result<(), String>)
        requires
            old(self).wf(),
        ensures
            final(self).wf(),
            final(self).chars == old(self).chars,
            old(self).pos < old(self).chars@.len() && old(self).chars@[old(self).pos as int] == b
                ==> r is Ok && final(self).pos == old(self).pos + 1,
            !(old(self).pos < old(self).chars@.len() && old(self).chars@[old(self).pos as int] == b)
                ==> r is Err && r->Err_0@ == at_position(
                "Unexpected character at position "@,
                old(self).chars@,
                old(self).pos as int,
            ) && final(self).pos == old(self).pos,
    {
        if self.pos < self.chars.len() && self.chars[self.pos] == b {
            self.pos = self.pos + 1;
            Ok(())
        } else {
            Err(self.error_here("Unexpected character at position "))
        }
    }

    /// A message with the current position.
    pub fn error_here(&self, text: &str) -> (r: String)
        requires
            self.wf(),
        ensures
            r@ == at_position(text@, self.chars@, self.pos as int),
    {
        numbered(text, bytes_before(self.chars, self.pos))
    }

    /// The number in hexadecimal at `i`.
    fn read_hex4(&self, i: usize) -> (r: Option<u16>)
        requires
            self.wf(),
            i <= self.chars@.len(),
        ensures
            r == if is_hex4(self.chars@, i as int) {
                Some(hex4(self.chars@, i as int))
            } else {
                None
            },
    {
        if self.chars.len() - i < 4 {
            return None;
        }
        let (a, ok_a) = hex_digit_value(self.chars[i]);
        let (b, ok_b) = hex_digit_value(self.chars[i + 1]);
        let (c, ok_c) = hex_digit_value(self.chars[i + 2]);
        let (d, ok_d) = hex_digit_value(self.chars[i + 3]);
        if !ok_a || !ok_b || !ok_c || !ok_d {
            return None;
        }
        Some(a * 4096 + b * 256 + c * 16 + d)
    }

    /// One element of a string literal.
    fn element(&mut self) -> (r: Result<(u16, Option<u16>), String>)
        requires
            old(self).wf(),
            old(self).pos < old(self).chars@.len(),
        ensures
            final(self).wf(),
            final(self).chars == old(self).chars,
            final(self).pos >= old(self).pos,
            match string_element(old(self).chars@, old(self).pos as int) {
                Ok((piece, next)) => {
                    &&& r is Ok
                    &&& final(self).pos == next
                    &&& next > old(self).pos
                    &&& match r->Ok_0.1 {
                        None => piece == seq![r->Ok_0.0],
                        Some(low) => piece == seq![r->Ok_0.0, low],
                    }
                },
                Err(e) => r is Err && r->Err_0@ == e,
            },
    {
        let n: usize = self.chars.len();
        let c: u16 = self.chars[self.pos];
        if c != 0x5c {
            if c < 0x20 {
                return Err(self.error_here("Unexpected control character at position "));
            }
            self.pos = self.pos + 1;
            return Ok((c, None));
        }
        if self.pos + 1 >= n {
            return Err("Unterminated escape".to_owned());
        }
        let e: u16 = self.chars[self.pos + 1];
        if e == 0x75 {
            return self.unicode_element();
        }
        let u: u16 = if e == 0x22 || e == 0x5c || e == 0x2f {
            e
        } else if e == 0x62 {
            0x08
        } else if e == 0x66 {
            0x0c
        } else if e == 0x6e {
            0x0a
        } else if e == 0x72 {
            0x0d
        } else if e == 0x74 {
            0x09
        } else {
            return Err("Invalid escape".to_owned());
        };
        self.pos = self.pos + 2;
        Ok((u, None))
    }

    /// A `\\u` escape of a string literal.
    fn unicode_element(&mut self) -> (r: Result<(u16, Option<u16>), String>)
        requires
            old(self).wf(),
            old(self).pos + 1 < old(self).chars@.len(),
            old(self).chars@[old(self).pos as int] == 0x5c,
            old(self).chars@[old(self).pos + 1] == 0x75,
        ensures
            final(self).wf(),
            final(self).chars == old(self).chars,
            final(self).pos >= old(self).pos,
            match string_element(old(self).chars@, old(self).pos as int) {
                Ok((piece, next)) => {
                    &&& r is Ok
                    &&& final(self).pos == next
                    &&& next > old(self).pos
                    &&& match r->Ok_0.1 {
                        None => piece == seq![r->Ok_0.0],
                        Some(low) => piece == seq![r->Ok_0.0, low],
                    }
                },
                Err(e) => r is Err && r->Err_0@ == e,
            },
    {
        let n: usize = self.chars.len();
        let at: usize = self.pos + 2;
        if bytes_before(self.chars, n) < bytes_before(self.chars, at) + 4 {
            return Err("Truncated \\u escape".to_owned());
        }
        let u: u16 = match self.read_hex4(at) {
            None => {
                return Err("Invalid \\u escape".to_owned());
            },
            Some(u) => u,
        };
        if 0xd800 <= u && u <= 0xdbff && n - at > 5 && self.chars[at + 4] == 0x5c
            && self.chars[at + 5] == 0x75 {
            match self.read_hex4(at + 6) {
                Some(low) => {
                    if 0xdc00 <= low && low <= 0xdfff {
                        self.pos = at + 10;
                        return Ok((u, Some(low)));
                    }
                },
                None => {},
            }
        }
        if 0xd800 <= u && u <= 0xdfff {
            return Err("Lone surrogate".to_owned());
        }
        self.pos = at + 4;
        Ok((u, None))
    }

    /// Reads a string literal.
    pub fn string(&mut self) -> (r: Result<Vec<u16>, String>)
        requires
            old(self).wf(),
        ensures
            final(self).wf(),
            final(self).chars == old(self).chars,
            final(self).pos >= old(self).pos,
            match string_literal(old(self).chars@, old(self).pos as int) {
                Ok((text, next)) => r is Ok && r->Ok_0@ == text && final(self).pos == next && next
                    > old(self).pos,
                Err(e) => r is Err && r->Err_0@ == e,
            },
    {
        match self.expect(0x22) {
            Err(e) => {
                return Err(e);
            },
            Ok(_) => {},
        }
        let mut out: Vec<u16> = Vec::new();
        let ghost s = self.chars@;
        let ghost start = self.pos as int;
        proof {
            assert(out@ =~= Seq::<u16>::empty());
        }
        loop
            invariant
                self.wf(),
                self.chars == old(self).chars,
                s == self.chars@,
                start == old(self).pos + 1,
                start <= self.pos,
                old(self).pos < s.len(),
                s[old(self).pos as int] == 0x22,
                string_rest(s, start, seq![]) == string_rest(s, self.pos as int, out@),
            decreases s.len() - self.pos,
        {
            if self.pos >= self.chars.len() {
                return Err("Unterminated string".to_owned());
            }
            if self.chars[self.pos] == 0x22 {
                self.pos = self.pos + 1;
                return Ok(out);
            }
            let ghost before = out@;
            match self.element() {
                Err(e) => {
                    return Err(e);
                },
                Ok((u, low)) => {
                    out.push(u);
                    proof {
                        assert(out@ =~= before + seq![u]);
                    }
                    match low {
                        None => {},
                        Some(l) => {
                            out.push(l);
                            proof {
                                assert(out@ =~= before + seq![u, l]);
                            }
                        },
                    }
                },
            }
        }
    }

    /// Skips a number literal.
    pub fn skip_number(&mut self) -> (r: bool)
        requires
            old(self).wf(),
        ensures
            final(self).wf(),
            final(self).chars == old(self).chars,
            match number_end(old(self).chars@, old(self).pos as int) {
                Some(end) => r && final(self).pos == end && end > old(self).pos,
                None => !r && final(self).pos == old(self).pos,
            },
    {
        let n: usize = self.chars.len();
        let a: usize = if self.pos < n && self.chars[self.pos] == 0x2d {
            self.pos + 1
        } else {
            self.pos
        };
        let b: usize = skip_digits(self.chars, a);
        if b == a || (self.chars[a] == 0x30 && b - a > 1) {
            return false;
        }
        let c: usize = if b < n && self.chars[b] == 0x2e {
            skip_digits(self.chars, b + 1)
        } else {
            b
        };
        if c - b == 1 {
            return false;
        }
        if c < n && (self.chars[c] == 0x65 || self.chars[c] == 0x45) {
            let d: usize = if c + 1 < n && (self.chars[c + 1] == 0x2b || self.chars[c + 1] == 0x2d) {
                c + 2
            } else {
                c + 1
            };
            let e: usize = skip_digits(self.chars, d);
            if e == d {
                return false;
            }
            self.pos = e;
        } else {
            self.pos = c;
        }
        true
    }
}

/// Value of a hexadecimal digit, and whether it is one.
fn hex_digit_value(u: u16) -> (r: (u16, bool))
    ensures
        r.1 == (hex_value(u) >= 0),
        r.1 ==> r.0 == hex_value(u),
        !r.1 ==> r.0 == 0,
        r.0 < 16,
{
    if 0x30 <= u && u <= 0x39 {
        (u - 0x30, true)
    } else if 0x41 <= u && u <= 0x46 {
        (u - 0x37, true)
    } else if 0x61 <= u && u <= 0x66 {
        (u - 0x57, true)
    } else {
        (0, false)
    }
}

/// The array index below the largest `u32` that a text spells.
pub open spec fn array_index_of(t: Seq<u16>) -> Option<u32> {
    match index_of_text(t) {
        Some(n) => if n == u32::MAX {
            None
        } else {
            Some(n)
        },
        None => None,
    }
}

/// Canonical array index: an integer below `2^32 - 1` without a zero in front.
pub fn array_index(text: &[u16]) -> (r: Option<u32>)
    ensures
        r == array_index_of(text@),
{
    match text_index(text) {
        Some(n) => if n == 0xffff_ffff {
            None
        } else {
            Some(n)
        },
        None => None,
    }
}

/// A line break and the indent of a depth, nothing without an indent unit.
pub open spec fn indent(unit: Seq<u16>, depth: nat) -> Seq<u16> {
    if unit.len() == 0 {
        seq![]
    } else {
        seq![0x0au16] + repeated(unit, depth)
    }
}

/// A text `n` times over.
pub open spec fn repeated(unit: Seq<u16>, n: nat) -> Seq<u16>
    decreases n,
{
    if n == 0 {
        seq![]
    } else {
        repeated(unit, (n - 1) as nat) + unit
    }
}

/// Appends a text `n` times.
pub fn push_repeated(out: &mut Vec<u16>, unit: &[u16], n: usize)
    ensures
        final(out)@ == old(out)@ + repeated(unit@, n as nat),
{
    let ghost start = out@;
    let mut i: usize = 0;
    proof {
        assert(start + repeated(unit@, 0) =~= start);
    }
    while i < n
        invariant
            i <= n,
            out@ == start + repeated(unit@, i as nat),
        decreases n - i,
    {
        push_all(out, unit);
        proof {
            assert(start + repeated(unit@, i as nat) + unit@ =~= start + repeated(
                unit@,
                (i + 1) as nat,
            ));
        }
        i = i + 1;
    }
}

/// Appends a line break and the indent of a depth, nothing without an indent unit.
pub fn newline_indent(unit: &[u16], depth: usize, out: &mut Vec<u16>)
    ensures
        final(out)@ == old(out)@ + indent(unit@, depth as nat),
{
    if unit.len() > 0 {
        out.push(0x0a);
        push_repeated(out, unit, depth);
    }
    proof {
        assert(out@ =~= old(out)@ + indent(unit@, depth as nat));
    }
}

// ---------------------------------------------------------------------------
// Reading back what was quoted
// ---------------------------------------------------------------------------

proof fn lemma_quoted_prefix_len(s: Seq<u16>, i: int, j: int)
    requires
        0 <= i <= j <= s.len(),
    ensures
        quoted_prefix(s, i).len() + (j - i) <= quoted_prefix(s, j).len(),
        quoted_prefix(s, i) == quoted_prefix(s, j).take(quoted_prefix(s, i).len() as int),
    decreases j - i,
{
    if i < j {
        lemma_quoted_prefix_len(s, i, j - 1);
        let a = quoted_prefix(s, j - 1);
        assert(quoted_prefix(s, j).take(quoted_prefix(s, i).len() as int) =~= a.take(
            quoted_prefix(s, i).len() as int,
        ));
    } else {
        assert(quoted_prefix(s, i) =~= quoted_prefix(s, j).take(quoted_prefix(s, i).len() as int));
    }
}

proof fn lemma_quoted_at(s: Seq<u16>, k: int)
    requires
        0 <= k < s.len(),
    ensures
        ({
            let a = 1 + quoted_prefix(s, k).len() as int;
            let piece = quoted_unit(s, k);
            let q = quoted(s);
            &&& 1 <= piece.len()
            &&& a + piece.len() < q.len()
            &&& 1 + quoted_prefix(s, k + 1).len() == a + piece.len()
            &&& forall|j: int| 0 <= j < piece.len() ==> #[trigger] q[a + j] == piece[j]
        }),
{
    let n = s.len() as int;
    lemma_quoted_prefix_len(s, k + 1, n);
    let a = 1 + quoted_prefix(s, k).len() as int;
    let piece = quoted_unit(s, k);
    let q = quoted(s);
    let p = quoted_prefix(s, k + 1);
    assert forall|j: int| 0 <= j < piece.len() implies #[trigger] q[a + j] == piece[j] by {
        assert(q[a + j] == quoted_prefix(s, n)[a - 1 + j]);
        assert(p[a - 1 + j] == piece[j]);
        assert(quoted_prefix(s, n).take(p.len() as int)[a - 1 + j] == p[a - 1 + j]);
    }
}

/// One unit of a string literal that stands at `x` in a text.
proof fn lemma_read_back_step(w: Seq<u16>, x: int, s: Seq<u16>, k: int)
    requires
        0 <= x,
        x + quoted(s).len() <= w.len(),
        w.subrange(x, x + quoted(s).len()) == quoted(s),
        0 <= k < s.len(),
        !is_lone(s, k),
    ensures
        ({
            let a = x + 1 + quoted_prefix(s, k).len() as int;
            let b = x + 1 + quoted_prefix(s, k + 1).len() as int;
            &&& string_element(w, a) == Ok::<(Seq<u16>, int), Seq<char>>((seq![s[k]], b))
            &&& w[a] != 0x22
            &&& 0 <= a < b < x + quoted(s).len()
        }),
{
    lemma_quoted_at(s, k);
    let c = 1 + quoted_prefix(s, k).len() as int;
    let a = x + c;
    let q = quoted(s);
    let u = s[k];
    let piece = quoted_unit(s, k);
    assert forall|j: int| 0 <= j < q.len() implies #[trigger] q[j] == w[x + j] by {
        assert(w.subrange(x, x + q.len())[j] == w[x + j]);
    }
    assert(q[c + 0] == piece[0]);
    if piece.len() >= 2 {
        assert(q[c + 1] == piece[1]);
    }
    if u < 0x20 && piece.len() == 6 {
        assert(q[c + 2] == piece[2]);
        assert(q[c + 3] == piece[3]);
        assert(q[c + 4] == piece[4]);
        assert(q[c + 5] == piece[5]);
        lemma_byte_monotone(w, a + 2, w.len() as int);
        assert(hex_digit(0) == 0x30);
        assert(u as int / 4096 == 0);
        assert(u as int / 256 % 16 == 0);
        assert(hex4(w, a + 2) == u);
    }
}

proof fn lemma_read_back(w: Seq<u16>, x: int, s: Seq<u16>, k: int)
    requires
        0 <= x,
        x + quoted(s).len() <= w.len(),
        w.subrange(x, x + quoted(s).len()) == quoted(s),
        0 <= k <= s.len(),
        forall|i: int| 0 <= i < s.len() ==> !is_lone(s, i),
    ensures
        string_rest(w, x + 1 + quoted_prefix(s, k).len() as int, s.take(k)) == Ok::<
            (Seq<u16>, int),
            Seq<char>,
        >((s, x + quoted(s).len())),
    decreases s.len() - k,
{
    let a = 1 + quoted_prefix(s, k).len() as int;
    if k < s.len() {
        lemma_read_back_step(w, x, s, k);
        lemma_read_back(w, x, s, k + 1);
        assert(s.take(k) + seq![s[k]] =~= s.take(k + 1));
    } else {
        assert(s.take(k) =~= s);
        assert(quoted(s)[a] == 0x22);
        assert(w.subrange(x, x + quoted(s).len())[a] == w[x + a]);
    }
}

/// A string literal reads back as the text it was written for, wherever it stands in a
/// text, if the text it was written for has no lone surrogate.
pub proof fn law_quote_reads_back(w: Seq<u16>, x: int, s: Seq<u16>)
    requires
        0 <= x,
        x + quoted(s).len() <= w.len(),
        w.subrange(x, x + quoted(s).len()) == quoted(s),
        forall|i: int| 0 <= i < s.len() ==> !is_lone(s, i),
    ensures
        string_literal(w, x) == Ok::<(Seq<u16>, int), Seq<char>>((s, x + quoted(s).len())),
{
    lemma_read_back(w, x, s, 0);
    assert(s.take(0) =~= Seq::<u16>::empty());
    assert(quoted(s)[0] == 0x22);
    assert(w.subrange(x, x + quoted(s).len())[0] == w[x]);
}

} // verus!
