//! Texts as UTF-8 bytes.
use vstd::prelude::*;

use crate::array::char_len;
use crate::string::{code_point, point_units};
use crate::text::{is_high, is_lone, is_low};

verus! {

/// UTF-8 bytes of a code point.
pub open spec fn point_bytes(n: int) -> Seq<u8> {
    if n < 0x80 {
        seq![n as u8]
    } else if n < 0x800 {
        seq![(0xc0 + n / 64) as u8, (0x80 + n % 64) as u8]
    } else if n < 0x1_0000 {
        seq![(0xe0 + n / 4096) as u8, (0x80 + n / 64 % 64) as u8, (0x80 + n % 64) as u8]
    } else {
        seq![
            (0xf0 + n / 262144) as u8,
            (0x80 + n / 4096 % 64) as u8,
            (0x80 + n / 64 % 64) as u8,
            (0x80 + n % 64) as u8,
        ]
    }
}

/// UTF-8 bytes of a text from the unit `i` on.
pub open spec fn utf8_of(t: Seq<u16>, i: int) -> Seq<u8>
    decreases t.len() - i,
{
    if i < 0 || i >= t.len() {
        seq![]
    } else {
        point_bytes(code_point(t, i)) + utf8_of(t, i + char_len(t, i))
    }
}

/// Whether a byte continues a character.
pub open spec fn is_continuation(b: u8) -> bool {
    0x80 <= b <= 0xbf
}

/// The code point at `i` and how many bytes it takes, `None` where there is none.
pub open spec fn utf8_step(b: Seq<u8>, i: int) -> Option<(int, int)> {
    let x = b[i];
    if x < 0x80 {
        Some((x as int, 1))
    } else if 0xc2 <= x <= 0xdf && i + 1 < b.len() && is_continuation(b[i + 1]) {
        Some(((x - 0xc0) * 64 + (b[i + 1] - 0x80), 2))
    } else if 0xe0 <= x <= 0xef && i + 2 < b.len() && is_continuation(b[i + 1]) && is_continuation(
        b[i + 2],
    ) {
        let n = (x - 0xe0) * 4096 + (b[i + 1] - 0x80) * 64 + (b[i + 2] - 0x80);
        if n >= 0x800 && !(0xd800 <= n <= 0xdfff) {
            Some((n, 3))
        } else {
            None
        }
    } else if 0xf0 <= x <= 0xf4 && i + 3 < b.len() && is_continuation(b[i + 1]) && is_continuation(
        b[i + 2],
    ) && is_continuation(b[i + 3]) {
        let n = (x - 0xf0) * 262144 + (b[i + 1] - 0x80) * 4096 + (b[i + 2] - 0x80) * 64 + (b[i + 3]
            - 0x80);
        if 0x1_0000 <= n <= 0x10_ffff {
            Some((n, 4))
        } else {
            None
        }
    } else {
        None
    }
}

/// The text that UTF-8 bytes from `i` on spell, `None` where they spell none.
pub open spec fn utf8_text(b: Seq<u8>, i: int) -> Option<Seq<u16>>
    decreases b.len() - i,
{
    if i < 0 || i >= b.len() {
        Some(seq![])
    } else {
        match utf8_step(b, i) {
            None => None,
            Some((n, k)) => match utf8_text(b, i + k) {
                None => None,
                Some(rest) => Some(point_units(n) + rest),
            },
        }
    }
}

/// Appends the UTF-8 bytes of a code point.
fn push_point(out: &mut Vec<u8>, n: u32)
    requires
        n <= 0x10_ffff,
    ensures
        final(out)@ == old(out)@ + point_bytes(n as int),
{
    if n < 0x80 {
        out.push(n as u8);
    } else if n < 0x800 {
        out.push((0xc0 + n / 64) as u8);
        out.push((0x80 + n % 64) as u8);
    } else if n < 0x1_0000 {
        out.push((0xe0 + n / 4096) as u8);
        out.push((0x80 + n / 64 % 64) as u8);
        out.push((0x80 + n % 64) as u8);
    } else {
        out.push((0xf0 + n / 262144) as u8);
        out.push((0x80 + n / 4096 % 64) as u8);
        out.push((0x80 + n / 64 % 64) as u8);
        out.push((0x80 + n % 64) as u8);
    }
    proof {
        assert(out@ =~= old(out)@ + point_bytes(n as int));
    }
}

/// UTF-8 bytes of a text.
pub fn encode_utf8(t: &[u16]) -> (r: Vec<u8>)
    ensures
        r@ == utf8_of(t@, 0),
{
    let n: usize = t.len();
    let mut out: Vec<u8> = Vec::new();
    let mut i: usize = 0;
    proof {
        assert(out@ + utf8_of(t@, 0) =~= utf8_of(t@, 0));
    }
    while i < n
        invariant
            n == t@.len(),
            i <= n,
            out@ + utf8_of(t@, i as int) == utf8_of(t@, 0),
        decreases n - i,
    {
        let ghost before = out@;
        let u: u16 = t[i];
        let pair: bool = 0xd800 <= u && u <= 0xdbff && n - i > 1 && 0xdc00 <= t[i + 1] && t[i + 1]
            <= 0xdfff;
        let (point, step): (u32, usize) = if pair {
            (0x1_0000 + (u as u32 - 0xd800) * 0x400 + (t[i + 1] as u32 - 0xdc00), 2)
        } else {
            (u as u32, 1)
        };
        push_point(&mut out, point);
        proof {
            assert(point as int == code_point(t@, i as int));
            assert(step as int == char_len(t@, i as int));
            assert(out@ + utf8_of(t@, i + step) =~= before + utf8_of(t@, i as int));
        }
        i = i + step;
    }
    proof {
        assert(out@ + utf8_of(t@, i as int) =~= out@);
    }
    out
}

/// Whether a byte continues a character.
fn continues(b: u8) -> (r: bool)
    ensures
        r == is_continuation(b),
{
    0x80 <= b && b <= 0xbf
}

/// The code point at `i` and how many bytes it takes.
fn read_point(b: &[u8], i: usize) -> (r: Option<(u32, usize)>)
    requires
        i < b@.len(),
    ensures
        match utf8_step(b@, i as int) {
            Some((n, k)) => r is Some && r->0 == (n as u32, k as usize) && 0 <= n <= 0x10_ffff && 1
                <= k <= 4 && i + k <= b@.len(),
            None => r is None,
        },
{
    let len: usize = b.len();
    let left: usize = len - i;
    let x: u8 = b[i];
    if x < 0x80 {
        return Some((x as u32, 1));
    }
    if 0xc2 <= x && x <= 0xdf && left > 1 && continues(b[i + 1]) {
        return Some(((x as u32 - 0xc0) * 64 + (b[i + 1] as u32 - 0x80), 2));
    }
    if 0xe0 <= x && x <= 0xef && left > 2 && continues(b[i + 1]) && continues(b[i + 2]) {
        let n: u32 = (x as u32 - 0xe0) * 4096 + (b[i + 1] as u32 - 0x80) * 64 + (b[i + 2] as u32
            - 0x80);
        if n >= 0x800 && !(0xd800 <= n && n <= 0xdfff) {
            return Some((n, 3));
        }
        return None;
    }
    if 0xf0 <= x && x <= 0xf4 && left > 3 && continues(b[i + 1]) && continues(b[i + 2])
        && continues(b[i + 3]) {
        let n: u32 = (x as u32 - 0xf0) * 262144 + (b[i + 1] as u32 - 0x80) * 4096 + (b[i + 2] as u32
            - 0x80) * 64 + (b[i + 3] as u32 - 0x80);
        if 0x1_0000 <= n && n <= 0x10_ffff {
            return Some((n, 4));
        }
        return None;
    }
    None
}

/// The text with units in front, where there is one.
pub open spec fn behind(out: Seq<u16>, rest: Option<Seq<u16>>) -> Option<Seq<u16>> {
    match rest {
        Some(t) => Some(out + t),
        None => None,
    }
}

/// The text that UTF-8 bytes spell.
pub fn decode_utf8(b: &[u8]) -> (r: Option<Vec<u16>>)
    ensures
        match utf8_text(b@, 0) {
            Some(t) => r is Some && r->0@ == t,
            None => r is None,
        },
{
    let len: usize = b.len();
    let mut out: Vec<u16> = Vec::new();
    let mut i: usize = 0;
    proof {
        if utf8_text(b@, 0) is Some {
            assert(out@ + utf8_text(b@, 0)->0 =~= utf8_text(b@, 0)->0);
        }
    }
    while i < len
        invariant
            len == b@.len(),
            i <= len,
            behind(out@, utf8_text(b@, i as int)) == utf8_text(b@, 0),
        decreases len - i,
    {
        let ghost before = out@;
        match read_point(b, i) {
            None => {
                return None;
            },
            Some((n, k)) => {
                if n < 0x1_0000 {
                    out.push(n as u16);
                } else {
                    out.push((0xd800 + (n - 0x1_0000) / 0x400) as u16);
                    out.push((0xdc00 + (n - 0x1_0000) % 0x400) as u16);
                }
                proof {
                    assert(out@ =~= before + point_units(n as int));
                    if utf8_text(b@, i + k) is Some {
                        let rest = utf8_text(b@, i + k)->0;
                        assert(out@ + rest =~= before + (point_units(n as int) + rest));
                    }
                }
                i = i + k;
            },
        }
    }
    proof {
        assert(out@ + seq![] =~= out@);
    }
    Some(out)
}

// ---------------------------------------------------------------------------
// Reading back
// ---------------------------------------------------------------------------

proof fn lemma_step_shift(p: Seq<u8>, b: Seq<u8>, i: int)
    requires
        0 <= i < b.len(),
    ensures
        utf8_step(p + b, p.len() + i) == utf8_step(b, i),
{
    let q = p + b;
    assert(q[p.len() + i] == b[i]);
    if i + 1 < b.len() {
        assert(q[p.len() + i + 1] == b[i + 1]);
    }
    if i + 2 < b.len() {
        assert(q[p.len() + i + 2] == b[i + 2]);
    }
    if i + 3 < b.len() {
        assert(q[p.len() + i + 3] == b[i + 3]);
    }
}

proof fn lemma_text_shift(p: Seq<u8>, b: Seq<u8>, i: int)
    requires
        0 <= i,
    ensures
        utf8_text(p + b, p.len() + i) == utf8_text(b, i),
    decreases b.len() - i,
{
    if i < b.len() {
        lemma_step_shift(p, b, i);
        match utf8_step(b, i) {
            Some((n, k)) => {
                lemma_text_shift(p, b, i + k);
            },
            None => {},
        }
    }
}

/// The bytes of a code point read back as it.
proof fn lemma_point_reads_back(n: int, rest: Seq<u8>)
    requires
        0 <= n <= 0x10_ffff,
        !(0xd800 <= n <= 0xdfff),
    ensures
        utf8_step(point_bytes(n) + rest, 0) == Some((n, point_bytes(n).len() as int)),
{
    let p = point_bytes(n);
    let q = p + rest;
    assert(q[0] == p[0]);
    if n >= 0x80 {
        assert(q[1] == p[1]);
    }
    if n >= 0x800 {
        assert(q[2] == p[2]);
    }
    if n >= 0x1_0000 {
        assert(q[3] == p[3]);
    }
}

proof fn lemma_reads_back(t: Seq<u16>, i: int)
    requires
        0 <= i <= t.len(),
        forall|k: int| 0 <= k < t.len() ==> !is_lone(t, k),
        i < t.len() ==> !(is_low(t[i]) && i > 0 && is_high(t[i - 1])),
    ensures
        utf8_text(utf8_of(t, i), 0) == Some(t.skip(i)),
    decreases t.len() - i,
{
    if i < t.len() {
        let n = code_point(t, i);
        let k = char_len(t, i);
        let p = point_bytes(n);
        let rest = utf8_of(t, i + k);
        assert(!is_lone(t, i));
        lemma_reads_back(t, i + k);
        lemma_point_reads_back(n, rest);
        lemma_text_shift(p, rest, 0);
        assert(point_units(n) =~= t.subrange(i, i + k));
        assert(t.subrange(i, i + k) + t.skip(i + k) =~= t.skip(i));
    } else {
        assert(t.skip(i) =~= seq![]);
    }
}

/// A text without lone surrogates reads back from its UTF-8 bytes.
pub proof fn law_utf8_reads_back(t: Seq<u16>)
    requires
        forall|k: int| 0 <= k < t.len() ==> !is_lone(t, k),
    ensures
        utf8_text(utf8_of(t, 0), 0) == Some(t),
{
    lemma_reads_back(t, 0);
    assert(t.skip(0) =~= t);
}

/// The bytes of ASCII units are the units.
pub proof fn lemma_ascii_bytes(t: Seq<u16>, i: int)
    requires
        0 <= i <= t.len(),
        forall|k: int| 0 <= k < t.len() ==> #[trigger] t[k] < 0x80,
    ensures
        utf8_of(t, i) == Seq::new((t.len() - i) as nat, |k: int| t[i + k] as u8),
    decreases t.len() - i,
{
    if i < t.len() {
        assert(t[i] < 0x80);
        lemma_ascii_bytes(t, i + 1);
        assert(utf8_of(t, i) =~= Seq::new((t.len() - i) as nat, |k: int| t[i + k] as u8));
    } else {
        assert(utf8_of(t, i) =~= Seq::new((t.len() - i) as nat, |k: int| t[i + k] as u8));
    }
}

} // verus!
