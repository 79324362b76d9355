//! Decimal texts of big integers.
use vstd::prelude::*;

use crate::heap::BigInt;
use crate::text::nat_text;

verus! {

/// The number whose bytes are given, lowest first, from the byte `i` on.
pub open spec fn bytes_value(s: Seq<u8>, i: int) -> nat
    decreases s.len() - i,
{
    if i < 0 || i >= s.len() {
        0
    } else {
        s[i] as nat + 256 * bytes_value(s, i + 1)
    }
}

/// The text of a big integer: its decimal digits, a sign where it is below zero, and an
/// `n`.
pub open spec fn bigint_units(b: (bool, Seq<u8>)) -> Seq<u16> {
    let n = bytes_value(b.1, 0);
    let digits = nat_text(n).push(0x6e);
    if b.0 && n != 0 {
        seq![0x2du16] + digits
    } else {
        digits
    }
}

/// A byte at the lower end does not count for the number above it.
proof fn lemma_bytes_agree(s: Seq<u8>, t: Seq<u8>, i: int)
    requires
        0 <= i,
        s.len() == t.len(),
        forall|k: int| i <= k < s.len() ==> s[k] == t[k],
    ensures
        bytes_value(s, i) == bytes_value(t, i),
    decreases s.len() - i,
{
    if i < s.len() {
        lemma_bytes_agree(s, t, i + 1);
    }
}

/// Divides a number by ten and gives the remainder.
fn divide_by_ten(bytes: &mut Vec<u8>) -> (r: u8)
    ensures
        final(bytes)@.len() == old(bytes)@.len(),
        bytes_value(final(bytes)@, 0) == bytes_value(old(bytes)@, 0) / 10,
        r == bytes_value(old(bytes)@, 0) % 10,
{
    let ghost start = bytes@;
    let n: usize = bytes.len();
    let mut i: usize = n;
    let mut rem: u16 = 0;
    while i > 0
        invariant
            i <= n,
            n == bytes@.len(),
            n == start.len(),
            rem < 10,
            forall|k: int| 0 <= k < i ==> bytes@[k] == start[k],
            bytes_value(start, i as int) == 10 * bytes_value(bytes@, i as int) + rem,
        decreases i,
    {
        i = i - 1;
        let ghost before = bytes@;
        let b: u8 = bytes[i];
        let acc: u16 = rem * 256 + b as u16;
        let q: u16 = acc / 10;
        bytes.set(i, q as u8);
        rem = acc % 10;
        proof {
            lemma_bytes_agree(before, bytes@, i + 1);
            let above = bytes_value(bytes@, i + 1);
            assert(bytes_value(bytes@, i as int) == q as nat + 256 * above);
            assert(bytes_value(start, i as int) == b as nat + 256 * bytes_value(start, i + 1));
        }
    }
    proof {
        let q = bytes_value(bytes@, 0);
        vstd::arithmetic::div_mod::lemma_fundamental_div_mod_converse(
            bytes_value(start, 0) as int,
            10,
            q as int,
            rem as int,
        );
    }
    rem as u8
}

/// Whether a number is zero.
pub fn is_zero(bytes: &Vec<u8>) -> (r: bool)
    ensures
        r == (bytes_value(bytes@, 0) == 0),
{
    let n: usize = bytes.len();
    let mut i: usize = n;
    while i > 0
        invariant
            i <= n,
            n == bytes@.len(),
            bytes_value(bytes@, i as int) == 0,
        decreases i,
    {
        i = i - 1;
        if bytes[i] != 0 {
            proof {
                lemma_positive(bytes@, i as int);
            }
            return false;
        }
    }
    true
}

/// A number with a byte that is not zero is not zero.
proof fn lemma_positive(s: Seq<u8>, i: int)
    requires
        0 <= i < s.len(),
        bytes_value(s, i) > 0 || s[i] != 0,
    ensures
        bytes_value(s, 0) > 0,
    decreases i,
{
    if i > 0 {
        lemma_positive(s, i - 1);
    }
}

/// The text of a big integer.
pub fn bigint_text(b: &BigInt) -> (r: Vec<u16>)
    ensures
        r@ == bigint_units((b.sign, b.magnitude_le@)),
{
    let mut cur: Vec<u8> = Vec::new();
    let mut i: usize = 0;
    while i < b.magnitude_le.len()
        invariant
            i <= b.magnitude_le@.len(),
            cur@ == b.magnitude_le@.take(i as int),
        decreases b.magnitude_le@.len() - i,
    {
        cur.push(b.magnitude_le[i]);
        i = i + 1;
        proof {
            assert(cur@ =~= b.magnitude_le@.take(i as int));
        }
    }
    proof {
        assert(cur@ =~= b.magnitude_le@);
    }
    let ghost n = bytes_value(cur@, 0);
    let zero: bool = is_zero(&cur);
    let mut low: Vec<u16> = Vec::new();
    let d: u8 = divide_by_ten(&mut cur);
    low.push(0x30 + d as u16);
    proof {
        if n >= 10 {
            assert(nat_text(n) =~= nat_text(n / 10) + low@.reverse());
        } else {
            assert(nat_text(n) =~= low@.reverse());
        }
    }
    while !is_zero(&cur)
        invariant
            low@.len() > 0,
            nat_text(n) == if bytes_value(cur@, 0) > 0 {
                nat_text(bytes_value(cur@, 0)) + low@.reverse()
            } else {
                low@.reverse()
            },
        decreases bytes_value(cur@, 0),
    {
        let ghost v = bytes_value(cur@, 0);
        let ghost before = low@;
        let d: u8 = divide_by_ten(&mut cur);
        low.push(0x30 + d as u16);
        proof {
            assert(low@.reverse() =~= seq![(0x30 + d) as u16] + before.reverse());
            if v >= 10 {
                assert(nat_text(v) + before.reverse() =~= nat_text(v / 10) + low@.reverse());
            } else {
                assert(nat_text(v) + before.reverse() =~= low@.reverse());
            }
        }
    }
    let mut out: Vec<u16> = Vec::new();
    if b.sign && !zero {
        out.push(0x2d);
    }
    let ghost head = out@;
    let mut k: usize = low.len();
    proof {
        assert(head + low@.reverse().take(0) =~= head);
    }
    while k > 0
        invariant
            k <= low@.len(),
            out@ == head + low@.reverse().take(low@.len() - k),
        decreases k,
    {
        k = k - 1;
        out.push(low[k]);
        proof {
            assert(out@ =~= head + low@.reverse().take(low@.len() - k));
        }
    }
    out.push(0x6e);
    proof {
        assert(low@.reverse().take(low@.len() as int) =~= nat_text(n));
        assert(out@ =~= bigint_units((b.sign, b.magnitude_le@)));
    }
    out
}

} // verus!
