//! Natural numbers of any size, for exact work on decimal and binary fractions.
use vstd::prelude::*;

verus! {

/// Radix of the limbs of a [`BigNat`].
pub const RADIX: u64 = 0x1_0000_0000;

/// Weight of limb number `k`.
pub open spec fn weight(k: nat) -> nat
    decreases k,
{
    if k == 0 {
        1
    } else {
        RADIX as nat * weight((k - 1) as nat)
    }
}

/// Limb number `i`, zero past the end.
pub open spec fn limb_at(s: Seq<u32>, i: int) -> nat {
    if 0 <= i < s.len() {
        s[i] as nat
    } else {
        0
    }
}

/// The number that the `k` lowest limbs stand for.
pub open spec fn low_limbs(s: Seq<u32>, k: nat) -> nat
    decreases k,
{
    if k == 0 {
        0
    } else {
        low_limbs(s, (k - 1) as nat) + limb_at(s, k - 1) * weight((k - 1) as nat)
    }
}

proof fn lemma_low_limbs_bound(s: Seq<u32>, k: nat)
    ensures
        low_limbs(s, k) < weight(k),
    decreases k,
{
    if k > 0 {
        let j = (k - 1) as nat;
        lemma_low_limbs_bound(s, j);
        let x = limb_at(s, k - 1);
        let w = weight(j);
        assert(low_limbs(s, j) + x * w < RADIX as nat * w) by (nonlinear_arith)
            requires
                low_limbs(s, j) < w,
                x + 1 <= RADIX as nat,
        ;
    }
}

proof fn lemma_low_limbs_tail(s: Seq<u32>, k: nat)
    requires
        k >= s.len(),
    ensures
        low_limbs(s, k) == low_limbs(s, s.len()),
    decreases k,
{
    if k > s.len() {
        lemma_low_limbs_tail(s, (k - 1) as nat);
        assert(limb_at(s, k - 1) == 0);
        assert(0 * weight((k - 1) as nat) == 0) by (nonlinear_arith);
    }
}

proof fn lemma_low_limbs_prefix(s: Seq<u32>, t: Seq<u32>, k: nat)
    requires
        forall|i: int| 0 <= i < k ==> limb_at(s, i) == limb_at(t, i),
    ensures
        low_limbs(s, k) == low_limbs(t, k),
    decreases k,
{
    if k > 0 {
        assert(limb_at(s, k - 1) == limb_at(t, k - 1));
        lemma_low_limbs_prefix(s, t, (k - 1) as nat);
    }
}

/// What a new limb changes of the number.
proof fn lemma_update(s: Seq<u32>, j: int, x: u32, k: nat)
    requires
        0 <= j < s.len(),
    ensures
        low_limbs(s.update(j, x), k) == if k <= j {
            low_limbs(s, k) as int
        } else {
            low_limbs(s, k) + (x - s[j]) * weight(j as nat)
        },
    decreases k,
{
    let t = s.update(j, x);
    if k > 0 {
        lemma_update(s, j, x, (k - 1) as nat);
        let w = weight((k - 1) as nat) as int;
        if k - 1 == j {
            let (a, b) = (x as int, s[j] as int);
            assert(a * w == b * w + (a - b) * w) by (nonlinear_arith);
            assert(limb_at(t, j) == x && limb_at(s, j) == s[j]);
        } else {
            assert(limb_at(t, k - 1) == limb_at(s, k - 1));
        }
    }
}

proof fn lemma_push(s: Seq<u32>, x: u32)
    ensures
        low_limbs(s.push(x), s.len() + 1) == low_limbs(s, s.len()) + x as nat * weight(s.len()),
{
    lemma_low_limbs_prefix(s.push(x), s, s.len());
}

/// A natural number of any size.
pub struct BigNat {
    limbs: Vec<u32>,
}

impl View for BigNat {
    type V = nat;

    closed spec fn view(&self) -> nat {
        low_limbs(self.limbs@, self.limbs@.len())
    }
}

impl BigNat {
    /// The number `n`.
    pub fn from_u64(n: u64) -> (r: BigNat)
        ensures
            r@ == n,
    {
        let lo: u32 = (n % RADIX) as u32;
        let hi: u32 = (n / RADIX) as u32;
        let mut limbs: Vec<u32> = Vec::new();
        limbs.push(lo);
        limbs.push(hi);
        proof {
            reveal_with_fuel(low_limbs, 3);
            reveal_with_fuel(weight, 3);
            assert(limbs@[0] == lo && limbs@[1] == hi);
            assert(lo as nat * 1 == lo as nat) by (nonlinear_arith);
            assert(hi as nat * (RADIX as nat * 1) == hi as nat * RADIX as nat) by (nonlinear_arith);
        }
        BigNat { limbs }
    }

    /// A copy of the number.
    pub fn copy(&self) -> (r: BigNat)
        ensures
            r@ == self@,
    {
        let mut limbs: Vec<u32> = Vec::new();
        let mut i: usize = 0;
        while i < self.limbs.len()
            invariant
                i <= self.limbs@.len(),
                limbs@ == self.limbs@.take(i as int),
            decreases self.limbs@.len() - i,
        {
            limbs.push(self.limbs[i]);
            i = i + 1;
        }
        proof {
            assert(limbs@ == self.limbs@);
        }
        BigNat { limbs }
    }

    /// Replaces the number `x` by `x * factor + addend`.
    pub fn mul_add(&mut self, factor: u32, addend: u32)
        ensures
            final(self)@ == old(self)@ * factor as nat + addend as nat,
    {
        let mut out: Vec<u32> = Vec::new();
        let mut carry: u64 = addend as u64;
        let mut i: usize = 0;
        let ghost src = self.limbs@;
        let ghost f = factor as nat;
        assert(carry as nat * weight(0) == carry as nat) by (nonlinear_arith)
            requires
                weight(0) == 1,
        ;
        assert(0 * f == 0) by (nonlinear_arith);
        while i < self.limbs.len()
            invariant
                i <= self.limbs@.len(),
                self.limbs@ == src,
                f == factor as nat,
                out@.len() == i,
                carry < RADIX,
                low_limbs(out@, i as nat) + carry as nat * weight(i as nat) == low_limbs(
                    src,
                    i as nat,
                ) * f + addend as nat,
            decreases self.limbs@.len() - i,
        {
            let x: u32 = self.limbs[i];
            let ghost w = weight(i as nat);
            let ghost prev = low_limbs(out@, i as nat);
            let ghost c0 = carry as nat;
            assert(x as nat * f <= (RADIX - 1) * (RADIX - 1)) by (nonlinear_arith)
                requires
                    x as nat <= RADIX - 1,
                    f <= RADIX - 1,
            ;
            let t: u64 = (x as u64) * (factor as u64) + carry;
            let lo: u32 = (t % RADIX) as u32;
            proof {
                lemma_push(out@, lo);
            }
            out.push(lo);
            carry = t / RADIX;
            proof {
                let tn = t as nat;
                assert(prev + lo as nat * w + carry as nat * (RADIX as nat * w) == prev + tn * w)
                    by (nonlinear_arith)
                    requires
                        tn == lo as nat + carry as nat * RADIX as nat,
                ;
                assert((low_limbs(src, i as nat) + x as nat * w) * f == low_limbs(src, i as nat) * f
                    + x as nat * f * w) by (nonlinear_arith);
                assert(tn * w == x as nat * f * w + c0 * w) by (nonlinear_arith)
                    requires
                        tn == x as nat * f + c0,
                ;
                assert(limb_at(src, i as int) == x as nat);
            }
            i = i + 1;
        }
        proof {
            lemma_push(out@, carry as u32);
        }
        out.push(carry as u32);
        self.limbs = out;
    }

    /// Whether the number is less than `other`.
    pub fn less(&self, other: &BigNat) -> (r: bool)
        ensures
            r == (self@ < other@),
    {
        let n: usize = if self.limbs.len() < other.limbs.len() {
            other.limbs.len()
        } else {
            self.limbs.len()
        };
        let mut less: bool = false;
        let mut i: usize = 0;
        while i < n
            invariant
                i <= n,
                less == (low_limbs(self.limbs@, i as nat) < low_limbs(other.limbs@, i as nat)),
            decreases n - i,
        {
            let a: u32 = self.limb(i);
            let b: u32 = other.limb(i);
            proof {
                let w = weight(i as nat);
                let la = low_limbs(self.limbs@, i as nat);
                let lb = low_limbs(other.limbs@, i as nat);
                lemma_low_limbs_bound(self.limbs@, i as nat);
                lemma_low_limbs_bound(other.limbs@, i as nat);
                if a < b {
                    assert(la + a as nat * w < lb + b as nat * w) by (nonlinear_arith)
                        requires
                            la < w,
                            a as nat + 1 <= b as nat,
                    ;
                }
                if b < a {
                    assert(lb + b as nat * w < la + a as nat * w) by (nonlinear_arith)
                        requires
                            lb < w,
                            b as nat + 1 <= a as nat,
                    ;
                }
            }
            if a != b {
                less = a < b;
            }
            i = i + 1;
        }
        proof {
            lemma_low_limbs_tail(self.limbs@, n as nat);
            lemma_low_limbs_tail(other.limbs@, n as nat);
        }
        less
    }

    /// Limb number `i`, zero past the end.
    fn limb(&self, i: usize) -> (r: u32)
        ensures
            r as nat == limb_at(self.limbs@, i as int),
    {
        if i < self.limbs.len() {
            self.limbs[i]
        } else {
            0
        }
    }

    /// Takes `other` away from the number.
    pub fn subtract(&mut self, other: &BigNat)
        requires
            old(self)@ >= other@,
        ensures
            final(self)@ == old(self)@ - other@,
    {
        let n: usize = if self.limbs.len() < other.limbs.len() {
            other.limbs.len()
        } else {
            self.limbs.len()
        };
        let mut out: Vec<u32> = Vec::new();
        let mut borrow: u64 = 0;
        let mut i: usize = 0;
        let ghost sa = self.limbs@;
        let ghost sb = other.limbs@;
        assert(0 * weight(0) == 0) by (nonlinear_arith);
        while i < n
            invariant
                i <= n,
                self.limbs@ == sa,
                other.limbs@ == sb,
                out@.len() == i,
                borrow <= 1,
                low_limbs(out@, i as nat) + low_limbs(sb, i as nat) == low_limbs(sa, i as nat)
                    + borrow as nat * weight(i as nat),
            decreases n - i,
        {
            let a: u32 = self.limb(i);
            let b: u32 = other.limb(i);
            let t: u64 = RADIX + (a as u64) - (b as u64) - borrow;
            let ghost b0 = borrow as nat;
            let ghost w = weight(i as nat);
            let lo: u32 = (t % RADIX) as u32;
            proof {
                lemma_push(out@, lo);
            }
            let ghost prev = low_limbs(out@, i as nat);
            out.push(lo);
            borrow = if t < RADIX { 1 } else { 0 };
            proof {
                let la = low_limbs(sa, i as nat);
                let lb = low_limbs(sb, i as nat);
                assert(lo as nat + b as nat + b0 == a as nat + borrow as nat * RADIX as nat) by {
                    if t < RADIX {
                        assert(t % RADIX == t);
                    } else {
                        assert(t % RADIX == t - RADIX);
                    }
                }
                assert(prev + lo as nat * w + (lb + b as nat * w) == la + a as nat * w
                    + borrow as nat * (RADIX as nat * w)) by (nonlinear_arith)
                    requires
                        prev + lb == la + b0 * w,
                        lo as nat + b as nat + b0 == a as nat + borrow as nat * RADIX as nat,
                ;
            }
            i = i + 1;
        }
        proof {
            lemma_low_limbs_tail(sa, n as nat);
            lemma_low_limbs_tail(sb, n as nat);
            lemma_low_limbs_bound(out@, n as nat);
            let w = weight(n as nat);
            assert(borrow == 0) by {
                if borrow == 1 {
                    assert(borrow as nat * w == w) by (nonlinear_arith)
                        requires
                            borrow == 1,
                    ;
                }
            }
            assert(borrow as nat * w == 0) by (nonlinear_arith)
                requires
                    borrow == 0,
            ;
        }
        self.limbs = out;
    }

    /// Adds `other` to the number.
    pub fn add_to(&mut self, other: &BigNat)
        ensures
            final(self)@ == old(self)@ + other@,
    {
        let n: usize = if self.limbs.len() < other.limbs.len() {
            other.limbs.len()
        } else {
            self.limbs.len()
        };
        let mut out: Vec<u32> = Vec::new();
        let mut carry: u64 = 0;
        let mut i: usize = 0;
        let ghost sa = self.limbs@;
        let ghost sb = other.limbs@;
        assert(0 * weight(0) == 0) by (nonlinear_arith);
        while i < n
            invariant
                i <= n,
                self.limbs@ == sa,
                other.limbs@ == sb,
                out@.len() == i,
                carry <= 1,
                low_limbs(out@, i as nat) + carry as nat * weight(i as nat) == low_limbs(
                    sa,
                    i as nat,
                ) + low_limbs(sb, i as nat),
            decreases n - i,
        {
            let a: u32 = self.limb(i);
            let b: u32 = other.limb(i);
            let t: u64 = (a as u64) + (b as u64) + carry;
            let ghost c0 = carry as nat;
            let ghost w = weight(i as nat);
            let lo: u32 = (t % RADIX) as u32;
            proof {
                lemma_push(out@, lo);
            }
            let ghost prev = low_limbs(out@, i as nat);
            out.push(lo);
            carry = t / RADIX;
            proof {
                let la = low_limbs(sa, i as nat);
                let lb = low_limbs(sb, i as nat);
                assert(prev + lo as nat * w + carry as nat * (RADIX as nat * w) == (la + a as nat
                    * w) + (lb + b as nat * w)) by (nonlinear_arith)
                    requires
                        prev + c0 * w == la + lb,
                        lo as nat + carry as nat * RADIX as nat == a as nat + b as nat + c0,
                ;
            }
            i = i + 1;
        }
        proof {
            lemma_low_limbs_tail(sa, n as nat);
            lemma_low_limbs_tail(sb, n as nat);
            lemma_push(out@, carry as u32);
        }
        out.push(carry as u32);
        self.limbs = out;
    }

    /// Divides the number and gives the remainder.
    pub fn divide_small(&mut self, d: u32) -> (r: u32)
        requires
            d > 0,
        ensures
            final(self)@ == old(self)@ / d as nat,
            r == old(self)@ % d as nat,
    {
        let ghost src = self.limbs@;
        let n: usize = self.limbs.len();
        let mut i: usize = n;
        let mut rem: u64 = 0;
        proof {
            let z = low_limbs(src, n as nat) - low_limbs(src, n as nat);
            assert(d as int * z + 0 * weight(n as nat) == 0) by (nonlinear_arith)
                requires
                    z == 0,
            ;
        }
        while i > 0
            invariant
                i <= n,
                n == self.limbs@.len(),
                n == src.len(),
                d > 0,
                rem < d,
                forall|k: int| 0 <= k < i ==> self.limbs@[k] == src[k],
                low_limbs(src, n as nat) - low_limbs(src, i as nat) == d as int * (low_limbs(
                    self.limbs@,
                    n as nat,
                ) - low_limbs(self.limbs@, i as nat)) + rem as int * weight(i as nat),
            decreases i,
        {
            i = i - 1;
            let ghost before = self.limbs@;
            let x: u32 = self.limbs[i];
            let acc: u64 = rem * RADIX + x as u64;
            let q: u64 = acc / d as u64;
            proof {
                let (a, b) = (acc as int, d as int);
                assert(a / b < RADIX) by (nonlinear_arith)
                    requires
                        a < b * RADIX,
                        b > 0,
                        a >= 0,
                ;
            }
            self.limbs.set(i, q as u32);
            proof {
                lemma_update(before, i as int, q as u32, n as nat);
                lemma_update(before, i as int, q as u32, i as nat);
                let w = weight(i as nat) as int;
                let rest = (acc % d as u64) as int;
                let hb = low_limbs(before, n as nat) - low_limbs(before, (i + 1) as nat);
                let ha = low_limbs(self.limbs@, n as nat) - low_limbs(self.limbs@, i as nat);
                assert(low_limbs(before, (i + 1) as nat) == low_limbs(before, i as nat) + x as nat
                    * w);
                assert(low_limbs(src, (i + 1) as nat) == low_limbs(src, i as nat) + x as nat * w);
                assert(ha == hb + q as int * w) by (nonlinear_arith)
                    requires
                        ha == hb + x as int * w + (q as int - x as int) * w,
                ;
                assert(weight((i + 1) as nat) == RADIX as nat * weight(i as nat));
                assert(acc as int == d as int * q as int + rest) by {
                    vstd::arithmetic::div_mod::lemma_fundamental_div_mod(acc as int, d as int);
                }
                assert(d as int * hb + rem as int * (RADIX as int * w) + x as int * w == d as int
                    * ha + rest * w) by (nonlinear_arith)
                    requires
                        ha == hb + q as int * w,
                        rem as int * RADIX as int + x as int == d as int * q as int + rest,
                ;
            }
            rem = acc % d as u64;
        }
        proof {
            assert(rem as int * weight(0) == rem) by (nonlinear_arith)
                requires
                    weight(0) == 1,
            ;
            let q = low_limbs(self.limbs@, n as nat) as int;
            assert(d as int * q == q * d as int) by (nonlinear_arith);
            vstd::arithmetic::div_mod::lemma_fundamental_div_mod_converse(
                low_limbs(src, n as nat) as int,
                d as int,
                q,
                rem as int,
            );
        }
        rem as u32
    }

    /// Whether the number is zero.
    pub fn is_zero(&self) -> (r: bool)
        ensures
            r == (self@ == 0),
    {
        let one: BigNat = BigNat::from_u64(1);
        self.less(&one)
    }
}

/// Quotient and rest of a division.
pub fn divide_big(n: &BigNat, d: &BigNat) -> (r: (BigNat, BigNat))
    requires
        d@ > 0,
    ensures
        r.0@ == n@ / d@,
        r.1@ == n@ % d@,
    decreases 2 * n@ - d@,
{
    if n.less(d) {
        proof {
            vstd::arithmetic::div_mod::lemma_fundamental_div_mod_converse(n@ as int, d@ as int, 0, n@ as int);
        }
        return (BigNat::from_u64(0), n.copy());
    }
    let mut twice: BigNat = d.copy();
    twice.mul_add(2, 0);
    let (mut q, mut rest) = divide_big(n, &twice);
    let ghost q0 = q@;
    let ghost r0 = rest@;
    let ghost dv = d@;
    let ghost nv = n@;
    proof {
        vstd::arithmetic::div_mod::lemma_fundamental_div_mod(nv as int, 2 * dv as int);
        assert(nv == (2 * dv) * q0 + r0);
        assert(r0 < 2 * dv);
        assert((2 * dv) * q0 == (2 * q0) * dv) by (nonlinear_arith);
        assert((2 * q0 + 1) * dv == (2 * q0) * dv + dv) by (nonlinear_arith);
    }
    if rest.less(d) {
        q.mul_add(2, 0);
        proof {
            vstd::arithmetic::div_mod::lemma_fundamental_div_mod_converse(nv as int, dv as int, 2 * q0 as int, r0 as int);
        }
    } else {
        q.mul_add(2, 1);
        rest.subtract(d);
        proof {
            vstd::arithmetic::div_mod::lemma_fundamental_div_mod_converse(nv as int, dv as int, (2 * q0 + 1) as int, r0 - dv);
        }
    }
    (q, rest)
}

} // verus!
