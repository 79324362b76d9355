//! `Array.prototype.sort` by texts.
use vstd::prelude::*;

use crate::array_like::{replace_elements, with_elements};
use crate::convert::{text_of, to_text};
use crate::ctx::{Ctx, receiver, valid_args};
use crate::descriptor::Fault;
use crate::heap::{Heap, HeapModel};
use crate::object::snapshot_elements;
use crate::object_define::ends_in;
use crate::value::{JsValue, Throw};

verus! {

/// Rank of a unit among the units of texts: halves of surrogate pairs come behind all
/// others, as the characters that they make up do.
pub open spec fn unit_rank(u: u16) -> int {
    if 0xd800 <= u <= 0xdfff {
        u + 0x2000
    } else if u >= 0xe000 {
        u - 0x800
    } else {
        u as int
    }
}

/// Whether a text comes before another, from the index `i` on, by the code points of
/// their characters.
pub open spec fn comes_before(a: Seq<u16>, b: Seq<u16>, i: int) -> bool
    decreases a.len() - i,
{
    if i < 0 || i >= a.len() {
        i < b.len()
    } else if i >= b.len() {
        false
    } else if a[i] == b[i] {
        comes_before(a, b, i + 1)
    } else {
        unit_rank(a[i]) < unit_rank(b[i])
    }
}

/// Whether a text comes before another.
pub open spec fn text_before(a: Seq<u16>, b: Seq<u16>) -> bool {
    comes_before(a, b, 0)
}

/// Values in the order of their texts, with one more behind its equals.
pub open spec fn insert_value(h: HeapModel, s: Seq<JsValue>, v: JsValue) -> Seq<JsValue>
    decreases s.len(),
{
    if s.len() == 0 || !text_before(text_of(h, v), text_of(h, s.last())) {
        s.push(v)
    } else {
        insert_value(h, s.drop_last(), v).push(s.last())
    }
}

/// The first `k` values in the order of their texts, without `undefined` and holes.
pub open spec fn sorted_values(h: HeapModel, s: Seq<JsValue>, k: int) -> Seq<JsValue>
    decreases k,
{
    if k <= 0 {
        seq![]
    } else if s[k - 1] == JsValue::Undefined || s[k - 1] == JsValue::Hole {
        sorted_values(h, s, k - 1)
    } else {
        insert_value(h, sorted_values(h, s, k - 1), s[k - 1])
    }
}

/// Rank of a unit among the units of texts.
fn rank(u: u16) -> (r: u32)
    ensures
        r == unit_rank(u),
{
    if 0xd800 <= u && u <= 0xdfff {
        u as u32 + 0x2000
    } else if u >= 0xe000 {
        u as u32 - 0x800
    } else {
        u as u32
    }
}

/// Whether a text comes before another.
pub fn is_before(a: &[u16], b: &[u16]) -> (r: bool)
    ensures
        r == text_before(a@, b@),
{
    let n: usize = a.len();
    let m: usize = b.len();
    let mut i: usize = 0;
    while i < n && i < m && a[i] == b[i]
        invariant
            n == a@.len(),
            m == b@.len(),
            i <= n,
            i <= m,
            text_before(a@, b@) == comes_before(a@, b@, i as int),
        decreases n - i,
    {
        i = i + 1;
    }
    if i >= n {
        return i < m;
    }
    if i >= m {
        return false;
    }
    rank(a[i]) < rank(b[i])
}

proof fn lemma_insert_value_at(h: HeapModel, s: Seq<JsValue>, v: JsValue, j: int)
    requires
        0 <= j <= s.len(),
        forall|k: int|
            j <= k < s.len() ==> text_before(text_of(h, v), text_of(h, #[trigger] s[k])),
        j == 0 || !text_before(text_of(h, v), text_of(h, s[j - 1])),
    ensures
        insert_value(h, s, v) == s.insert(j, v),
    decreases s.len(),
{
    if j == s.len() {
        assert(s.insert(j, v) =~= s.push(v));
        if s.len() > 0 {
            assert(s.last() == s[j - 1]);
        }
    } else {
        assert(s.last() == s[s.len() - 1]);
        let d = s.drop_last();
        assert forall|k: int| j <= k < d.len() implies text_before(
            text_of(h, v),
            text_of(h, #[trigger] d[k]),
        ) by {
            assert(d[k] == s[k]);
        }
        lemma_insert_value_at(h, d, v, j);
        assert(d.insert(j, v).push(s.last()) =~= s.insert(j, v));
    }
}

/// Puts a value among others in the order of their texts.
fn insert_by_text(heap: &Heap, out: &mut Vec<JsValue>, texts: &mut Vec<Vec<u16>>, v: JsValue)
    requires
        heap.wf(),
        heap@.valid(v),
        valid_args(heap@, old(out)@),
        old(texts)@.len() == old(out)@.len(),
        forall|i: int|
            0 <= i < old(out)@.len() ==> (#[trigger] old(texts)@[i])@ == text_of(
                heap@,
                old(out)@[i],
            ),
    ensures
        final(out)@ == insert_value(heap@, old(out)@, v),
        valid_args(heap@, final(out)@),
        final(texts)@.len() == final(out)@.len(),
        forall|i: int|
            0 <= i < final(out)@.len() ==> (#[trigger] final(texts)@[i])@ == text_of(
                heap@,
                final(out)@[i],
            ),
{
    let t: Vec<u16> = to_text(heap, v);
    let ghost before = out@;
    let ghost texts0 = texts@;
    let mut j: usize = out.len();
    while j > 0 && is_before(t.as_slice(), texts[j - 1].as_slice())
        invariant
            j <= out@.len(),
            out@ == before,
            texts@ == texts0,
            texts0.len() == before.len(),
            t@ == text_of(heap@, v),
            forall|i: int|
                0 <= i < before.len() ==> (#[trigger] texts0[i])@ == text_of(heap@, before[i]),
            forall|k: int|
                j <= k < before.len() ==> text_before(
                    text_of(heap@, v),
                    text_of(heap@, #[trigger] before[k]),
                ),
        decreases j,
    {
        proof {
            assert(texts0[j - 1]@ == text_of(heap@, before[j - 1]));
        }
        j = j - 1;
    }
    proof {
        if j > 0 {
            assert(texts0[j - 1]@ == text_of(heap@, before[j - 1]));
        }
        lemma_insert_value_at(heap@, before, v, j as int);
    }
    out.insert(j, v);
    texts.insert(j, t);
    proof {
        assert forall|i: int| 0 <= i < out@.len() implies heap@.valid(#[trigger] out@[i]) by {
            if i < j {
                assert(heap@.valid(before[i]));
            } else if i > j {
                assert(heap@.valid(before[i - 1]));
            }
        }
        assert forall|i: int| 0 <= i < out@.len() implies (#[trigger] texts@[i])@ == text_of(
            heap@,
            out@[i],
        ) by {
            if i < j {
                assert(texts@[i] == texts0[i]);
            } else if i > j {
                assert(texts@[i] == texts0[i - 1]);
            }
        }
    }
}

/// How many of the first `k` values are a value.
pub open spec fn count_of(s: Seq<JsValue>, v: JsValue, k: int) -> nat
    decreases k,
{
    if k <= 0 {
        0
    } else if s[k - 1] == v {
        count_of(s, v, k - 1) + 1
    } else {
        count_of(s, v, k - 1)
    }
}

/// Values in the order of their texts, then what is `undefined`, then the holes.
pub open spec fn arranged(h: HeapModel, s: Seq<JsValue>) -> Seq<JsValue> {
    let n = s.len() as int;
    sorted_values(h, s, n) + Seq::new(count_of(s, JsValue::Undefined, n), |i: int| JsValue::Undefined)
        + Seq::new(count_of(s, JsValue::Hole, n), |i: int| JsValue::Hole)
}

/// Puts a value behind others a number of times.
fn push_times(out: &mut Vec<JsValue>, v: JsValue, n: usize)
    ensures
        final(out)@ == old(out)@ + Seq::new(n as nat, |i: int| v),
{
    let mut k: usize = 0;
    let ghost before = out@;
    proof {
        assert(before =~= before + Seq::new(0, |i: int| v));
    }
    while k < n
        invariant
            k <= n,
            out@ == before + Seq::new(k as nat, |i: int| v),
        decreases n - k,
    {
        out.push(v);
        k = k + 1;
        proof {
            assert(out@ =~= before + Seq::new(k as nat, |i: int| v));
        }
    }
}

/// What `sort` does: the elements in the order of their texts, equals in the order they
/// had; `undefined` goes to the end, and holes behind it.
pub open spec fn sort_result(h: HeapModel, this: JsValue) -> (HeapModel, Result<JsValue, Fault>) {
    match receiver(h, this, "Array.prototype.sort"@, None) {
        Err(t) => (h, Err(Fault::Text(t))),
        Ok(o) => {
            let s = h.objects[o as int].elements;
            (with_elements(h, o, arranged(h, s)), Ok(this))
        },
    }
}

/// `Array.prototype.sort()`.
pub fn array_sort(ctx: &mut Ctx, this: JsValue, _args: &[JsValue]) -> (r: Result<JsValue, Throw>)
    requires
        old(ctx).wf(),
        old(ctx).heap@.valid(this),
    ensures
        ends_in(*old(ctx), *final(ctx), r, sort_result(old(ctx).heap@, this)),
{
    let obj: usize = match ctx.this_object(this, "Array.prototype.sort", None) {
        Ok(o) => o,
        Err(t) => {
            return Err(t);
        },
    };
    let s: Vec<JsValue> = snapshot_elements(&ctx.heap, obj);
    let ghost h = ctx.heap@;
    let mut out: Vec<JsValue> = Vec::new();
    let mut texts: Vec<Vec<u16>> = Vec::new();
    let mut missing: usize = 0;
    let mut holes: usize = 0;
    let mut i: usize = 0;
    while i < s.len()
        invariant
            ctx.wf(),
            *ctx == *old(ctx),
            missing == count_of(s@, JsValue::Undefined, i as int),
            holes == count_of(s@, JsValue::Hole, i as int),
            missing <= i,
            holes <= i,
            h == ctx.heap@,
            valid_args(h, s@),
            valid_args(h, out@),
            i <= s@.len(),
            texts@.len() == out@.len(),
            forall|k: int| 0 <= k < out@.len() ==> (#[trigger] texts@[k])@ == text_of(h, out@[k]),
            out@ == sorted_values(h, s@, i as int),
        decreases s@.len() - i,
    {
        let v: JsValue = s[i];
        proof {
            assert(h.valid(s@[i as int]));
        }
        if v == JsValue::Undefined {
            missing = missing + 1;
        } else if v == JsValue::Hole {
            holes = holes + 1;
        } else {
            insert_by_text(&ctx.heap, &mut out, &mut texts, v);
        }
        i = i + 1;
    }
    let ghost sorted = out@;
    push_times(&mut out, JsValue::Undefined, missing);
    push_times(&mut out, JsValue::Hole, holes);
    proof {
        assert(out@ =~= arranged(h, s@));
        assert forall|k: int| 0 <= k < out@.len() implies h.valid(#[trigger] out@[k]) by {
            if k < sorted.len() {
                assert(h.valid(sorted[k]));
            }
        }
    }
    replace_elements(&mut ctx.heap, obj, out);
    Ok(this)
}

// ---------------------------------------------------------------------------
// Laws
// ---------------------------------------------------------------------------

proof fn lemma_rank(a: u16, b: u16)
    ensures
        unit_rank(a) == unit_rank(b) ==> a == b,
{
}

proof fn lemma_before_negated(a: Seq<u16>, b: Seq<u16>, c: Seq<u16>, i: int)
    requires
        0 <= i,
        comes_before(c, a, i),
    ensures
        comes_before(c, b, i) || comes_before(b, a, i),
    decreases c.len() - i,
{
    if i < c.len() {
        if i < b.len() {
            lemma_rank(a[i], b[i]);
            lemma_rank(c[i], b[i]);
            lemma_rank(c[i], a[i]);
            if c[i] == a[i] && c[i] == b[i] {
                lemma_before_negated(a, b, c, i + 1);
            }
        }
    }
}

proof fn lemma_not_before_both(a: Seq<u16>, b: Seq<u16>, i: int)
    requires
        0 <= i,
        comes_before(a, b, i),
    ensures
        !comes_before(b, a, i),
    decreases a.len() - i,
{
    if i < a.len() && i < b.len() && a[i] == b[i] {
        lemma_not_before_both(a, b, i + 1);
    }
}

/// Whether values are in the order of their texts.
pub open spec fn in_order(h: HeapModel, s: Seq<JsValue>) -> bool {
    forall|i: int, j: int|
        0 <= i < j < s.len() ==> !text_before(
            text_of(h, #[trigger] s[j]),
            text_of(h, #[trigger] s[i]),
        )
}

proof fn lemma_insert_in_order(h: HeapModel, s: Seq<JsValue>, v: JsValue)
    requires
        in_order(h, s),
    ensures
        in_order(h, insert_value(h, s, v)),
        insert_value(h, s, v).to_multiset() == s.to_multiset().insert(v),
        forall|x: JsValue| #[trigger] insert_value(h, s, v).contains(x) ==> x == v || s.contains(x),
    decreases s.len(),
{
    broadcast use vstd::seq_lib::group_to_multiset_ensures;

    let r = insert_value(h, s, v);
    let tv = text_of(h, v);
    if s.len() == 0 || !text_before(tv, text_of(h, s.last())) {
        assert forall|i: int, j: int| 0 <= i < j < r.len() implies !text_before(
            text_of(h, #[trigger] r[j]),
            text_of(h, #[trigger] r[i]),
        ) by {
            if j == s.len() {
                assert(r[i] == s[i]);
                if text_before(tv, text_of(h, s[i])) {
                    let l = s[s.len() - 1];
                    lemma_before_negated(text_of(h, s[i]), text_of(h, l), tv, 0);
                    if i < s.len() - 1 {
                        assert(!text_before(text_of(h, s[s.len() - 1]), text_of(h, s[i])));
                    }
                }
            } else {
                assert(r[i] == s[i] && r[j] == s[j]);
            }
        }
        assert forall|x: JsValue| #[trigger] r.contains(x) implies x == v || s.contains(x) by {
            let i = r.index_of(x);
            if i < s.len() {
                assert(s[i] == x);
            }
        }
    } else {
        let d = s.drop_last();
        let l = s.last();
        assert forall|i: int, j: int| 0 <= i < j < d.len() implies !text_before(
            text_of(h, #[trigger] d[j]),
            text_of(h, #[trigger] d[i]),
        ) by {
            assert(d[i] == s[i] && d[j] == s[j]);
        }
        lemma_insert_in_order(h, d, v);
        let q = insert_value(h, d, v);
        assert(s =~= d.push(l));
        lemma_not_before_both(tv, text_of(h, l), 0);
        assert forall|i: int, j: int| 0 <= i < j < r.len() implies !text_before(
            text_of(h, #[trigger] r[j]),
            text_of(h, #[trigger] r[i]),
        ) by {
            assert(r[i] == q[i]);
            if j < q.len() {
                assert(r[j] == q[j]);
            } else {
                assert(q.contains(q[i]));
                if q[i] != v {
                    let k = d.index_of(q[i]);
                    assert(d[k] == s[k]);
                    assert(!text_before(text_of(h, s[s.len() - 1]), text_of(h, s[k])));
                }
            }
        }
        assert(r.to_multiset() =~= s.to_multiset().insert(v));
        assert forall|x: JsValue| #[trigger] r.contains(x) implies x == v || s.contains(x) by {
            let i = r.index_of(x);
            if i < q.len() {
                assert(q[i] == x);
                assert(q.contains(x));
                if x != v {
                    let k = d.index_of(x);
                    assert(s[k] == x);
                }
            } else {
                assert(s[s.len() - 1] == x);
            }
        }
    }
}

/// Whether a value takes part in sorting.
pub open spec fn is_sortable(v: JsValue) -> bool {
    v != JsValue::Undefined && v != JsValue::Hole
}

proof fn lemma_sorted(h: HeapModel, s: Seq<JsValue>, k: int)
    requires
        0 <= k <= s.len(),
    ensures
        in_order(h, sorted_values(h, s, k)),
        sorted_values(h, s, k).to_multiset() == s.take(k).filter(
            |v: JsValue| is_sortable(v),
        ).to_multiset(),
    decreases k,
{
    broadcast use vstd::seq_lib::group_to_multiset_ensures;

    let keep = |v: JsValue| is_sortable(v);
    reveal(Seq::filter);
    if k > 0 {
        lemma_sorted(h, s, k - 1);
        let v = s[k - 1];
        assert(s.take(k).drop_last() =~= s.take(k - 1));
        assert(s.take(k).last() == v);
        if is_sortable(v) {
            lemma_insert_in_order(h, sorted_values(h, s, k - 1), v);
            assert(s.take(k).filter(keep) =~= s.take(k - 1).filter(keep).push(v));
        } else {
            assert(s.take(k).filter(keep) =~= s.take(k - 1).filter(keep));
        }
    } else {
        assert(s.take(0) =~= Seq::<JsValue>::empty());
        assert(s.take(0).filter(keep) =~= Seq::<JsValue>::empty());
    }
}

/// Sorting puts the values in an order in which no text comes before one in front of it,
/// `undefined` behind them and holes last, and loses and adds nothing.
pub proof fn law_sort(h: HeapModel, s: Seq<JsValue>)
    ensures
        ({
            let n = sorted_values(h, s, s.len() as int).len() as int;
            let r = arranged(h, s);
            &&& n <= r.len() == s.len()
            &&& in_order(h, r.take(n))
            &&& forall|i: int| 0 <= i < n ==> is_sortable(#[trigger] r[i])
            &&& forall|i: int, j: int|
                n <= i <= j < r.len() && #[trigger] r[i] == JsValue::Hole ==> #[trigger] r[j]
                    == JsValue::Hole
            &&& forall|i: int| n <= i < r.len() ==> !is_sortable(#[trigger] r[i])
            &&& r.to_multiset() == s.to_multiset()
        }),
{
    let k = s.len() as int;
    lemma_sorted(h, s, k);
    let a = sorted_values(h, s, k);
    let r = arranged(h, s);
    assert(r.take(a.len() as int) =~= a);
    lemma_arranged(h, s, k);
    assert(s.take(k) =~= s);
    assert forall|i: int| 0 <= i < a.len() implies is_sortable(#[trigger] r[i]) by {
        assert(r[i] == a[i]);
    }
}

/// What the first `k` values are sorted into, as far as it is counted.
proof fn lemma_arranged(h: HeapModel, s: Seq<JsValue>, k: int)
    requires
        0 <= k <= s.len(),
    ensures
        ({
            let a = sorted_values(h, s, k);
            let u = count_of(s, JsValue::Undefined, k);
            let z = count_of(s, JsValue::Hole, k);
            &&& a.len() + u + z == k
            &&& forall|i: int| 0 <= i < a.len() ==> is_sortable(#[trigger] a[i])
            &&& (a + Seq::new(u, |i: int| JsValue::Undefined) + Seq::new(z, |i: int| JsValue::Hole)).to_multiset()
                == s.take(k).to_multiset()
        }),
    decreases k,
{
    broadcast use vstd::seq_lib::group_to_multiset_ensures;

    let us = |u: nat| Seq::new(u, |i: int| JsValue::Undefined);
    let zs = |z: nat| Seq::new(z, |i: int| JsValue::Hole);
    let a = sorted_values(h, s, k);
    let u = count_of(s, JsValue::Undefined, k);
    let z = count_of(s, JsValue::Hole, k);
    vstd::seq_lib::lemma_multiset_commutative(a, us(u));
    vstd::seq_lib::lemma_multiset_commutative(a + us(u), zs(z));
    if k > 0 {
        lemma_arranged(h, s, k - 1);
        let v = s[k - 1];
        let a1 = sorted_values(h, s, k - 1);
        let u1 = count_of(s, JsValue::Undefined, k - 1);
        let z1 = count_of(s, JsValue::Hole, k - 1);
        vstd::seq_lib::lemma_multiset_commutative(a1, us(u1));
        vstd::seq_lib::lemma_multiset_commutative(a1 + us(u1), zs(z1));
        assert(s.take(k) =~= s.take(k - 1).push(v));
        if is_sortable(v) {
            lemma_sorted(h, s, k - 1);
            lemma_insert_in_order(h, a1, v);
            assert forall|i: int| 0 <= i < a.len() implies is_sortable(#[trigger] a[i]) by {
                assert(a.contains(a[i]));
                if a[i] != v {
                    let j = a1.index_of(a[i]);
                    assert(is_sortable(a1[j]));
                }
            }
            assert(a.to_multiset() == a1.to_multiset().insert(v));
            assert(a.to_multiset().len() == a1.to_multiset().len() + 1);
        } else if v == JsValue::Undefined {
            assert(us(u) =~= us(u1).push(v));
        } else {
            assert(zs(z) =~= zs(z1).push(v));
        }
        assert((a + us(u) + zs(z)).to_multiset() =~= (a1 + us(u1) + zs(z1)).to_multiset().insert(v));
    } else {
        assert(a + us(u) + zs(z) =~= Seq::<JsValue>::empty());
        assert(s.take(0) =~= Seq::<JsValue>::empty());
    }
}

} // verus!
