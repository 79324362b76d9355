//! What the array built-ins promise: which elements come out, which stay, and how calls
//! relate to each other.
use vstd::prelude::*;

use crate::array::{
    at_result, concat_result, concatenated, construct_result, copied_within, copy_within_result,
    fill_result, filled_from, first_index, flat_result, flattened, from_result, included,
    includes_result, index_of_result, join_result, joined_with, last_index,
    last_index_of_result, of_result, pop_result, push_result, reverse_result, shift_result,
    slice_result, splice_result, to_string_result, unshift_result, written_from,
};
use crate::array_like::{full_length, index_int, length_data, relative, with_elements};
use crate::convert::{int_value, same_value_zero_of, strictly_equal, text_of};
use crate::descriptor::Fault;
use crate::double::{lemma_int_exact, saturated};
use crate::heap::{HeapModel, ObjModel, lemma_interned};
use crate::internal_methods::with_element;
use crate::value::{JsValue, Kind};

verus! {

// ---------------------------------------------------------------------------
// How results are described
// ---------------------------------------------------------------------------

/// The index that a number stands for in a list of `n`: a negative one counts from the
/// end, and none lies outside.
pub open spec fn position(i: int, n: int) -> int {
    if i < -n {
        0
    } else if i < 0 {
        n + i
    } else if i < n {
        i
    } else {
        n
    }
}

/// Whether an object is an array whose length is how many elements it holds.
pub open spec fn is_list(h: HeapModel, o: usize) -> bool {
    &&& o < h.objects.len()
    &&& h.objects[o as int].kind == Kind::Array
    &&& length_data(h, o) is None
    &&& h.objects[o as int].elements.len() <= u32::MAX
}

/// Whether a call gave a new array of some items and changed nothing else.
pub open spec fn gives_list(
    h: HeapModel,
    r: (HeapModel, Result<JsValue, Fault>),
    items: Seq<JsValue>,
) -> bool {
    let n = h.objects.len() as int;
    &&& r.1 == Ok::<JsValue, Fault>(JsValue::Object(n as usize))
    &&& r.0.objects.len() == n + 1
    &&& forall|i: int| 0 <= i < n ==> #[trigger] r.0.objects[i] == h.objects[i]
    &&& r.0.objects[n].kind == Kind::Array
    &&& r.0.objects[n].elements == items
    &&& r.0.objects[n].named.list.len() == 0
    &&& r.0.texts == h.texts
}

/// Whether a call changed the elements of one object to `items` and nothing else.
pub open spec fn only_elements(h: HeapModel, later: HeapModel, o: usize, items: Seq<JsValue>) -> bool {
    &&& later.objects.len() == h.objects.len()
    &&& forall|i: int|
        0 <= i < h.objects.len() && i != o ==> #[trigger] later.objects[i] == h.objects[i]
    &&& later.objects[o as int] == (ObjModel { elements: items, ..h.objects[o as int] })
    &&& later.texts == h.texts
}

/// The items of the array that a call gave.
pub open spec fn given(r: (HeapModel, Result<JsValue, Fault>)) -> Seq<JsValue> {
    r.0.objects.last().elements
}

/// The text that a call gave.
pub open spec fn given_text(r: (HeapModel, Result<JsValue, Fault>)) -> Seq<u16> {
    match r.1 {
        Ok(JsValue::Text(n)) => r.0.texts[n as int],
        _ => seq![],
    }
}

/// A value, `undefined` for a hole.
pub open spec fn filled(v: JsValue) -> JsValue {
    if v == JsValue::Hole {
        JsValue::Undefined
    } else {
        v
    }
}

proof fn lemma_position(i: i32, n: int, default: int)
    requires
        0 <= n,
    ensures
        relative(JsValue::Smi(i), n, default) == position(i as int, n),
        index_int(JsValue::Smi(i)) == i,
{
    lemma_int_exact(i as int);
    assert(saturated(crate::double::int_double(i as int)) == i);
}

// ---------------------------------------------------------------------------
// Parts of arrays
// ---------------------------------------------------------------------------

/// `slice(a, b)` gives a new array of what stands at `a` and behind it, up to `b` and
/// without it; the array itself stays as it is.
pub proof fn law_slice(h: HeapModel, o: usize, a: i32, b: i32)
    requires
        o < h.objects.len(),
    ensures
        ({
            let s = h.objects[o as int].elements;
            let n = s.len() as int;
            let r = slice_result(h, JsValue::Object(o), seq![JsValue::Smi(a), JsValue::Smi(b)]);
            let from = position(a as int, n);
            let to = position(b as int, n);
            &&& gives_list(h, r, given(r))
            &&& from <= to ==> given(r).len() == to - from
            &&& from > to ==> given(r).len() == 0
            &&& forall|i: int|
                0 <= i < given(r).len() ==> #[trigger] given(r)[i] == s[from + i]
        }),
{
    let s = h.objects[o as int].elements;
    lemma_position(a, s.len() as int, 0);
    lemma_position(b, s.len() as int, s.len() as int);
}

/// A slice up to an index and the slice from there on are the array.
pub proof fn law_slice_parts(h: HeapModel, o: usize, k: i32)
    requires
        o < h.objects.len(),
        0 <= k <= h.objects[o as int].elements.len(),
    ensures
        ({
            let this = JsValue::Object(o);
            let front = slice_result(h, this, seq![JsValue::Smi(0), JsValue::Smi(k)]);
            let back = slice_result(h, this, seq![JsValue::Smi(k)]);
            given(front) + given(back) == h.objects[o as int].elements
        }),
{
    let s = h.objects[o as int].elements;
    lemma_position(0, s.len() as int, 0);
    lemma_position(k, s.len() as int, 0);
    lemma_position(k, s.len() as int, s.len() as int);
    assert(s.subrange(0, k as int) + s.subrange(k as int, s.len() as int) =~= s);
    assert(s.subrange(0, 0) =~= seq![]);
    if k == s.len() {
        assert(s.subrange(0, k as int) =~= s);
    }
}

/// A slice without arguments is a copy.
pub proof fn law_slice_copy(h: HeapModel, o: usize)
    requires
        o < h.objects.len(),
    ensures
        gives_list(
            h,
            slice_result(h, JsValue::Object(o), seq![]),
            h.objects[o as int].elements,
        ),
{
    let s = h.objects[o as int].elements;
    assert(s.subrange(0, s.len() as int) =~= s);
    if s.len() == 0 {
        assert(s =~= seq![]);
    }
}

/// `at(i)` is the element at the index, a negative index counts from the end, and outside
/// there is nothing.
pub proof fn law_at(h: HeapModel, o: usize, i: i32)
    requires
        is_list(h, o),
    ensures
        ({
            let s = h.objects[o as int].elements;
            let r = at_result(h, JsValue::Object(o), seq![JsValue::Smi(i)]);
            &&& r.0 == h
            &&& 0 <= i < s.len() ==> r.1 == Ok::<JsValue, Fault>(filled(s[i as int]))
            &&& -s.len() <= i < 0 ==> r.1 == Ok::<JsValue, Fault>(filled(s[s.len() + i]))
            &&& (i >= s.len() || i < -s.len()) ==> r.1 == Ok::<JsValue, Fault>(
                JsValue::Undefined,
            )
        }),
{
    lemma_position(i, h.objects[o as int].elements.len() as int, 0);
}

// ---------------------------------------------------------------------------
// The ends of arrays
// ---------------------------------------------------------------------------

proof fn lemma_written(s: Seq<JsValue>, items: Seq<JsValue>, k: int)
    requires
        0 <= k <= items.len(),
    ensures
        written_from(s, s.len() as int, items, k) == s + items.take(k),
    decreases k,
{
    if k > 0 {
        lemma_written(s, items, k - 1);
        let t = s + items.take(k - 1);
        assert(with_element(t, s.len() + k - 1, items[k - 1]) =~= s + items.take(k)) by {
            assert(t + Seq::new(0, |j: int| JsValue::Hole) =~= t);
        }
    } else {
        assert(s + items.take(0) =~= s);
    }
}

/// `push` puts its arguments behind the elements, in their order, and gives the new
/// length.
pub proof fn law_push(h: HeapModel, o: usize, args: Seq<JsValue>)
    requires
        is_list(h, o),
        h.objects[o as int].elements.len() + args.len() <= u32::MAX,
    ensures
        ({
            let s = h.objects[o as int].elements;
            let r = push_result(h, JsValue::Object(o), args);
            &&& only_elements(h, r.0, o, s + args)
            &&& r.1 == Ok::<JsValue, Fault>(int_value((s.len() + args.len()) as int))
        }),
{
    let s = h.objects[o as int].elements;
    lemma_written(s, args, args.len() as int);
    assert(args.take(args.len() as int) =~= args);
    let h1 = with_elements(h, o, s + args);
    assert(length_data(h1, o) is None);
}

/// `pop` takes the last element away and gives it; of an empty array it gives nothing.
pub proof fn law_pop(h: HeapModel, o: usize)
    requires
        is_list(h, o),
    ensures
        ({
            let s = h.objects[o as int].elements;
            let r = pop_result(h, JsValue::Object(o));
            if s.len() == 0 {
                r == (h, Ok::<JsValue, Fault>(JsValue::Undefined))
            } else {
                &&& only_elements(h, r.0, o, s.drop_last())
                &&& r.1 == Ok::<JsValue, Fault>(filled(s.last()))
            }
        }),
{
    let s = h.objects[o as int].elements;
    if s.len() > 0 {
        assert(s.take(s.len() - 1) =~= s.drop_last());
        let h1 = with_elements(h, o, s.drop_last());
        assert(length_data(h1, o) is None);
    }
}

/// `shift` takes the first element away and gives it; of an empty array it gives nothing.
pub proof fn law_shift(h: HeapModel, o: usize)
    requires
        is_list(h, o),
    ensures
        ({
            let s = h.objects[o as int].elements;
            let r = shift_result(h, JsValue::Object(o));
            if s.len() == 0 {
                r == (h, Ok::<JsValue, Fault>(JsValue::Undefined))
            } else {
                &&& only_elements(h, r.0, o, s.drop_first())
                &&& r.1 == Ok::<JsValue, Fault>(filled(s.first()))
            }
        }),
{
    let s = h.objects[o as int].elements;
    if s.len() > 0 {
        assert(s.skip(1) =~= s.drop_first());
        let h1 = with_elements(h, o, s.drop_first());
        assert(length_data(h1, o) is None);
    }
}

/// `unshift` puts its arguments before the elements, in their order, and gives the new
/// length.
pub proof fn law_unshift(h: HeapModel, o: usize, args: Seq<JsValue>)
    requires
        is_list(h, o),
        h.objects[o as int].elements.len() + args.len() <= u32::MAX,
    ensures
        ({
            let s = h.objects[o as int].elements;
            let r = unshift_result(h, JsValue::Object(o), args);
            &&& only_elements(h, r.0, o, args + s)
            &&& r.1 == Ok::<JsValue, Fault>(int_value((s.len() + args.len()) as int))
        }),
{
    let s = h.objects[o as int].elements;
    let h1 = with_elements(h, o, args + s);
    assert(length_data(h1, o) is None);
    assert((args + s).len() as int % 0x1_0000_0000 == (args + s).len());
}

/// `shift` undoes `unshift` of a value.
pub proof fn law_unshift_shift(h: HeapModel, o: usize, v: JsValue)
    requires
        is_list(h, o),
        h.objects[o as int].elements.len() < u32::MAX,
        v != JsValue::Hole,
    ensures
        ({
            let h1 = unshift_result(h, JsValue::Object(o), seq![v]).0;
            let r = shift_result(h1, JsValue::Object(o));
            &&& only_elements(h, r.0, o, h.objects[o as int].elements)
            &&& r.1 == Ok::<JsValue, Fault>(v)
        }),
{
    let s = h.objects[o as int].elements;
    law_unshift(h, o, seq![v]);
    let h1 = unshift_result(h, JsValue::Object(o), seq![v]).0;
    assert(is_list(h1, o));
    law_shift(h1, o);
    assert((seq![v] + s).drop_first() =~= s);
}

// ---------------------------------------------------------------------------
// Changes inside arrays
// ---------------------------------------------------------------------------

/// How many elements `splice` takes away at a position of a list of `n`.
pub open spec fn taken(d: int, at: int, n: int) -> int {
    if d < 0 {
        0
    } else if d < n - at {
        d
    } else {
        n - at
    }
}

/// `splice(a, d, ...items)` takes `d` elements away from `a` on, gives them as a new
/// array, and puts the items in their place.
pub proof fn law_splice(h: HeapModel, o: usize, a: i32, d: i32, items: Seq<JsValue>)
    requires
        is_list(h, o),
        h.objects[o as int].elements.len() + items.len() <= u32::MAX,
    ensures
        ({
            let s = h.objects[o as int].elements;
            let n = s.len() as int;
            let at = position(a as int, n);
            let k = taken(d as int, at, n);
            let r = splice_result(
                h,
                JsValue::Object(o),
                seq![JsValue::Smi(a), JsValue::Smi(d)] + items,
            );
            let left = r.0.objects[o as int].elements;
            &&& r.1 == Ok::<JsValue, Fault>(JsValue::Object(h.objects.len() as usize))
            &&& r.0.objects.len() == h.objects.len() + 1
            &&& r.0.objects.last().kind == Kind::Array
            &&& given(r).len() == k
            &&& forall|i: int| 0 <= i < k ==> #[trigger] given(r)[i] == s[at + i]
            &&& left.len() == n - k + items.len()
            &&& forall|i: int| 0 <= i < at ==> #[trigger] left[i] == s[i]
            &&& forall|i: int| 0 <= i < items.len() ==> left[at + i] == #[trigger] items[i]
            &&& forall|i: int|
                at + k <= i < n ==> left[i - k + items.len()] == #[trigger] s[i]
            &&& forall|i: int|
                0 <= i < h.objects.len() && i != o ==> #[trigger] r.0.objects[i] == h.objects[i]
        }),
{
    let s = h.objects[o as int].elements;
    let n = s.len() as int;
    let args = seq![JsValue::Smi(a), JsValue::Smi(d)] + items;
    lemma_position(a, n, 0);
    lemma_position(d, n, 0);
    assert(args[0] == JsValue::Smi(a) && args[1] == JsValue::Smi(d));
    assert(args.skip(2) =~= items);
    let at = position(a as int, n);
    let k = taken(d as int, at, n);
    let left = s.take(at) + items + s.skip(at + k);
    assert(crate::array::spliced(s, at, k, args) =~= left) by {
        if items.len() == 0 {
            assert(items =~= seq![]);
        }
    }
    let h1 = with_elements(h, o, left);
    assert(length_data(h1, o) is None);
    assert(crate::array_like::with_new_length(h1, o, left.len() as int) =~= h1);
}

/// `splice(a)` takes everything from `a` on.
pub proof fn law_splice_rest(h: HeapModel, o: usize, a: i32)
    requires
        is_list(h, o),
    ensures
        ({
            let s = h.objects[o as int].elements;
            let at = position(a as int, s.len() as int);
            let r = splice_result(h, JsValue::Object(o), seq![JsValue::Smi(a)]);
            &&& given(r) == s.skip(at)
            &&& r.0.objects[o as int].elements == s.take(at)
        }),
{
    let s = h.objects[o as int].elements;
    let n = s.len() as int;
    lemma_position(a, n, 0);
    let at = position(a as int, n);
    let args = seq![JsValue::Smi(a)];
    assert(s.subrange(at, n) =~= s.skip(at));
    assert(crate::array::spliced(s, at, n - at, args) =~= s.take(at));
    let h1 = with_elements(h, o, s.take(at));
    assert(length_data(h1, o) is None);
    assert(crate::array_like::with_new_length(h1, o, at) =~= h1);
}

proof fn lemma_filled(s: Seq<JsValue>, a: int, b: int, v: JsValue)
    requires
        0 <= a,
        b <= s.len(),
    ensures
        filled_from(s, a, b, v).len() == s.len(),
        forall|i: int|
            0 <= i < s.len() ==> #[trigger] filled_from(s, a, b, v)[i] == if a <= i < b {
                v
            } else {
                s[i]
            },
    decreases b - a,
{
    if a < b {
        lemma_filled(s, a, b - 1, v);
    }
}

/// `fill(v, a, b)` puts the value at every index from `a` up to `b`, without it, and
/// leaves the others.
pub proof fn law_fill(h: HeapModel, o: usize, v: JsValue, a: i32, b: i32)
    requires
        is_list(h, o),
    ensures
        ({
            let s = h.objects[o as int].elements;
            let from = position(a as int, s.len() as int);
            let to = position(b as int, s.len() as int);
            let r = fill_result(
                h,
                JsValue::Object(o),
                seq![v, JsValue::Smi(a), JsValue::Smi(b)],
            );
            let t = r.0.objects[o as int].elements;
            &&& only_elements(h, r.0, o, t)
            &&& r.1 == Ok::<JsValue, Fault>(JsValue::Object(o))
            &&& t.len() == s.len()
            &&& forall|i: int|
                0 <= i < s.len() ==> #[trigger] t[i] == if from <= i < to {
                    v
                } else {
                    s[i]
                }
        }),
{
    let s = h.objects[o as int].elements;
    lemma_position(a, s.len() as int, 0);
    lemma_position(b, s.len() as int, s.len() as int);
    let from = position(a as int, s.len() as int);
    let to = position(b as int, s.len() as int);
    let end = crate::array::fill_end(h, o, from, to);
    assert(end == to || (to <= from && end == from));
    lemma_filled(s, from, end, v);
}

/// `fill(v)` puts the value everywhere.
pub proof fn law_fill_all(h: HeapModel, o: usize, v: JsValue)
    requires
        is_list(h, o),
    ensures
        ({
            let s = h.objects[o as int].elements;
            let r = fill_result(h, JsValue::Object(o), seq![v]);
            only_elements(h, r.0, o, Seq::new(s.len(), |i: int| v))
        }),
{
    let s = h.objects[o as int].elements;
    let n = s.len() as int;
    assert(crate::array::fill_end(h, o, 0, n) == n);
    lemma_filled(s, 0, n, v);
    assert(filled_from(s, 0, n, v) =~= Seq::new(s.len(), |i: int| v));
}

proof fn lemma_copied(s: Seq<JsValue>, target: int, start: int, k: int)
    requires
        0 <= k,
        0 <= target,
        0 <= start,
        target + k <= s.len(),
        start + k <= s.len(),
    ensures
        copied_within(s, target, start, k).len() == s.len(),
        forall|i: int|
            0 <= i < s.len() ==> #[trigger] copied_within(s, target, start, k)[i] == if target <= i
                < target + k {
                s[start + i - target]
            } else {
                s[i]
            },
    decreases k,
{
    if k > 0 {
        lemma_copied(s, target, start, k - 1);
    }
}

/// `copyWithin(t, a, b)` copies what stood from `a` up to `b`, without it, to `t` and
/// behind it, as far as the array goes.
pub proof fn law_copy_within(h: HeapModel, o: usize, t: i32, a: i32, b: i32)
    requires
        is_list(h, o),
    ensures
        ({
            let s = h.objects[o as int].elements;
            let n = s.len() as int;
            let target = position(t as int, n);
            let from = position(a as int, n);
            let to = position(b as int, n);
            let r = copy_within_result(
                h,
                JsValue::Object(o),
                seq![JsValue::Smi(t), JsValue::Smi(a), JsValue::Smi(b)],
            );
            let w = r.0.objects[o as int].elements;
            &&& only_elements(h, r.0, o, w)
            &&& r.1 == Ok::<JsValue, Fault>(JsValue::Object(o))
            &&& w.len() == n
            &&& forall|i: int|
                0 <= i < n ==> #[trigger] w[i] == if target <= i && from + i - target < to {
                    s[from + i - target]
                } else {
                    s[i]
                }
        }),
{
    let s = h.objects[o as int].elements;
    let n = s.len() as int;
    lemma_position(t, n, 0);
    lemma_position(a, n, 0);
    lemma_position(b, n, n);
    let target = position(t as int, n);
    let from = position(a as int, n);
    let to = position(b as int, n);
    if target < n && from < to {
        let k = crate::array::copy_count(h, o, target, from, to);
        assert(k == if to - from < n - target {
            to - from
        } else {
            n - target
        });
        lemma_copied(s, target, from, k);
    } else {
        assert(h.objects[o as int] == (ObjModel { elements: s, ..h.objects[o as int] }));
    }
}

/// `reverse` puts the element at `i` from the start at `i` from the end.
pub proof fn law_reverse(h: HeapModel, o: usize)
    requires
        o < h.objects.len(),
    ensures
        ({
            let s = h.objects[o as int].elements;
            let r = reverse_result(h, JsValue::Object(o));
            let t = r.0.objects[o as int].elements;
            &&& only_elements(h, r.0, o, t)
            &&& r.1 == Ok::<JsValue, Fault>(JsValue::Object(o))
            &&& t.len() == s.len()
            &&& forall|i: int| 0 <= i < s.len() ==> #[trigger] t[i] == s[s.len() - 1 - i]
        }),
{
}

// ---------------------------------------------------------------------------
// Searching
// ---------------------------------------------------------------------------

proof fn lemma_first(h: HeapModel, o: usize, v: JsValue, i: int, n: int)
    requires
        is_list(h, o),
        0 <= i <= n == h.objects[o as int].elements.len(),
    ensures
        ({
            let s = h.objects[o as int].elements;
            let r = first_index(h, o, v, i, n);
            &&& r == -1 || i <= r < n
            &&& r >= 0 ==> strictly_equal(v, s[r])
            &&& forall|j: int|
                i <= j < n && (r == -1 || j < r) ==> !strictly_equal(v, #[trigger] s[j])
        }),
    decreases n - i,
{
    if i < n {
        lemma_first(h, o, v, i + 1, n);
    }
}

/// `indexOf(v, from)` gives the first index from `from` on at which the value stands, and
/// -1 exactly where it stands at none.
pub proof fn law_index_of(h: HeapModel, o: usize, v: JsValue, from: i32)
    requires
        is_list(h, o),
    ensures
        ({
            let s = h.objects[o as int].elements;
            let n = s.len() as int;
            let r = index_of_result(h, JsValue::Object(o), seq![v, JsValue::Smi(from)]);
            &&& r.0 == h
            &&& exists|i: int|
                {
                    &&& #[trigger] int_value(i) == r.1->Ok_0
                    &&& r.1 is Ok
                    &&& i == -1 || position(from as int, n) <= i < n
                    &&& i >= 0 ==> strictly_equal(v, s[i])
                    &&& forall|j: int|
                        position(from as int, n) <= j < n && (i == -1 || j < i)
                            ==> !strictly_equal(v, #[trigger] s[j])
                }
        }),
{
    let n = h.objects[o as int].elements.len() as int;
    lemma_position(from, n, 0);
    lemma_first(h, o, v, position(from as int, n), n);
    let i = first_index(h, o, v, position(from as int, n), n);
    let r = index_of_result(h, JsValue::Object(o), seq![v, JsValue::Smi(from)]);
    assert(int_value(i) == r.1->Ok_0);
}

proof fn lemma_last(h: HeapModel, o: usize, v: JsValue, i: int)
    requires
        is_list(h, o),
        -1 <= i < h.objects[o as int].elements.len(),
    ensures
        ({
            let s = h.objects[o as int].elements;
            let r = last_index(h, o, v, i);
            &&& -1 <= r <= i
            &&& r >= 0 ==> strictly_equal(v, s[r])
            &&& forall|j: int| r < j <= i ==> !strictly_equal(v, #[trigger] s[j])
        }),
    decreases i + 1,
{
    if i >= 0 {
        lemma_last(h, o, v, i - 1);
    }
}

/// `lastIndexOf(v)` gives the last index at which the value stands, and -1 exactly where
/// it stands at none.
pub proof fn law_last_index_of(h: HeapModel, o: usize, v: JsValue)
    requires
        is_list(h, o),
    ensures
        ({
            let s = h.objects[o as int].elements;
            let r = last_index_of_result(h, JsValue::Object(o), seq![v]);
            &&& r.0 == h
            &&& exists|i: int|
                {
                    &&& #[trigger] int_value(i) == r.1->Ok_0
                    &&& r.1 is Ok
                    &&& -1 <= i < s.len()
                    &&& i >= 0 ==> strictly_equal(v, s[i])
                    &&& forall|j: int| i < j < s.len() ==> !strictly_equal(v, #[trigger] s[j])
                }
        }),
{
    let n = h.objects[o as int].elements.len() as int;
    lemma_last(h, o, v, n - 1);
    let i = last_index(h, o, v, n - 1);
    let r = last_index_of_result(h, JsValue::Object(o), seq![v]);
    assert(int_value(i) == r.1->Ok_0);
}

/// `lastIndexOf(v, from)` looks no further than `from`.
pub proof fn law_last_index_of_from(h: HeapModel, o: usize, v: JsValue, from: i32)
    requires
        is_list(h, o),
        0 <= from < h.objects[o as int].elements.len(),
    ensures
        ({
            let s = h.objects[o as int].elements;
            let r = last_index_of_result(h, JsValue::Object(o), seq![v, JsValue::Smi(from)]);
            exists|i: int|
                {
                    &&& #[trigger] int_value(i) == r.1->Ok_0
                    &&& r.1 is Ok
                    &&& -1 <= i <= from
                    &&& i >= 0 ==> strictly_equal(v, s[i])
                    &&& forall|j: int| i < j <= from ==> !strictly_equal(v, #[trigger] s[j])
                }
        }),
{
    let n = h.objects[o as int].elements.len() as int;
    lemma_position(from, n, n - 1);
    lemma_last(h, o, v, from as int);
    let i = last_index(h, o, v, from as int);
    let r = last_index_of_result(h, JsValue::Object(o), seq![v, JsValue::Smi(from)]);
    assert(int_value(i) == r.1->Ok_0);
}

proof fn lemma_included(h: HeapModel, o: usize, v: JsValue, i: int, n: int)
    requires
        is_list(h, o),
        0 <= i <= n == h.objects[o as int].elements.len(),
    ensures
        ({
            let s = h.objects[o as int].elements;
            included(h, o, v, i, n) == exists|j: int|
                i <= j < n && same_value_zero_of(v, filled(#[trigger] s[j]))
        }),
    decreases n - i,
{
    let s = h.objects[o as int].elements;
    if i < n {
        lemma_included(h, o, v, i + 1, n);
        if same_value_zero_of(v, filled(s[i])) {
            assert(included(h, o, v, i, n));
        }
    }
}

/// `includes(v, from)` says whether the value stands anywhere from `from` on; a hole
/// counts as `undefined`.
pub proof fn law_includes(h: HeapModel, o: usize, v: JsValue, from: i32)
    requires
        is_list(h, o),
    ensures
        ({
            let s = h.objects[o as int].elements;
            let n = s.len() as int;
            includes_result(h, JsValue::Object(o), seq![v, JsValue::Smi(from)]) == (
                h,
                Ok::<JsValue, Fault>(
                    JsValue::Bool(
                        exists|j: int|
                            position(from as int, n) <= j < n && same_value_zero_of(
                                v,
                                filled(#[trigger] s[j]),
                            ),
                    ),
                ),
            )
        }),
{
    let n = h.objects[o as int].elements.len() as int;
    lemma_position(from, n, 0);
    lemma_included(h, o, v, position(from as int, n), n);
}

// ---------------------------------------------------------------------------
// Making arrays
// ---------------------------------------------------------------------------

/// `Array.of` gives an array of its arguments.
pub proof fn law_of(h: HeapModel, args: Seq<JsValue>)
    ensures
        gives_list(h, of_result(h, args), args),
{
}

/// `concat` without arguments is a copy.
pub proof fn law_concat_nothing(h: HeapModel, o: usize)
    requires
        o < h.objects.len(),
    ensures
        gives_list(
            h,
            concat_result(h, JsValue::Object(o), seq![]),
            h.objects[o as int].elements,
        ),
{
}

/// One more argument of `concat` puts its elements at the end where it is an array, and
/// itself where it is not.
pub proof fn law_concat_one_more(h: HeapModel, this: JsValue, args: Seq<JsValue>, v: JsValue)
    requires
        h.valid(v),
    ensures
        ({
            let before = concat_result(h, this, args);
            let r = concat_result(h, this, args.push(v));
            gives_list(
                h,
                r,
                given(before) + match v {
                    JsValue::Object(o) => if h.objects[o as int].kind == Kind::Array {
                        h.objects[o as int].elements
                    } else {
                        seq![v]
                    },
                    _ => seq![v],
                },
            )
        }),
{
    let s = match this {
        JsValue::Object(o) => h.objects[o as int].elements,
        _ => seq![],
    };
    let n = args.len() as int;
    lemma_concat_prefix(h, s, args, v, n);
    let t = concatenated(h, s, args, n);
    assert(t.push(v) =~= t + seq![v]);
}

proof fn lemma_concat_prefix(h: HeapModel, s: Seq<JsValue>, args: Seq<JsValue>, v: JsValue, k: int)
    requires
        0 <= k <= args.len(),
    ensures
        concatenated(h, s, args.push(v), k) == concatenated(h, s, args, k),
    decreases k,
{
    if k > 0 {
        lemma_concat_prefix(h, s, args, v, k - 1);
    }
}

/// The two halves of a split are put together again by `concat`.
pub proof fn law_concat_slices(h: HeapModel, o: usize, k: i32)
    requires
        o < h.objects.len(),
        h.objects.len() + 1 < usize::MAX,
        0 <= k <= h.objects[o as int].elements.len(),
    ensures
        ({
            let this = JsValue::Object(o);
            let h1 = slice_result(h, this, seq![JsValue::Smi(0), JsValue::Smi(k)]);
            let h2 = slice_result(h1.0, this, seq![JsValue::Smi(k)]);
            let r = concat_result(h2.0, h1.1->Ok_0, seq![h2.1->Ok_0]);
            given(r) == h.objects[o as int].elements
        }),
{
    let this = JsValue::Object(o);
    let h1 = slice_result(h, this, seq![JsValue::Smi(0), JsValue::Smi(k)]);
    let h2 = slice_result(h1.0, this, seq![JsValue::Smi(k)]);
    law_slice_parts(h, o, k);
    let back = slice_result(h, this, seq![JsValue::Smi(k)]);
    assert(h1.0.objects[o as int] == h.objects[o as int]);
    assert(given(h2) == given(back));
    let n = h.objects.len() as int;
    assert(h2.0.objects[n].elements == given(h1));
    assert(h2.0.objects[n + 1].elements == given(h2));
    reveal_with_fuel(concatenated, 2);
}

/// `Array.from` of an array gives its elements, with `undefined` for holes.
pub proof fn law_from(h: HeapModel, o: usize)
    requires
        is_list(h, o),
        h.objects.len() <= usize::MAX,
    ensures
        ({
            let s = h.objects[o as int].elements;
            gives_list(
                h,
                from_result(h, JsValue::Object(o)),
                Seq::new(s.len(), |i: int| filled(s[i])),
            )
        }),
{
    let s = h.objects[o as int].elements;
    let items = Seq::new(s.len(), |i: int| filled(s[i]));
    assert(crate::array::read_run(h, o, s.len() as int) =~= items);
    let a = h.objects.len() as usize;
    let h1 = h.with_new(crate::array::bare_array(items));
    assert(h1.objects[a as int].elements == items);
    assert(length_data(h1, a) is None);
    assert(crate::array_like::with_new_length(h1, a, s.len() as int) =~= h1);
}

/// `Array(n)` gives an array of the length `n` without elements.
pub proof fn law_construct_length(h: HeapModel, n: i32)
    requires
        n >= 0,
        h.objects.len() <= usize::MAX,
        h.texts.len() <= usize::MAX,
        h.distinct_texts(),
    ensures
        ({
            let r = construct_result(h, seq![JsValue::Smi(n)]);
            let a = h.objects.len() as usize;
            &&& r.1 == Ok::<JsValue, Fault>(JsValue::Object(a))
            &&& r.0.objects[a as int].kind == Kind::Array
            &&& given(r).len() == 0
            &&& full_length(r.0, a) == n
        }),
{
    lemma_int_exact(n as int);
    let r = construct_result(h, seq![JsValue::Smi(n)]);
    let a = h.objects.len() as usize;
    let name = crate::text::utf16_of("length"@);
    lemma_interned(h, name);
    assert(r.0.has_text(name) && r.0.text_id(name) == h.text_id(name)) by {
        assert(r.0.texts == h.interned(name).texts);
        assert(r.0.has_text(name) == h.interned(name).has_text(name));
        assert(r.0.text_id(name) == h.interned(name).text_id(name));
    }
    let list = r.0.objects[a as int].named.list;
    crate::properties::lemma_index_of_key(
        list,
        crate::value::PropKey::Text(h.text_id(name)),
        0,
    );
}

/// `Array(...items)` with other than one argument gives an array of them.
pub proof fn law_construct_items(h: HeapModel, args: Seq<JsValue>)
    requires
        args.len() != 1,
    ensures
        gives_list(h, construct_result(h, args), args),
{
}

// ---------------------------------------------------------------------------
// Texts of arrays
// ---------------------------------------------------------------------------

/// What joining a list of parts to another gives.
proof fn lemma_joined(h: HeapModel, a: Seq<JsValue>, b: Seq<JsValue>, k: int, sep: Seq<u16>)
    requires
        a.len() > 0,
        1 <= k <= b.len(),
    ensures
        joined_with(h, a + b, a.len() + k, sep) == joined_with(h, a, a.len() as int, sep) + sep
            + joined_with(h, b, k, sep),
    decreases k,
{
    lemma_joined_prefix(h, a, b, a.len() as int, sep);
    let s = a + b;
    assert(s[a.len() + k - 1] == b[k - 1]);
    if k == 1 {
        assert(joined_with(h, s, a.len() as int + 1, sep) =~= joined_with(h, a, a.len() as int, sep) + sep
            + joined_with(h, b, 1, sep));
    } else {
        lemma_joined(h, a, b, k - 1, sep);
        assert(joined_with(h, s, a.len() + k, sep) =~= joined_with(h, a, a.len() as int, sep) + sep
            + joined_with(h, b, k, sep));
    }
}

proof fn lemma_joined_prefix(h: HeapModel, a: Seq<JsValue>, b: Seq<JsValue>, k: int, sep: Seq<u16>)
    requires
        0 <= k <= a.len(),
    ensures
        joined_with(h, a + b, k, sep) == joined_with(h, a, k, sep),
    decreases k,
{
    if k > 1 {
        lemma_joined_prefix(h, a, b, k - 1, sep);
    }
}

/// Joining an array that is two others one behind the other: their texts with the
/// separator between them.
pub proof fn law_join_parts(h: HeapModel, o: usize, a: usize, b: usize, sep: JsValue)
    requires
        h.texts.len() < usize::MAX,
        h.objects[o as int].elements == h.objects[a as int].elements
            + h.objects[b as int].elements,
        h.objects[a as int].elements.len() > 0,
        h.objects[b as int].elements.len() > 0,
        sep != JsValue::Undefined,
    ensures
        ({
            let text = |x: usize| given_text(join_result(h, JsValue::Object(x), seq![sep]));
            text(o) == text(a) + text_of(h, sep) + text(b)
        }),
{
    let x = h.objects[a as int].elements;
    let y = h.objects[b as int].elements;
    let t = text_of(h, sep);
    lemma_joined(h, x, y, y.len() as int, t);
    lemma_interned(h, joined_with(h, x + y, (x + y).len() as int, t));
    lemma_interned(h, joined_with(h, x, x.len() as int, t));
    lemma_interned(h, joined_with(h, y, y.len() as int, t));
}

/// Joining an array of one element gives the text of the element: nothing of `undefined`,
/// `null` and holes; and of none the empty text.
pub proof fn law_join_one(h: HeapModel, o: usize, sep: JsValue)
    requires
        h.texts.len() < usize::MAX,
    ensures
        ({
            let s = h.objects[o as int].elements;
            let t = given_text(join_result(h, JsValue::Object(o), seq![sep]));
            &&& s.len() == 0 ==> t.len() == 0
            &&& s.len() == 1 && (s[0] == JsValue::Undefined || s[0] == JsValue::Null || s[0]
                == JsValue::Hole) ==> t.len() == 0
            &&& s.len() == 1 && s[0] != JsValue::Undefined && s[0] != JsValue::Null && s[0]
                != JsValue::Hole ==> t == text_of(h, s[0])
        }),
{
    let s = h.objects[o as int].elements;
    let sp = if sep == JsValue::Undefined {
        seq![0x2cu16]
    } else {
        text_of(h, sep)
    };
    lemma_interned(h, joined_with(h, s, s.len() as int, sp));
}

/// `toString` joins by commas, and so does `join` without a separator.
pub proof fn law_array_to_string(h: HeapModel, this: JsValue, comma: usize)
    requires
        h.texts[comma as int] == seq![0x2cu16],
    ensures
        this is Object ==> to_string_result(h, this) == join_result(
            h,
            this,
            seq![JsValue::Text(comma)],
        ),
        to_string_result(h, this) == join_result(h, this, seq![]),
{
    assert(crate::text::well_formed(seq![0x2cu16]) =~= seq![0x2cu16]);
}

// ---------------------------------------------------------------------------
// Flattening
// ---------------------------------------------------------------------------

proof fn lemma_flattened(h: HeapModel, a: Seq<JsValue>, b: Seq<JsValue>, k: int, levels: nat)
    requires
        0 <= k <= b.len(),
    ensures
        flattened(h, a + b, a.len() + k, levels) == flattened(h, a, a.len() as int, levels)
            + flattened(h, b, k, levels),
    decreases k,
{
    if k == 0 {
        lemma_flattened_prefix(h, a, b, a.len() as int, levels);
        assert(flattened(h, a, a.len() as int, levels) + Seq::<JsValue>::empty()
            =~= flattened(h, a, a.len() as int, levels));
    } else {
        lemma_flattened(h, a, b, k - 1, levels);
        assert((a + b)[a.len() + k - 1] == b[k - 1]);
        assert(flattened(h, a + b, a.len() + k, levels) =~= flattened(h, a, a.len() as int, levels)
            + flattened(h, b, k, levels));
    }
}

proof fn lemma_flattened_prefix(h: HeapModel, a: Seq<JsValue>, b: Seq<JsValue>, k: int, levels: nat)
    requires
        0 <= k <= a.len(),
    ensures
        flattened(h, a + b, k, levels) == flattened(h, a, k, levels),
    decreases k,
{
    if k > 0 {
        lemma_flattened_prefix(h, a, b, k - 1, levels);
    }
}

/// Flattening an array that is two others one behind the other flattens each of them.
pub proof fn law_flat_parts(h: HeapModel, o: usize, a: usize, b: usize, args: Seq<JsValue>)
    requires
        h.objects[o as int].elements == h.objects[a as int].elements
            + h.objects[b as int].elements,
    ensures
        given(flat_result(h, JsValue::Object(o), args)) == given(
            flat_result(h, JsValue::Object(a), args),
        ) + given(flat_result(h, JsValue::Object(b), args)),
{
    let x = h.objects[a as int].elements;
    let y = h.objects[b as int].elements;
    let levels = if crate::ctx::arg_of(args, 0) == JsValue::Undefined {
        1nat
    } else {
        crate::array::levels_of(crate::convert::number_of(h, crate::ctx::arg_of(args, 0)))
    };
    lemma_flattened(h, x, y, y.len() as int, levels);
}

proof fn lemma_levels(d: i32)
    ensures
        crate::array::levels_of(crate::double::int_double(d as int)) == if d < 1 {
            0
        } else {
            d as nat
        },
{
    lemma_int_exact(d as int);
    lemma_int_exact(1);
    if d >= 1 {
        crate::double::lemma_int_order(1, d as int);
    }
}

/// An array that holds one array is flattened as that one is, a level less; what is no
/// array, or lies too deep, stays as it is, and a hole becomes `undefined`.
pub proof fn law_flat_nested(h: HeapModel, o: usize, d: i32)
    requires
        h.objects[o as int].elements.len() == 1,
    ensures
        ({
            let v = h.objects[o as int].elements[0];
            let r = flat_result(h, JsValue::Object(o), seq![JsValue::Smi(d)]);
            match v {
                JsValue::Object(x) => if h.objects[x as int].kind == Kind::Array && d >= 1 {
                    given(r) == given(
                        flat_result(h, JsValue::Object(x), seq![JsValue::Smi((d - 1) as i32)]),
                    )
                } else {
                    given(r) == seq![v]
                },
                _ => given(r) == seq![filled(v)],
            }
        }),
{
    lemma_levels(d);
    if d >= 1 {
        lemma_levels((d - 1) as i32);
    }
    let s = h.objects[o as int].elements;
    let levels = if d < 1 {
        0
    } else {
        d as nat
    };
    assert(flattened(h, s, 0, levels) =~= seq![]);
    let r = flat_result(h, JsValue::Object(o), seq![JsValue::Smi(d)]);
    assert(given(r) == flattened(h, s, 1, levels));
    match s[0] {
        JsValue::Object(x) => {
            let t = h.objects[x as int].elements;
            if h.objects[x as int].kind == Kind::Array && d >= 1 {
                assert(Seq::<JsValue>::empty() + flattened(h, t, t.len() as int, (levels - 1) as nat)
                    =~= flattened(h, t, t.len() as int, (levels - 1) as nat));
            } else {
                assert(given(r) =~= seq![s[0]]);
            }
        },
        _ => {
            assert(given(r) =~= seq![filled(s[0])]);
        },
    }
}

/// Flattening an array without elements gives none, and without a depth it takes one
/// level away.
pub proof fn law_flat_default(h: HeapModel, o: usize)
    ensures
        h.objects[o as int].elements.len() == 0 ==> given(
            flat_result(h, JsValue::Object(o), seq![]),
        ).len() == 0,
        given(flat_result(h, JsValue::Object(o), seq![])) == given(
            flat_result(h, JsValue::Object(o), seq![JsValue::Smi(1)]),
        ),
{
    lemma_levels(1);
}

} // verus!
