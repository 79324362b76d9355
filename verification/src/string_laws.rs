//! What the text built-ins promise: which units come out, where a text is found, and how
//! calls relate to each other.
use vstd::prelude::*;

use crate::array_laws::{given_text, position};
use crate::convert::{int_value, text_of};
use crate::descriptor::Fault;
use crate::double::{NAN, int_double, lemma_int_exact, lemma_int_order, saturated};
use crate::heap::{HeapModel, lemma_interned};
use crate::json_text::repeated;
use crate::string::{
    at_result, char_at_result, char_code_at_result, code_point, code_point_at_result,
    concat_result, concatenated, cycled, ends_with_result, found_back, found_from,
    from_char_code_result, from_code_point_result, includes_result, index_of_result, is_trimmed,
    last_index_of_result, pad_end_result, pad_start_result, padded_text, point_units,
    points_text, repeat_result, replace_all_result, replaced_all, slice_result, stands_at,
    starts_with_result, substr_result, substring_result, trim_back, trim_both_result,
    trim_end_result, trim_front, trim_start_result, trimmed_text, unit_order,
};
use crate::text::{is_high, is_low, well_formed};
use crate::value::JsValue;

verus! {

/// Whether a text has no halves of surrogate pairs.
pub open spec fn no_halves(t: Seq<u16>) -> bool {
    forall|i: int| 0 <= i < t.len() ==> !is_high(#[trigger] t[i]) && !is_low(t[i])
}

/// Whether a value is a text without halves of pairs, in a heap that can take more texts.
pub open spec fn is_plain(h: HeapModel, n: usize) -> bool {
    &&& n < h.texts.len()
    &&& h.texts.len() < usize::MAX
    &&& no_halves(h.texts[n as int])
}

proof fn lemma_plain(t: Seq<u16>)
    requires
        no_halves(t),
    ensures
        well_formed(t) == t,
{
    assert(well_formed(t) =~= t);
}

proof fn lemma_smi(i: i32)
    ensures
        saturated(int_double(i as int)) == i,
        crate::double::is_finite(int_double(i as int)),
        !crate::double::is_nan(int_double(i as int)),
{
    lemma_int_exact(i as int);
}

/// What lies between two numbers, each of which is held within a text of `n` units.
pub open spec fn clamp(i: int, n: int) -> int {
    if i < 0 {
        0
    } else if i < n {
        i
    } else {
        n
    }
}

// ---------------------------------------------------------------------------
// Units
// ---------------------------------------------------------------------------

/// `charAt(i)` is the unit at the index as a text, and the empty text outside.
pub proof fn law_char_at(h: HeapModel, n: usize, i: i32)
    requires
        n < h.texts.len(),
        h.texts.len() < usize::MAX,
    ensures
        ({
            let t = h.texts[n as int];
            let r = char_at_result(h, JsValue::Text(n), seq![JsValue::Smi(i)]);
            &&& r.1 is Ok
            &&& 0 <= i < t.len() ==> given_text(r) == seq![t[i as int]]
            &&& !(0 <= i < t.len()) ==> given_text(r).len() == 0
        }),
{
    lemma_smi(i);
    let t = h.texts[n as int];
    lemma_interned(h, seq![t[i as int]]);
    lemma_interned(h, seq![]);
}

/// `charCodeAt(i)` is the number of the unit at the index, and not-a-number outside.
pub proof fn law_char_code_at(h: HeapModel, n: usize, i: i32)
    requires
        is_plain(h, n),
    ensures
        ({
            let t = h.texts[n as int];
            char_code_at_result(h, JsValue::Text(n), seq![JsValue::Smi(i)]) == (
                h,
                Ok::<JsValue, Fault>(
                    if 0 <= i < t.len() {
                        JsValue::Smi(t[i as int] as i32)
                    } else {
                        JsValue::Double(NAN)
                    },
                ),
            )
        }),
{
    lemma_smi(i);
    lemma_plain(h.texts[n as int]);
}

/// `at(i)` is the unit at the index as a text, a negative index counts from the end, and
/// outside there is nothing.
pub proof fn law_text_at(h: HeapModel, n: usize, i: i32)
    requires
        is_plain(h, n),
    ensures
        ({
            let t = h.texts[n as int];
            let r = at_result(h, JsValue::Text(n), seq![JsValue::Smi(i)]);
            &&& 0 <= i < t.len() ==> given_text(r) == seq![t[i as int]]
            &&& -t.len() <= i < 0 ==> given_text(r) == seq![t[t.len() + i]]
            &&& (i >= t.len() || i < -t.len()) ==> r == (h, Ok::<JsValue, Fault>(
                JsValue::Undefined,
            ))
        }),
{
    lemma_smi(i);
    let t = h.texts[n as int];
    lemma_plain(t);
    if 0 <= i < t.len() {
        let u = seq![t[i as int]];
        lemma_plain(u);
        lemma_interned(h, u);
    } else if -t.len() <= i < 0 {
        let u = seq![t[t.len() + i]];
        lemma_plain(u);
        lemma_interned(h, u);
    }
}

/// A code point that is written in units is read back from them.
pub proof fn law_code_point_units(c: int)
    requires
        0 <= c <= 0x10_ffff,
        !(0xd800 <= c <= 0xdfff),
    ensures
        code_point(point_units(c), 0) == c,
        point_units(c).len() == if c < 0x1_0000 {
            1nat
        } else {
            2nat
        },
        c >= 0x1_0000 ==> is_high(point_units(c)[0]) && is_low(point_units(c)[1]),
{
    if c >= 0x1_0000 {
        let x = c - 0x1_0000;
        assert(x == x / 0x400 * 0x400 + x % 0x400);
    }
}

/// `fromCodePoint(c)` writes the code point that `codePointAt(0)` reads.
pub proof fn law_from_code_point(h: HeapModel, c: i32)
    requires
        0 <= c <= 0x10_ffff,
        !(0xd800 <= c <= 0xdfff),
        h.texts.len() < usize::MAX,
    ensures
        ({
            let r = from_code_point_result(h, seq![JsValue::Smi(c)]);
            let back = code_point_at_result(r.0, r.1->Ok_0, seq![JsValue::Smi(0)]);
            &&& r.1 matches Ok(JsValue::Text(_))
            &&& back.1 == Ok::<JsValue, Fault>(JsValue::Smi(c))
        }),
{
    lemma_smi(c);
    lemma_smi(0);
    lemma_int_exact(c as int);
    lemma_int_exact(0);
    lemma_int_order(0, c as int);
    law_code_point_units(c as int);
    reveal_with_fuel(points_text, 2);
    let t = point_units(c as int);
    assert(Seq::<u16>::empty() + t =~= t);
    lemma_interned(h, t);
    assert(well_formed(t) =~= t);
}

/// A number that is no code point is an error of `fromCodePoint`.
pub proof fn law_from_code_point_refuses(h: HeapModel, c: i32)
    requires
        c < 0 || c > 0x10_ffff || 0xd800 <= c <= 0xdfff,
    ensures
        from_code_point_result(h, seq![JsValue::Smi(c)]).1 is Err,
{
    lemma_smi(c);
    reveal_with_fuel(points_text, 2);
}

/// `fromCharCode` of numbers of units gives a text of those units.
pub proof fn law_from_char_code(h: HeapModel, t: Seq<u16>, args: Seq<JsValue>)
    requires
        no_halves(t),
        args.len() == t.len(),
        forall|i: int| 0 <= i < t.len() ==> #[trigger] args[i] == JsValue::Smi(t[i] as i32),
        h.texts.len() < usize::MAX,
    ensures
        given_text(from_char_code_result(h, args)) == t,
{
    let u = args.map_values(|v: JsValue| crate::string::as_unit(h, v));
    assert forall|i: int| 0 <= i < t.len() implies #[trigger] u[i] == t[i] by {
        lemma_smi(t[i] as i32);
        assert(args[i] == JsValue::Smi(t[i] as i32));
    }
    assert(u =~= t);
    lemma_plain(t);
    lemma_interned(h, t);
}

// ---------------------------------------------------------------------------
// Parts of texts
// ---------------------------------------------------------------------------

/// `slice(a, b)` gives the units at `a` and behind it, up to `b` and without it.
pub proof fn law_text_slice(h: HeapModel, n: usize, a: i32, b: i32)
    requires
        n < h.texts.len(),
        h.texts.len() < usize::MAX,
    ensures
        ({
            let t = h.texts[n as int];
            let from = position(a as int, t.len() as int);
            let to = position(b as int, t.len() as int);
            let u = given_text(
                slice_result(h, JsValue::Text(n), seq![JsValue::Smi(a), JsValue::Smi(b)]),
            );
            &&& from <= to ==> u.len() == to - from
            &&& from > to ==> u.len() == 0
            &&& forall|i: int| 0 <= i < u.len() ==> #[trigger] u[i] == t[from + i]
        }),
{
    lemma_smi(a);
    lemma_smi(b);
    let t = h.texts[n as int];
    let from = position(a as int, t.len() as int);
    let to = position(b as int, t.len() as int);
    lemma_interned(h, t.subrange(from, to));
    lemma_interned(h, seq![]);
}

/// A slice up to an index and the slice from there on are the text.
pub proof fn law_text_slice_parts(h: HeapModel, n: usize, k: i32)
    requires
        n < h.texts.len(),
        h.texts.len() < usize::MAX,
        0 <= k <= h.texts[n as int].len(),
    ensures
        given_text(slice_result(h, JsValue::Text(n), seq![JsValue::Smi(0), JsValue::Smi(k)]))
            + given_text(slice_result(h, JsValue::Text(n), seq![JsValue::Smi(k)]))
            == h.texts[n as int],
{
    lemma_smi(0);
    lemma_smi(k);
    let t = h.texts[n as int];
    let m = t.len() as int;
    assert(t.subrange(0, k as int) + t.subrange(k as int, m) =~= t);
    lemma_interned(h, t.subrange(0, k as int));
    lemma_interned(h, t.subrange(k as int, m));
    lemma_interned(h, seq![]);
    if k == 0 {
        assert(t.subrange(0, 0) =~= seq![]);
    }
    if k == m {
        assert(t.subrange(m, m) =~= seq![]);
    }
}

proof fn lemma_plain_part(t: Seq<u16>, a: int, b: int)
    requires
        no_halves(t),
        0 <= a <= b <= t.len(),
    ensures
        well_formed(t.subrange(a, b)) == t.subrange(a, b),
{
    lemma_plain(t.subrange(a, b));
}

/// `substring(a, b)` gives the units between two indices, in whichever order they are
/// given; a negative index counts as 0.
pub proof fn law_substring(h: HeapModel, n: usize, a: i32, b: i32)
    requires
        is_plain(h, n),
    ensures
        ({
            let t = h.texts[n as int];
            let x = clamp(a as int, t.len() as int);
            let y = clamp(b as int, t.len() as int);
            let this = JsValue::Text(n);
            let u = given_text(
                substring_result(h, this, seq![JsValue::Smi(a), JsValue::Smi(b)]),
            );
            &&& u == given_text(
                substring_result(h, this, seq![JsValue::Smi(b), JsValue::Smi(a)]),
            )
            &&& x <= y ==> u.len() == y - x && forall|i: int|
                0 <= i < u.len() ==> #[trigger] u[i] == t[x + i]
            &&& given_text(substring_result(h, this, seq![JsValue::Smi(a)])) == t.skip(x)
        }),
{
    lemma_smi(a);
    lemma_smi(b);
    let t = h.texts[n as int];
    lemma_plain(t);
    let x = clamp(a as int, t.len() as int);
    let y = clamp(b as int, t.len() as int);
    let (lo, hi) = if x <= y {
        (x, y)
    } else {
        (y, x)
    };
    lemma_plain_part(t, lo, hi);
    lemma_interned(h, t.subrange(lo, hi));
    lemma_plain_part(t, x, t.len() as int);
    lemma_interned(h, t.subrange(x, t.len() as int));
    assert(t.subrange(x, t.len() as int) =~= t.skip(x));
}

/// `substr(a, k)` gives up to `k` units from `a` on; a negative index counts from the
/// end.
pub proof fn law_substr(h: HeapModel, n: usize, a: i32, k: i32)
    requires
        is_plain(h, n),
    ensures
        ({
            let t = h.texts[n as int];
            let x = position(a as int, t.len() as int);
            let m = clamp(k as int, t.len() - x);
            let u = given_text(
                substr_result(h, JsValue::Text(n), seq![JsValue::Smi(a), JsValue::Smi(k)]),
            );
            &&& u.len() == m
            &&& forall|i: int| 0 <= i < m ==> #[trigger] u[i] == t[x + i]
            &&& given_text(substr_result(h, JsValue::Text(n), seq![JsValue::Smi(a)])) == t.skip(x)
        }),
{
    lemma_smi(a);
    lemma_smi(k);
    let t = h.texts[n as int];
    lemma_plain(t);
    let x = position(a as int, t.len() as int);
    let m = clamp(k as int, t.len() - x);
    lemma_plain_part(t, x, x + m);
    lemma_interned(h, t.subrange(x, x + m));
    lemma_plain_part(t, x, t.len() as int);
    lemma_interned(h, t.subrange(x, t.len() as int));
    assert(t.subrange(x, t.len() as int) =~= t.skip(x));
}

// ---------------------------------------------------------------------------
// Searching
// ---------------------------------------------------------------------------

/// Whether a text stands in another at an index.
pub open spec fn occurs(t: Seq<u16>, w: Seq<u16>, i: int) -> bool {
    0 <= i <= t.len() - w.len() && forall|k: int| 0 <= k < w.len() ==> t[i + k] == #[trigger] w[k]
}

proof fn lemma_occurs(t: Seq<u16>, w: Seq<u16>, i: int)
    ensures
        stands_at(t, w, i) == occurs(t, w, i),
{
    if stands_at(t, w, i) {
        assert forall|k: int| 0 <= k < w.len() implies t[i + k] == #[trigger] w[k] by {
            assert(t.subrange(i, i + w.len())[k] == t[i + k]);
        }
    }
    if occurs(t, w, i) {
        assert(t.subrange(i, i + w.len()) =~= w);
    }
}

proof fn lemma_found(t: Seq<u16>, w: Seq<u16>, i: int)
    requires
        0 <= i,
    ensures
        match found_from(t, w, i) {
            Some(k) => i <= k && occurs(t, w, k) && forall|j: int|
                i <= j < k ==> !#[trigger] occurs(t, w, j),
            None => forall|j: int| i <= j ==> !#[trigger] occurs(t, w, j),
        },
    decreases t.len() + 1 - i,
{
    lemma_occurs(t, w, i);
    if i <= t.len() && !stands_at(t, w, i) {
        lemma_found(t, w, i + 1);
    }
}

/// `indexOf(w, from)` gives the first index from `from` on at which a text stands, and -1
/// exactly where it stands at none; `includes` says whether there is one.
pub proof fn law_text_index_of(h: HeapModel, n: usize, w: usize, from: i32)
    requires
        is_plain(h, n),
        is_plain(h, w),
        h.texts[w as int].len() > 0,
    ensures
        ({
            let t = h.texts[n as int];
            let x = h.texts[w as int];
            let args = seq![JsValue::Text(w), JsValue::Smi(from)];
            let start = if from < 0 {
                0
            } else {
                from as int
            };
            let r = index_of_result(h, JsValue::Text(n), args);
            exists|i: int|
                {
                    &&& r == (h, Ok::<JsValue, Fault>(#[trigger] int_value(i)))
                    &&& i == -1 || (start <= i && occurs(t, x, i))
                    &&& forall|j: int|
                        start <= j && (i == -1 || j < i) ==> !#[trigger] occurs(t, x, j)
                    &&& includes_result(h, JsValue::Text(n), args) == (
                        h,
                        Ok::<JsValue, Fault>(JsValue::Bool(i != -1)),
                    )
                }
        }),
{
    lemma_smi(from);
    let t = h.texts[n as int];
    let x = h.texts[w as int];
    lemma_plain(t);
    lemma_plain(x);
    let start = if from < 0 {
        0
    } else {
        from as int
    };
    lemma_found(t, x, start);
    let i = match found_from(t, x, start) {
        Some(k) => k,
        None => -1,
    };
    let r = index_of_result(h, JsValue::Text(n), seq![JsValue::Text(w), JsValue::Smi(from)]);
    assert(r == (h, Ok::<JsValue, Fault>(int_value(i))));
}

proof fn lemma_found_back(t: Seq<u16>, w: Seq<u16>, i: int)
    requires
        i <= t.len(),
    ensures
        match found_back(t, w, i) {
            Some(k) => k <= i && occurs(t, w, k) && forall|j: int|
                k < j <= i ==> !#[trigger] occurs(t, w, j),
            None => forall|j: int| j <= i ==> !#[trigger] occurs(t, w, j),
        },
    decreases i + 1,
{
    lemma_occurs(t, w, i);
    if i >= 0 && !stands_at(t, w, i) {
        lemma_found_back(t, w, i - 1);
    }
}

/// `lastIndexOf(w)` gives the last index at which a text stands, and -1 exactly where it
/// stands at none.
pub proof fn law_text_last_index_of(h: HeapModel, n: usize, w: usize)
    requires
        is_plain(h, n),
        is_plain(h, w),
    ensures
        ({
            let t = h.texts[n as int];
            let x = h.texts[w as int];
            let r = last_index_of_result(h, JsValue::Text(n), seq![JsValue::Text(w)]);
            exists|i: int|
                {
                    &&& r == (h, Ok::<JsValue, Fault>(#[trigger] int_value(i)))
                    &&& i == -1 || occurs(t, x, i)
                    &&& forall|j: int| i < j ==> !#[trigger] occurs(t, x, j)
                }
        }),
{
    let t = h.texts[n as int];
    let x = h.texts[w as int];
    lemma_plain(t);
    lemma_plain(x);
    let m = t.len() as int;
    assert(t.take(m) =~= t);
    lemma_found_back(t, x, m);
    let i = match found_back(t, x, m) {
        Some(k) => k,
        None => -1,
    };
    let r = last_index_of_result(h, JsValue::Text(n), seq![JsValue::Text(w)]);
    assert(r == (h, Ok::<JsValue, Fault>(int_value(i))));
    assert forall|j: int| i < j implies !#[trigger] occurs(t, x, j) by {}
}

/// `startsWith(w, i)` says whether a text stands at an index, and `endsWith(w, j)` whether
/// it stands right before one.
pub proof fn law_starts_and_ends(h: HeapModel, n: usize, w: usize, i: i32)
    requires
        is_plain(h, n),
        is_plain(h, w),
        i >= 0,
    ensures
        ({
            let t = h.texts[n as int];
            let x = h.texts[w as int];
            let this = JsValue::Text(n);
            let args = seq![JsValue::Text(w), JsValue::Smi(i)];
            let one = seq![JsValue::Text(w)];
            &&& starts_with_result(h, this, args) == (
                h,
                Ok::<JsValue, Fault>(JsValue::Bool(occurs(t, x, i as int))),
            )
            &&& starts_with_result(h, this, one) == (
                h,
                Ok::<JsValue, Fault>(JsValue::Bool(occurs(t, x, 0))),
            )
            &&& ends_with_result(h, this, args) == (
                h,
                Ok::<JsValue, Fault>(
                    JsValue::Bool(occurs(t, x, clamp(i as int, t.len() as int) - x.len())),
                ),
            )
            &&& ends_with_result(h, this, one) == (
                h,
                Ok::<JsValue, Fault>(JsValue::Bool(occurs(t, x, t.len() - x.len()))),
            )
        }),
{
    lemma_smi(i);
    let t = h.texts[n as int];
    let x = h.texts[w as int];
    lemma_plain(t);
    lemma_plain(x);
    lemma_occurs(t, x, i as int);
    lemma_occurs(t, x, 0);
    lemma_occurs(t, x, clamp(i as int, t.len() as int) - x.len());
    lemma_occurs(t, x, t.len() - x.len());
}

// ---------------------------------------------------------------------------
// Making texts
// ---------------------------------------------------------------------------

/// `concat` without arguments gives the text, and one more argument puts its text at the
/// end.
pub proof fn law_text_concat(h: HeapModel, n: usize, args: Seq<JsValue>, v: JsValue)
    requires
        is_plain(h, n),
    ensures
        ({
            let this = JsValue::Text(n);
            &&& given_text(concat_result(h, this, seq![])) == h.texts[n as int]
            &&& given_text(concat_result(h, this, args.push(v))) == given_text(
                concat_result(h, this, args),
            ) + text_of(h, v)
        }),
{
    let t = h.texts[n as int];
    lemma_plain(t);
    lemma_interned(h, t);
    let k = args.len() as int;
    lemma_concat_prefix(h, t, args, v, k);
    lemma_interned(h, concatenated(h, t, args, k));
    lemma_interned(h, concatenated(h, t, args.push(v), k + 1));
}

proof fn lemma_concat_prefix(h: HeapModel, t: Seq<u16>, args: Seq<JsValue>, v: JsValue, k: int)
    requires
        0 <= k <= args.len(),
    ensures
        concatenated(h, t, args.push(v), k) == concatenated(h, t, args, k),
    decreases k,
{
    if k > 0 {
        lemma_concat_prefix(h, t, args, v, k - 1);
    }
}

/// `repeat(0)` gives nothing, `repeat(k + 1)` what `repeat(k)` gives and the text behind
/// it, and a negative count is an error.
pub proof fn law_repeat(h: HeapModel, n: usize, k: i32)
    requires
        is_plain(h, n),
    ensures
        ({
            let text = |i: int|
                given_text(repeat_result(h, JsValue::Text(n), seq![JsValue::Smi(i as i32)]));
            &&& text(0).len() == 0
            &&& 0 <= k < i32::MAX ==> text(k + 1) == text(k as int) + h.texts[n as int]
            &&& k < 0 ==> repeat_result(h, JsValue::Text(n), seq![JsValue::Smi(k)]).1 is Err
        }),
{
    let t = h.texts[n as int];
    lemma_plain(t);
    lemma_smi(0);
    lemma_smi(k);
    lemma_int_exact(0);
    lemma_int_exact(k as int);
    lemma_interned(h, repeated(t, 0));
    if k >= 0 {
        lemma_int_order(0, k as int);
        lemma_interned(h, repeated(t, k as nat));
        if k < i32::MAX {
            lemma_smi((k + 1) as i32);
            lemma_int_exact(k + 1);
            lemma_int_order(0, k + 1);
            lemma_interned(h, repeated(t, (k + 1) as nat));
        }
    }
}

proof fn lemma_padded(t: Seq<u16>, target: int, fill: Seq<u16>, start: bool)
    requires
        no_halves(t),
        no_halves(fill),
        fill.len() > 0,
        target > t.len(),
    ensures
        ({
            let u = padded_text(t, target, fill, start);
            let k = target - t.len();
            &&& u.len() == target
            &&& start ==> u.skip(k) == t && forall|i: int|
                0 <= i < k ==> #[trigger] u[i] == fill[i % (fill.len() as int)]
            &&& !start ==> u.take(t.len() as int) == t && forall|i: int|
                t.len() <= i < target ==> #[trigger] u[i] == fill[(i - t.len()) % (fill.len() as int)]
        }),
{
    let k = target - t.len();
    let p = cycled(fill, k as nat);
    let u = if start {
        p + t
    } else {
        t + p
    };
    assert forall|i: int| 0 <= i < u.len() implies !is_high(#[trigger] u[i]) && !is_low(u[i]) by {
        if start {
            if i < k {
                let m = i % (fill.len() as int);
                assert(0 <= m < fill.len());
                assert(u[i] == fill[i % (fill.len() as int)]);
            } else {
                assert(u[i] == t[i - k]);
            }
        } else {
            if i < t.len() {
                assert(u[i] == t[i]);
            } else {
                let m = (i - t.len()) % (fill.len() as int);
                assert(0 <= m < fill.len());
                assert(u[i] == fill[m]);
            }
        }
    }
    lemma_plain(u);
    if start {
        assert(u.skip(k) =~= t);
    } else {
        assert(u.take(t.len() as int) =~= t);
    }
}

/// `padStart(m, w)` and `padEnd(m, w)` give the text filled up to `m` units, the one before
/// it and the other behind it, with `w` over and over; a text that is long enough stays.
pub proof fn law_pad(h: HeapModel, n: usize, m: i32, w: usize)
    requires
        is_plain(h, n),
        is_plain(h, w),
        h.texts[w as int].len() > 0,
    ensures
        ({
            let t = h.texts[n as int];
            let fill = h.texts[w as int];
            let args = seq![JsValue::Smi(m), JsValue::Text(w)];
            let a = given_text(pad_start_result(h, JsValue::Text(n), args));
            let b = given_text(pad_end_result(h, JsValue::Text(n), args));
            let k = m - t.len();
            if k <= 0 {
                a == t && b == t
            } else {
                &&& a.len() == m
                &&& b.len() == m
                &&& a.skip(k) == t
                &&& b.take(t.len() as int) == t
                &&& forall|i: int| 0 <= i < k ==> #[trigger] a[i] == fill[i % (fill.len() as int)]
                &&& forall|i: int|
                    t.len() <= i < m ==> #[trigger] b[i] == fill[(i - t.len()) % (fill.len() as int)]
            }
        }),
{
    lemma_smi(m);
    let t = h.texts[n as int];
    let fill = h.texts[w as int];
    lemma_plain(t);
    lemma_plain(fill);
    lemma_interned(h, t);
    if m > t.len() {
        lemma_padded(t, m as int, fill, true);
        lemma_padded(t, m as int, fill, false);
        lemma_interned(h, padded_text(t, m as int, fill, true));
        lemma_interned(h, padded_text(t, m as int, fill, false));
    }
}

proof fn lemma_trim_front(t: Seq<u16>, i: int)
    requires
        0 <= i <= t.len(),
    ensures
        ({
            let a = trim_front(t, i);
            &&& i <= a <= t.len()
            &&& forall|k: int| i <= k < a ==> is_trimmed(#[trigger] t[k])
            &&& a < t.len() ==> !is_trimmed(t[a])
        }),
    decreases t.len() - i,
{
    if i < t.len() && is_trimmed(t[i]) {
        lemma_trim_front(t, i + 1);
    }
}

proof fn lemma_trim_back(t: Seq<u16>, i: int, j: int)
    requires
        0 <= i <= j <= t.len(),
    ensures
        ({
            let b = trim_back(t, i, j);
            &&& i <= b <= j
            &&& forall|k: int| b <= k < j ==> is_trimmed(#[trigger] t[k])
            &&& b > i ==> !is_trimmed(t[b - 1])
        }),
    decreases j - i,
{
    if i < j && is_trimmed(t[j - 1]) {
        lemma_trim_back(t, i, j - 1);
    }
}

/// Whether a text is white space before a part, the part, and white space behind it.
pub open spec fn surrounded(t: Seq<u16>, part: Seq<u16>, a: int, b: int) -> bool {
    &&& 0 <= a <= b <= t.len()
    &&& part == t.subrange(a, b)
    &&& forall|k: int| 0 <= k < a || b <= k < t.len() ==> is_trimmed(#[trigger] t[k])
}

/// `trim` takes the white space at both ends away and nothing else, `trimStart` that at
/// the start and `trimEnd` that at the end.
pub proof fn law_trim(h: HeapModel, n: usize)
    requires
        is_plain(h, n),
    ensures
        ({
            let t = h.texts[n as int];
            let both = given_text(trim_both_result(h, JsValue::Text(n)));
            let front = given_text(trim_start_result(h, JsValue::Text(n)));
            let back = given_text(trim_end_result(h, JsValue::Text(n)));
            &&& both.len() > 0 ==> !is_trimmed(both[0]) && !is_trimmed(both.last())
            &&& front.len() > 0 ==> !is_trimmed(front[0])
            &&& back.len() > 0 ==> !is_trimmed(back.last())
            &&& exists|a: int, b: int| #[trigger] surrounded(t, both, a, b)
            &&& exists|a: int| #[trigger] surrounded(t, front, a, t.len() as int)
            &&& exists|b: int| #[trigger] surrounded(t, back, 0, b)
        }),
{
    let t = h.texts[n as int];
    lemma_plain(t);
    let m = t.len() as int;
    lemma_trim_front(t, 0);
    let a = trim_front(t, 0);
    lemma_trim_back(t, a, m);
    lemma_trim_back(t, 0, m);
    let b = trim_back(t, a, m);
    let c = trim_back(t, 0, m);
    lemma_interned(h, trimmed_text(t, true, true));
    lemma_interned(h, trimmed_text(t, true, false));
    lemma_interned(h, trimmed_text(t, false, true));
    let both = given_text(trim_both_result(h, JsValue::Text(n)));
    let front = given_text(trim_start_result(h, JsValue::Text(n)));
    let back = given_text(trim_end_result(h, JsValue::Text(n)));
    assert(both == t.subrange(a, b));
    assert(front == t.subrange(a, m));
    assert(back == t.subrange(0, c));
    assert(surrounded(t, both, a, b));
    assert(surrounded(t, front, a, m));
    assert(surrounded(t, back, 0, c));
}

/// White space is what the language calls so: tab to carriage return, the space, the
/// no-break space, the spaces and separators of Unicode, and the byte order mark; letters
/// and digits are none.
pub proof fn law_white_space(c: u16)
    ensures
        is_trimmed(c) ==> c == 0x20 || 0x09 <= c <= 0x0d || c >= 0xa0,
        c == 0x20 || c == 0x09 || c == 0x0a || c == 0x0d || c == 0xa0 || c == 0xfeff || c == 0x2028
            || c == 0x2029 || c == 0x3000 ==> is_trimmed(c),
        0x21 <= c <= 0x7e ==> !is_trimmed(c),
{
}

/// Texts are in order as their units are at the first place where they differ; the
/// beginning of a text comes before it.
pub proof fn law_text_order(a: Seq<u16>, b: Seq<u16>, k: int)
    requires
        0 <= k <= a.len(),
        k <= b.len(),
        forall|i: int| 0 <= i < k ==> a[i] == b[i],
    ensures
        k < a.len() && k < b.len() && a[k] < b[k] ==> unit_order(a, b, 0) == -1,
        k < a.len() && k < b.len() && a[k] > b[k] ==> unit_order(a, b, 0) == 1,
        k == a.len() && k < b.len() ==> unit_order(a, b, 0) == -1,
        k == b.len() && k < a.len() ==> unit_order(a, b, 0) == 1,
        k == a.len() && k == b.len() ==> unit_order(a, b, 0) == 0,
{
    lemma_order_from(a, b, 0, k);
}

proof fn lemma_order_from(a: Seq<u16>, b: Seq<u16>, i: int, k: int)
    requires
        0 <= i <= k <= a.len(),
        k <= b.len(),
        forall|j: int| 0 <= j < k ==> a[j] == b[j],
    ensures
        unit_order(a, b, i) == unit_order(a, b, k),
    decreases k - i,
{
    if i < k {
        lemma_order_from(a, b, i + 1, k);
    }
}

/// `replaceAll` of a text that does not occur changes nothing.
pub proof fn law_replace_nothing(h: HeapModel, n: usize, w: usize, v: JsValue)
    requires
        is_plain(h, n),
        is_plain(h, w),
        h.texts[w as int].len() > 0,
        forall|i: int| !#[trigger] occurs(h.texts[n as int], h.texts[w as int], i),
    ensures
        given_text(replace_all_result(h, JsValue::Text(n), seq![JsValue::Text(w), v]))
            == h.texts[n as int],
{
    let t = h.texts[n as int];
    let x = h.texts[w as int];
    lemma_plain(t);
    lemma_plain(x);
    lemma_found(t, x, 0);
    lemma_interned(h, t);
    assert(t.skip(0) =~= t);
}

/// `replaceAll` puts the new text in place of the first occurrence, keeps what stands
/// before it, and does with what stands behind it as with a text of its own.
pub proof fn law_replace_first(h: HeapModel, n: usize, rest: usize, w: usize, v: JsValue, k: int)
    requires
        is_plain(h, n),
        is_plain(h, w),
        is_plain(h, rest),
        h.texts[w as int].len() > 0,
        occurs(h.texts[n as int], h.texts[w as int], k),
        forall|i: int| i < k ==> !#[trigger] occurs(h.texts[n as int], h.texts[w as int], i),
        h.texts[rest as int] == h.texts[n as int].skip(k + h.texts[w as int].len()),
    ensures
        ({
            let args = seq![JsValue::Text(w), v];
            given_text(replace_all_result(h, JsValue::Text(n), args)) == h.texts[n as int].take(k)
                + text_of(h, v) + given_text(replace_all_result(h, JsValue::Text(rest), args))
        }),
{
    let t = h.texts[n as int];
    let x = h.texts[w as int];
    let r = h.texts[rest as int];
    let with = text_of(h, v);
    let m = k + x.len();
    lemma_plain(t);
    lemma_plain(x);
    lemma_plain(r);
    lemma_found(t, x, 0);
    assert(found_from(t, x, 0) == Some(k));
    lemma_replaced_shift(t, x, with, m, 0);
    assert(t.subrange(0, k) =~= t.take(k));
    lemma_interned(h, replaced_all(t, x, with, 0));
    lemma_interned(h, replaced_all(r, x, with, 0));
}

proof fn lemma_found_shift(t: Seq<u16>, w: Seq<u16>, m: int, i: int)
    requires
        0 <= m <= t.len(),
        0 <= i,
    ensures
        found_from(t, w, m + i) == match found_from(t.skip(m), w, i) {
            Some(k) => Some(m + k),
            None => None,
        },
    decreases t.len() - m + 1 - i,
{
    let r = t.skip(m);
    if i <= r.len() {
        lemma_occurs(t, w, m + i);
        lemma_occurs(r, w, i);
        assert(occurs(t, w, m + i) == occurs(r, w, i)) by {
            if occurs(t, w, m + i) {
                assert forall|k: int| 0 <= k < w.len() implies r[i + k] == #[trigger] w[k] by {
                    assert(t[m + i + k] == w[k]);
                }
            }
            if occurs(r, w, i) {
                assert forall|k: int| 0 <= k < w.len() implies t[m + i + k] == #[trigger] w[k] by {
                    assert(r[i + k] == w[k]);
                }
            }
        }
        if !stands_at(r, w, i) {
            lemma_found_shift(t, w, m, i + 1);
        }
    }
}

proof fn lemma_replaced_shift(t: Seq<u16>, w: Seq<u16>, with: Seq<u16>, m: int, i: int)
    requires
        0 <= m <= t.len(),
        0 <= i <= t.len() - m,
        w.len() > 0,
    ensures
        replaced_all(t, w, with, m + i) == replaced_all(t.skip(m), w, with, i),
    decreases t.len() - m - i,
{
    let r = t.skip(m);
    lemma_found_shift(t, w, m, i);
    lemma_found(r, w, i);
    match found_from(r, w, i) {
        Some(k) => {
            assert(t.subrange(m + i, m + k) =~= r.subrange(i, k));
            lemma_replaced_shift(t, w, with, m, k + w.len());
        },
        None => {
            assert(t.skip(m + i) =~= r.skip(i));
        },
    }
}

} // verus!
