//! What sorting by text, splitting, replacing and matching promise.
use vstd::prelude::*;

use crate::array_sort::{
    comes_before, insert_value, is_sortable, sorted_values, text_before, unit_rank,
};
use crate::collection_laws::keys_once;
use crate::convert::{int_value, text_of};
use crate::descriptor::Fault;
use crate::double::{int_double, lemma_int_exact, order_key};
use crate::heap::{HeapModel, lemma_interned};
use crate::iterator::{
    ITER_KIND_ARRAY_ENTRIES, ITER_KIND_ARRAY_KEYS, ITER_KIND_ARRAY_VALUES, ITER_KIND_MAP_ENTRIES,
    ITER_KIND_MAP_KEYS, ITER_KIND_MAP_VALUES, entry_of, step_value,
};
use crate::map::{entry_slot, get_result, same_key};
use crate::properties::PropBody;
use crate::regexp::{
    ExecPlan, begin_result, end_result, flag_fault, flag_part, flags_of, group_texts, has_flag,
    is_flag, is_stateful, last_index_of, made_regexp, match_object, next_start, ordered_flags,
    source_of,
};
use crate::string::{expanded, expansion, found_from, stands_at};
use crate::string_regexp::{
    SpanModel, match_result_of, pieces, pieces_before, pieces_result, replaced_spans, span_texts,
    spans_end, split_pieces, text_items,
};
use crate::value::{JsValue, Kind};

verus! {

// ---------------------------------------------------------------------------
// Sorting
// ---------------------------------------------------------------------------

/// Whether two texts agree up to `k`, and there the first one ends or has the lower unit.
pub open spec fn parts_at(a: Seq<u16>, b: Seq<u16>, k: int) -> bool {
    &&& 0 <= k <= a.len() && k < b.len()
    &&& forall|i: int| 0 <= i < k ==> a[i] == b[i]
    &&& k < a.len() ==> a[k] != b[k] && unit_rank(a[k]) < unit_rank(b[k])
}

/// A text comes before another where it is its beginning, or has the lower unit at the
/// first place at which they differ.
pub proof fn law_text_before(a: Seq<u16>, b: Seq<u16>)
    ensures
        text_before(a, b) <==> exists|k: int| #[trigger] parts_at(a, b, k),
{
    lemma_before_from(a, b, 0);
}

proof fn lemma_before_from(a: Seq<u16>, b: Seq<u16>, i: int)
    requires
        0 <= i <= a.len(),
        i <= b.len(),
        forall|j: int| 0 <= j < i ==> a[j] == b[j],
    ensures
        comes_before(a, b, i) <==> exists|k: int| #[trigger] parts_at(a, b, k),
    decreases a.len() - i,
{
    if i < a.len() && i < b.len() && a[i] == b[i] {
        lemma_before_from(a, b, i + 1);
    } else {
        if comes_before(a, b, i) {
            assert(parts_at(a, b, i));
        }
        if exists|k: int| #[trigger] parts_at(a, b, k) {
            let k = choose|k: int| #[trigger] parts_at(a, b, k);
            if k < i {
                assert(a[k] == b[k]);
            } else if k > i {
                assert(a[i] == b[i]);
            }
        }
    }
}

/// Units are ranked by their numbers, except that halves of pairs come last.
pub proof fn law_unit_rank(a: u16, b: u16)
    requires
        a < b,
    ensures
        b < 0xd800 ==> unit_rank(a) < unit_rank(b),
        a >= 0xe000 ==> unit_rank(a) < unit_rank(b),
        a < 0xd800 && b >= 0xe000 ==> unit_rank(a) < unit_rank(b),
        0xd800 <= a < 0xe000 && b < 0xe000 ==> unit_rank(a) < unit_rank(b),
        0xd800 <= a < 0xe000 && b >= 0xe000 ==> unit_rank(b) < unit_rank(a),
{
}

/// Whether a value takes part in sorting and has a text.
pub open spec fn reads(h: HeapModel, v: JsValue, t: Seq<u16>) -> bool {
    is_sortable(v) && text_of(h, v) == t
}

/// Values with one text stay in the order in which they were.
pub proof fn law_sort_stable(h: HeapModel, s: Seq<JsValue>, k: int, t: Seq<u16>)
    requires
        0 <= k <= s.len(),
    ensures
        sorted_values(h, s, k).filter(|v: JsValue| reads(h, v, t)) == s.take(k).filter(
            |v: JsValue| reads(h, v, t),
        ),
    decreases k,
{
    let p = |v: JsValue| reads(h, v, t);
    reveal(Seq::filter);
    if k > 0 {
        law_sort_stable(h, s, k - 1, t);
        assert(s.take(k).drop_last() =~= s.take(k - 1));
        assert(s.take(k).last() == s[k - 1]);
        if is_sortable(s[k - 1]) {
            lemma_insert_filter(h, sorted_values(h, s, k - 1), s[k - 1], t);
        }
    } else {
        assert(s.take(0) =~= Seq::<JsValue>::empty());
    }
}

proof fn lemma_insert_filter(h: HeapModel, s: Seq<JsValue>, v: JsValue, t: Seq<u16>)
    requires
        is_sortable(v),
    ensures
        insert_value(h, s, v).filter(|x: JsValue| reads(h, x, t)) == if reads(h, v, t) {
            s.filter(|x: JsValue| reads(h, x, t)).push(v)
        } else {
            s.filter(|x: JsValue| reads(h, x, t))
        },
    decreases s.len(),
{
    let p = |x: JsValue| reads(h, x, t);
    reveal(Seq::filter);
    let r = insert_value(h, s, v);
    if s.len() == 0 || !text_before(text_of(h, v), text_of(h, s.last())) {
        assert(r.drop_last() =~= s);
    } else {
        let d = s.drop_last();
        lemma_insert_filter(h, d, v, t);
        assert(r.drop_last() =~= insert_value(h, d, v));
        lemma_not_itself(text_of(h, v), 0);
    }
}

proof fn lemma_not_itself(a: Seq<u16>, i: int)
    requires
        0 <= i,
    ensures
        !comes_before(a, a, i),
    decreases a.len() - i,
{
    if i < a.len() {
        lemma_not_itself(a, i + 1);
    }
}

// ---------------------------------------------------------------------------
// Splitting
// ---------------------------------------------------------------------------

proof fn lemma_found_none(t: Seq<u16>, sep: Seq<u16>, i: int, j: int)
    requires
        0 <= i <= j,
        match found_from(t, sep, i) {
            Some(k) => j < k,
            None => true,
        },
    ensures
        !stands_at(t, sep, j),
    decreases t.len() + 1 - i,
{
    if i <= t.len() && !stands_at(t, sep, i) && i < j {
        lemma_found_none(t, sep, i + 1, j);
    }
}

proof fn lemma_found_least(t: Seq<u16>, sep: Seq<u16>, i: int)
    requires
        0 <= i,
    ensures
        found_from(t, sep, i) matches Some(k) ==> i <= k && stands_at(t, sep, k),
    decreases t.len() + 1 - i,
{
    if i <= t.len() && !stands_at(t, sep, i) {
        lemma_found_least(t, sep, i + 1);
    }
}

/// No piece of a text holds the separator that it was split at.
pub proof fn law_pieces_hold_no_separator(t: Seq<u16>, sep: Seq<u16>, i: int, n: int, j: int)
    requires
        0 <= i <= t.len(),
        sep.len() > 0,
        0 <= n < pieces(t, sep, i).len(),
    ensures
        !stands_at(pieces(t, sep, i)[n], sep, j),
    decreases t.len() - i,
{
    let p = pieces(t, sep, i);
    lemma_found_least(t, sep, i);
    match found_from(t, sep, i) {
        Some(k) => {
            let rest = pieces(t, sep, k + sep.len());
            if n > 0 {
                assert(p[n] == rest[n - 1]);
                law_pieces_hold_no_separator(t, sep, k + sep.len(), n - 1, j);
            } else {
                let x = t.subrange(i, k);
                assert(p[0] == x);
                if stands_at(x, sep, j) {
                    assert(t.subrange(i + j, i + j + sep.len()) =~= x.subrange(j, j + sep.len()));
                    lemma_found_none(t, sep, i, i + j);
                }
            }
        },
        None => {
            let x = t.skip(i);
            assert(p[0] == x);
            if stands_at(x, sep, j) {
                assert(t.subrange(i + j, i + j + sep.len()) =~= x.subrange(j, j + sep.len()));
                lemma_found_none(t, sep, i, i + j);
            }
        },
    }
}

/// Split at nothing, a text falls into its units.
pub proof fn law_split_units(t: Seq<u16>)
    ensures
        split_pieces(t, seq![]).len() == t.len(),
        forall|i: int|
            0 <= i < t.len() ==> #[trigger] split_pieces(t, seq![])[i] == seq![t[i]],
{
    lemma_single_units(t, 0);
}

proof fn lemma_single_units(t: Seq<u16>, k: int)
    requires
        0 <= k <= t.len(),
    ensures
        crate::string_regexp::single_units(t, k).len() == t.len() - k,
        forall|i: int|
            0 <= i < t.len() - k ==> #[trigger] crate::string_regexp::single_units(t, k)[i]
                == seq![t[k + i]],
    decreases t.len() - k,
{
    if k < t.len() {
        lemma_single_units(t, k + 1);
        let s = crate::string_regexp::single_units(t, k);
        let r = crate::string_regexp::single_units(t, k + 1);
        assert(t.subrange(k, k + 1) =~= seq![t[k]]);
        assert forall|i: int| 0 <= i < t.len() - k implies #[trigger] s[i] == seq![t[k + i]] by {
            if i > 0 {
                assert(s[i] == r[i - 1]);
            }
        }
    }
}

/// Whether values are texts of a heap that hold what is listed.
pub open spec fn hold_texts(h: HeapModel, s: Seq<JsValue>, p: Seq<Seq<u16>>, k: int) -> bool {
    &&& s.len() == k
    &&& forall|i: int|
        0 <= i < k ==> (#[trigger] s[i] matches JsValue::Text(n) && n < h.texts.len()
            && h.texts[n as int] == p[i])
}

proof fn lemma_text_items(h: HeapModel, p: Seq<Seq<u16>>, k: int)
    requires
        0 <= k <= p.len(),
        h.texts.len() + k < usize::MAX,
    ensures
        hold_texts(text_items(h, p, k).0, text_items(h, p, k).1, p, k),
        text_items(h, p, k).0.texts.len() <= h.texts.len() + k,
        text_items(h, p, k).0.objects == h.objects,
    decreases k,
{
    if k > 0 {
        lemma_text_items(h, p, k - 1);
        lemma_interned(text_items(h, p, k - 1).0, p[k - 1]);
    }
}

/// The pieces come as an array of texts, the first as many as are wanted: none below zero,
/// and at most all.
pub proof fn law_split_limit(h: HeapModel, p: Seq<Seq<u16>>, limit: int)
    requires
        h.texts.len() + p.len() < usize::MAX,
        h.objects.len() < usize::MAX,
    ensures
        ({
            let (h1, v) = pieces_result(h, p, limit);
            let n = if limit < 0 {
                0
            } else if limit > p.len() {
                p.len() as int
            } else {
                limit
            };
            &&& v == JsValue::Object(h.objects.len() as usize)
            &&& h1.objects.len() == h.objects.len() + 1
            &&& h1.objects.last().kind == Kind::Array
            &&& hold_texts(h1, h1.objects.last().elements, p, n)
        }),
{
    let n = if limit < 0 {
        0
    } else if limit > p.len() {
        p.len() as int
    } else {
        limit
    };
    lemma_text_items(h, p, n);
}

// ---------------------------------------------------------------------------
// Replacing
// ---------------------------------------------------------------------------

/// A replacement without a dollar sign stands for itself.
pub proof fn law_plain_replacement(t: Seq<u16>, i: int, whole: Seq<u16>, groups: Seq<Seq<u16>>)
    requires
        0 <= i <= t.len(),
        forall|k: int| 0 <= k < t.len() ==> #[trigger] t[k] != 0x24,
    ensures
        expanded(t, i, whole, groups) == t.skip(i),
    decreases t.len() - i,
{
    if i < t.len() {
        law_plain_replacement(t, i + 1, whole, groups);
        assert(seq![t[i]] + t.skip(i + 1) =~= t.skip(i));
    } else {
        assert(t.skip(i) =~= Seq::<u16>::empty());
    }
}

/// `$$` is a dollar sign, `$&` the match, and `$1` to `$9` the groups, nothing where there
/// is no such group.
pub proof fn law_replacement_patterns(whole: Seq<u16>, groups: Seq<Seq<u16>>, n: u16)
    requires
        1 <= n <= 9,
    ensures
        expanded(seq![0x24u16, 0x24], 0, whole, groups) == seq![0x24u16],
        expanded(seq![0x24u16, 0x26], 0, whole, groups) == whole,
        n <= groups.len() ==> expanded(seq![0x24u16, (0x30 + n) as u16], 0, whole, groups)
            == groups[n - 1],
        n > groups.len() ==> expanded(seq![0x24u16, (0x30 + n) as u16], 0, whole, groups).len() == 0,
        expanded(seq![0x24u16], 0, whole, groups) == seq![0x24u16],
{
    reveal_with_fuel(expanded, 2);
    assert(expansion(0x26, whole, groups) + Seq::<u16>::empty() =~= whole);
    let g = expansion((0x30 + n) as u16, whole, groups);
    assert(g + Seq::<u16>::empty() =~= g);
}

/// Replacing one match changes nothing before it and nothing behind it.
pub proof fn law_replace_one_span(t: Seq<u16>, x: SpanModel, with: Seq<u16>)
    requires
        0 <= x.start <= x.end <= t.len(),
    ensures
        replaced_spans(t, seq![x], with, 1) + t.skip(spans_end(seq![x], 1)) == t.take(x.start)
            + expanded(with, 0, t.subrange(x.start, x.end), x.groups) + t.skip(x.end),
{
    reveal_with_fuel(replaced_spans, 2);
    let e = expanded(with, 0, t.subrange(x.start, x.end), x.groups);
    assert(t.subrange(0, x.start) =~= t.take(x.start));
    assert(Seq::<u16>::empty() + t.subrange(0, x.start) + e =~= t.take(x.start) + e);
}

/// Replacing every match by itself gives the text back.
pub proof fn law_replace_by_itself(t: Seq<u16>, s: Seq<SpanModel>, k: int)
    requires
        0 <= k <= s.len(),
        crate::string_regexp::in_sequence(s, t.len() as int),
    ensures
        replaced_spans(t, s, seq![0x24u16, 0x26], k) == t.take(spans_end(s, k)),
        0 <= spans_end(s, k) <= t.len(),
    decreases k,
{
    if k > 0 {
        law_replace_by_itself(t, s, k - 1);
        let x = s[k - 1];
        let m = t.subrange(x.start, x.end);
        law_replacement_patterns(m, x.groups, 1);
        if k > 1 {
            assert(s[k - 2].end <= x.start);
        }
        assert(t.take(spans_end(s, k - 1)) + t.subrange(spans_end(s, k - 1), x.start) + m =~= t.take(
            x.end,
        ));
    } else {
        assert(t.take(0) =~= Seq::<u16>::empty());
    }
}

/// What lies between matches: with the matches put back between them, the pieces are the
/// text up to the last match.
pub proof fn law_pieces_between(t: Seq<u16>, s: Seq<SpanModel>, k: int, i: int)
    requires
        0 <= i < k <= s.len(),
    ensures
        pieces_before(t, s, k).len() == k,
        pieces_before(t, s, k)[i] == t.subrange(
            if i == 0 {
                0
            } else {
                s[i - 1].end
            },
            s[i].start,
        ),
    decreases k,
{
    if k > 1 {
        law_pieces_between(t, s, k - 1, if i < k - 1 {
            i
        } else {
            0
        });
    } else {
        reveal_with_fuel(pieces_before, 2);
    }
}

// ---------------------------------------------------------------------------
// Matching
// ---------------------------------------------------------------------------

proof fn lemma_span_texts(h: HeapModel, t: Seq<u16>, s: Seq<SpanModel>, k: int)
    requires
        0 <= k <= s.len(),
        h.texts.len() + k < usize::MAX,
    ensures
        hold_texts(
            span_texts(h, t, s, k).0,
            span_texts(h, t, s, k).1,
            Seq::new(s.len(), |i: int| t.subrange(s[i].start, s[i].end)),
            k,
        ),
        span_texts(h, t, s, k).0.texts.len() <= h.texts.len() + k,
        span_texts(h, t, s, k).0.objects == h.objects,
    decreases k,
{
    if k > 0 {
        lemma_span_texts(h, t, s, k - 1);
        lemma_interned(span_texts(h, t, s, k - 1).0, t.subrange(s[k - 1].start, s[k - 1].end));
    }
}

/// A global match gives the texts of all matches in an array, and `null` without any.
pub proof fn law_match_texts(h: HeapModel, t: Seq<u16>, s: Seq<SpanModel>)
    requires
        h.texts.len() + s.len() < usize::MAX,
        h.objects.len() < usize::MAX,
    ensures
        s.len() == 0 ==> match_result_of(h, t, s) == (h, JsValue::Null),
        s.len() > 0 ==> {
            let (h1, v) = match_result_of(h, t, s);
            &&& v == JsValue::Object(h.objects.len() as usize)
            &&& h1.objects.last().kind == Kind::Array
            &&& hold_texts(
                h1,
                h1.objects.last().elements,
                Seq::new(s.len(), |i: int| t.subrange(s[i].start, s[i].end)),
                s.len() as int,
            )
        },
{
    lemma_span_texts(h, t, s, s.len() as int);
}

/// An expression without the flags that make it remember searches from the start every
/// time; one with them from its `lastIndex` on, and a start past the end finds nothing and
/// sets it back.
pub proof fn law_search_start(h: HeapModel, o: usize, len: int)
    requires
        o < h.objects.len(),
        h.objects[o as int].inner.len() > 2,
        0 <= len < 0x20_0000_0000_0000,
    ensures
        !has_flag(h, o, 0x67) && !has_flag(h, o, 0x79) ==> begin_result(h, o, len) == (
            h,
            ExecPlan::Search(0),
        ),
        has_flag(h, o, 0x67) || has_flag(h, o, 0x79) ==> forall|n: i32|
            0 <= n && #[trigger] h.objects[o as int].inner[2] == JsValue::Smi(n) ==> {
                let r = begin_result(h, o, len);
                &&& n <= len ==> r == (h, ExecPlan::Search(n as usize))
                &&& n > len ==> r.1 == ExecPlan::NoMatch && r.0.objects[o as int].inner[2]
                    == JsValue::Smi(0)
            },
{
    lemma_int_exact(len);
    lemma_int_exact(0);
    crate::double::lemma_int_order(0, len);
    if has_flag(h, o, 0x67) || has_flag(h, o, 0x79) {
        assert forall|n: i32|
            0 <= n && #[trigger] h.objects[o as int].inner[2] == JsValue::Smi(n) implies {
            let r = begin_result(h, o, len);
            &&& n <= len ==> r == (h, ExecPlan::Search(n as usize))
            &&& n > len ==> r.1 == ExecPlan::NoMatch && r.0.objects[o as int].inner[2]
                == JsValue::Smi(0)
        } by {
            lemma_int_exact(n as int);
            assert(last_index_of(h, o) == int_double(n as int));
            if n <= len {
                crate::double::lemma_int_order(n as int, len);
            } else {
                crate::double::lemma_int_order(len, n as int);
                let x = int_double(len);
                let y = int_double(n as int);
                if order_key(x) == order_key(y) {
                    assert(x == y);
                }
            }
        }
    }
}

/// The search goes on behind a match, and one unit further where the match is empty, so
/// that it always moves on.
pub proof fn law_next_start(start: int, end: int)
    requires
        start <= end,
    ensures
        next_start(start, end) > start,
        next_start(start, end) >= end,
        start < end ==> next_start(start, end) == end,
        start == end ==> next_start(start, end) == end + 1,
{
}

/// Without a match the answer is `null` and a remembered start goes back to zero; a sticky
/// expression does not take a match that starts further on.
pub proof fn law_no_match(
    h: HeapModel,
    o: usize,
    input: Seq<u16>,
    from: int,
    m: crate::regexp::RegexMatch,
)
    requires
        o < h.objects.len(),
        h.objects[o as int].inner.len() > 2,
    ensures
        end_result(h, o, input, from, None).1 == JsValue::Null,
        is_stateful(h, o) ==> end_result(h, o, input, from, None).0.objects[o as int].inner[2]
            == JsValue::Smi(0),
        !is_stateful(h, o) ==> end_result(h, o, input, from, None).0 == h,
        has_flag(h, o, 0x79) && m.start != from ==> {
            let r = end_result(h, o, input, from, Some(m));
            r.1 == JsValue::Null && r.0.objects[o as int].inner[2] == JsValue::Smi(0)
        },
{
    lemma_int_exact(0);
}

// ---------------------------------------------------------------------------
// Iterating
// ---------------------------------------------------------------------------

/// The keys, values and entries of a map go together: an entry is the key and the value at
/// one place, and the value is what the map gives for the key.
pub proof fn law_map_iteration(h: HeapModel, o: usize, i: int)
    requires
        o < h.objects.len() < usize::MAX,
        h.objects[o as int].kind == Kind::MapObject,
        keys_once(h.objects[o as int].elements, 2),
        0 <= i,
        2 * i < h.objects[o as int].elements.len(),
        h.objects[o as int].elements[2 * i] != JsValue::Hole,
        h.objects[o as int].elements[2 * i + 1] != JsValue::Hole,
    ensures
        ({
            let key = step_value(h, o, ITER_KIND_MAP_KEYS as int, i).1;
            let v = step_value(h, o, ITER_KIND_MAP_VALUES as int, i).1;
            let (h1, e) = step_value(h, o, ITER_KIND_MAP_ENTRIES as int, i);
            &&& key == h.objects[o as int].elements[2 * i]
            &&& get_result(h, JsValue::Object(o), key).1 == Ok::<JsValue, Fault>(v)
            &&& e == JsValue::Object(h.objects.len() as usize)
            &&& h1.objects.last().elements == seq![key, v]
        }),
{
    let s = h.objects[o as int].elements;
    lemma_key_found(s, 0, i);
    assert(2 * i + 1 < s.len());
    assert(entry_of(h.objects[o as int], ITER_KIND_MAP_ENTRIES as int, i) =~= seq![
        s[2 * i],
        s[2 * i + 1],
    ]);
}

proof fn lemma_key_found(s: Seq<JsValue>, a: int, i: int)
    requires
        keys_once(s, 2),
        0 <= a <= i,
        2 * i < s.len(),
    ensures
        entry_slot(s, s[2 * i], 2, 2 * a) == 2 * i,
    decreases i - a,
{
    if a < i {
        assert(crate::collection_laws::slot_of(a, 2) == 2 * a);
        assert(crate::collection_laws::slot_of(i, 2) == 2 * i);
        assert(!same_key(
            s[crate::collection_laws::slot_of(a, 2)],
            s[crate::collection_laws::slot_of(i, 2)],
        ));
        lemma_key_found(s, a + 1, i);
        assert(2 * (a + 1) == 2 * a + 2);
    }
}

/// The keys of an array are its positions, its values what stands there, and its entries
/// both.
pub proof fn law_array_iteration(h: HeapModel, o: usize, i: int)
    requires
        o < h.objects.len() < usize::MAX,
        0 <= i < h.objects[o as int].elements.len(),
        i <= i32::MAX,
        h.objects[o as int].kind == Kind::Array,
        h.objects[o as int].elements[i] != JsValue::Hole,
    ensures
        ({
            let s = h.objects[o as int].elements;
            &&& step_value(h, o, ITER_KIND_ARRAY_KEYS as int, i) == (h, JsValue::Smi(i as i32))
            &&& step_value(h, o, ITER_KIND_ARRAY_VALUES as int, i) == (h, s[i])
            &&& step_value(h, o, ITER_KIND_ARRAY_ENTRIES as int, i).0.objects.last().elements
                == seq![JsValue::Smi(i as i32), s[i]]
        }),
{
}

// ---------------------------------------------------------------------------
// Regular expressions
// ---------------------------------------------------------------------------

/// Flags are accepted where each is one of the eight letters, and none is given twice.
pub proof fn law_flags_accepted(s: Seq<char>, k: int)
    requires
        0 <= k <= s.len(),
    ensures
        flag_fault(s, k) is None <==> s.take(k).no_duplicates() && forall|i: int|
            0 <= i < k ==> is_flag(#[trigger] s[i]),
    decreases k,
{
    let a = s.take(k);
    if k > 0 {
        law_flags_accepted(s, k - 1);
        let b = s.take(k - 1);
        assert(forall|i: int| 0 <= i < k - 1 ==> #[trigger] a[i] == b[i]);
        assert(a[k - 1] == s[k - 1]);
        if b.contains(s[k - 1]) {
            let i = b.index_of(s[k - 1]);
            assert(a[i] == a[k - 1]);
        } else if b.no_duplicates() {
            assert forall|i: int, j: int| 0 <= i < a.len() && 0 <= j < a.len() && i != j implies a[i]
                != a[j] by {
                if i < k - 1 && j < k - 1 {
                    assert(b[i] != b[j]);
                } else if i == k - 1 {
                    assert(b[j] == a[j]);
                    assert(b.contains(b[j]));
                } else {
                    assert(b[i] == a[i]);
                    assert(b.contains(b[i]));
                }
            }
        }
        if a.no_duplicates() {
            assert forall|i: int, j: int| 0 <= i < b.len() && 0 <= j < b.len() && i != j implies b[i]
                != b[j] by {
                assert(a[i] != a[j]);
            }
        }
    }
}

/// A flag stands in a list of parts where it stands in one of them.
proof fn lemma_parts_contain(a: Seq<char>, b: Seq<char>, c: char)
    ensures
        (a + b).contains(c) == (a.contains(c) || b.contains(c)),
{
    if a.contains(c) {
        let i = a.index_of(c);
        assert((a + b)[i] == c);
    }
    if b.contains(c) {
        let i = b.index_of(c);
        assert((a + b)[a.len() + i] == c);
    }
    if (a + b).contains(c) {
        let i = (a + b).index_of(c);
        if i < a.len() {
            assert(a[i] == c);
        } else {
            assert(b[i - a.len()] == c);
        }
    }
}

proof fn lemma_part_contains(s: Seq<char>, f: char, c: char)
    ensures
        flag_part(s, f).contains(c) == (c == f && s.contains(c)),
{
    if c == f && s.contains(c) {
        assert(flag_part(s, f)[0] == c);
    }
}

/// Putting flags in order loses none and adds none.
pub proof fn law_ordered_flags(s: Seq<char>, c: char)
    ensures
        ordered_flags(s).contains(c) == (is_flag(c) && s.contains(c)),
{
    let d = flag_part(s, 'd');
    let g = flag_part(s, 'g');
    let i = flag_part(s, 'i');
    let m = flag_part(s, 'm');
    let x = flag_part(s, 's');
    let u = flag_part(s, 'u');
    let v = flag_part(s, 'v');
    let y = flag_part(s, 'y');
    lemma_part_contains(s, 'd', c);
    lemma_part_contains(s, 'g', c);
    lemma_part_contains(s, 'i', c);
    lemma_part_contains(s, 'm', c);
    lemma_part_contains(s, 's', c);
    lemma_part_contains(s, 'u', c);
    lemma_part_contains(s, 'v', c);
    lemma_part_contains(s, 'y', c);
    lemma_parts_contain(d, g, c);
    lemma_parts_contain(d + g, i, c);
    lemma_parts_contain(d + g + i, m, c);
    lemma_parts_contain(d + g + i + m, x, c);
    lemma_parts_contain(d + g + i + m + x, u, c);
    lemma_parts_contain(d + g + i + m + x + u, v, c);
    lemma_parts_contain(d + g + i + m + x + u + v, y, c);
}

proof fn lemma_group_count(
    h: HeapModel,
    input: Seq<u16>,
    groups: Seq<Option<(usize, usize)>>,
    k: int,
    head: Seq<JsValue>,
)
    requires
        0 <= k <= groups.len(),
    ensures
        ({
            let (h1, s) = group_texts(h, input, groups, k, head);
            &&& s.len() == head.len() + k
            &&& s.take(head.len() as int) == head
            &&& h1.objects == h.objects
            &&& forall|i: int|
                0 <= i < k ==> (groups[i] is None <==> #[trigger] s[head.len() + i]
                    == JsValue::Undefined)
        }),
    decreases k,
{
    if k > 0 {
        lemma_group_count(h, input, groups, k - 1, head);
        let (h0, a) = group_texts(h, input, groups, k - 1, head);
        let (h1, s) = group_texts(h, input, groups, k, head);
        assert(s.take(head.len() as int) =~= a.take(head.len() as int));
        assert forall|i: int| 0 <= i < k implies (groups[i] is None <==> #[trigger] s[head.len() + i]
            == JsValue::Undefined) by {
            if i < k - 1 {
                assert(s[head.len() + i] == a[head.len() + i]);
            }
        }
    } else {
        assert(head.take(head.len() as int) =~= head);
    }
}

/// A match is an array of the whole match and one element for each group, `undefined` for
/// a group that took no part; it says where it starts.
pub proof fn law_match_object(
    h: HeapModel,
    input: Seq<u16>,
    start: int,
    end: int,
    groups: Seq<Option<(usize, usize)>>,
)
    requires
        0 <= start <= end <= input.len(),
        h.objects.len() < usize::MAX,
    ensures
        ({
            let (h1, v) = match_object(h, input, start, end, groups);
            let m = h1.objects.last();
            &&& v == JsValue::Object(h.objects.len() as usize)
            &&& h1.objects.len() == h.objects.len() + 1
            &&& m.kind == Kind::Array
            &&& m.elements.len() == 1 + groups.len()
            &&& m.elements[0] is Text
            &&& forall|i: int|
                0 <= i < groups.len() ==> (groups[i] is None <==> #[trigger] m.elements[1 + i]
                    == JsValue::Undefined)
            &&& m.named.list[1].body == PropBody::Data(int_value(start))
            &&& m.named.list[0].body == PropBody::Data(int_value(1 + groups.len() as int))
        }),
{
    let whole = crate::text::well_formed(input.subrange(start, end));
    let head = seq![JsValue::Text(h.text_id(whole))];
    lemma_group_count(h.interned(whole), input, groups, groups.len() as int, head);
    let s = group_texts(h.interned(whole), input, groups, groups.len() as int, head).1;
    assert(s.take(1)[0] == s[0]);
}

/// A regular expression that was made of a pattern has it as its source, an empty one as a
/// group that matches nothing, and starts at zero; flags that are not accepted are an
/// error, and nothing is made.
pub proof fn law_made_regexp(h: HeapModel, a: usize, b: usize)
    requires
        h.texts.len() + 2 < usize::MAX,
        h.objects.len() < usize::MAX,
    ensures
        ({
            let args = seq![JsValue::Text(a), JsValue::Text(b)];
            let pattern = text_of(h, JsValue::Text(a));
            let flags = flags_of(text_of(h, JsValue::Text(b)));
            let r = made_regexp(h, args, None);
            let m = r.0.objects.last();
            &&& flags is Err ==> r.1 is Err && r.0 == h
            &&& flags is Ok ==> {
                &&& r.1 == Ok::<JsValue, Fault>(JsValue::Object(h.objects.len() as usize))
                &&& m.kind == Kind::RegExp
                &&& m.inner[2] == JsValue::Smi(0)
                &&& m.inner[0] matches JsValue::Text(n) && r.0.texts[n as int] == if pattern.len()
                    == 0 {
                    seq![0x28u16, 0x3f, 0x3a, 0x29]
                } else {
                    pattern
                }
                &&& m.inner[1] matches JsValue::Text(n) && r.0.texts[n as int] == flags->Ok_0
            }
        }),
{
    let pattern = text_of(h, JsValue::Text(a));
    let flags = flags_of(text_of(h, JsValue::Text(b)));
    if flags is Ok {
        let s = source_of(pattern);
        let h1 = h.interned(s);
        lemma_interned(h, s);
        lemma_interned(h1, flags->Ok_0);
        let h2 = h1.interned(flags->Ok_0);
        assert(h2.texts[h.text_id(s) as int] == h1.texts[h.text_id(s) as int]);
        reveal_strlit("(?:)");
        crate::object_describe::lemma_ascii_units("(?:)"@);
        assert(crate::text::utf16_of("(?:)"@) =~= seq![0x28u16, 0x3f, 0x3a, 0x29]);
    }
}

} // verus!
