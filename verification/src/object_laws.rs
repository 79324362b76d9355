//! What listing, copying and defining properties promise, and when values are the same.
use vstd::prelude::*;

use crate::convert::{same_value_zero_of, strictly_equal, truthy};
use crate::descriptor::{Fault, same_value_of};
use crate::double::{equal, int_double, is_nan, lemma_int_exact, magnitude, order_key};
use crate::heap::{HeapModel, lemma_interned};
use crate::internal_methods::{
    define_own, element_at, element_index, indexed_kind, lemma_lookup_key, live_property,
    own_property, with_element,
};
use crate::key_order::{
    element_ids, is_live, law_key_order, ordered_ids, own_text_ids, symbol_ids, text_ids,
};
use crate::object::{overlaid, read_values, with_values};
use crate::object_describe::{plain_data, with_own};
use crate::object_list::{
    add_new, entries_result, entry_list, index_names, keys_result, property_values, symbols_result,
    unit_texts, values_result, with_pairs,
};
use crate::properties::{Prop, distinct_keys, has_key, index_of_key, lemma_index_of_key, lookup};
use crate::text::nat_text;
use crate::value::{JsValue, Kind, PropKey};

verus! {

// ---------------------------------------------------------------------------
// Listing
// ---------------------------------------------------------------------------

/// Whether a property is there under a text, and is enumerable where that is asked for.
pub open spec fn shows(p: Prop, n: usize, enumerable: bool) -> bool {
    p.key == PropKey::Text(n) && is_live(p) && (enumerable ==> p.attrs.enumerable)
}

proof fn lemma_text_ids(list: Seq<Prop>, k: int, enumerable: bool, n: usize)
    requires
        0 <= k <= list.len(),
    ensures
        text_ids(list, k, enumerable).contains(n) <==> exists|i: int|
            0 <= i < k && #[trigger] shows(list[i], n, enumerable),
    decreases k,
{
    if k > 0 {
        lemma_text_ids(list, k - 1, enumerable, n);
        let head = text_ids(list, k - 1, enumerable);
        let s = text_ids(list, k, enumerable);
        let p = list[k - 1];
        if head.contains(n) {
            let j = head.index_of(n);
            assert(s[j] == n);
        }
        if shows(p, n, enumerable) {
            assert(s[s.len() - 1] == n);
        }
        if s.contains(n) && !head.contains(n) {
            let j = s.index_of(n);
            if j < head.len() {
                assert(head[j] == n);
            }
            assert(shows(list[k - 1], n, enumerable));
        }
    }
}

proof fn lemma_symbol_ids(list: Seq<Prop>, k: int, n: usize)
    requires
        0 <= k <= list.len(),
    ensures
        symbol_ids(list, k).contains(n) <==> exists|i: int|
            0 <= i < k && #[trigger] list[i].key == PropKey::Symbol(n) && is_live(list[i]),
    decreases k,
{
    if k > 0 {
        lemma_symbol_ids(list, k - 1, n);
        let head = symbol_ids(list, k - 1);
        let s = symbol_ids(list, k);
        if head.contains(n) {
            let j = head.index_of(n);
            assert(s[j] == n);
        }
        if list[k - 1].key == PropKey::Symbol(n) && is_live(list[k - 1]) {
            assert(s[s.len() - 1] == n);
        }
        if s.contains(n) && !head.contains(n) {
            let j = s.index_of(n);
            if j < head.len() {
                assert(head[j] == n);
            }
        }
    }
}

/// `Object.keys` of an object without elements lists a text exactly where it names an
/// enumerable property of the object.
pub proof fn law_keys_of_object(h: HeapModel, o: usize, n: usize)
    requires
        o < h.objects.len() < usize::MAX,
        !indexed_kind(h.objects[o as int].kind),
    ensures
        ({
            let r = keys_result(h, JsValue::Object(o));
            let list = h.objects[o as int].named.list;
            &&& r.1 == Ok::<JsValue, Fault>(JsValue::Object(h.objects.len() as usize))
            &&& r.0.objects.last().kind == Kind::Array
            &&& r.0.objects.last().elements.contains(JsValue::Text(n)) <==> exists|i: int|
                0 <= i < list.len() && #[trigger] shows(list[i], n, true)
        }),
{
    let list = h.objects[o as int].named.list;
    let ids = text_ids(list, list.len() as int, true);
    let s = ordered_ids(h, ids);
    lemma_text_ids(list, list.len() as int, true, n);
    law_key_order(h, ids);
    lemma_same_members(s, ids, n);
    let none: Seq<usize> = seq![];
    assert(none + s =~= s);
    assert(own_text_ids(h, o, true) == (h, s));
    let elements = keys_result(h, JsValue::Object(o)).0.objects.last().elements;
    if s.contains(n) {
        let j = s.index_of(n);
        assert(elements[j] == JsValue::Text(n));
    }
    if elements.contains(JsValue::Text(n)) {
        let j = elements.index_of(JsValue::Text(n));
        assert(s[j] == n);
    }
}

proof fn lemma_same_members(a: Seq<usize>, b: Seq<usize>, n: usize)
    requires
        a.to_multiset() == b.to_multiset(),
    ensures
        a.contains(n) == b.contains(n),
{
    a.to_multiset_ensures();
    b.to_multiset_ensures();
    assert(a.contains(n) <==> a.to_multiset().count(n) > 0);
    assert(b.contains(n) <==> b.to_multiset().count(n) > 0);
}

/// `Object.getOwnPropertySymbols` lists a symbol exactly where it names a property.
pub proof fn law_symbols_of_object(h: HeapModel, global: Option<usize>, o: usize, n: usize)
    requires
        o < h.objects.len() < usize::MAX,
    ensures
        ({
            let r = symbols_result(h, global, JsValue::Object(o));
            let list = h.objects[o as int].named.list;
            &&& r.1 == Ok::<JsValue, Fault>(JsValue::Object(h.objects.len() as usize))
            &&& r.0.objects.last().elements.contains(JsValue::Symbol(n)) <==> exists|i: int|
                0 <= i < list.len() && #[trigger] list[i].key == PropKey::Symbol(n) && is_live(
                    list[i],
                )
        }),
{
    let list = h.objects[o as int].named.list;
    lemma_symbol_ids(list, list.len() as int, n);
    let s = symbol_ids(list, list.len() as int);
    let elements = symbols_result(h, global, JsValue::Object(o)).0.objects.last().elements;
    if s.contains(n) {
        let j = s.index_of(n);
        assert(elements[j] == JsValue::Symbol(n));
    }
    if elements.contains(JsValue::Symbol(n)) {
        let j = elements.index_of(JsValue::Symbol(n));
        assert(s[j] == n);
    }
}

/// Whether texts of a heap name the positions `0`, `1` and on.
pub open spec fn counts_up(h: HeapModel, ids: Seq<usize>, k: int) -> bool {
    &&& ids.len() == k
    &&& forall|i: int|
        0 <= i < k ==> (#[trigger] ids[i]) < h.texts.len() && h.texts[ids[i] as int] == nat_text(
            i as nat,
        )
}

proof fn lemma_interned_step(h: HeapModel, ids: Seq<usize>, t: Seq<u16>)
    requires
        h.texts.len() < usize::MAX,
        forall|i: int| 0 <= i < ids.len() ==> #[trigger] ids[i] < h.texts.len(),
    ensures
        h.text_id(t) < h.interned(t).texts.len(),
        h.interned(t).texts[h.text_id(t) as int] == t,
        h.interned(t).texts.len() <= h.texts.len() + 1,
        h.texts.len() <= h.interned(t).texts.len(),
        forall|i: int|
            0 <= i < h.texts.len() ==> #[trigger] h.interned(t).texts[i] == h.texts[i],
        h.interned(t).objects == h.objects,
{
    lemma_interned(h, t);
}

/// The keys of an array without holes count up from zero.
pub proof fn law_element_keys(h: HeapModel, s: Seq<JsValue>, k: int)
    requires
        0 <= k <= s.len(),
        h.texts.len() + k < usize::MAX,
        forall|i: int| 0 <= i < s.len() ==> #[trigger] s[i] != JsValue::Hole,
    ensures
        counts_up(element_ids(h, s, k).0, element_ids(h, s, k).1, k),
        element_ids(h, s, k).0.texts.len() <= h.texts.len() + k,
        element_ids(h, s, k).0.objects == h.objects,
    decreases k,
{
    if k > 0 {
        law_element_keys(h, s, k - 1);
        let (h1, ids) = element_ids(h, s, k - 1);
        lemma_interned_step(h1, ids, nat_text((k - 1) as nat));
        assert(s[k - 1] != JsValue::Hole);
    }
}

/// An element that is a hole has no key.
pub proof fn law_hole_has_no_key(h: HeapModel, s: Seq<JsValue>, k: int)
    requires
        0 < k <= s.len(),
        s[k - 1] == JsValue::Hole,
    ensures
        element_ids(h, s, k) == element_ids(h, s, k - 1),
{
}

/// `Object.keys` of a text counts up as far as the text is long, and `Object.values` gives
/// its units.
pub proof fn law_text_keys_and_values(h: HeapModel, t: Seq<u16>, k: int)
    requires
        0 <= k <= t.len(),
        h.texts.len() + k < usize::MAX,
    ensures
        counts_up(index_names(h, k).0, index_names(h, k).1, k),
        index_names(h, k).0.texts.len() <= h.texts.len() + k,
        ({
            let (h1, ids) = unit_texts(h, t, k);
            &&& h1.texts.len() <= h.texts.len() + k
            &&& ids.len() == k
            &&& forall|i: int|
                0 <= i < k ==> (#[trigger] ids[i]) < h1.texts.len() && h1.texts[ids[i] as int]
                    == seq![t[i]]
        }),
    decreases k,
{
    if k > 0 {
        law_text_keys_and_values(h, t, k - 1);
        let (h1, ids) = index_names(h, k - 1);
        lemma_interned_step(h1, ids, nat_text((k - 1) as nat));
        let (h2, units) = unit_texts(h, t, k - 1);
        lemma_interned_step(h2, units, seq![t[k - 1]]);
    }
}

/// Only what has no properties at all is refused: `undefined` and `null`.
pub proof fn law_listing_refuses(h: HeapModel, global: Option<usize>, v: JsValue)
    ensures
        keys_result(h, v).1 is Err <==> v is Undefined || v is Null,
        v is Undefined || v is Null ==> values_result(h, global, v).1 is Err && entries_result(
            h,
            global,
            v,
        ).1 is Err && keys_result(h, v).0 == h,
{
}

/// There is a value for each key.
pub proof fn law_values_match_keys(h: HeapModel, o: usize, ids: Seq<usize>, k: int)
    requires
        0 <= k <= ids.len(),
        property_values(h, o, ids, k).1 is Ok,
    ensures
        property_values(h, o, ids, k).1->Ok_0.len() == k,
    decreases k,
{
    if k > 0 {
        law_values_match_keys(h, o, ids, k - 1);
    }
}

/// Entries are arrays of two elements: a key and its value, in the order of the keys.
pub proof fn law_entries(h: HeapModel, keys: Seq<JsValue>, values: Seq<JsValue>, k: int, i: int)
    requires
        0 <= i < k <= keys.len(),
    ensures
        with_pairs(h, keys, values, k).objects.len() == h.objects.len() + k,
        with_pairs(h, keys, values, k).objects[h.objects.len() + i].kind == Kind::Array,
        with_pairs(h, keys, values, k).objects[h.objects.len() + i].elements == seq![
            keys[i],
            values[i],
        ],
        with_pairs(h, keys, values, k).objects.take(h.objects.len() as int) == h.objects,
    decreases k,
{
    let a = with_pairs(h, keys, values, k - 1);
    let b = with_pairs(h, keys, values, k);
    if k > 1 {
        law_entries(h, keys, values, k - 1, if i < k - 1 {
            i
        } else {
            0
        });
    }
    assert(a.objects.len() == h.objects.len() + k - 1);
    assert(b.objects.take(h.objects.len() as int) =~= a.objects.take(h.objects.len() as int));
    assert(a.objects.take(h.objects.len() as int) =~= h.objects);
}

/// The array that `Object.entries` gives holds one entry for each key.
pub proof fn law_entries_of(h: HeapModel, global: Option<usize>, v: JsValue, i: int)
    requires
        !(v is Undefined) && !(v is Null),
        ({
            let l = entry_list(h, v);
            l.2 is Ok && 0 <= i < l.1.len() && l.0.objects.len() + l.1.len() < usize::MAX
        }),
    ensures
        ({
            let l = entry_list(h, v);
            let r = entries_result(h, global, v);
            let n = l.0.objects.len() + l.1.len();
            let list = r.0.objects[n as int].elements;
            &&& r.1 == Ok::<JsValue, Fault>(JsValue::Object(n as usize))
            &&& list.len() == l.1.len()
            &&& list[i] matches JsValue::Object(p) && r.0.objects[p as int].elements == seq![
                l.1[i],
                l.2->Ok_0[i],
            ]
        }),
{
    let l = entry_list(h, v);
    law_entries(l.0, l.1, l.2->Ok_0, l.1.len() as int, i);
}

/// Collecting names for a loop repeats none, keeps what was there in place, and misses
/// none.
pub proof fn law_collected_once(seen: Seq<usize>, ids: Seq<usize>, k: int)
    requires
        0 <= k <= ids.len(),
        seen.no_duplicates(),
    ensures
        ({
            let s = add_new(seen, ids, k);
            &&& s.no_duplicates()
            &&& s.len() >= seen.len()
            &&& s.take(seen.len() as int) == seen
            &&& forall|i: int| 0 <= i < k ==> s.contains(#[trigger] ids[i])
            &&& forall|i: int|
                seen.len() <= i < s.len() ==> ids.take(k).contains(#[trigger] s[i])
        }),
    decreases k,
{
    if k > 0 {
        law_collected_once(seen, ids, k - 1);
        let a = add_new(seen, ids, k - 1);
        let s = add_new(seen, ids, k);
        assert(s.take(seen.len() as int) =~= a.take(seen.len() as int));
        assert forall|i: int| 0 <= i < k implies s.contains(#[trigger] ids[i]) by {
            if i < k - 1 {
                assert(a.contains(ids[i]));
                let j = a.index_of(ids[i]);
                assert(s[j] == ids[i]);
            } else if !a.contains(ids[k - 1]) {
                assert(s[s.len() - 1] == ids[k - 1]);
            }
        }
        assert forall|i: int| seen.len() <= i < s.len() implies ids.take(k).contains(
            #[trigger] s[i],
        ) by {
            if i < a.len() {
                assert(s[i] == a[i]);
                let b = ids.take(k - 1);
                let j = b.index_of(a[i]);
                assert(ids.take(k)[j] == a[i]);
            } else {
                assert(ids.take(k)[k - 1] == s[i]);
            }
        }
    } else {
        assert(seen.take(seen.len() as int) =~= seen);
    }
}

// ---------------------------------------------------------------------------
// Copying and defining
// ---------------------------------------------------------------------------

/// Copied elements win over those that were there, except where they are holes; what was
/// there behind them stays.
pub proof fn law_overlaid(s: Seq<JsValue>, over: Seq<JsValue>, k: int, i: int)
    requires
        0 <= k <= over.len(),
        0 <= i,
    ensures
        ({
            let r = overlaid(s, over, k);
            &&& r.len() >= s.len()
            &&& i < k && over[i] != JsValue::Hole ==> i < r.len() && r[i] == over[i]
            &&& i < s.len() && (i >= k || over[i] == JsValue::Hole) ==> r[i] == s[i]
        }),
    decreases k,
{
    if k > 0 {
        law_overlaid(s, over, k - 1, i);
    }
}

/// Reading the properties of an object without getters gives each enumerable one with its
/// value, and changes nothing.
pub proof fn law_read_values(h: HeapModel, source: usize, list: Seq<Prop>, k: int)
    requires
        0 <= k <= list.len(),
        forall|i: int| 0 <= i < list.len() ==> (#[trigger] list[i]).body is Data,
    ensures
        ({
            let r = read_values(h, source, list, k);
            &&& r.0 == h
            &&& r.1 matches Ok(pairs) && pairs.len() <= k && forall|i: int|
                0 <= i < k && (#[trigger] list[i]).attrs.enumerable && is_live(list[i])
                    ==> pairs.contains((list[i].key, list[i].body->Data_0))
        }),
    decreases k,
{
    if k > 0 {
        law_read_values(h, source, list, k - 1);
        let a = read_values(h, source, list, k - 1).1->Ok_0;
        let b = read_values(h, source, list, k).1->Ok_0;
        assert(list[k - 1].body is Data);
        assert forall|i: int|
            0 <= i < k && (#[trigger] list[i]).attrs.enumerable && is_live(
                list[i],
            ) implies b.contains((list[i].key, list[i].body->Data_0)) by {
            if i < k - 1 {
                let j = a.index_of((list[i].key, list[i].body->Data_0));
                assert(b[j] == a[j]);
            } else {
                assert(b[b.len() - 1] == (list[i].key, list[i].body->Data_0));
            }
        }
    }
}

/// Defining a property makes it report what it was defined with, and leaves what other
/// keys name as it was.
pub proof fn law_define_own(h: HeapModel, o: usize, key: PropKey, v: JsValue, other: PropKey)
    requires
        o < h.objects.len(),
        distinct_keys(h.objects[o as int].named.list),
        v != JsValue::Hole,
        element_index(h, o, key) is None ==> match lookup(h.objects[o as int].named.list, key) {
            Some(p) => p.body is Data,
            None => true,
        },
    ensures
        ({
            let r = define_own(h, o, key, plain_data(v));
            let later = with_own(h, o, key, v);
            &&& r.1 ==> own_property(later, o, key) == Some(plain_data(v))
            &&& !r.1 ==> later.objects[o as int] == h.objects[o as int]
            &&& distinct_keys(later.objects[o as int].named.list)
            &&& other != key ==> lookup(later.objects[o as int].named.list, other) == lookup(
                h.objects[o as int].named.list,
                other,
            )
            &&& later.objects[o as int].prototype == h.objects[o as int].prototype
        }),
{
    let m = h.objects[o as int];
    let later = with_own(h, o, key, v);
    let m1 = later.objects[o as int];
    let a = m.named.list;
    let b = m1.named.list;
    assert(element_index(later, o, key) == element_index(h, o, key));
    match element_index(h, o, key) {
        Some(i) => {
            assert(element_at(with_element(m.elements, i as int, v), i as int) == Some(v));
        },
        None => {
            if has_key(a, key) {
                lemma_lookup_key(a, key);
            }
            assert forall|i: int, j: int| 0 <= i < j < b.len() implies #[trigger] b[i].key
                != #[trigger] b[j].key by {
                if i < a.len() && j < a.len() {
                    assert(a[i].key != a[j].key);
                } else {
                    assert(a[i].key == b[i].key);
                }
            }
            if define_own(h, o, key, plain_data(v)).1 {
                let i = if has_key(a, key) {
                    index_of_key(a, key)
                } else {
                    b.len() - 1
                };
                assert(b[i].key == key);
                lemma_index_of_key(b, key, i);
                assert(live_property(b, key) is Some);
            }
        },
    }
    if other != key {
        if has_key(a, other) {
            lemma_lookup_key(a, other);
            let i = index_of_key(a, other);
            assert(b[i] == a[i]);
            lemma_index_of_key(b, other, i);
        } else if has_key(b, other) {
            let j = index_of_key(b, other);
            lemma_lookup_key(b, other);
            assert(a[j].key == other);
        }
    }
}

/// Values are put on an object one after another, so that the last one wins.
pub proof fn law_last_value_wins(
    h: HeapModel,
    o: usize,
    pairs: Seq<(PropKey, JsValue)>,
    key: PropKey,
    v: JsValue,
)
    ensures
        with_values(h, o, pairs.push((key, v)), pairs.len() as int + 1) == with_own(
            with_values(h, o, pairs, pairs.len() as int),
            o,
            key,
            v,
        ),
        with_values(h, o, pairs, 0) == h,
{
    lemma_values_prefix(h, o, pairs, (key, v), pairs.len() as int);
}

proof fn lemma_values_prefix(
    h: HeapModel,
    o: usize,
    pairs: Seq<(PropKey, JsValue)>,
    p: (PropKey, JsValue),
    k: int,
)
    requires
        0 <= k <= pairs.len(),
    ensures
        with_values(h, o, pairs.push(p), k) == with_values(h, o, pairs, k),
    decreases k,
{
    if k > 0 {
        lemma_values_prefix(h, o, pairs, p, k - 1);
    }
}

// ---------------------------------------------------------------------------
// Equality and truth
// ---------------------------------------------------------------------------

/// Integers are equal where they are the same integer, in either form of a number, and
/// never equal to what is no number.
pub proof fn law_integer_equality(a: i32, b: i32, t: usize)
    ensures
        strictly_equal(JsValue::Smi(a), JsValue::Smi(b)) == (a == b),
        strictly_equal(JsValue::Smi(a), JsValue::Double(int_double(a as int))),
        same_value_zero_of(JsValue::Smi(a), JsValue::Smi(b)) == (a == b),
        same_value_of(JsValue::Smi(a), JsValue::Smi(b)) == (a == b),
        !strictly_equal(JsValue::Smi(a), JsValue::Text(t)),
        !strictly_equal(JsValue::Smi(a), JsValue::Bool(true)),
        !strictly_equal(JsValue::Smi(a), JsValue::Null),
        !strictly_equal(JsValue::Null, JsValue::Undefined),
{
    lemma_int_exact(a as int);
    lemma_int_exact(b as int);
    let x = int_double(a as int);
    let y = int_double(b as int);
    if a != b && equal(x, y) {
        assert(order_key(x) == order_key(y));
        assert(x == y);
    }
}

/// Not-a-number is strictly equal to nothing, and the same value as itself; the two zeros
/// are equal, and not the same value.
pub proof fn law_special_equality(b: u64, c: u64, v: JsValue)
    requires
        is_nan(b),
        is_nan(c),
    ensures
        !strictly_equal(JsValue::Double(b), v),
        !strictly_equal(v, JsValue::Double(b)),
        same_value_of(JsValue::Double(b), JsValue::Double(c)),
        same_value_zero_of(JsValue::Double(b), JsValue::Double(c)),
        strictly_equal(JsValue::Smi(0), JsValue::Double(0x8000_0000_0000_0000)),
        same_value_zero_of(JsValue::Smi(0), JsValue::Double(0x8000_0000_0000_0000)),
        !same_value_of(JsValue::Smi(0), JsValue::Double(0x8000_0000_0000_0000)),
{
    lemma_int_exact(0);
}

/// Other values are equal where they are the same one: texts by what they hold, objects by
/// which they are.
pub proof fn law_identity(h: HeapModel, a: usize, b: usize)
    requires
        h.distinct_texts(),
        a < h.texts.len(),
        b < h.texts.len(),
    ensures
        strictly_equal(JsValue::Text(a), JsValue::Text(b)) == (h.texts[a as int]
            == h.texts[b as int]),
        strictly_equal(JsValue::Object(a), JsValue::Object(b)) == (a == b),
        strictly_equal(JsValue::Symbol(a), JsValue::Symbol(b)) == (a == b),
        same_value_of(JsValue::Object(a), JsValue::Object(b)) == (a == b),
        strictly_equal(JsValue::Undefined, JsValue::Undefined),
        strictly_equal(JsValue::Null, JsValue::Null),
{
    if h.texts[a as int] == h.texts[b as int] && a != b {
        if a < b {
            assert(h.texts[a as int] != h.texts[b as int]);
        } else {
            assert(h.texts[b as int] != h.texts[a as int]);
        }
    }
}

/// What counts as false: `undefined`, `null`, zeros, not-a-number and the empty text.
pub proof fn law_truth(h: HeapModel, n: i32, b: u64, t: usize)
    ensures
        truthy(h, JsValue::Smi(n)) == (n != 0),
        truthy(h, JsValue::Double(b)) == !(is_nan(b) || magnitude(b) == 0),
        truthy(h, JsValue::Text(t)) == (h.texts[t as int].len() != 0),
        truthy(h, JsValue::Object(t)) && truthy(h, JsValue::Symbol(t)),
        truthy(h, JsValue::Bool(true)) && !truthy(h, JsValue::Bool(false)),
        !truthy(h, JsValue::Undefined) && !truthy(h, JsValue::Null),
{
    lemma_int_exact(0);
}

} // verus!
