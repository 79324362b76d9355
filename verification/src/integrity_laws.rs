//! What freezing and sealing an object promise.
use vstd::prelude::*;

use crate::descriptor::{applied, defined_by, merged_property, refuses};
use crate::heap::HeapModel;
use crate::internal_methods::{element_index, indexed_kind, is_proxy, lemma_lookup_key, set_own};
use crate::key_order::{
    is_live, law_key_order, ordered_ids, own_keys, own_text_ids, symbol_ids, text_ids,
};
use crate::object_define::{closed_keys, closed_object, closing, integrity_result};
use crate::properties::{Prop, distinct_keys, has_key, index_of_key};
use crate::value::{Integrity, JsValue, PropKey};

verus! {

/// Whether a property may not be redefined, and where `frozen` is set may not change.
pub open spec fn is_closed(p: Prop, frozen: bool) -> bool {
    !p.attrs.configurable && (frozen && p.body is Data ==> !p.attrs.writable)
}

/// Whether an object has the properties of another but for the attributes of some, and
/// all under the first `k` keys are closed.
spec fn closed_up_to(
    h: HeapModel,
    later: HeapModel,
    o: usize,
    keys: Seq<PropKey>,
    k: int,
    frozen: bool,
) -> bool {
    let a = h.objects[o as int].named.list;
    let b = later.objects[o as int].named.list;
    &&& later.objects.len() == h.objects.len()
    &&& later.objects[o as int].extensible == h.objects[o as int].extensible
    &&& later.objects[o as int].integrity == h.objects[o as int].integrity
    &&& later.objects[o as int].kind == h.objects[o as int].kind
    &&& later.texts == h.texts
    &&& a.len() == b.len()
    &&& forall|i: int|
        #![trigger b[i]]
        0 <= i < a.len() ==> b[i].key == a[i].key && b[i].body == a[i].body && (is_closed(
            a[i],
            frozen,
        ) ==> is_closed(b[i], frozen)) && (is_live(a[i]) && keys.take(k).contains(a[i].key)
            ==> is_closed(b[i], frozen))
}

proof fn lemma_close_step(h: HeapModel, o: usize, key: PropKey, frozen: bool)
    requires
        o < h.objects.len(),
        !is_proxy(h, o),
        !h.objects[o as int].extensible,
        element_index(h, o, key) is None,
        distinct_keys(h.objects[o as int].named.list),
    ensures
        ({
            let m = h.objects[o as int];
            let m1 = defined_by(h, o, key, closing(h, o, key, frozen)).0;
            &&& applied(h, o, key, closing(h, o, key, frozen)) matches Ok((h1, _)) && h1
                == h.with_object(o, m1)
            &&& m1.extensible == m.extensible
            &&& m1.integrity == m.integrity
            &&& m1.kind == m.kind
            &&& m1.named.list.len() == m.named.list.len()
            &&& forall|i: int|
                #![trigger m1.named.list[i]]
                0 <= i < m.named.list.len() ==> m1.named.list[i].key == m.named.list[i].key
                    && m1.named.list[i].body == m.named.list[i].body && (is_closed(
                    m.named.list[i],
                    frozen,
                ) ==> is_closed(m1.named.list[i], frozen)) && (is_live(m.named.list[i])
                    && m.named.list[i].key == key ==> is_closed(m1.named.list[i], frozen))
        }),
{
    let m = h.objects[o as int];
    let d = closing(h, o, key, frozen);
    let list = m.named.list;
    if has_key(list, key) {
        lemma_lookup_key(list, key);
        let at = index_of_key(list, key);
        let p = list[at];
        assert forall|i: int| 0 <= i < list.len() && i != at implies #[trigger] list[i].key
            != key by {
            if i < at {
                assert(list[i].key != list[at].key);
            } else {
                assert(list[at].key != list[i].key);
            }
        }
        if is_live(p) {
            assert(!refuses(p, d));
            assert(merged_property(p, d).body == p.body);
        }
    }
}

proof fn lemma_closed_up_to(
    h: HeapModel,
    o: usize,
    keys: Seq<PropKey>,
    k: int,
    frozen: bool,
)
    requires
        0 <= k <= keys.len(),
        o < h.objects.len(),
        !is_proxy(h, o),
        !indexed_kind(h.objects[o as int].kind),
        !h.objects[o as int].extensible,
        distinct_keys(h.objects[o as int].named.list),
    ensures
        closed_keys(h, o, keys, k, frozen) is Ok,
        closed_up_to(h, closed_keys(h, o, keys, k, frozen)->Ok_0, o, keys, k, frozen),
    decreases k,
{
    if k > 0 {
        lemma_closed_up_to(h, o, keys, k - 1, frozen);
        let h1 = closed_keys(h, o, keys, k - 1, frozen)->Ok_0;
        let a = h.objects[o as int].named.list;
        let b = h1.objects[o as int].named.list;
        let key = keys[k - 1];
        assert forall|i: int, j: int| 0 <= i < j < b.len() implies #[trigger] b[i].key
            != #[trigger] b[j].key by {
            assert(a[i].key != a[j].key);
        }
        lemma_close_step(h1, o, key, frozen);
        let h2 = closed_keys(h, o, keys, k, frozen)->Ok_0;
        let c = h2.objects[o as int].named.list;
        assert forall|i: int|
            #![trigger c[i]]
            0 <= i < a.len() implies c[i].key == a[i].key && c[i].body == a[i].body && (is_closed(
            a[i],
            frozen,
        ) ==> is_closed(c[i], frozen)) && (is_live(a[i]) && keys.take(k).contains(a[i].key)
            ==> is_closed(c[i], frozen)) by {
            assert(b[i].key == a[i].key);
            if is_live(a[i]) && keys.take(k).contains(a[i].key) {
                let j = choose|j: int| 0 <= j < keys.take(k).len() && keys.take(k)[j] == a[i].key;
                if j < k - 1 {
                    assert(keys.take(k - 1)[j] == a[i].key);
                    assert(keys.take(k - 1).contains(a[i].key));
                } else {
                    assert(a[i].key == key);
                }
            }
        }
    }
}

proof fn lemma_text_ids_contain(list: Seq<Prop>, k: int, i: int)
    requires
        0 <= i < k <= list.len(),
        is_live(list[i]),
    ensures
        match list[i].key {
            PropKey::Text(n) => text_ids(list, k, false).contains(n),
            PropKey::Symbol(n) => symbol_ids(list, k).contains(n),
        },
    decreases k,
{
    let texts = text_ids(list, k - 1, false);
    let symbols = symbol_ids(list, k - 1);
    if i < k - 1 {
        lemma_text_ids_contain(list, k - 1, i);
        match list[i].key {
            PropKey::Text(n) => {
                let j = choose|j: int| 0 <= j < texts.len() && texts[j] == n;
                assert(text_ids(list, k, false)[j] == n);
            },
            PropKey::Symbol(n) => {
                let j = choose|j: int| 0 <= j < symbols.len() && symbols[j] == n;
                assert(symbol_ids(list, k)[j] == n);
            },
        }
    } else {
        match list[i].key {
            PropKey::Text(n) => {
                assert(text_ids(list, k, false).last() == n);
            },
            PropKey::Symbol(n) => {
                assert(symbol_ids(list, k).last() == n);
            },
        }
    }
}

/// Every property of an object that was not deleted is among its keys.
proof fn lemma_keys_complete(h: HeapModel, o: usize, i: int)
    requires
        o < h.objects.len(),
        !indexed_kind(h.objects[o as int].kind),
        0 <= i < h.objects[o as int].named.list.len(),
        is_live(h.objects[o as int].named.list[i]),
    ensures
        own_keys(h, o).1.contains(h.objects[o as int].named.list[i].key),
        own_keys(h, o).0 == h,
{
    broadcast use vstd::seq_lib::group_to_multiset_ensures;

    let m = h.objects[o as int];
    let list = m.named.list;
    let n = list.len() as int;
    lemma_text_ids_contain(list, n, i);
    let ids = text_ids(list, n, false);
    let ordered = ordered_ids(h, ids);
    let texts = own_text_ids(h, o, false).1;
    let symbols = symbol_ids(list, n);
    assert(texts =~= ordered);
    let keys = own_keys(h, o).1;
    match list[i].key {
        PropKey::Text(t) => {
            law_key_order(h, ids);
            assert(ids.to_multiset().contains(t));
            assert(ordered.contains(t));
            let j = choose|j: int| 0 <= j < ordered.len() && ordered[j] == t;
            assert(keys[j] == PropKey::Text(t));
        },
        PropKey::Symbol(s) => {
            let j = choose|j: int| 0 <= j < symbols.len() && symbols[j] == s;
            assert(keys[texts.len() + j] == PropKey::Symbol(s));
        },
    }
}

/// Freezing or sealing an object succeeds and closes it: it takes no new properties, and
/// each of its properties keeps its key and contents, may not be redefined, and may not
/// change where the object was frozen.
pub proof fn law_closed_object(h: HeapModel, o: usize, frozen: bool)
    requires
        o < h.objects.len(),
        !is_proxy(h, o),
        !indexed_kind(h.objects[o as int].kind),
        distinct_keys(h.objects[o as int].named.list),
    ensures
        ({
            let (later, r) = integrity_result(h, JsValue::Object(o), frozen);
            let a = h.objects[o as int].named.list;
            let m = later.objects[o as int];
            &&& r == Ok::<JsValue, crate::descriptor::Fault>(JsValue::Object(o))
            &&& !m.extensible
            &&& m.integrity != Integrity::Open
            &&& frozen ==> m.integrity == Integrity::Frozen
            &&& m.named.list.len() == a.len()
            &&& forall|i: int|
                #![trigger m.named.list[i]]
                0 <= i < a.len() ==> m.named.list[i].key == a[i].key && m.named.list[i].body
                    == a[i].body && (is_live(a[i]) ==> is_closed(m.named.list[i], frozen))
        }),
{
    let a = h.objects[o as int].named.list;
    let (h1, keys) = own_keys(h, o);
    assert(h1 == h);
    let h2 = h.with_object(o, closed_object(h.objects[o as int], frozen));
    lemma_closed_up_to(h2, o, keys, keys.len() as int, frozen);
    let later = closed_keys(h2, o, keys, keys.len() as int, frozen)->Ok_0;
    let b = later.objects[o as int].named.list;
    assert(keys.take(keys.len() as int) =~= keys);
    assert forall|i: int|
        #![trigger b[i]]
        0 <= i < a.len() implies b[i].key == a[i].key && b[i].body == a[i].body && (is_live(a[i])
        ==> is_closed(b[i], frozen)) by {
        if is_live(a[i]) {
            lemma_keys_complete(h, o, i);
        }
    }
}

/// A frozen object does not change: writing any of its values, or a new one, is refused
/// and leaves the object as it is. (A setter of it may still answer.)
pub proof fn law_frozen_refuses_writes(h: HeapModel, o: usize, key: PropKey, v: JsValue)
    requires
        o < h.objects.len(),
        !is_proxy(h, o),
        !indexed_kind(h.objects[o as int].kind),
        distinct_keys(h.objects[o as int].named.list),
        forall|i: int|
            #![trigger h.objects[o as int].named.list[i]]
            0 <= i < h.objects[o as int].named.list.len() ==> is_live(
                h.objects[o as int].named.list[i],
            ),
    ensures
        ({
            let later = integrity_result(h, JsValue::Object(o), true).0;
            let (m, done) = set_own(later, o, key, v);
            &&& m == later.objects[o as int]
            &&& !crate::property_laws::runs_setter(later, o, key) ==> !done
        }),
{
    law_closed_object(h, o, true);
    let later = integrity_result(h, JsValue::Object(o), true).0;
    let a = h.objects[o as int].named.list;
    let b = later.objects[o as int].named.list;
    assert(element_index(later, o, key) is None) by {
        let (h1, keys) = own_keys(h, o);
        let h2 = h.with_object(o, closed_object(h.objects[o as int], true));
        lemma_closed_up_to(h2, o, keys, keys.len() as int, true);
    }
    if has_key(b, key) {
        lemma_lookup_key(b, key);
        let i = index_of_key(b, key);
        assert(is_live(a[i]));
        assert(is_closed(b[i], true));
    }
}

} // verus!
