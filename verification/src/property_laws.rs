//! What reading, writing and deleting properties promise each other.
use vstd::prelude::*;

use crate::heap::{HeapModel, ObjModel};
use crate::internal_methods::{
    chain_ends, delete_own, element_at, element_index, ends_within, find_within, get_property,
    keyed_element, lemma_lookup_key, lemma_resolve_step, live_keys, live_property, own_property,
    resolve, resolve_shaped, set_own, with_element,
};
use crate::promise::lemma_settled_keeps;
use crate::properties::{
    Prop, PropBody, distinct_keys, has_key, index_of_key, lemma_index_of_key, lookup,
};
use crate::value::{FunctionTarget, JsValue, PropKey};

verus! {

/// Chains end where they did as long as no prototype changes.
proof fn lemma_ends_same(a: HeapModel, b: HeapModel, o: Option<usize>, n: nat)
    requires
        a.objects.len() == b.objects.len(),
        forall|i: int|
            0 <= i < a.objects.len() ==> (#[trigger] a.objects[i]).prototype
                == b.objects[i].prototype,
        ends_within(a.objects, o, n),
    ensures
        ends_within(b.objects, o, n),
    decreases n,
{
    match o {
        Some(k) => {
            assert(a.objects[k as int].prototype == b.objects[k as int].prototype);
            lemma_ends_same(a, b, a.objects[k as int].prototype, (n - 1) as nat);
        },
        None => {},
    }
}

/// An own property is the nearest one.
proof fn lemma_own_resolves(h: HeapModel, o: usize, key: PropKey)
    requires
        o < h.objects.len(),
        live_property(h.objects[o as int].named.list, key) is Some,
    ensures
        resolve(h.objects, Some(o), key) == Some(
            (o, lookup(h.objects[o as int].named.list, key).unwrap()),
        ),
{
    lemma_lookup_key(h.objects[o as int].named.list, key);
}

/// The heap after writing a property.
pub open spec fn after_set(h: HeapModel, o: usize, key: PropKey, v: JsValue) -> HeapModel {
    h.with_object(o, set_own(h, o, key, v).0)
}

/// Whether writing a property would run a setter: its own, or one that it inherits.
pub open spec fn runs_setter(h: HeapModel, o: usize, key: PropKey) -> bool {
    let m = h.objects[o as int];
    element_index(h, o, key) is None && match lookup(m.named.list, key) {
        Some(p) => p.body is Accessor,
        None => match resolve_shaped(h.objects, m.prototype, key) {
            Some(p) => p.body is Accessor,
            None => false,
        },
    }
}

/// A property reads back the value that it was set to.
pub proof fn law_get_after_set(h: HeapModel, o: usize, key: PropKey, v: JsValue)
    requires
        o < h.objects.len(),
        distinct_keys(h.objects[o as int].named.list),
        v != JsValue::Hole,
        !runs_setter(h, o, key),
        set_own(h, o, key, v).1,
    ensures
        get_property(after_set(h, o, key, v), o, key) == (
            after_set(h, o, key, v),
            Ok::<JsValue, crate::value::Throw>(v),
        ),
{
    let m = h.objects[o as int];
    let later = after_set(h, o, key, v);
    let m1 = later.objects[o as int];
    assert(element_index(later, o, key) == element_index(h, o, key));
    match element_index(h, o, key) {
        Some(i) => {
            assert(element_at(with_element(m.elements, i as int, v), i as int) == Some(v));
        },
        None => {
            if has_key(m.named.list, key) {
                let i = index_of_key(m.named.list, key);
                lemma_lookup_key(m.named.list, key);
                let l = m1.named.list;
                assert forall|a: int, b: int| 0 <= a < b < l.len() implies #[trigger] l[a].key
                    != #[trigger] l[b].key by {
                    assert(m.named.list[a].key != m.named.list[b].key);
                }
                lemma_index_of_key(l, key, i);
            } else {
                let l = m1.named.list;
                let i = l.len() - 1;
                assert(l[i].key == key);
                assert forall|a: int, b: int| 0 <= a < b < l.len() implies #[trigger] l[a].key
                    != #[trigger] l[b].key by {
                    if b < i {
                        assert(m.named.list[a].key != m.named.list[b].key);
                    } else {
                        assert(m.named.list[a].key == l[a].key);
                    }
                }
                lemma_index_of_key(l, key, i);
            }
            lemma_own_resolves(later, o, key);
        },
    }
}

/// Writing a property changes neither the other objects nor the other properties, and no
/// prototype: what another key names on the object is what it named.
pub proof fn law_set_changes_one_property(
    h: HeapModel,
    o: usize,
    key: PropKey,
    v: JsValue,
    other: PropKey,
    k: int,
)
    requires
        o < h.objects.len(),
        distinct_keys(h.objects[o as int].named.list),
        other != key,
        0 <= k < h.objects.len(),
    ensures
        ({
            let later = after_set(h, o, key, v);
            let m = h.objects[o as int];
            let m1 = later.objects[o as int];
            &&& k != o ==> later.objects[k] == h.objects[k]
            &&& later.texts == h.texts
            &&& m1.prototype == m.prototype
            &&& m1.extensible == m.extensible
            &&& lookup(m1.named.list, other) == lookup(m.named.list, other)
        }),
{
    let m = h.objects[o as int];
    let m1 = set_own(h, o, key, v).0;
    let a = m.named.list;
    let b = m1.named.list;
    if b != a {
        if has_key(a, key) {
            lemma_lookup_key(a, key);
        }
        assert forall|i: int, j: int| 0 <= i < j < b.len() implies #[trigger] b[i].key
            != #[trigger] b[j].key by {
            if i < a.len() && j < a.len() {
                assert(a[i].key != a[j].key);
            } else {
                assert(a[i].key == b[i].key);
            }
        }
        if has_key(a, other) {
            lemma_lookup_key(a, other);
            let i = index_of_key(a, other);
            assert(b[i] == a[i]);
            lemma_index_of_key(b, other, i);
        } else if has_key(b, other) {
            let j = index_of_key(b, other);
            lemma_lookup_key(b, other);
            assert(a[j].key == other);
        }
    }
}

/// Writing to an object that is not extensible adds nothing: a property that it does not
/// have is refused, and the object stays as it is.
pub proof fn law_not_extensible(h: HeapModel, o: usize, key: PropKey, v: JsValue)
    requires
        o < h.objects.len(),
        !h.objects[o as int].extensible,
        element_index(h, o, key) is None,
        !has_key(h.objects[o as int].named.list, key),
        !runs_setter(h, o, key),
    ensures
        set_own(h, o, key, v) == (h.objects[o as int], false),
        after_set(h, o, key, v) == h,
{
    assert(h.objects.update(o as int, h.objects[o as int]) =~= h.objects);
}

/// A value that may not be written stays: writing it is refused.
pub proof fn law_not_writable(h: HeapModel, o: usize, key: PropKey, v: JsValue)
    requires
        o < h.objects.len(),
        element_index(h, o, key) is None,
        lookup(h.objects[o as int].named.list, key) matches Some(p) && p.body is Data
            && !p.attrs.writable,
    ensures
        set_own(h, o, key, v) == (h.objects[o as int], false),
{
}

/// Deleting answers no exactly for a property that may not be deleted, which stays. Else
/// the property is gone, or holds a hole where it belongs to the shape; an accessor of the
/// shape keeps its place.
pub proof fn law_delete(h: HeapModel, o: usize, key: PropKey)
    requires
        o < h.objects.len(),
        distinct_keys(h.objects[o as int].named.list),
        element_index(h, o, key) is None,
    ensures
        ({
            let m = h.objects[o as int];
            let (m1, done) = delete_own(h, o, key);
            &&& done == !(lookup(m.named.list, key) matches Some(p) && !p.attrs.configurable)
            &&& !done ==> m1 == m
            &&& done ==> match lookup(m1.named.list, key) {
                None => true,
                Some(p) => p.body == PropBody::Data(JsValue::Hole) || p.body is Accessor,
            }
        }),
{
    let m = h.objects[o as int];
    let a = m.named.list;
    if has_key(a, key) {
        lemma_lookup_key(a, key);
        let i = index_of_key(a, key);
        let p = a[i];
        if p.attrs.configurable {
            let b = delete_own(h, o, key).0.named.list;
            if i >= m.named.base {
                if has_key(b, key) {
                    let j = index_of_key(b, key);
                    lemma_lookup_key(b, key);
                    if j < i {
                        assert(a[j].key == key);
                        assert(a[j].key != a[i].key);
                    } else {
                        assert(b[j] == a[j + 1]);
                        assert(a[i].key != a[j + 1].key);
                    }
                }
            } else if p.body is Data {
                assert forall|x: int, y: int| 0 <= x < y < b.len() implies #[trigger] b[x].key
                    != #[trigger] b[y].key by {
                    assert(a[x].key != a[y].key);
                }
                lemma_index_of_key(b, key, i);
            }
        }
    }
}

/// An element that was deleted is read through to the chain.
pub proof fn law_deleted_element(h: HeapModel, o: usize, key: PropKey)
    requires
        o < h.objects.len(),
        element_index(h, o, key) is Some,
    ensures
        delete_own(h, o, key).1,
        keyed_element(h.with_object(o, delete_own(h, o, key).0), o, key) is None,
{
}

/// Nothing is seen of a property that was deleted: the object does not report it, and what
/// its key names is what the prototype gives. (An accessor of the shape keeps its place.)
pub proof fn law_deleted_is_not_seen(h: HeapModel, o: usize, key: PropKey)
    requires
        o < h.objects.len(),
        chain_ends(h.objects, Some(o)),
        distinct_keys(h.objects[o as int].named.list),
        element_index(h, o, key) is None,
        delete_own(h, o, key).1,
        !(lookup(h.objects[o as int].named.list, key) matches Some(p) && p.body is Accessor
            && index_of_key(h.objects[o as int].named.list, key)
            < h.objects[o as int].named.base),
    ensures
        ({
            let later = h.with_object(o, delete_own(h, o, key).0);
            &&& own_property(later, o, key) is None
            &&& resolve(later.objects, Some(o), key) == resolve(
                later.objects,
                h.objects[o as int].prototype,
                key,
            )
        }),
{
    let m = h.objects[o as int];
    let later = h.with_object(o, delete_own(h, o, key).0);
    law_delete(h, o, key);
    let n = choose|n: nat| ends_within(h.objects, Some(o), n);
    lemma_ends_same(h, later, Some(o), n);
    assert(chain_ends(later.objects, Some(o)));
    let b = later.objects[o as int].named.list;
    let a = m.named.list;
    assert(live_property(b, key) is None) by {
        if has_key(a, key) {
            lemma_lookup_key(a, key);
            let i = index_of_key(a, key);
            if i >= m.named.base {
                if has_key(b, key) {
                    let j = index_of_key(b, key);
                    lemma_lookup_key(b, key);
                    if j < i {
                        assert(a[j].key == key);
                        assert(a[j].key != a[i].key);
                    } else {
                        assert(b[j] == a[j + 1]);
                        assert(a[i].key != a[j + 1].key);
                    }
                }
            } else {
                assert forall|x: int, y: int| 0 <= x < y < b.len() implies #[trigger] b[x].key
                    != #[trigger] b[y].key by {
                    assert(a[x].key != a[y].key);
                }
                lemma_index_of_key(b, key, i);
            }
        }
    }
    assert(element_index(later, o, key) is None);
    lemma_resolve_step(later.objects, o, key);
}

/// No key of an object is listed twice, and each that is listed names a property that was
/// not deleted.
pub proof fn law_own_keys_once(list: Seq<Prop>, k: int)
    requires
        distinct_keys(list),
        0 <= k <= list.len(),
    ensures
        live_keys(list, k).no_duplicates(),
        forall|i: int|
            #![trigger live_keys(list, k)[i]]
            0 <= i < live_keys(list, k).len() ==> live_property(list, live_keys(list, k)[i]) is Some
                && index_of_key(list, live_keys(list, k)[i]) < k,
    decreases k,
{
    if k > 0 {
        law_own_keys_once(list, k - 1);
        let a = live_keys(list, k - 1);
        let b = live_keys(list, k);
        let key = list[k - 1].key;
        lemma_index_of_key(list, key, k - 1);
        assert forall|i: int|
            #![trigger b[i]]
            0 <= i < b.len() implies live_property(list, b[i]) is Some && index_of_key(list, b[i])
            < k by {
            if i < a.len() {
                assert(a[i] == b[i]);
            }
        }
        assert forall|i: int, j: int| 0 <= i < b.len() && 0 <= j < b.len() && i != j implies b[i]
            != b[j] by {
            if i < a.len() && j < a.len() {
                assert(a[i] != a[j]);
            } else if i < a.len() {
                assert(a[i] == b[i]);
            } else if j < a.len() {
                assert(a[j] == b[j]);
            }
        }
    }
}

/// A getter that ran outside is taken at its word once: reading the property gives what it
/// came to, and nothing but the answer is used up.
pub proof fn law_getter_answers(h: HeapModel, o: usize, key: PropKey, g: usize, v: JsValue)
    requires
        o < h.objects.len(),
        element_index(h, o, key) is None,
        lookup(h.objects[o as int].named.list, key) matches Some(p) && p.body matches PropBody::Accessor(
            Some(f),
            _,
        ) && f == g,
        h.objects[g as int].callable is Host || h.objects[g as int].callable is Native,
        h.answer(g, o) == Some(Ok::<JsValue, JsValue>(v)),
    ensures
        get_property(h, o, key) == (h.answered(), Ok::<JsValue, crate::value::Throw>(v)),
{
    lemma_own_resolves(h, o, key);
}

proof fn lemma_found_owner(objects: Seq<ObjModel>, o: Option<usize>, key: PropKey, n: nat)
    requires
        o matches Some(k) ==> k < objects.len(),
        forall|i: int|
            0 <= i < objects.len() ==> ((#[trigger] objects[i]).prototype matches Some(k) ==> k
                < objects.len()),
    ensures
        find_within(objects, o, key, n) matches Some((owner, p)) ==> owner < objects.len()
            && lookup(objects[owner as int].named.list, key) == Some(p),
    decreases n,
{
    match o {
        Some(k) => {
            if n > 0 {
                lemma_found_owner(objects, objects[k as int].prototype, key, (n - 1) as nat);
            }
        },
        None => {},
    }
}

/// Reading a property, though it may run a getter, leaves every object its named properties,
/// its prototype and its sort, and every text where it is.
pub proof fn law_get_keeps_properties(h: HeapModel, o: usize, key: PropKey)
    requires
        h.closed(),
        o < h.objects.len(),
    ensures
        h.keeps(get_property(h, o, key).0),
{
    assert forall|i: int| 0 <= i < h.objects.len() implies ((#[trigger] h.objects[i]).prototype matches Some(
        k,
    ) ==> k < h.objects.len()) by {
        assert(h.valid_refs(h.objects[i]));
    }
    lemma_found_owner(h.objects, Some(o), key, h.objects.len());
    match resolve(h.objects, Some(o), key) {
        Some((owner, p)) => {
            let list = h.objects[owner as int].named.list;
            lemma_lookup_key(list, key);
            assert(h.valid_refs(h.objects[owner as int]));
            assert(h.valid_prop(list[index_of_key(list, key)]));
            if let PropBody::Accessor(Some(g), _) = p.body {
                assert(h.valid_refs(h.objects[g as int]));
                if let FunctionTarget::Settle { promise, resolve, reject, rejecting } =
                    h.objects[g as int].callable {
                    lemma_settled_keeps(
                        h,
                        promise,
                        JsValue::Object(resolve),
                        JsValue::Object(reject),
                        JsValue::Undefined,
                        rejecting,
                    );
                }
            }
        },
        None => {},
    }
}

} // verus!
