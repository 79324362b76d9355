//! What maps and sets promise.
use vstd::prelude::*;

use crate::convert::int_value;
use crate::descriptor::Fault;
use crate::heap::HeapModel;
use crate::map::{
    add_result, clear_result, delete_result, entry_size, entry_slot, get_result, has_result,
    same_key, set_result, size_result,
};
use crate::value::{JsValue, Kind};

verus! {

/// The slot of an entry.
pub open spec fn slot_of(k: int, size: int) -> int {
    if size == 2 {
        2 * k
    } else {
        k
    }
}

/// How many entries there are.
pub open spec fn entries_in(s: Seq<JsValue>, size: int) -> int {
    if size == 2 {
        s.len() as int / 2
    } else {
        s.len() as int
    }
}

/// Whether the slots are whole entries, no two of which have one key.
pub open spec fn keys_once(s: Seq<JsValue>, size: int) -> bool {
    &&& size == 2 ==> s.len() % 2 == 0
    &&& forall|a: int, b: int|
        #![trigger s[slot_of(a, size)], s[slot_of(b, size)]]
        0 <= a < b < entries_in(s, size) ==> !same_key(s[slot_of(a, size)], s[slot_of(b, size)])
}

/// What looking for a key finds: the first entry from `k` on that has it.
proof fn lemma_slot_found(s: Seq<JsValue>, key: JsValue, size: int, k: int)
    requires
        size == 1 || size == 2,
        size == 2 ==> s.len() % 2 == 0,
        0 <= k <= entries_in(s, size),
    ensures
        ({
            let r = entry_slot(s, key, size, slot_of(k, size));
            &&& r == -1 ==> forall|a: int|
                k <= a < entries_in(s, size) ==> !same_key(#[trigger] s[slot_of(a, size)], key)
            &&& r != -1 ==> exists|a: int|
                k <= a < entries_in(s, size) && #[trigger] slot_of(a, size) == r && same_key(
                    s[r],
                    key,
                )
        }),
    decreases entries_in(s, size) - k,
{
    let i = slot_of(k, size);
    if k < entries_in(s, size) {
        assert(i + size <= s.len());
        if same_key(s[i], key) {
            assert(entry_slot(s, key, size, i) == i);
            assert(slot_of(k, size) == i);
        } else {
            assert(slot_of(k + 1, size) == i + size);
            lemma_slot_found(s, key, size, k + 1);
            let r = entry_slot(s, key, size, i + size);
            assert(entry_slot(s, key, size, i) == r);
            if r == -1 {
                assert forall|a: int| k <= a < entries_in(s, size) implies !same_key(
                    #[trigger] s[slot_of(a, size)],
                    key,
                ) by {
                    if a > k {
                        assert(k + 1 <= a);
                    }
                }
            }
        }
    }
}

/// Adding to a set, or setting in a map, keeps each key once.
pub proof fn law_added_once(h: HeapModel, o: usize, key: JsValue, v: JsValue)
    requires
        o < h.objects.len(),
    ensures
        h.objects[o as int].kind == Kind::SetObject && keys_once(
            h.objects[o as int].elements,
            1,
        ) ==> {
            let later = add_result(h, JsValue::Object(o), key).0;
            &&& keys_once(later.objects[o as int].elements, 1)
            &&& add_result(later, JsValue::Object(o), key).0 == later
            &&& has_result(
                later,
                JsValue::Object(o),
                "Set.prototype.has"@,
                Kind::SetObject,
                key,
            ).1 == Ok::<JsValue, Fault>(JsValue::Bool(true))
        },
        h.objects[o as int].kind == Kind::MapObject && keys_once(
            h.objects[o as int].elements,
            2,
        ) ==> {
            let later = set_result(h, JsValue::Object(o), key, v).0;
            &&& keys_once(later.objects[o as int].elements, 2)
            &&& has_result(
                later,
                JsValue::Object(o),
                "Map.prototype.has"@,
                Kind::MapObject,
                key,
            ).1 == Ok::<JsValue, Fault>(JsValue::Bool(true))
        },
{
    let s = h.objects[o as int].elements;
    if h.objects[o as int].kind == Kind::SetObject && keys_once(s, 1) {
        lemma_slot_found(s, key, 1, 0);
        if entry_slot(s, key, 1, 0) < 0 {
            let t = s.push(key);
            assert forall|a: int, b: int|
                #![trigger t[slot_of(a, 1)], t[slot_of(b, 1)]]
                0 <= a < b < entries_in(t, 1) implies !same_key(
                t[slot_of(a, 1)],
                t[slot_of(b, 1)],
            ) by {
                if b < s.len() {
                    assert(!same_key(s[slot_of(a, 1)], s[slot_of(b, 1)]));
                } else {
                    assert(!same_key(s[slot_of(a, 1)], key));
                }
            }
            lemma_slot_found(t, key, 1, 0);
            if entry_slot(t, key, 1, 0) == -1 {
                assert(!same_key(t[slot_of(s.len() as int, 1)], key));
            }
        }
    }
    if h.objects[o as int].kind == Kind::MapObject && keys_once(s, 2) {
        lemma_slot_found(s, key, 2, 0);
        let i = entry_slot(s, key, 2, 0);
        if i >= 0 {
            let n = choose|a: int|
                0 <= a < entries_in(s, 2) && #[trigger] slot_of(a, 2) == i && same_key(s[i], key);
            let t = s.update(i + 1, v);
            assert forall|a: int| 0 <= a < entries_in(t, 2) implies #[trigger] t[slot_of(a, 2)]
                == s[slot_of(a, 2)] by {}
            assert forall|a: int, b: int|
                #![trigger t[slot_of(a, 2)], t[slot_of(b, 2)]]
                0 <= a < b < entries_in(t, 2) implies !same_key(
                t[slot_of(a, 2)],
                t[slot_of(b, 2)],
            ) by {
                assert(!same_key(s[slot_of(a, 2)], s[slot_of(b, 2)]));
            }
            lemma_slot_found(t, key, 2, 0);
            if entry_slot(t, key, 2, 0) == -1 {
                assert(!same_key(t[slot_of(n, 2)], key));
            }
        } else {
            let t = s.push(key).push(v);
            assert forall|a: int, b: int|
                #![trigger t[slot_of(a, 2)], t[slot_of(b, 2)]]
                0 <= a < b < entries_in(t, 2) implies !same_key(
                t[slot_of(a, 2)],
                t[slot_of(b, 2)],
            ) by {
                if b < entries_in(s, 2) {
                    assert(!same_key(s[slot_of(a, 2)], s[slot_of(b, 2)]));
                } else {
                    assert(!same_key(s[slot_of(a, 2)], key));
                }
            }
            lemma_slot_found(t, key, 2, 0);
            if entry_slot(t, key, 2, 0) == -1 {
                assert(!same_key(t[slot_of(entries_in(s, 2), 2)], key));
            }
        }
    }
}

/// A key that was deleted is gone, the others stay, and each is there once.
pub proof fn law_deleted_key_is_gone(
    h: HeapModel,
    o: usize,
    method: Seq<char>,
    test: Seq<char>,
    kind: Kind,
    key: JsValue,
)
    requires
        o < h.objects.len(),
        kind == Kind::MapObject || kind == Kind::SetObject,
        h.objects[o as int].kind == kind,
        keys_once(h.objects[o as int].elements, entry_size(kind)),
    ensures
        ({
            let later = delete_result(h, JsValue::Object(o), method, kind, key).0;
            &&& keys_once(later.objects[o as int].elements, entry_size(kind))
            &&& has_result(later, JsValue::Object(o), test, kind, key).1 == Ok::<JsValue, Fault>(
                JsValue::Bool(false),
            )
        }),
{
    let size = entry_size(kind);
    let s = h.objects[o as int].elements;
    lemma_slot_found(s, key, size, 0);
    let i = entry_slot(s, key, size, 0);
    if i >= 0 {
        let n = choose|a: int|
            0 <= a < entries_in(s, size) && #[trigger] slot_of(a, size) == i && same_key(s[i], key);
        let t = s.take(i) + s.skip(i + size);
        assert(i + size <= s.len());
        assert(entries_in(t, size) == entries_in(s, size) - 1);
        assert forall|a: int| 0 <= a < entries_in(t, size) implies #[trigger] t[slot_of(a, size)]
            == s[slot_of(
            if a < n {
                a
            } else {
                a + 1
            },
            size,
        )] by {}
        assert forall|a: int, b: int|
            #![trigger t[slot_of(a, size)], t[slot_of(b, size)]]
            0 <= a < b < entries_in(t, size) implies !same_key(
            t[slot_of(a, size)],
            t[slot_of(b, size)],
        ) by {
            let x = if a < n {
                a
            } else {
                a + 1
            };
            let y = if b < n {
                b
            } else {
                b + 1
            };
            assert(!same_key(s[slot_of(x, size)], s[slot_of(y, size)]));
        }
        lemma_slot_found(t, key, size, 0);
        let r = entry_slot(t, key, size, 0);
        if r != -1 {
            let a = choose|a: int|
                0 <= a < entries_in(t, size) && #[trigger] slot_of(a, size) == r && same_key(
                    t[r],
                    key,
                );
            let x = if a < n {
                a
            } else {
                a + 1
            };
            assert(t[slot_of(a, size)] == s[slot_of(x, size)]);
            if x < n {
                assert(!same_key(s[slot_of(x, size)], s[slot_of(n, size)]));
            } else {
                assert(!same_key(s[slot_of(n, size)], s[slot_of(x, size)]));
            }
        }
    }
}

/// Entries keep their place: setting in a map, or adding to a set, changes the key of no
/// entry that is there, and a new entry comes last.
pub proof fn law_insertion_order(h: HeapModel, o: usize, key: JsValue, v: JsValue, k: int)
    requires
        o < h.objects.len(),
    ensures
        h.objects[o as int].kind == Kind::SetObject && 0 <= k < entries_in(
            h.objects[o as int].elements,
            1,
        ) ==> add_result(h, JsValue::Object(o), key).0.objects[o as int].elements[slot_of(k, 1)]
            == h.objects[o as int].elements[slot_of(k, 1)],
        h.objects[o as int].kind == Kind::MapObject && h.objects[o as int].elements.len() % 2 == 0
            && 0 <= k < entries_in(h.objects[o as int].elements, 2) ==> set_result(
            h,
            JsValue::Object(o),
            key,
            v,
        ).0.objects[o as int].elements[slot_of(k, 2)] == h.objects[o as int].elements[slot_of(
            k,
            2,
        )],
{
    let s = h.objects[o as int].elements;
    if h.objects[o as int].kind == Kind::MapObject && s.len() % 2 == 0 {
        lemma_slot_found(s, key, 2, 0);
    }
}

/// Where another key is found once the entry in the slot `at` is gone.
proof fn lemma_slot_behind(s: Seq<JsValue>, other: JsValue, size: int, at: int, i: int)
    requires
        size == 1 || size == 2,
        0 <= at,
        at + size <= i,
        i <= s.len(),
    ensures
        ({
            let r = entry_slot(s, other, size, i);
            &&& r == -1 || (i <= r && r + size <= s.len())
            &&& entry_slot(s.take(at) + s.skip(at + size), other, size, i - size) == if r == -1 {
                -1
            } else {
                r - size
            }
        }),
    decreases s.len() - i,
{
    let t = s.take(at) + s.skip(at + size);
    if i + size <= s.len() {
        assert(t[i - size] == s[i]);
        if !same_key(s[i], other) {
            lemma_slot_behind(s, other, size, at, i + size);
        }
    }
}

proof fn lemma_slot_around(s: Seq<JsValue>, other: JsValue, size: int, at: int, i: int)
    requires
        size == 1 || size == 2,
        0 <= i <= at,
        size == 2 ==> (at - i) % 2 == 0,
        at + size <= s.len(),
        !same_key(s[at], other),
    ensures
        ({
            let r = entry_slot(s, other, size, i);
            let x = entry_slot(s.take(at) + s.skip(at + size), other, size, i);
            &&& r == -1 ==> x == -1
            &&& r != -1 ==> i <= r && r + size <= s.len() && r != at && x == if r < at {
                r
            } else {
                r - size
            }
            &&& r != -1 && r < at && size == 2 ==> r + 1 < at
        }),
    decreases at - i,
{
    let t = s.take(at) + s.skip(at + size);
    if i == at {
        lemma_slot_behind(s, other, size, at, at + size);
    } else {
        assert(t[i] == s[i]);
        if !same_key(s[i], other) {
            lemma_slot_around(s, other, size, at, i + size);
        }
    }
}

proof fn lemma_slot_range(s: Seq<JsValue>, key: JsValue, size: int, i: int)
    requires
        size == 1 || size == 2,
        i >= 0,
    ensures
        ({
            let r = entry_slot(s, key, size, i);
            r == -1 || (i <= r && r + size <= s.len() && same_key(s[r], key) && (size == 2 ==> (r
                - i) % 2 == 0))
        }),
    decreases s.len() - i,
{
    if i + size <= s.len() && !same_key(s[i], key) {
        lemma_slot_range(s, key, size, i + size);
    }
}

/// Deleting answers whether the key was there; the size falls by one where it was, and
/// every other key is there afterwards as it was before.
pub proof fn law_delete_one(
    h: HeapModel,
    o: usize,
    method: Seq<char>,
    test: Seq<char>,
    kind: Kind,
    key: JsValue,
    other: JsValue,
)
    requires
        o < h.objects.len(),
        kind == Kind::MapObject || kind == Kind::SetObject,
        h.objects[o as int].kind == kind,
        h.objects[o as int].elements.len() % 2 == 0 || kind == Kind::SetObject,
    ensures
        ({
            let d = delete_result(h, JsValue::Object(o), method, kind, key);
            let n = entries_in(h.objects[o as int].elements, entry_size(kind));
            &&& d.1 == has_result(h, JsValue::Object(o), test, kind, key).1
            &&& size_result(d.0, JsValue::Object(o), test, kind).1 == Ok::<JsValue, Fault>(
                int_value(
                    if d.1 == Ok::<JsValue, Fault>(JsValue::Bool(true)) {
                        n - 1
                    } else {
                        n
                    },
                ),
            )
            &&& !same_key(key, other) ==> has_result(d.0, JsValue::Object(o), test, kind, other).1
                == has_result(h, JsValue::Object(o), test, kind, other).1
            &&& !same_key(key, other) && kind == Kind::MapObject ==> get_result(
                d.0,
                JsValue::Object(o),
                other,
            ).1 == get_result(h, JsValue::Object(o), other).1
        }),
{
    let s = h.objects[o as int].elements;
    let size = entry_size(kind);
    let i = entry_slot(s, key, size, 0);
    lemma_slot_range(s, key, size, 0);
    lemma_slot_range(s, other, size, 0);
    if i >= 0 && !same_key(key, other) {
        lemma_slot_around(s, other, size, i, 0);
    }
}

proof fn lemma_slot_kept(s: Seq<JsValue>, key: JsValue, v: JsValue, other: JsValue, at: int, i: int)
    requires
        0 <= i,
        i % 2 == 0,
        s.len() % 2 == 0,
        at % 2 == 0,
        !same_key(key, other),
    ensures
        entry_slot(s.push(key).push(v), other, 2, i) == entry_slot(s, other, 2, i),
        0 <= at < s.len() ==> entry_slot(s.update(at + 1, v), other, 2, i) == entry_slot(
            s,
            other,
            2,
            i,
        ),
    decreases s.len() - i,
{
    let t = s.push(key).push(v);
    if i + 2 <= s.len() {
        assert(t[i] == s[i]);
        if 0 <= at < s.len() {
            assert(s.update(at + 1, v)[i] == s[i]);
        }
        if !same_key(s[i], other) {
            lemma_slot_kept(s, key, v, other, at, i + 2);
        }
    } else if i == s.len() {
        assert(t[i] == key);
        assert(entry_slot(t, other, 2, i + 2) == -1);
    }
}

/// Setting a key in a map leaves the values of other keys alone, and the size rises by one
/// where the key is new.
pub proof fn law_set_one(h: HeapModel, o: usize, key: JsValue, v: JsValue, other: JsValue)
    requires
        o < h.objects.len(),
        h.objects[o as int].kind == Kind::MapObject,
        h.objects[o as int].elements.len() % 2 == 0,
    ensures
        ({
            let r = set_result(h, JsValue::Object(o), key, v);
            let n = entries_in(h.objects[o as int].elements, 2);
            let was = has_result(h, JsValue::Object(o), seq![], Kind::MapObject, key).1;
            &&& r.1 == Ok::<JsValue, Fault>(JsValue::Object(o))
            &&& size_result(r.0, JsValue::Object(o), seq![], Kind::MapObject).1 == Ok::<
                JsValue,
                Fault,
            >(
                int_value(
                    if was == Ok::<JsValue, Fault>(JsValue::Bool(true)) {
                        n
                    } else {
                        n + 1
                    },
                ),
            )
            &&& !same_key(key, other) ==> get_result(r.0, JsValue::Object(o), other).1
                == get_result(h, JsValue::Object(o), other).1
        }),
{
    let s = h.objects[o as int].elements;
    let i = entry_slot(s, key, 2, 0);
    lemma_slot_range(s, key, 2, 0);
    lemma_slot_range(s, other, 2, 0);
    if !same_key(key, other) {
        lemma_slot_kept(s, key, v, other, if i < 0 {
            0
        } else {
            i
        }, 0);
    }
}

proof fn lemma_slot_single(s: Seq<JsValue>, v: JsValue, other: JsValue, i: int)
    requires
        0 <= i,
        !same_key(v, other),
    ensures
        entry_slot(s.push(v), other, 1, i) == entry_slot(s, other, 1, i),
    decreases s.len() - i,
{
    let t = s.push(v);
    if i < s.len() {
        assert(t[i] == s[i]);
        if !same_key(s[i], other) {
            lemma_slot_single(s, v, other, i + 1);
        }
    } else if i == s.len() {
        assert(entry_slot(t, other, 1, i + 1) == -1);
    }
}

/// Adding a value to a set changes nothing for other values, and the size rises by one
/// where the value is new.
pub proof fn law_add_one(h: HeapModel, o: usize, v: JsValue, other: JsValue)
    requires
        o < h.objects.len(),
        h.objects[o as int].kind == Kind::SetObject,
    ensures
        ({
            let r = add_result(h, JsValue::Object(o), v);
            let n = h.objects[o as int].elements.len() as int;
            let was = has_result(h, JsValue::Object(o), seq![], Kind::SetObject, v).1;
            &&& r.1 == Ok::<JsValue, Fault>(JsValue::Object(o))
            &&& size_result(r.0, JsValue::Object(o), seq![], Kind::SetObject).1 == Ok::<
                JsValue,
                Fault,
            >(
                int_value(
                    if was == Ok::<JsValue, Fault>(JsValue::Bool(true)) {
                        n
                    } else {
                        n + 1
                    },
                ),
            )
            &&& !same_key(v, other) ==> has_result(
                r.0,
                JsValue::Object(o),
                seq![],
                Kind::SetObject,
                other,
            ).1 == has_result(h, JsValue::Object(o), seq![], Kind::SetObject, other).1
        }),
{
    if !same_key(v, other) {
        lemma_slot_single(h.objects[o as int].elements, v, other, 0);
    }
}

/// A key is in a map or set where one of its entries has it, and what is not in a map is
/// `undefined`.
pub proof fn law_has(h: HeapModel, o: usize, kind: Kind, key: JsValue)
    requires
        o < h.objects.len(),
        kind == Kind::MapObject || kind == Kind::SetObject,
        h.objects[o as int].kind == kind,
        h.objects[o as int].elements.len() % 2 == 0 || kind == Kind::SetObject,
    ensures
        ({
            let s = h.objects[o as int].elements;
            let size = entry_size(kind);
            let there = exists|a: int|
                0 <= a < entries_in(s, size) && same_key(#[trigger] s[slot_of(a, size)], key);
            &&& has_result(h, JsValue::Object(o), seq![], kind, key).1 == Ok::<JsValue, Fault>(
                JsValue::Bool(there),
            )
            &&& !there && kind == Kind::MapObject ==> get_result(h, JsValue::Object(o), key).1
                == Ok::<JsValue, Fault>(JsValue::Undefined)
        }),
{
    let s = h.objects[o as int].elements;
    let size = entry_size(kind);
    lemma_slot_found(s, key, size, 0);
    let r = entry_slot(s, key, size, 0);
    if r != -1 {
        let a = choose|a: int|
            0 <= a < entries_in(s, size) && #[trigger] slot_of(a, size) == r && same_key(s[r], key);
        assert(same_key(s[slot_of(a, size)], key));
    }
}

/// A cleared collection is empty: its size is 0, no key is in it, and other objects stay.
pub proof fn law_clear(h: HeapModel, o: usize, kind: Kind, key: JsValue, p: int)
    requires
        o < h.objects.len(),
        kind == Kind::MapObject || kind == Kind::SetObject,
        h.objects[o as int].kind == kind,
        0 <= p < h.objects.len(),
    ensures
        ({
            let r = clear_result(h, JsValue::Object(o), seq![], kind);
            &&& r.1 == Ok::<JsValue, Fault>(JsValue::Undefined)
            &&& size_result(r.0, JsValue::Object(o), seq![], kind).1 == Ok::<JsValue, Fault>(
                JsValue::Smi(0),
            )
            &&& has_result(r.0, JsValue::Object(o), seq![], kind, key).1 == Ok::<JsValue, Fault>(
                JsValue::Bool(false),
            )
            &&& p != o ==> r.0.objects[p] == h.objects[p]
        }),
{
}

/// Keys are one where they are the same value, or zeros of either sign; a number is no key
/// of a text that spells it.
pub proof fn law_same_key(a: JsValue, b: JsValue, n: i32, t: usize)
    ensures
        same_key(a, a),
        same_key(a, b) == same_key(b, a),
        a is Text && b is Text ==> same_key(a, b) == (a == b),
        a is Object && b is Object ==> same_key(a, b) == (a == b),
        !same_key(JsValue::Smi(n), JsValue::Text(t)),
        same_key(JsValue::Smi(0), JsValue::Double(0x8000_0000_0000_0000)),
        same_key(JsValue::Double(0), JsValue::Double(0x8000_0000_0000_0000)),
        n != 0 ==> !same_key(JsValue::Smi(0), JsValue::Smi(n)),
{
}

} // verus!
