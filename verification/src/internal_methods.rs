//! Internal methods of objects.
//!
//! Ordinary objects keep named properties and, where they are arrays or arguments
//! objects, elements under array indices. The traps of a proxy are not run: those of
//! its methods that can throw report a `TypeError`.
use vstd::prelude::*;

use crate::heap::{Heap, HeapModel, JsObject, ObjModel};
use crate::promise::{capability_settle, capability_settled, lemma_settled_keeps};
use crate::properties::{Prop, PropBody, has_key, index_of_key, lookup};
use crate::proxy::{after_revoke, revoke_proxy};
use crate::text::{index_of_text, text_index};
use crate::value::{Attrs, FunctionTarget, JsValue, Kind, PropKey, Throw, all_attrs};

verus! {

/// Object kinds that differ in their internal methods.
#[derive(Debug, Clone, Copy, PartialEq, Eq, Hash, Structural)]
pub enum ObjectKind {
    /// Ordinary object with default internal methods.
    Ordinary,
    /// Proxy object whose traps must be consulted.
    Proxy,
}

/// Result of an internal method, either a value or an exception.
pub type InternalResult<T> = Result<T, Throw>;

/// Property descriptor used by `[[GetOwnProperty]]` and `[[DefineOwnProperty]]`.
#[derive(Debug, Clone, Copy, PartialEq, Eq, Structural)]
pub struct PropertyDescriptor {
    /// Value of the property, if data descriptor.
    pub value: Option<JsValue>,
    /// Writable attribute.
    pub writable: bool,
    /// Enumerable attribute.
    pub enumerable: bool,
    /// Configurable attribute.
    pub configurable: bool,
}

impl Default for PropertyDescriptor {
    fn default() -> (r: Self)
        ensures
            r == (PropertyDescriptor {
                value: None,
                writable: true,
                enumerable: true,
                configurable: true,
            }),
    {
        PropertyDescriptor { value: None, writable: true, enumerable: true, configurable: true }
    }
}

// ---------------------------------------------------------------------------
// Elements
// ---------------------------------------------------------------------------

/// Whether an object keeps elements under array indices.
pub open spec fn indexed_kind(kind: Kind) -> bool {
    kind == Kind::Array || kind == Kind::Arguments
}

/// The array index that a key spells.
pub open spec fn key_index(h: HeapModel, key: PropKey) -> Option<u32> {
    match key {
        PropKey::Text(n) => index_of_text(h.texts[n as int]),
        PropKey::Symbol(_) => None,
    }
}

/// The element at an index, where there is one.
pub open spec fn element_at(s: Seq<JsValue>, i: int) -> Option<JsValue> {
    if 0 <= i < s.len() && s[i] != JsValue::Hole {
        Some(s[i])
    } else {
        None
    }
}

/// The elements with a value at an index, past holes where the index lies behind
/// the end.
pub open spec fn with_element(s: Seq<JsValue>, i: int, v: JsValue) -> Seq<JsValue> {
    if i < s.len() {
        s.update(i, v)
    } else {
        (s + Seq::new((i - s.len()) as nat, |k: int| JsValue::Hole)).push(v)
    }
}

/// The elements with a hole at an index.
pub open spec fn without_element(s: Seq<JsValue>, i: int) -> Seq<JsValue> {
    if i < s.len() {
        s.update(i, JsValue::Hole)
    } else {
        s
    }
}

/// The array index that a key names in an object with elements.
pub open spec fn element_index(h: HeapModel, o: usize, key: PropKey) -> Option<u32> {
    if indexed_kind(h.objects[o as int].kind) {
        key_index(h, key)
    } else {
        None
    }
}

/// The element that a key names in an object.
pub open spec fn keyed_element(h: HeapModel, o: usize, key: PropKey) -> Option<JsValue> {
    match element_index(h, o, key) {
        Some(i) => element_at(h.objects[o as int].elements, i as int),
        None => None,
    }
}

/// The array index that a key spells.
pub fn prop_key_as_index(heap: &Heap, key: PropKey) -> (r: Option<u32>)
    requires
        heap@.valid_key(key),
    ensures
        r == key_index(heap@, key),
{
    match key {
        PropKey::Text(n) => text_index(heap.text(n).as_slice()),
        PropKey::Symbol(_) => None,
    }
}

impl JsObject {
    /// The element at an index.
    pub fn get_element(&self, i: u32) -> (r: Option<JsValue>)
        ensures
            r == element_at(self@.elements, i as int),
    {
        if (i as usize) < self.elements.len() && self.elements[i as usize] != JsValue::Hole {
            Some(self.elements[i as usize])
        } else {
            None
        }
    }

    /// Puts a value at an index.
    pub fn set_element(&mut self, i: u32, v: JsValue)
        ensures
            final(self)@ == (ObjModel {
                elements: with_element(old(self)@.elements, i as int, v),
                ..old(self)@
            }),
            final(self).named == old(self).named,
    {
        self.put_element(i as usize, v);
    }

    /// Puts a value at a position; what lies between it and the others are holes.
    pub fn put_element(&mut self, i: usize, v: JsValue)
        ensures
            final(self)@ == (ObjModel {
                elements: with_element(old(self)@.elements, i as int, v),
                ..old(self)@
            }),
            final(self).named == old(self).named,
    {
        let ghost before = self.elements@;
        if i < self.elements.len() {
            self.elements.set(i, v);
        } else {
            while self.elements.len() < i
                invariant
                    before.len() <= self.elements@.len() <= i,
                    self.elements@ == before + Seq::new(
                        (self.elements@.len() - before.len()) as nat,
                        |k: int| JsValue::Hole,
                    ),
                    self@ == (ObjModel { elements: self.elements@, ..old(self)@ }),
                    self.named == old(self).named,
                decreases i - self.elements@.len(),
            {
                let ghost mid = self.elements@;
                self.elements.push(JsValue::Hole);
                proof {
                    assert(self.elements@ =~= before + Seq::new(
                        (self.elements@.len() - before.len()) as nat,
                        |k: int| JsValue::Hole,
                    ));
                }
            }
            self.elements.push(v);
        }
        proof {
            assert(self.elements@ =~= with_element(before, i as int, v));
        }
    }

    /// Leaves a hole at an index.
    pub fn delete_element(&mut self, i: u32)
        ensures
            final(self)@ == (ObjModel {
                elements: without_element(old(self)@.elements, i as int),
                ..old(self)@
            }),
            final(self).named == old(self).named,
    {
        if (i as usize) < self.elements.len() {
            self.elements.set(i as usize, JsValue::Hole);
        }
    }
}

/// The array index that a key names in an object with elements.
pub(crate) fn element_key(heap: &Heap, o: usize, key: PropKey) -> (r: Option<u32>)
    requires
        heap.wf(),
        o < heap@.objects.len(),
        heap@.valid_key(key),
    ensures
        r == element_index(heap@, o, key),
{
    let kind: Kind = heap.object(o).kind;
    if kind == Kind::Array || kind == Kind::Arguments {
        prop_key_as_index(heap, key)
    } else {
        None
    }
}

pub proof fn lemma_with_element_refs(h: HeapModel, m: ObjModel, i: int, v: JsValue)
    requires
        h.valid_refs(m),
        h.valid(v),
        0 <= i,
    ensures
        h.valid_refs(ObjModel { elements: with_element(m.elements, i, v), ..m }),
        h.valid_refs(ObjModel { elements: without_element(m.elements, i), ..m }),
{
    let e = with_element(m.elements, i, v);
    assert forall|k: int| 0 <= k < e.len() implies h.valid(#[trigger] e[k]) by {
        if k < m.elements.len() {
            assert(h.valid(m.elements[k]));
        }
    }
    let f = without_element(m.elements, i);
    assert forall|k: int| 0 <= k < f.len() implies h.valid(#[trigger] f[k]) by {
        assert(h.valid(m.elements[k]));
    }
}

// ---------------------------------------------------------------------------
// Prototype chains
// ---------------------------------------------------------------------------

/// Whether the chain of prototypes from `o` ends within `n` objects.
pub open spec fn ends_within(objects: Seq<ObjModel>, o: Option<usize>, n: nat) -> bool
    decreases n,
{
    match o {
        None => true,
        Some(k) => n > 0 && k < objects.len() && ends_within(
            objects,
            objects[k as int].prototype,
            (n - 1) as nat,
        ),
    }
}

/// Whether the chain of prototypes from `o` ends.
pub open spec fn chain_ends(objects: Seq<ObjModel>, o: Option<usize>) -> bool {
    exists|n: nat| ends_within(objects, o, n)
}

/// The property of a key that was not deleted: one of the shape that was holds a hole, and
/// nothing is seen of it.
pub open spec fn live_property(list: Seq<Prop>, key: PropKey) -> Option<Prop> {
    match lookup(list, key) {
        Some(p) => if p.body == PropBody::Data(JsValue::Hole) {
            None
        } else {
            Some(p)
        },
        None => None,
    }
}

/// The property of a key that was not deleted.
fn find_live(o: &JsObject, key: PropKey) -> (r: Option<Prop>)
    requires
        o.named.wf(),
    ensures
        r == live_property(o@.named.list, key),
{
    match o.named.get(key) {
        Some(p) => match p.body {
            PropBody::Data(JsValue::Hole) => None,
            _ => Some(p),
        },
        None => None,
    }
}

/// The first of up to `n` objects along a chain that has the key, with the property.
pub open spec fn find_within(
    objects: Seq<ObjModel>,
    o: Option<usize>,
    key: PropKey,
    n: nat,
) -> Option<(usize, Prop)>
    decreases n,
{
    match o {
        None => None,
        Some(k) => if n == 0 {
            None
        } else {
            match live_property(objects[k as int].named.list, key) {
                Some(p) => Some((k, p)),
                None => find_within(objects, objects[k as int].prototype, key, (n - 1) as nat),
            }
        },
    }
}

/// The first object along a chain that has the key, with the property; deleted properties
/// are passed over. A chain that runs in a circle is given up after as many objects as
/// there are.
pub open spec fn resolve(objects: Seq<ObjModel>, o: Option<usize>, key: PropKey) -> Option<
    (usize, Prop),
> {
    find_within(objects, o, key, objects.len())
}

/// The first object along a chain whose shape has the key, with the property.
pub open spec fn find_shaped_within(
    objects: Seq<ObjModel>,
    o: Option<usize>,
    key: PropKey,
    n: nat,
) -> Option<Prop>
    decreases n,
{
    match o {
        None => None,
        Some(k) => if n == 0 {
            None
        } else {
            let named = objects[k as int].named;
            if live_property(named.list, key) is Some && index_of_key(named.list, key)
                < named.base {
                lookup(named.list, key)
            } else {
                find_shaped_within(objects, objects[k as int].prototype, key, (n - 1) as nat)
            }
        },
    }
}

/// The property of the key in the nearest shape along a chain.
pub open spec fn resolve_shaped(objects: Seq<ObjModel>, o: Option<usize>, key: PropKey) -> Option<
    Prop,
> {
    find_shaped_within(objects, o, key, objects.len())
}

pub proof fn lemma_find_any_bound(
    objects: Seq<ObjModel>,
    o: Option<usize>,
    key: PropKey,
    n: nat,
    m: nat,
)
    requires
        ends_within(objects, o, n),
        ends_within(objects, o, m),
    ensures
        find_within(objects, o, key, n) == find_within(objects, o, key, m),
        find_shaped_within(objects, o, key, n) == find_shaped_within(objects, o, key, m),
    decreases n,
{
    match o {
        None => {},
        Some(k) => {
            lemma_find_any_bound(
                objects,
                objects[k as int].prototype,
                key,
                (n - 1) as nat,
                (m - 1) as nat,
            );
        },
    }
}

/// Resolving a key takes one step along the chain at a time.
pub proof fn lemma_resolve_step(objects: Seq<ObjModel>, k: usize, key: PropKey)
    requires
        chain_ends(objects, Some(k)),
    ensures
        k < objects.len(),
        chain_ends(objects, objects[k as int].prototype),
        resolve(objects, Some(k), key) == match live_property(
            objects[k as int].named.list,
            key,
        ) {
            Some(p) => Some((k, p)),
            None => resolve(objects, objects[k as int].prototype, key),
        },
        resolve_shaped(objects, Some(k), key) == {
            let named = objects[k as int].named;
            if live_property(named.list, key) is Some && index_of_key(named.list, key)
                < named.base {
                lookup(named.list, key)
            } else {
                resolve_shaped(objects, objects[k as int].prototype, key)
            }
        },
{
    let n = objects.len();
    lemma_chain_length(objects, Some(k));
    let p = objects[k as int].prototype;
    assert(ends_within(objects, p, (n - 1) as nat));
    lemma_ends_later(objects, p, (n - 1) as nat, n);
    lemma_find_any_bound(objects, p, key, (n - 1) as nat, n);
}

/// A chain that ends within some objects ends within more.
pub proof fn lemma_ends_later(objects: Seq<ObjModel>, o: Option<usize>, n: nat, m: nat)
    requires
        ends_within(objects, o, n),
        n <= m,
    ensures
        ends_within(objects, o, m),
    decreases n,
{
    match o {
        Some(k) => {
            lemma_ends_later(objects, objects[k as int].prototype, (n - 1) as nat, (m - 1) as nat);
        },
        None => {},
    }
}

/// The objects of a chain that ends within `n` objects and not within fewer: there are as
/// many of them, and none of their chains is longer.
proof fn lemma_chain_objects(objects: Seq<ObjModel>, o: Option<usize>, n: nat) -> (s: Set<int>)
    requires
        ends_within(objects, o, n),
        forall|m: nat| m < n ==> !ends_within(objects, o, m),
    ensures
        s.finite(),
        s.len() == n,
        forall|i: int| #[trigger] s.contains(i) ==> 0 <= i < objects.len() && ends_within(
            objects,
            Some(i as usize),
            n,
        ),
    decreases n,
{
    match o {
        None => {
            if n > 0 {
                assert(ends_within(objects, o, 0));
            }
            Set::empty()
        },
        Some(k) => {
            let p = objects[k as int].prototype;
            let n1 = (n - 1) as nat;
            assert forall|m: nat| m < n1 implies !ends_within(objects, p, m) by {
                if ends_within(objects, p, m) {
                    assert(ends_within(objects, o, m + 1));
                }
            }
            let s = lemma_chain_objects(objects, p, n1);
            assert(!s.contains(k as int)) by {
                if s.contains(k as int) {
                    assert(ends_within(objects, Some(k), n1));
                }
            }
            let r = s.insert(k as int);
            assert forall|i: int| #[trigger] r.contains(i) implies 0 <= i < objects.len()
                && ends_within(objects, Some(i as usize), n) by {
                if i != k {
                    assert(s.contains(i));
                    lemma_ends_later(objects, Some(i as usize), n1, n);
                }
            }
            r
        },
    }
}

/// The least number of objects within which a chain ends.
proof fn lemma_least_end(objects: Seq<ObjModel>, o: Option<usize>, n: nat) -> (m: nat)
    requires
        ends_within(objects, o, n),
    ensures
        ends_within(objects, o, m),
        m <= n,
        forall|k: nat| k < m ==> !ends_within(objects, o, k),
    decreases n,
{
    if n > 0 && ends_within(objects, o, (n - 1) as nat) {
        lemma_least_end(objects, o, (n - 1) as nat)
    } else {
        assert forall|k: nat| k < n implies !ends_within(objects, o, k) by {
            if ends_within(objects, o, k) {
                lemma_ends_later(objects, o, k, (n - 1) as nat);
            }
        }
        n
    }
}

/// A chain that ends has no more objects than there are.
pub proof fn lemma_chain_length(objects: Seq<ObjModel>, o: Option<usize>)
    requires
        chain_ends(objects, o),
    ensures
        ends_within(objects, o, objects.len()),
{
    let some = choose|n: nat| ends_within(objects, o, n);
    let n = lemma_least_end(objects, o, some);
    let s = lemma_chain_objects(objects, o, n);
    let all = vstd::set_lib::set_int_range(0, objects.len() as int);
    vstd::set_lib::lemma_int_range(0, objects.len() as int);
    assert(s.subset_of(all));
    vstd::set_lib::lemma_len_subset(s, all);
    lemma_ends_later(objects, o, n, objects.len());
}

/// The first object along a chain that has the key, with the property.
pub fn find_in_chain(heap: &Heap, o: Option<usize>, key: PropKey) -> (r: Option<(usize, Prop)>)
    requires
        heap.wf(),
        heap@.valid_object(o),
    ensures
        r == resolve(heap@.objects, o, key),
        r matches Some(found) ==> found.0 < heap@.objects.len() && heap@.valid_prop(found.1),
{
    let ghost objects = heap@.objects;
    let mut cur: Option<usize> = o;
    let mut left: usize = heap.object_count();
    while left > 0
        invariant
            heap.wf(),
            objects == heap@.objects,
            heap@.valid_object(cur),
            resolve(objects, o, key) == find_within(objects, cur, key, left as nat),
        decreases left,
    {
        let k: usize = match cur {
            None => {
                return None;
            },
            Some(k) => k,
        };
        let object: &JsObject = heap.object(k);
        match find_live(object, key) {
            Some(p) => {
                proof {
                    let list = objects[k as int].named.list;
                    assert(heap@.valid_prop(list[index_of_key(list, key)]));
                }
                return Some((k, p));
            },
            None => {},
        }
        cur = object.prototype;
        left = left - 1;
    }
    None
}

/// The property of the key in the nearest shape along a chain.
fn inherited_descriptor(heap: &Heap, o: Option<usize>, key: PropKey) -> (r: Option<Prop>)
    requires
        heap.wf(),
        heap@.valid_object(o),
    ensures
        r == resolve_shaped(heap@.objects, o, key),
{
    let ghost objects = heap@.objects;
    let mut cur: Option<usize> = o;
    let mut left: usize = heap.object_count();
    while left > 0
        invariant
            heap.wf(),
            objects == heap@.objects,
            heap@.valid_object(cur),
            resolve_shaped(objects, o, key) == find_shaped_within(objects, cur, key, left as nat),
        decreases left,
    {
        let k: usize = match cur {
            None => {
                return None;
            },
            Some(k) => k,
        };
        let object: &JsObject = heap.object(k);
        match find_live(object, key) {
            Some(p) => {
                if !object.named.in_dictionary(key) {
                    return Some(p);
                }
            },
            None => {},
        }
        cur = object.prototype;
        left = left - 1;
    }
    None
}

// ---------------------------------------------------------------------------
// Ordinary objects
// ---------------------------------------------------------------------------

/// `[[GetPrototypeOf]]` of an ordinary object.
pub fn ordinary_get_prototype_of(heap: &Heap, obj: usize) -> (r: Option<usize>)
    requires
        heap.wf(),
        obj < heap@.objects.len(),
    ensures
        r == heap@.objects[obj as int].prototype,
{
    heap.object(obj).prototype
}

/// `[[SetPrototypeOf]]` of an ordinary object: refused where it is not extensible.
pub fn ordinary_set_prototype_of(heap: &mut Heap, obj: usize, proto: Option<usize>) -> (r: bool)
    requires
        old(heap).wf(),
        obj < old(heap)@.objects.len(),
        old(heap)@.valid_object(proto),
    ensures
        final(heap).wf(),
        r == old(heap)@.objects[obj as int].extensible,
        final(heap)@ == if r {
            old(heap)@.with_object(
                obj,
                ObjModel { prototype: proto, ..old(heap)@.objects[obj as int] },
            )
        } else {
            old(heap)@
        },
{
    if !heap.object(obj).extensible {
        return false;
    }
    let o = heap.object_mut(obj);
    o.prototype = proto;
    true
}

/// `[[IsExtensible]]` of an ordinary object.
pub fn ordinary_is_extensible(heap: &Heap, obj: usize) -> (r: bool)
    requires
        heap.wf(),
        obj < heap@.objects.len(),
    ensures
        r == heap@.objects[obj as int].extensible,
{
    heap.object(obj).extensible
}

/// `[[PreventExtensions]]` of an ordinary object: always done.
pub fn ordinary_prevent_extensions(heap: &mut Heap, obj: usize) -> (r: bool)
    requires
        old(heap).wf(),
        obj < old(heap)@.objects.len(),
    ensures
        final(heap).wf(),
        r,
        final(heap)@ == old(heap)@.with_object(
            obj,
            ObjModel { extensible: false, ..old(heap)@.objects[obj as int] },
        ),
{
    let o = heap.object_mut(obj);
    o.extensible = false;
    true
}

/// What `[[GetOwnProperty]]` reports of a property: an accessor has no value and
/// is not writable.
pub open spec fn report(p: Prop) -> PropertyDescriptor {
    match p.body {
        PropBody::Data(v) => PropertyDescriptor {
            value: Some(v),
            writable: p.attrs.writable,
            enumerable: p.attrs.enumerable,
            configurable: p.attrs.configurable,
        },
        PropBody::Accessor(_, _) => PropertyDescriptor {
            value: None,
            writable: false,
            enumerable: p.attrs.enumerable,
            configurable: p.attrs.configurable,
        },
    }
}

/// What `[[GetOwnProperty]]` reports of a key.
pub open spec fn own_property(h: HeapModel, o: usize, key: PropKey) -> Option<PropertyDescriptor> {
    match keyed_element(h, o, key) {
        Some(v) => Some(
            PropertyDescriptor {
                value: Some(v),
                writable: true,
                enumerable: true,
                configurable: true,
            },
        ),
        None => match live_property(h.objects[o as int].named.list, key) {
            Some(p) => Some(report(p)),
            None => None,
        },
    }
}

/// The element that a key names in an object.
pub(crate) fn element_of_key(heap: &Heap, obj: usize, key: PropKey) -> (r: Option<JsValue>)
    requires
        heap.wf(),
        obj < heap@.objects.len(),
        heap@.valid_key(key),
    ensures
        r == keyed_element(heap@, obj, key),
        r matches Some(v) ==> heap@.valid(v),
{
    match element_key(heap, obj, key) {
        Some(i) => {
            let o: &JsObject = heap.object(obj);
            let v: Option<JsValue> = o.get_element(i);
            proof {
                if v is Some {
                    assert(heap@.valid(o@.elements[i as int]));
                }
            }
            v
        },
        None => None,
    }
}

/// `[[GetOwnProperty]]` of an ordinary object.
pub fn ordinary_get_own_property(heap: &Heap, obj: usize, key: PropKey) -> (r: Option<
    PropertyDescriptor,
>)
    requires
        heap.wf(),
        obj < heap@.objects.len(),
        heap@.valid_key(key),
    ensures
        r == own_property(heap@, obj, key),
{
    match element_of_key(heap, obj, key) {
        Some(v) => {
            return Some(
                PropertyDescriptor {
                    value: Some(v),
                    writable: true,
                    enumerable: true,
                    configurable: true,
                },
            );
        },
        None => {},
    }
    match find_live(heap.object(obj), key) {
        None => None,
        Some(p) => match p.body {
            PropBody::Data(v) => Some(
                PropertyDescriptor {
                    value: Some(v),
                    writable: p.attrs.writable,
                    enumerable: p.attrs.enumerable,
                    configurable: p.attrs.configurable,
                },
            ),
            PropBody::Accessor(_, _) => Some(
                PropertyDescriptor {
                    value: None,
                    writable: false,
                    enumerable: p.attrs.enumerable,
                    configurable: p.attrs.configurable,
                },
            ),
        },
    }
}

/// The attributes that a descriptor asks for.
pub open spec fn asked_attrs(d: PropertyDescriptor) -> Attrs {
    Attrs { writable: d.writable, enumerable: d.enumerable, configurable: d.configurable }
}

/// What `[[DefineOwnProperty]]` answers, and the object that it leaves: an element
/// is stored; an accessor stays as it is; a value that may not change refuses a
/// new one, else value and attributes are taken over; a new property needs an
/// extensible object.
pub open spec fn define_own(h: HeapModel, o: usize, key: PropKey, d: PropertyDescriptor) -> (
    ObjModel,
    bool,
) {
    let m = h.objects[o as int];
    match element_index(h, o, key) {
        Some(i) => (
            match d.value {
                Some(v) => ObjModel { elements: with_element(m.elements, i as int, v), ..m },
                None => m,
            },
            true,
        ),
        None => match lookup(m.named.list, key) {
            Some(p) => match p.body {
                PropBody::Accessor(_, _) => (m, true),
                PropBody::Data(old) => if d.value is Some && !p.attrs.writable {
                    (m, false)
                } else {
                    (
                        ObjModel {
                            named: m.named.updated(
                                index_of_key(m.named.list, key),
                                Prop {
                                    key,
                                    attrs: asked_attrs(d),
                                    body: PropBody::Data(
                                        match d.value {
                                            Some(v) => v,
                                            None => old,
                                        },
                                    ),
                                },
                            ),
                            ..m
                        },
                        true,
                    )
                },
            },
            None => if !m.extensible {
                (m, false)
            } else {
                (
                    ObjModel {
                        named: m.named.appended(
                            Prop {
                                key,
                                attrs: asked_attrs(d),
                                body: PropBody::Data(
                                    match d.value {
                                        Some(v) => v,
                                        None => JsValue::Undefined,
                                    },
                                ),
                            },
                        ),
                        ..m
                    },
                    true,
                )
            },
        },
    }
}

/// The property found under a key has that key.
pub proof fn lemma_lookup_key(list: Seq<Prop>, key: PropKey)
    requires
        has_key(list, key),
    ensures
        0 <= index_of_key(list, key) < list.len(),
        list[index_of_key(list, key)].key == key,
        lookup(list, key) == Some(list[index_of_key(list, key)]),
{
    let i = index_of_key(list, key);
    assert(0 <= i < list.len() && list[i].key == key);
}

/// A property that refers to what is there may take the place of another, or be added.
pub proof fn lemma_prop_refs(h: HeapModel, m: ObjModel, i: int, p: Prop)
    requires
        h.valid_refs(m),
        h.valid_prop(p),
    ensures
        0 <= i < m.named.list.len() ==> h.valid_refs(ObjModel { named: m.named.updated(i, p), ..m }),
        h.valid_refs(ObjModel { named: m.named.appended(p), ..m }),
        h.valid_refs(ObjModel { named: m.named.installed(p), ..m }),
{
    if 0 <= i < m.named.list.len() {
        let a = m.named.list.update(i, p);
        assert forall|k: int| 0 <= k < a.len() implies h.valid_prop(#[trigger] a[k]) by {
            assert(h.valid_prop(m.named.list[k]));
        }
    }
    let b = m.named.list.push(p);
    assert forall|k: int| 0 <= k < b.len() implies h.valid_prop(#[trigger] b[k]) by {
        if k < m.named.list.len() {
            assert(h.valid_prop(m.named.list[k]));
        }
    }
}

/// `[[DefineOwnProperty]]` of an ordinary object.
pub fn ordinary_define_own_property(
    heap: &mut Heap,
    obj: usize,
    key: PropKey,
    descriptor: PropertyDescriptor,
) -> (r: bool)
    requires
        old(heap).wf(),
        obj < old(heap)@.objects.len(),
        old(heap)@.valid_key(key),
        descriptor.value matches Some(v) ==> old(heap)@.valid(v),
    ensures
        final(heap).wf(),
        r == define_own(old(heap)@, obj, key, descriptor).1,
        final(heap)@ == old(heap)@.with_object(
            obj,
            define_own(old(heap)@, obj, key, descriptor).0,
        ),
{
    let ghost h = heap@;
    let ghost m = h.objects[obj as int];
    match element_key(heap, obj, key) {
        Some(i) => {
            let o = heap.object_mut(obj);
            match descriptor.value {
                Some(v) => {
                    proof {
                        lemma_with_element_refs(h, m, i as int, v);
                    }
                    o.set_element(i, v);
                },
                None => {},
            }
            return true;
        },
        None => {},
    }
    let attrs: Attrs = Attrs::new(
        descriptor.writable,
        descriptor.enumerable,
        descriptor.configurable,
    );
    let o = heap.object_mut(obj);
    match o.named.get(key) {
        Some(p) => {
            proof {
                o.named.lemma_distinct();
                lemma_lookup_key(m.named.list, key);
                assert(h.valid_prop(m.named.list[index_of_key(m.named.list, key)]));
            }
            match p.body {
                PropBody::Accessor(_, _) => {
                    return true;
                },
                PropBody::Data(was) => {
                    let v: JsValue = match descriptor.value {
                        Some(v) => {
                            if !p.attrs.writable {
                                return false;
                            }
                            v
                        },
                        None => was,
                    };
                    proof {
                        lemma_prop_refs(
                            h,
                            m,
                            index_of_key(m.named.list, key),
                            Prop { key, attrs, body: PropBody::Data(v) },
                        );
                    }
                    o.named.store(key, v);
                    proof {
                        lemma_after_update(
                            m.named.list,
                            key,
                            Prop { key, attrs: p.attrs, body: PropBody::Data(v) },
                        );
                    }
                    o.named.set_attrs(key, attrs);
                    proof {
                        assert(o.named@.list =~= m.named.list.update(
                            index_of_key(m.named.list, key),
                            Prop { key, attrs, body: PropBody::Data(v) },
                        ));
                    }
                    return true;
                },
            }
        },
        None => {},
    }
    if !o.extensible {
        return false;
    }
    let value: JsValue = match descriptor.value {
        Some(v) => v,
        None => JsValue::Undefined,
    };
    let p: Prop = Prop { key, attrs, body: PropBody::Data(value) };
    proof {
        lemma_prop_refs(h, m, -1, p);
    }
    o.named.append(p);
    true
}

/// Replacing the property of a key by another of that key leaves it where it was.
pub proof fn lemma_after_update(list: Seq<Prop>, key: PropKey, p: Prop)
    requires
        has_key(list, key),
        p.key == key,
        crate::properties::distinct_keys(list),
    ensures
        has_key(list.update(index_of_key(list, key), p), key),
        index_of_key(list.update(index_of_key(list, key), p), key) == index_of_key(list, key),
        lookup(list.update(index_of_key(list, key), p), key) == Some(p),
        crate::properties::distinct_keys(list.update(index_of_key(list, key), p)),
{
    lemma_lookup_key(list, key);
    let i = index_of_key(list, key);
    let l = list.update(i, p);
    assert forall|a: int, b: int| 0 <= a < b < l.len() implies #[trigger] l[a].key
        != #[trigger] l[b].key by {
        assert(list[a].key != list[b].key);
    }
    crate::properties::lemma_index_of_key(l, key, i);
}

/// What `[[HasProperty]]` answers: an element, or a property along the chain.
pub open spec fn has_property(h: HeapModel, o: usize, key: PropKey) -> bool {
    keyed_element(h, o, key) is Some || resolve(h.objects, Some(o), key) is Some
}

/// `[[HasProperty]]` of an ordinary object.
pub fn ordinary_has_property(heap: &Heap, obj: usize, key: PropKey) -> (r: bool)
    requires
        heap.wf(),
        obj < heap@.objects.len(),
        heap@.valid_key(key),
    ensures
        r == has_property(heap@, obj, key),
{
    if element_of_key(heap, obj, key).is_some() {
        return true;
    }
    find_in_chain(heap, Some(obj), key).is_some()
}

/// What reading an accessor does: a getter that settles a promise or revokes a proxy is run;
/// a compiled getter is left to the interpreter and reads `undefined`; for any other the
/// heap is to know what it came to.
pub open spec fn getter_run(h: HeapModel, owner: usize, getter: Option<usize>) -> (
    HeapModel,
    InternalResult<JsValue>,
) {
    match getter {
        None => (h, Ok(JsValue::Undefined)),
        Some(g) => match h.objects[g as int].callable {
            FunctionTarget::Native(_) | FunctionTarget::Host(_) => match h.answer(g, owner) {
                Some(Ok(v)) => (h.answered(), Ok(v)),
                Some(Err(v)) => (h.answered(), Err(Throw::Value(v))),
                None => (h, Err(Throw::HostGetter(g, owner))),
            },
            FunctionTarget::RevokeProxy => (
                after_revoke(h, JsValue::Object(owner)),
                Ok(JsValue::Undefined),
            ),
            FunctionTarget::Settle { promise, resolve, reject, rejecting } => {
                let (h1, jobs) = capability_settled(
                    h,
                    promise,
                    JsValue::Object(resolve),
                    JsValue::Object(reject),
                    JsValue::Undefined,
                    rejecting,
                );
                (h1.with_jobs(jobs), Ok(JsValue::Undefined))
            },
            _ => (h, Ok(JsValue::Undefined)),
        },
    }
}

/// Reads an accessor found on `owner`.
fn invoke_accessor_getter(heap: &mut Heap, owner: usize, getter: Option<usize>) -> (r:
    InternalResult<JsValue>)
    requires
        old(heap).wf(),
        owner < old(heap)@.objects.len(),
        old(heap)@.valid_object(getter),
    ensures
        final(heap).wf(),
        (final(heap)@, r) == getter_run(old(heap)@, owner, getter),
        old(heap)@.keeps(final(heap)@),
        r matches Ok(v) ==> final(heap)@.valid(v),
{
    let ghost h = heap@;
    let g: usize = match getter {
        None => {
            return Ok(JsValue::Undefined);
        },
        Some(g) => g,
    };
    match heap.object(g).callable {
        FunctionTarget::Native(_) | FunctionTarget::Host(_) => match heap.take_answer(g, owner) {
            Some(Ok(v)) => Ok(v),
            Some(Err(v)) => Err(Throw::Value(v)),
            None => Err(Throw::HostGetter(g, owner)),
        },
        FunctionTarget::RevokeProxy => revoke_proxy(heap, JsValue::Object(owner), &[]),
        FunctionTarget::Settle { promise, resolve, reject, rejecting } => {
            proof {
                heap.lemma_wf();
                lemma_settled_keeps(
                    h,
                    promise,
                    JsValue::Object(resolve),
                    JsValue::Object(reject),
                    JsValue::Undefined,
                    rejecting,
                );
            }
            let jobs = capability_settle(
                heap,
                promise,
                JsValue::Object(resolve),
                JsValue::Object(reject),
                JsValue::Undefined,
                rejecting,
            );
            heap.queue_jobs(jobs);
            Ok(JsValue::Undefined)
        },
        _ => Ok(JsValue::Undefined),
    }
}

/// What `[[Get]]` does: it gives an element, else the nearest property along the chain,
/// else `undefined`; an accessor may change the heap.
pub open spec fn get_property(h: HeapModel, o: usize, key: PropKey) -> (
    HeapModel,
    InternalResult<JsValue>,
) {
    match keyed_element(h, o, key) {
        Some(v) => (h, Ok(v)),
        None => match resolve(h.objects, Some(o), key) {
            None => (h, Ok(JsValue::Undefined)),
            Some((owner, p)) => match p.body {
                PropBody::Data(v) => (h, Ok(v)),
                PropBody::Accessor(g, _) => getter_run(h, owner, g),
            },
        },
    }
}

/// `[[Get]]` of an ordinary object.
pub fn ordinary_get(heap: &mut Heap, obj: usize, key: PropKey) -> (r: InternalResult<JsValue>)
    requires
        old(heap).wf(),
        obj < old(heap)@.objects.len(),
        old(heap)@.valid_key(key),
    ensures
        final(heap).wf(),
        (final(heap)@, r) == get_property(old(heap)@, obj, key),
        old(heap)@.keeps(final(heap)@),
        r matches Ok(v) ==> final(heap)@.valid(v),
{
    match element_of_key(heap, obj, key) {
        Some(v) => {
            return Ok(v);
        },
        None => {},
    }
    match find_in_chain(heap, Some(obj), key) {
        None => Ok(JsValue::Undefined),
        Some((owner, p)) => match p.body {
            PropBody::Data(v) => Ok(v),
            PropBody::Accessor(g, _) => invoke_accessor_getter(heap, owner, g),
        },
    }
}

/// What `[[Set]]` answers, and the object that it leaves.
///
/// An element is stored. An own value is replaced where it is writable; an own or
/// inherited accessor answers whether it has a setter, which is not run. An
/// inherited value that is not writable refuses, as does an object that is not
/// extensible; else a new property is made.
pub open spec fn set_own(h: HeapModel, o: usize, key: PropKey, v: JsValue) -> (ObjModel, bool) {
    let m = h.objects[o as int];
    match element_index(h, o, key) {
        Some(i) => (ObjModel { elements: with_element(m.elements, i as int, v), ..m }, true),
        None => match lookup(m.named.list, key) {
            Some(p) => match p.body {
                PropBody::Accessor(_, s) => (m, s is Some),
                PropBody::Data(_) => if !p.attrs.writable {
                    (m, false)
                } else {
                    (
                        ObjModel {
                            named: m.named.updated(
                                index_of_key(m.named.list, key),
                                Prop { body: PropBody::Data(v), ..p },
                            ),
                            ..m
                        },
                        true,
                    )
                },
            },
            None => {
                let above = resolve_shaped(h.objects, m.prototype, key);
                if above is Some && above.unwrap().body is Accessor {
                    (m, above.unwrap().body->1 is Some)
                } else if above is Some && !above.unwrap().attrs.writable {
                    (m, false)
                } else if !m.extensible {
                    (m, false)
                } else {
                    (
                        ObjModel {
                            named: m.named.appended(
                                Prop { key, attrs: all_attrs(), body: PropBody::Data(v) },
                            ),
                            ..m
                        },
                        true,
                    )
                }
            },
        },
    }
}

/// `[[Set]]` of an ordinary object.
pub fn ordinary_set(heap: &mut Heap, obj: usize, key: PropKey, value: JsValue) -> (r: bool)
    requires
        old(heap).wf(),
        obj < old(heap)@.objects.len(),
        old(heap)@.valid_key(key),
        old(heap)@.valid(value),
    ensures
        final(heap).wf(),
        r == set_own(old(heap)@, obj, key, value).1,
        final(heap)@ == old(heap)@.with_object(obj, set_own(old(heap)@, obj, key, value).0),
{
    let ghost h = heap@;
    let ghost m = h.objects[obj as int];
    match element_key(heap, obj, key) {
        Some(i) => {
            let o = heap.object_mut(obj);
            proof {
                lemma_with_element_refs(h, m, i as int, value);
            }
            o.set_element(i, value);
            return true;
        },
        None => {},
    }
    proof {
        assert(h.objects.update(obj as int, m) =~= h.objects);
    }
    match heap.object(obj).named.get(key) {
        Some(p) => {
            match p.body {
                PropBody::Accessor(_, s) => {
                    return s.is_some();
                },
                PropBody::Data(_) => {
                    if !p.attrs.writable {
                        return false;
                    }
                    let o = heap.object_mut(obj);
                    proof {
                        lemma_lookup_key(m.named.list, key);
                        assert(h.valid_prop(m.named.list[index_of_key(m.named.list, key)]));
                        lemma_prop_refs(
                            h,
                            m,
                            index_of_key(m.named.list, key),
                            Prop { body: PropBody::Data(value), ..p },
                        );
                    }
                    o.named.store(key, value);
                    return true;
                },
            }
        },
        None => {},
    }
    let proto: Option<usize> = heap.object(obj).prototype;
    match inherited_descriptor(heap, proto, key) {
        Some(p) => match p.body {
            PropBody::Accessor(_, s) => {
                return s.is_some();
            },
            PropBody::Data(_) => {
                if !p.attrs.writable {
                    return false;
                }
            },
        },
        None => {},
    }
    if !heap.object(obj).extensible {
        return false;
    }
    let p: Prop = Prop { key, attrs: Attrs::all(), body: PropBody::Data(value) };
    proof {
        lemma_prop_refs(h, m, -1, p);
    }
    let o = heap.object_mut(obj);
    o.named.append(p);
    true
}

/// What `[[Delete]]` answers, and the object that it leaves: an element becomes a
/// hole; a property that may not be deleted stays; one of the dictionary goes, one
/// of the shape keeps its place and holds a hole.
pub open spec fn delete_own(h: HeapModel, o: usize, key: PropKey) -> (ObjModel, bool) {
    let m = h.objects[o as int];
    match element_index(h, o, key) {
        Some(i) => (ObjModel { elements: without_element(m.elements, i as int), ..m }, true),
        None => match lookup(m.named.list, key) {
            None => (m, true),
            Some(p) => if !p.attrs.configurable {
                (m, false)
            } else if index_of_key(m.named.list, key) >= m.named.base {
                (ObjModel { named: m.named.removed(index_of_key(m.named.list, key)), ..m }, true)
            } else {
                match p.body {
                    PropBody::Accessor(_, _) => (m, true),
                    PropBody::Data(_) => (
                        ObjModel {
                            named: m.named.updated(
                                index_of_key(m.named.list, key),
                                Prop { body: PropBody::Data(JsValue::Hole), ..p },
                            ),
                            ..m
                        },
                        true,
                    ),
                }
            },
        },
    }
}

/// `[[Delete]]` of an ordinary object.
pub fn ordinary_delete(heap: &mut Heap, obj: usize, key: PropKey) -> (r: bool)
    requires
        old(heap).wf(),
        obj < old(heap)@.objects.len(),
        old(heap)@.valid_key(key),
    ensures
        final(heap).wf(),
        r == delete_own(old(heap)@, obj, key).1,
        final(heap)@ == old(heap)@.with_object(obj, delete_own(old(heap)@, obj, key).0),
{
    let ghost h = heap@;
    let ghost m = h.objects[obj as int];
    match element_key(heap, obj, key) {
        Some(i) => {
            let o = heap.object_mut(obj);
            proof {
                lemma_with_element_refs(h, m, i as int, JsValue::Hole);
            }
            o.delete_element(i);
            return true;
        },
        None => {},
    }
    proof {
        assert(h.objects.update(obj as int, m) =~= h.objects);
    }
    let found: Option<Prop> = heap.object(obj).named.get(key);
    match found {
        None => true,
        Some(p) => {
            if !p.attrs.configurable {
                return false;
            }
            proof {
                lemma_lookup_key(m.named.list, key);
            }
            if heap.object(obj).named.in_dictionary(key) {
                let o = heap.object_mut(obj);
                proof {
                    let at = index_of_key(m.named.list, key);
                    let l = m.named.list.remove(at);
                    assert forall|k: int| 0 <= k < l.len() implies h.valid_prop(#[trigger] l[k]) by {
                        assert(h.valid_prop(m.named.list[if k < at {
                            k
                        } else {
                            k + 1
                        }]));
                    }
                    assert(h.valid_refs(ObjModel { named: m.named.removed(at), ..m }));
                }
                o.named.remove(key);
                return true;
            }
            match p.body {
                PropBody::Accessor(_, _) => {},
                PropBody::Data(_) => {
                    let o = heap.object_mut(obj);
                    proof {
                        assert(h.valid_prop(m.named.list[index_of_key(m.named.list, key)]));
                        lemma_prop_refs(
                            h,
                            m,
                            index_of_key(m.named.list, key),
                            Prop { body: PropBody::Data(JsValue::Hole), ..p },
                        );
                    }
                    o.named.store(key, JsValue::Hole);
                },
            }
            true
        },
    }
}

/// The keys of the first `k` named properties that were not deleted, in the order of their
/// creation.
pub open spec fn live_keys(list: Seq<Prop>, k: int) -> Seq<PropKey>
    decreases k,
{
    if k <= 0 {
        seq![]
    } else if list[k - 1].body == PropBody::Data(JsValue::Hole) {
        live_keys(list, k - 1)
    } else {
        live_keys(list, k - 1).push(list[k - 1].key)
    }
}

/// The keys of the named properties of an object.
pub open spec fn named_keys(m: ObjModel) -> Seq<PropKey> {
    live_keys(m.named.list, m.named.list.len() as int)
}

/// `[[OwnPropertyKeys]]` of an ordinary object: the keys of its named properties.
pub fn ordinary_own_property_keys(heap: &Heap, obj: usize) -> (r: Vec<PropKey>)
    requires
        heap.wf(),
        obj < heap@.objects.len(),
    ensures
        r@ == named_keys(heap@.objects[obj as int]),
        forall|i: int| 0 <= i < r@.len() ==> heap@.valid_key(#[trigger] r@[i]),
{
    let o: &JsObject = heap.object(obj);
    let ghost list = o@.named.list;
    let keys: Vec<PropKey> = o.named.keys();
    let mut out: Vec<PropKey> = Vec::new();
    let mut i: usize = 0;
    proof {
        o.named.lemma_distinct();
    }
    while i < keys.len()
        invariant
            o.named.wf(),
            list == o@.named.list,
            heap@.valid_refs(o@),
            crate::properties::distinct_keys(list),
            keys@ == list.map_values(|p: Prop| p.key),
            i <= keys@.len(),
            out@ == live_keys(list, i as int),
            forall|k: int| 0 <= k < out@.len() ==> heap@.valid_key(#[trigger] out@[k]),
        decreases keys@.len() - i,
    {
        proof {
            assert(keys@[i as int] == list[i as int].key);
            crate::properties::lemma_index_of_key(list, keys@[i as int], i as int);
            assert(heap@.valid_prop(list[i as int]));
        }
        if find_live(o, keys[i]).is_some() {
            out.push(keys[i]);
        }
        i = i + 1;
    }
    out
}

// ---------------------------------------------------------------------------
// Proxies and dispatch
// ---------------------------------------------------------------------------

/// The error of a trap that is not run.
pub(crate) fn trap_error(trap: &str) -> (r: Throw)
    ensures
        r matches Throw::Error(text) && text@ == trap_message(trap@),
{
    let mut text: String = String::new();
    text.append("TypeError: proxy [[");
    text.append(trap);
    text.append("]] trap not implemented");
    proof {
        assert(text@ =~= trap_message(trap@));
    }
    Throw::Error(text)
}

/// Text of the error of a trap that is not run.
pub open spec fn trap_message(trap: Seq<char>) -> Seq<char> {
    "TypeError: proxy [["@ + trap + "]] trap not implemented"@
}

/// Whether an object is a proxy.
pub open spec fn is_proxy(h: HeapModel, o: usize) -> bool {
    h.objects[o as int].kind == Kind::Proxy
}

/// Resolves an object's kind from its header.
pub fn kind_of(heap: &Heap, obj: usize) -> (r: ObjectKind)
    requires
        heap.wf(),
        obj < heap@.objects.len(),
    ensures
        r == if is_proxy(heap@, obj) {
            ObjectKind::Proxy
        } else {
            ObjectKind::Ordinary
        },
{
    if heap.object(obj).kind == Kind::Proxy {
        ObjectKind::Proxy
    } else {
        ObjectKind::Ordinary
    }
}

/// Whether an exception is the error of a trap that is not run.
pub open spec fn is_trap_error(t: Throw, trap: Seq<char>) -> bool {
    t matches Throw::Error(text) && text@ == trap_message(trap)
}

/// Dispatches `[[Get]]` by the object's kind.
pub fn dispatch_get(heap: &mut Heap, obj: usize, key: PropKey, receiver: JsValue) -> (r:
    InternalResult<JsValue>)
    requires
        old(heap).wf(),
        obj < old(heap)@.objects.len(),
        old(heap)@.valid_key(key),
    ensures
        final(heap).wf(),
        is_proxy(old(heap)@, obj) ==> r is Err && is_trap_error(r->Err_0, "Get"@)
            && final(heap)@ == old(heap)@,
        !is_proxy(old(heap)@, obj) ==> (final(heap)@, r) == get_property(old(heap)@, obj, key),
        old(heap)@.keeps(final(heap)@),
        r matches Ok(v) ==> final(heap)@.valid(v),
{
    match kind_of(heap, obj) {
        ObjectKind::Proxy => Err(trap_error("Get")),
        ObjectKind::Ordinary => ordinary_get(heap, obj, key),
    }
}

/// Dispatches `[[Set]]` by the object's kind.
pub fn dispatch_set(
    heap: &mut Heap,
    obj: usize,
    key: PropKey,
    value: JsValue,
    receiver: JsValue,
) -> (r: InternalResult<bool>)
    requires
        old(heap).wf(),
        obj < old(heap)@.objects.len(),
        old(heap)@.valid_key(key),
        old(heap)@.valid(value),
    ensures
        final(heap).wf(),
        is_proxy(old(heap)@, obj) ==> r is Err && is_trap_error(r->Err_0, "Set"@)
            && final(heap)@ == old(heap)@,
        !is_proxy(old(heap)@, obj) ==> r == Ok::<bool, Throw>(
            set_own(old(heap)@, obj, key, value).1,
        ) && final(heap)@ == old(heap)@.with_object(obj, set_own(old(heap)@, obj, key, value).0),
{
    match kind_of(heap, obj) {
        ObjectKind::Proxy => Err(trap_error("Set")),
        ObjectKind::Ordinary => Ok(ordinary_set(heap, obj, key, value)),
    }
}

/// Dispatches `[[HasProperty]]` by the object's kind.
pub fn dispatch_has(heap: &Heap, obj: usize, key: PropKey) -> (r: InternalResult<bool>)
    requires
        heap.wf(),
        obj < heap@.objects.len(),
        heap@.valid_key(key),
    ensures
        is_proxy(heap@, obj) ==> r is Err && is_trap_error(r->Err_0, "HasProperty"@),
        !is_proxy(heap@, obj) ==> r == Ok::<bool, Throw>(has_property(heap@, obj, key)),
{
    match kind_of(heap, obj) {
        ObjectKind::Proxy => Err(trap_error("HasProperty")),
        ObjectKind::Ordinary => Ok(ordinary_has_property(heap, obj, key)),
    }
}

/// Dispatches `[[Delete]]` by the object's kind.
pub fn dispatch_delete(heap: &mut Heap, obj: usize, key: PropKey) -> (r: InternalResult<bool>)
    requires
        old(heap).wf(),
        obj < old(heap)@.objects.len(),
        old(heap)@.valid_key(key),
    ensures
        final(heap).wf(),
        is_proxy(old(heap)@, obj) ==> r is Err && is_trap_error(r->Err_0, "Delete"@)
            && final(heap)@ == old(heap)@,
        !is_proxy(old(heap)@, obj) ==> r == Ok::<bool, Throw>(delete_own(old(heap)@, obj, key).1)
            && final(heap)@ == old(heap)@.with_object(obj, delete_own(old(heap)@, obj, key).0),
{
    match kind_of(heap, obj) {
        ObjectKind::Proxy => Err(trap_error("Delete")),
        ObjectKind::Ordinary => Ok(ordinary_delete(heap, obj, key)),
    }
}

/// Dispatches `[[GetOwnProperty]]` by the object's kind.
pub fn dispatch_get_own_property(heap: &Heap, obj: usize, key: PropKey) -> (r: InternalResult<
    Option<PropertyDescriptor>,
>)
    requires
        heap.wf(),
        obj < heap@.objects.len(),
        heap@.valid_key(key),
    ensures
        is_proxy(heap@, obj) ==> r is Err && is_trap_error(r->Err_0, "GetOwnProperty"@),
        !is_proxy(heap@, obj) ==> r == Ok::<Option<PropertyDescriptor>, Throw>(
            own_property(heap@, obj, key),
        ),
{
    match kind_of(heap, obj) {
        ObjectKind::Proxy => Err(trap_error("GetOwnProperty")),
        ObjectKind::Ordinary => Ok(ordinary_get_own_property(heap, obj, key)),
    }
}

/// Dispatches `[[DefineOwnProperty]]` by the object's kind.
pub fn dispatch_define_own_property(
    heap: &mut Heap,
    obj: usize,
    key: PropKey,
    descriptor: PropertyDescriptor,
) -> (r: InternalResult<bool>)
    requires
        old(heap).wf(),
        obj < old(heap)@.objects.len(),
        old(heap)@.valid_key(key),
        descriptor.value matches Some(v) ==> old(heap)@.valid(v),
    ensures
        final(heap).wf(),
        is_proxy(old(heap)@, obj) ==> r is Err && is_trap_error(r->Err_0, "DefineOwnProperty"@)
            && final(heap)@ == old(heap)@,
        !is_proxy(old(heap)@, obj) ==> r == Ok::<bool, Throw>(
            define_own(old(heap)@, obj, key, descriptor).1,
        ) && final(heap)@ == old(heap)@.with_object(
            obj,
            define_own(old(heap)@, obj, key, descriptor).0,
        ),
{
    match kind_of(heap, obj) {
        ObjectKind::Proxy => Err(trap_error("DefineOwnProperty")),
        ObjectKind::Ordinary => Ok(ordinary_define_own_property(heap, obj, key, descriptor)),
    }
}

/// Dispatches `[[SetPrototypeOf]]` by the object's kind.
pub fn dispatch_set_prototype_of(heap: &mut Heap, obj: usize, proto: Option<usize>) -> (r:
    InternalResult<bool>)
    requires
        old(heap).wf(),
        obj < old(heap)@.objects.len(),
        old(heap)@.valid_object(proto),
    ensures
        final(heap).wf(),
        is_proxy(old(heap)@, obj) ==> r is Err && is_trap_error(r->Err_0, "SetPrototypeOf"@)
            && final(heap)@ == old(heap)@,
        !is_proxy(old(heap)@, obj) ==> r == Ok::<bool, Throw>(
            old(heap)@.objects[obj as int].extensible,
        ) && final(heap)@ == if old(heap)@.objects[obj as int].extensible {
            old(heap)@.with_object(
                obj,
                ObjModel { prototype: proto, ..old(heap)@.objects[obj as int] },
            )
        } else {
            old(heap)@
        },
{
    match kind_of(heap, obj) {
        ObjectKind::Proxy => Err(trap_error("SetPrototypeOf")),
        ObjectKind::Ordinary => Ok(ordinary_set_prototype_of(heap, obj, proto)),
    }
}

/// Dispatches `[[PreventExtensions]]` by the object's kind.
pub fn dispatch_prevent_extensions(heap: &mut Heap, obj: usize) -> (r: InternalResult<bool>)
    requires
        old(heap).wf(),
        obj < old(heap)@.objects.len(),
    ensures
        final(heap).wf(),
        is_proxy(old(heap)@, obj) ==> r is Err && is_trap_error(r->Err_0, "PreventExtensions"@)
            && final(heap)@ == old(heap)@,
        !is_proxy(old(heap)@, obj) ==> r == Ok::<bool, Throw>(true) && final(heap)@ == old(heap)@.with_object(obj, ObjModel { extensible: false, ..old(heap)@.objects[obj as int] }),
{
    match kind_of(heap, obj) {
        ObjectKind::Proxy => Err(trap_error("PreventExtensions")),
        ObjectKind::Ordinary => Ok(ordinary_prevent_extensions(heap, obj)),
    }
}

/// Dispatches `[[GetPrototypeOf]]` by the object's kind: a proxy reports none.
pub fn dispatch_get_prototype_of(heap: &Heap, obj: usize) -> (r: Option<usize>)
    requires
        heap.wf(),
        obj < heap@.objects.len(),
    ensures
        r == if is_proxy(heap@, obj) {
            None
        } else {
            heap@.objects[obj as int].prototype
        },
{
    match kind_of(heap, obj) {
        ObjectKind::Proxy => None,
        ObjectKind::Ordinary => ordinary_get_prototype_of(heap, obj),
    }
}

/// Dispatches `[[IsExtensible]]` by the object's kind: a proxy is extensible.
pub fn dispatch_is_extensible(heap: &Heap, obj: usize) -> (r: bool)
    requires
        heap.wf(),
        obj < heap@.objects.len(),
    ensures
        r == (is_proxy(heap@, obj) || heap@.objects[obj as int].extensible),
{
    match kind_of(heap, obj) {
        ObjectKind::Proxy => true,
        ObjectKind::Ordinary => ordinary_is_extensible(heap, obj),
    }
}

/// Dispatches `[[OwnPropertyKeys]]` by the object's kind: a proxy reports none.
pub fn dispatch_own_property_keys(heap: &Heap, obj: usize) -> (r: Vec<PropKey>)
    requires
        heap.wf(),
        obj < heap@.objects.len(),
    ensures
        r@ == if is_proxy(heap@, obj) {
            Seq::empty()
        } else {
            named_keys(heap@.objects[obj as int])
        },
{
    match kind_of(heap, obj) {
        ObjectKind::Proxy => Vec::new(),
        ObjectKind::Ordinary => ordinary_own_property_keys(heap, obj),
    }
}

} // verus!
