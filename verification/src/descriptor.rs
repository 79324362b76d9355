//! Property descriptors whose fields may be absent, and what defining a property by one
//! does to an object.
use vstd::prelude::*;

use crate::convert::{as_number, is_error, strict_equals, strictly_equal, value_number};
use crate::double::{equal, feq, is_nan, magnitude, nan, zero};
use crate::heap::{Heap, HeapModel, ObjModel};
use crate::internal_methods::{
    element_at, element_index, is_proxy, lemma_lookup_key, lemma_prop_refs, trap_message,
    with_element,
};
use crate::key_order::is_live;
use crate::properties::{Prop, PropBody, has_key, index_of_key, lookup};
use crate::value::{Attrs, JsValue, Kind, PropKey, Throw};

verus! {

/// What an operation fails with.
#[verifier::ext_equal]
pub ghost enum Fault {
    /// An error with this text.
    Text(Seq<char>),
    /// A thrown value.
    Value(JsValue),
    /// A getter that has to run on an owner first.
    Getter(usize, usize),
}

/// Whether an exception is the expected one.
pub open spec fn is_fault(t: Throw, f: Fault) -> bool {
    match f {
        Fault::Text(text) => is_error(t, text),
        Fault::Value(v) => t == Throw::Value(v),
        Fault::Getter(g, o) => t == Throw::HostGetter(g, o),
    }
}

/// A property descriptor whose fields may be absent.
#[derive(Clone, Copy, PartialEq, Eq, Structural, Debug)]
pub struct FullDescriptor {
    /// The value.
    pub value: Option<JsValue>,
    /// Whether the value may change.
    pub writable: Option<bool>,
    /// Whether the property is enumerated.
    pub enumerable: Option<bool>,
    /// Whether the property may be deleted or redefined.
    pub configurable: Option<bool>,
    /// The getter, `undefined` for none.
    pub get: Option<JsValue>,
    /// The setter, `undefined` for none.
    pub set: Option<JsValue>,
}

/// The descriptor without fields.
pub open spec fn no_fields() -> FullDescriptor {
    FullDescriptor {
        value: None,
        writable: None,
        enumerable: None,
        configurable: None,
        get: None,
        set: None,
    }
}

/// The descriptor of a property that a script creates.
pub open spec fn data_fields(v: JsValue) -> FullDescriptor {
    FullDescriptor {
        value: Some(v),
        writable: Some(true),
        enumerable: Some(true),
        configurable: Some(true),
        get: None,
        set: None,
    }
}

impl Default for FullDescriptor {
    fn default() -> (r: Self)
        ensures
            r == no_fields(),
    {
        FullDescriptor {
            value: None,
            writable: None,
            enumerable: None,
            configurable: None,
            get: None,
            set: None,
        }
    }
}

impl FullDescriptor {
    /// Whether it has a value or says whether the value may change.
    pub open spec fn data(self) -> bool {
        self.value is Some || self.writable is Some
    }

    /// Whether it has a getter or a setter.
    pub open spec fn accessor(self) -> bool {
        self.get is Some || self.set is Some
    }

    /// Whether what it refers to is in range.
    pub open spec fn valid(self, h: HeapModel) -> bool {
        &&& self.value matches Some(v) ==> h.valid(v)
        &&& self.get matches Some(v) ==> h.valid(v)
        &&& self.set matches Some(v) ==> h.valid(v)
    }

    /// Whether it has a value or says whether the value may change.
    pub fn is_data(&self) -> (r: bool)
        ensures
            r == self.data(),
    {
        self.value.is_some() || self.writable.is_some()
    }

    /// Whether it has a getter or a setter.
    pub fn is_accessor(&self) -> (r: bool)
        ensures
            r == self.accessor(),
    {
        self.get.is_some() || self.set.is_some()
    }
}

// ---------------------------------------------------------------------------
// SameValue
// ---------------------------------------------------------------------------

/// `SameValue`: not-a-number is the same as itself, and the two zeros differ.
pub open spec fn same_value_of(a: JsValue, b: JsValue) -> bool {
    match (as_number(a), as_number(b)) {
        (Some(x), Some(y)) => (is_nan(x) && is_nan(y)) || (equal(x, y) && (magnitude(x) != 0 || x
            == y)),
        _ => strictly_equal(a, b),
    }
}

/// `SameValue`.
pub fn same_value(a: JsValue, b: JsValue) -> (r: bool)
    ensures
        r == same_value_of(a, b),
{
    match (value_number(a), value_number(b)) {
        (Some(x), Some(y)) => (nan(x) && nan(y)) || (feq(x, y) && (!zero(x) || x == y)),
        _ => strict_equals(a, b),
    }
}

// ---------------------------------------------------------------------------
// Defining a property
// ---------------------------------------------------------------------------

/// The function of one half of an accessor: what the descriptor says, else what was
/// there.
pub open spec fn accessor_half(field: Option<JsValue>, old: Option<usize>) -> Option<usize> {
    match field {
        None => old,
        Some(JsValue::Object(o)) => Some(o),
        Some(_) => None,
    }
}

/// A flag: what the descriptor says, else what was there.
pub open spec fn flag(field: Option<bool>, old: bool) -> bool {
    match field {
        Some(x) => x,
        None => old,
    }
}

/// A value: what the descriptor says, else what was there.
pub open spec fn field_value(field: Option<JsValue>, old: JsValue) -> JsValue {
    match field {
        Some(v) => v,
        None => old,
    }
}

/// The property that a descriptor makes where there is none.
pub open spec fn fresh_property(key: PropKey, d: FullDescriptor) -> Prop {
    Prop {
        key,
        attrs: Attrs {
            writable: flag(d.writable, false),
            enumerable: flag(d.enumerable, false),
            configurable: flag(d.configurable, false),
        },
        body: if d.accessor() {
            PropBody::Accessor(accessor_half(d.get, None), accessor_half(d.set, None))
        } else {
            PropBody::Data(field_value(d.value, JsValue::Undefined))
        },
    }
}

/// Whether a property that may not be redefined stands against a descriptor.
pub open spec fn refuses(p: Prop, d: FullDescriptor) -> bool {
    !p.attrs.configurable && (d.configurable == Some(true) || (d.enumerable is Some
        && d.enumerable->0 != p.attrs.enumerable) || match p.body {
        PropBody::Data(v) => d.accessor() || (!p.attrs.writable && (d.writable == Some(true) || (
        d.value is Some && !same_value_of(d.value->0, v)))),
        PropBody::Accessor(g, s) => d.data() || accessor_half(d.get, g) != g || accessor_half(
            d.set,
            s,
        ) != s,
    })
}

/// The property that a descriptor makes of one that is there.
pub open spec fn merged_property(p: Prop, d: FullDescriptor) -> Prop {
    let attrs = Attrs {
        writable: if d.accessor() {
            false
        } else if p.body is Accessor && d.data() {
            flag(d.writable, false)
        } else {
            flag(d.writable, p.attrs.writable)
        },
        enumerable: flag(d.enumerable, p.attrs.enumerable),
        configurable: flag(d.configurable, p.attrs.configurable),
    };
    Prop {
        key: p.key,
        attrs,
        body: match p.body {
            PropBody::Data(v) => if d.accessor() {
                PropBody::Accessor(accessor_half(d.get, None), accessor_half(d.set, None))
            } else {
                PropBody::Data(field_value(d.value, v))
            },
            PropBody::Accessor(g, s) => if d.data() {
                PropBody::Data(field_value(d.value, JsValue::Undefined))
            } else {
                PropBody::Accessor(accessor_half(d.get, g), accessor_half(d.set, s))
            },
        },
    }
}

/// What defining a property by a descriptor makes of an object, and whether it is
/// allowed. Elements have all attributes and cannot be accessors.
pub open spec fn defined_by(h: HeapModel, o: usize, key: PropKey, d: FullDescriptor) -> (
    ObjModel,
    bool,
) {
    let m = h.objects[o as int];
    match element_index(h, o, key) {
        Some(i) => if d.accessor() {
            (m, false)
        } else {
            match element_at(m.elements, i as int) {
                Some(v) => (
                    ObjModel {
                        elements: with_element(m.elements, i as int, field_value(d.value, v)),
                        ..m
                    },
                    true,
                ),
                None => if m.extensible {
                    (
                        ObjModel {
                            elements: with_element(
                                m.elements,
                                i as int,
                                field_value(d.value, JsValue::Undefined),
                            ),
                            ..m
                        },
                        true,
                    )
                } else {
                    (m, false)
                },
            }
        },
        None => match lookup(m.named.list, key) {
            Some(p) => if !is_live(p) {
                if m.extensible {
                    (
                        ObjModel {
                            named: m.named.updated(
                                index_of_key(m.named.list, key),
                                fresh_property(key, d),
                            ),
                            ..m
                        },
                        true,
                    )
                } else {
                    (m, false)
                }
            } else if refuses(p, d) {
                (m, false)
            } else {
                (
                    ObjModel {
                        named: m.named.updated(
                            index_of_key(m.named.list, key),
                            merged_property(p, d),
                        ),
                        ..m
                    },
                    true,
                )
            },
            None => if m.extensible {
                (ObjModel { named: m.named.appended(fresh_property(key, d)), ..m }, true)
            } else {
                (m, false)
            },
        },
    }
}

/// The function of one half of an accessor.
fn half_of(field: Option<JsValue>, old: Option<usize>) -> (r: Option<usize>)
    ensures
        r == accessor_half(field, old),
{
    match field {
        None => old,
        Some(JsValue::Object(o)) => Some(o),
        Some(_) => None,
    }
}

/// A flag: what the descriptor says, else what was there.
fn flag_of(field: Option<bool>, old: bool) -> (r: bool)
    ensures
        r == flag(field, old),
{
    match field {
        Some(x) => x,
        None => old,
    }
}

/// A value: what the descriptor says, else what was there.
fn value_of(field: Option<JsValue>, old: JsValue) -> (r: JsValue)
    ensures
        r == field_value(field, old),
{
    match field {
        Some(v) => v,
        None => old,
    }
}

/// The property that a descriptor makes where there is none.
fn fresh_of(key: PropKey, d: FullDescriptor) -> (r: Prop)
    ensures
        r == fresh_property(key, d),
{
    Prop {
        key,
        attrs: Attrs::new(
            flag_of(d.writable, false),
            flag_of(d.enumerable, false),
            flag_of(d.configurable, false),
        ),
        body: if d.is_accessor() {
            PropBody::Accessor(half_of(d.get, None), half_of(d.set, None))
        } else {
            PropBody::Data(value_of(d.value, JsValue::Undefined))
        },
    }
}

/// Whether a property that may not be redefined stands against a descriptor.
fn refused(p: Prop, d: FullDescriptor) -> (r: bool)
    ensures
        r == refuses(p, d),
{
    if p.attrs.configurable {
        return false;
    }
    if d.configurable == Some(true) {
        return true;
    }
    match d.enumerable {
        Some(x) => {
            if x != p.attrs.enumerable {
                return true;
            }
        },
        None => {},
    }
    match p.body {
        PropBody::Data(v) => {
            if d.is_accessor() {
                return true;
            }
            if p.attrs.writable {
                return false;
            }
            if d.writable == Some(true) {
                return true;
            }
            match d.value {
                Some(x) => !same_value(x, v),
                None => false,
            }
        },
        PropBody::Accessor(g, s) => d.is_data() || half_of(d.get, g) != g || half_of(d.set, s) != s,
    }
}

/// The property that a descriptor makes of one that is there.
fn merged_of(p: Prop, d: FullDescriptor) -> (r: Prop)
    ensures
        r == merged_property(p, d),
{
    let was_accessor: bool = match p.body {
        PropBody::Accessor(_, _) => true,
        PropBody::Data(_) => false,
    };
    let writable: bool = if d.is_accessor() {
        false
    } else if was_accessor && d.is_data() {
        flag_of(d.writable, false)
    } else {
        flag_of(d.writable, p.attrs.writable)
    };
    Prop {
        key: p.key,
        attrs: Attrs::new(
            writable,
            flag_of(d.enumerable, p.attrs.enumerable),
            flag_of(d.configurable, p.attrs.configurable),
        ),
        body: match p.body {
            PropBody::Data(v) => if d.is_accessor() {
                PropBody::Accessor(half_of(d.get, None), half_of(d.set, None))
            } else {
                PropBody::Data(value_of(d.value, v))
            },
            PropBody::Accessor(g, s) => if d.is_data() {
                PropBody::Data(value_of(d.value, JsValue::Undefined))
            } else {
                PropBody::Accessor(half_of(d.get, g), half_of(d.set, s))
            },
        },
    }
}

/// Defines a property of an ordinary object by a descriptor.
fn define_ordinary(heap: &mut Heap, obj: usize, key: PropKey, d: FullDescriptor) -> (r: bool)
    requires
        old(heap).wf(),
        obj < old(heap)@.objects.len(),
        old(heap)@.valid_key(key),
        d.valid(old(heap)@),
    ensures
        final(heap).wf(),
        r == defined_by(old(heap)@, obj, key, d).1,
        final(heap)@ == old(heap)@.with_object(obj, defined_by(old(heap)@, obj, key, d).0),
{
    let ghost h = heap@;
    let ghost m = h.objects[obj as int];
    proof {
        assert(h.with_object(obj, m) =~= h);
    }
    match crate::internal_methods::element_key(heap, obj, key) {
        Some(i) => {
            if d.is_accessor() {
                return false;
            }
            let old_value: JsValue = match heap.object(obj).get_element(i) {
                Some(v) => {
                    proof {
                        assert(h.valid(m.elements[i as int]));
                    }
                    v
                },
                None => {
                    if !heap.object(obj).extensible {
                        return false;
                    }
                    JsValue::Undefined
                },
            };
            let v: JsValue = value_of(d.value, old_value);
            proof {
                crate::internal_methods::lemma_with_element_refs(h, m, i as int, v);
            }
            let o = heap.object_mut(obj);
            o.set_element(i, v);
            return true;
        },
        None => {},
    }
    let found: Option<Prop> = heap.object(obj).named.get(key);
    match found {
        Some(p) => {
            proof {
                lemma_lookup_key(m.named.list, key);
                assert(h.valid_prop(p));
            }
            let next: Prop = if p.body == PropBody::Data(JsValue::Hole) {
                if !heap.object(obj).extensible {
                    return false;
                }
                fresh_of(key, d)
            } else {
                if refused(p, d) {
                    return false;
                }
                merged_of(p, d)
            };
            proof {
                assert(h.valid_prop(next));
                lemma_prop_refs(h, m, index_of_key(m.named.list, key), next);
            }
            let o = heap.object_mut(obj);
            o.named.replace(key, next.attrs, next.body);
            true
        },
        None => {
            if !heap.object(obj).extensible {
                return false;
            }
            let next: Prop = fresh_of(key, d);
            proof {
                assert(h.valid_prop(next));
                lemma_prop_refs(h, m, 0, next);
            }
            let o = heap.object_mut(obj);
            o.named.append(next);
            true
        },
    }
}

/// Defines a property of an object by a descriptor; a proxy's trap is not run.
pub fn apply_property_descriptor(
    heap: &mut Heap,
    obj: usize,
    key: PropKey,
    d: FullDescriptor,
) -> (r: Result<bool, Throw>)
    requires
        old(heap).wf(),
        obj < old(heap)@.objects.len(),
        old(heap)@.valid_key(key),
        d.valid(old(heap)@),
    ensures
        final(heap).wf(),
        match applied(old(heap)@, obj, key, d) {
            Ok((h, x)) => r == Ok::<bool, Throw>(x) && final(heap)@ == h,
            Err(f) => r is Err && is_fault(r->Err_0, f) && final(heap)@ == old(heap)@,
        },
{
    if heap.object(obj).kind == Kind::Proxy {
        return Err(crate::internal_methods::trap_error("DefineOwnProperty"));
    }
    Ok(define_ordinary(heap, obj, key, d))
}

/// What defining a property by a descriptor makes of a heap, and whether it is allowed.
pub open spec fn applied(h: HeapModel, o: usize, key: PropKey, d: FullDescriptor) -> Result<
    (HeapModel, bool),
    Fault,
> {
    if is_proxy(h, o) {
        Err(Fault::Text(trap_message("DefineOwnProperty"@)))
    } else {
        Ok((h.with_object(o, defined_by(h, o, key, d).0), defined_by(h, o, key, d).1))
    }
}

// ---------------------------------------------------------------------------
// Laws
// ---------------------------------------------------------------------------

/// A definition that is refused changes nothing.
pub proof fn law_refused_definition(h: HeapModel, o: usize, key: PropKey, d: FullDescriptor)
    requires
        !defined_by(h, o, key, d).1,
    ensures
        defined_by(h, o, key, d).0 == h.objects[o as int],
{
}

/// A data property that may neither be redefined nor change keeps its value and its
/// attributes, whatever is defined.
pub proof fn law_fixed_property(h: HeapModel, o: usize, key: PropKey, d: FullDescriptor)
    requires
        element_index(h, o, key) is None,
        has_key(h.objects[o as int].named.list, key),
        crate::properties::distinct_keys(h.objects[o as int].named.list),
        ({
            let p = lookup(h.objects[o as int].named.list, key)->0;
            p.body is Data && is_live(p) && !p.attrs.configurable && !p.attrs.writable
        }),
    ensures
        ({
            let p = lookup(h.objects[o as int].named.list, key)->0;
            let q = lookup(defined_by(h, o, key, d).0.named.list, key)->0;
            &&& has_key(defined_by(h, o, key, d).0.named.list, key)
            &&& q.attrs == p.attrs
            &&& q.body is Data
            &&& same_value_of(q.body->Data_0, p.body->Data_0)
        }),
{
    let list = h.objects[o as int].named.list;
    lemma_lookup_key(list, key);
    let p = lookup(list, key)->0;
    crate::convert::law_same_value_reflexive(p.body->Data_0);
    lemma_same_value_reflexive(p.body->Data_0);
    crate::internal_methods::lemma_after_update(list, key, merged_property(p, d));
}

/// Every value but a hole is the same as itself.
pub proof fn lemma_same_value_reflexive(v: JsValue)
    requires
        v != JsValue::Hole,
    ensures
        same_value_of(v, v),
{
    if v is Smi {
        crate::double::lemma_int_exact(v->Smi_0 as int);
    }
}

/// What a definition with a value puts into an object that takes new properties can be
/// looked up afterwards, with that value.
pub proof fn law_defined_value(h: HeapModel, o: usize, key: PropKey, d: FullDescriptor)
    requires
        d.value is Some,
        !d.accessor(),
        element_index(h, o, key) is None,
        crate::properties::distinct_keys(h.objects[o as int].named.list),
        defined_by(h, o, key, d).1,
    ensures
        ({
            let list = defined_by(h, o, key, d).0.named.list;
            has_key(list, key) && lookup(list, key)->0.body == PropBody::Data(d.value->0)
        }),
{
    let list = h.objects[o as int].named.list;
    let after = defined_by(h, o, key, d).0.named.list;
    if has_key(list, key) {
        lemma_lookup_key(list, key);
        let p = lookup(list, key)->0;
        if is_live(p) {
            crate::internal_methods::lemma_after_update(list, key, merged_property(p, d));
        } else {
            crate::internal_methods::lemma_after_update(list, key, fresh_property(key, d));
        }
    } else {
        let p = fresh_property(key, d);
        assert(after == list.push(p));
        assert(after[list.len() as int].key == key);
        assert forall|i: int, j: int| 0 <= i < j < after.len() implies #[trigger] after[i].key
            != #[trigger] after[j].key by {
            if j == list.len() {
                assert(list[i].key != key);
            } else {
                assert(list[i].key != list[j].key);
            }
        }
        crate::properties::lemma_index_of_key(after, key, list.len() as int);
    }
}

/// The descriptor that says all of a property.
pub open spec fn full_descriptor(p: Prop) -> FullDescriptor {
    match p.body {
        PropBody::Data(v) => FullDescriptor {
            value: Some(v),
            writable: Some(p.attrs.writable),
            enumerable: Some(p.attrs.enumerable),
            configurable: Some(p.attrs.configurable),
            ..no_fields()
        },
        PropBody::Accessor(g, s) => FullDescriptor {
            get: Some(half_value(g)),
            set: Some(half_value(s)),
            enumerable: Some(p.attrs.enumerable),
            configurable: Some(p.attrs.configurable),
            ..no_fields()
        },
    }
}

/// One half of an accessor as a value.
pub open spec fn half_value(f: Option<usize>) -> JsValue {
    match f {
        Some(o) => JsValue::Object(o),
        None => JsValue::Undefined,
    }
}

/// Defining a property by all that it is already is allowed and changes nothing.
pub proof fn law_same_definition(h: HeapModel, o: usize, key: PropKey)
    requires
        o < h.objects.len(),
        element_index(h, o, key) is None,
        crate::properties::distinct_keys(h.objects[o as int].named.list),
        lookup(h.objects[o as int].named.list, key) matches Some(p) && is_live(p) && (p.body
            is Accessor ==> !p.attrs.writable),
    ensures
        ({
            let p = lookup(h.objects[o as int].named.list, key)->0;
            defined_by(h, o, key, full_descriptor(p)) == (h.objects[o as int], true)
        }),
{
    let m = h.objects[o as int];
    let list = m.named.list;
    lemma_lookup_key(list, key);
    let p = lookup(list, key)->0;
    let d = full_descriptor(p);
    if p.body is Data {
        lemma_same_value_reflexive(p.body->Data_0);
    }
    assert(!refuses(p, d));
    assert(merged_property(p, d) == p);
    assert(list.update(index_of_key(list, key), p) =~= list);
}

} // verus!
