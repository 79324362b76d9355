//! What defining properties, writing through `Reflect` and linking prototypes promise, and
//! how texts are written in URIs.
use vstd::prelude::*;

use crate::descriptor::{
    Fault, FullDescriptor, defined_by, fresh_property, merged_property, no_fields, same_value_of,
};
use crate::global::{encoded, escaped, escaped_byte, reserved, unreserved};
use crate::heap::HeapModel;
use crate::internal_methods::{
    chain_ends, element_index, get_property, has_property, indexed_kind, is_proxy, keyed_element,
    lemma_after_update, lemma_lookup_key, lemma_resolve_step, live_property,
};
use crate::key_order::{is_live, own_text_ids, symbol_ids};
use crate::properties::{
    Prop, PropBody, distinct_keys, has_key, index_of_key, lemma_index_of_key, lookup,
};
use crate::proxy::created_proxy;
use crate::reflect::{
    extensible_result, get_prototype_result, has_result, link_result, own_keys_result,
    prevent_result, set_result,
};
use crate::utf8::utf8_of;
use crate::value::{Attrs, JsValue, PropKey};

verus! {

// ---------------------------------------------------------------------------
// Defining
// ---------------------------------------------------------------------------

/// The property that a key names in an object.
pub open spec fn named(h: HeapModel, o: usize, key: PropKey) -> Option<Prop> {
    live_property(h.objects[o as int].named.list, key)
}

/// The property that a key names in an object after a definition.
pub open spec fn later(h: HeapModel, o: usize, key: PropKey, d: FullDescriptor) -> Option<Prop> {
    live_property(defined_by(h, o, key, d).0.named.list, key)
}

/// Whether a key names nothing but a named property, if anything.
pub open spec fn is_named(h: HeapModel, o: usize, key: PropKey) -> bool {
    &&& o < h.objects.len()
    &&& element_index(h, o, key) is None
    &&& distinct_keys(h.objects[o as int].named.list)
}

proof fn lemma_pushed(list: Seq<Prop>, p: Prop)
    requires
        distinct_keys(list),
        !has_key(list, p.key),
    ensures
        distinct_keys(list.push(p)),
        lookup(list.push(p), p.key) == Some(p),
{
    let l = list.push(p);
    assert forall|a: int, b: int| 0 <= a < b < l.len() implies #[trigger] l[a].key
        != #[trigger] l[b].key by {
        if b < list.len() {
            assert(list[a].key != list[b].key);
        } else {
            assert(list[a].key == l[a].key);
        }
    }
    assert(l[list.len() as int].key == p.key);
    lemma_index_of_key(l, p.key, list.len() as int);
}

proof fn lemma_later(h: HeapModel, o: usize, key: PropKey, d: FullDescriptor)
    requires
        is_named(h, o, key),
        defined_by(h, o, key, d).1,
    ensures
        lookup(defined_by(h, o, key, d).0.named.list, key) == Some(
            match named(h, o, key) {
                Some(p) => merged_property(p, d),
                None => fresh_property(key, d),
            },
        ),
{
    let list = h.objects[o as int].named.list;
    if has_key(list, key) {
        lemma_lookup_key(list, key);
        let p = lookup(list, key)->0;
        if is_live(p) {
            lemma_after_update(list, key, merged_property(p, d));
        } else {
            lemma_after_update(list, key, fresh_property(key, d));
        }
    } else {
        lemma_pushed(list, fresh_property(key, d));
    }
}

/// A new property is what the descriptor says, and what it does not say is false or
/// `undefined`; an object that is closed takes none.
pub proof fn law_define_new(h: HeapModel, o: usize, key: PropKey, d: FullDescriptor)
    requires
        is_named(h, o, key),
        named(h, o, key) is None,
        d.value != Some(JsValue::Hole),
        d.get is None && d.set is None,
    ensures
        defined_by(h, o, key, d).1 == h.objects[o as int].extensible,
        h.objects[o as int].extensible ==> {
            let p = later(h, o, key, d)->0;
            &&& later(h, o, key, d) is Some
            &&& p.attrs.writable <==> d.writable == Some(true)
            &&& p.attrs.enumerable <==> d.enumerable == Some(true)
            &&& p.attrs.configurable <==> d.configurable == Some(true)
            &&& d.value is Some ==> p.body == PropBody::Data(d.value->0)
            &&& d.value is None ==> p.body == PropBody::Data(JsValue::Undefined)
        },
{
    if h.objects[o as int].extensible {
        lemma_later(h, o, key, d);
    }
}

/// A definition changes of a data property only what the descriptor says.
pub proof fn law_define_over(h: HeapModel, o: usize, key: PropKey, d: FullDescriptor)
    requires
        is_named(h, o, key),
        named(h, o, key) matches Some(p) && p.body is Data && p.attrs.configurable,
        d.value != Some(JsValue::Hole),
        d.get is None && d.set is None,
    ensures
        ({
            let p = named(h, o, key)->0;
            let q = later(h, o, key, d)->0;
            &&& defined_by(h, o, key, d).1
            &&& later(h, o, key, d) is Some
            &&& d.value is None ==> q.body == p.body
            &&& d.value is Some ==> q.body == PropBody::Data(d.value->0)
            &&& d.writable is None ==> q.attrs.writable == p.attrs.writable
            &&& d.writable is Some ==> q.attrs.writable == d.writable->0
            &&& d.enumerable is None ==> q.attrs.enumerable == p.attrs.enumerable
            &&& d.enumerable is Some ==> q.attrs.enumerable == d.enumerable->0
            &&& d.configurable is None ==> q.attrs.configurable == p.attrs.configurable
            &&& d.configurable is Some ==> q.attrs.configurable == d.configurable->0
        }),
{
    lemma_lookup_key(h.objects[o as int].named.list, key);
    lemma_later(h, o, key, d);
}

/// A property that may not be redefined refuses to become so, to be listed otherwise, and
/// to become an accessor; one that may not change either refuses another value; one that
/// may change takes another value, and may be closed.
pub proof fn law_define_fixed(h: HeapModel, o: usize, key: PropKey, v: JsValue)
    requires
        is_named(h, o, key),
        named(h, o, key) matches Some(p) && p.body is Data && !p.attrs.configurable,
    ensures
        ({
            let p = named(h, o, key)->0;
            let none = no_fields();
            &&& !defined_by(h, o, key, FullDescriptor { configurable: Some(true), ..none }).1
            &&& !defined_by(
                h,
                o,
                key,
                FullDescriptor { enumerable: Some(!p.attrs.enumerable), ..none },
            ).1
            &&& !defined_by(h, o, key, FullDescriptor { get: Some(v), ..none }).1
            &&& !defined_by(h, o, key, FullDescriptor { set: Some(v), ..none }).1
            &&& p.attrs.writable ==> defined_by(
                h,
                o,
                key,
                FullDescriptor { value: Some(v), ..none },
            ).1 && defined_by(h, o, key, FullDescriptor { writable: Some(false), ..none }).1
            &&& !p.attrs.writable ==> !defined_by(
                h,
                o,
                key,
                FullDescriptor { writable: Some(true), ..none },
            ).1 && defined_by(h, o, key, FullDescriptor { value: Some(v), ..none }).1
                == same_value_of(v, p.body->Data_0)
            &&& defined_by(h, o, key, none).1
        }),
{
    lemma_lookup_key(h.objects[o as int].named.list, key);
}

/// Defining a property leaves other keys, the prototype and what may be added alone.
pub proof fn law_define_one(
    h: HeapModel,
    o: usize,
    key: PropKey,
    d: FullDescriptor,
    other: PropKey,
)
    requires
        o < h.objects.len(),
        distinct_keys(h.objects[o as int].named.list),
        other != key,
    ensures
        ({
            let m = h.objects[o as int];
            let r = defined_by(h, o, key, d).0;
            &&& lookup(r.named.list, other) == lookup(m.named.list, other)
            &&& r.prototype == m.prototype
            &&& r.extensible == m.extensible
            &&& r.kind == m.kind
            &&& element_index(h, o, key) is None ==> r.elements == m.elements
            &&& element_index(h, o, key) is Some ==> r.named == m.named
        }),
{
    let a = h.objects[o as int].named.list;
    let b = defined_by(h, o, key, d).0.named.list;
    if b != a {
        if has_key(a, key) {
            lemma_lookup_key(a, key);
        }
        assert forall|i: int, j: int| 0 <= i < j < b.len() implies #[trigger] b[i].key
            != #[trigger] b[j].key by {
            if i < a.len() && j < a.len() {
                assert(a[i].key != a[j].key);
            } else {
                assert(a[i].key == b[i].key);
            }
        }
        if has_key(a, other) {
            lemma_lookup_key(a, other);
            let i = index_of_key(a, other);
            assert(b[i] == a[i]);
            lemma_index_of_key(b, other, i);
        } else if has_key(b, other) {
            let j = index_of_key(b, other);
            lemma_lookup_key(b, other);
            assert(a[j].key == other);
        }
    }
}

// ---------------------------------------------------------------------------
// Reflect
// ---------------------------------------------------------------------------

/// `Reflect.has` finds what an object has, and else what its prototype has.
pub proof fn law_has_along_chain(h: HeapModel, o: usize, key: PropKey)
    requires
        chain_ends(h.objects, Some(o)),
    ensures
        has_property(h, o, key) == (keyed_element(h, o, key) is Some || named(h, o, key) is Some
            || match h.objects[o as int].prototype {
            Some(p) => crate::internal_methods::resolve(h.objects, Some(p), key) is Some,
            None => false,
        }),
        forall|n: usize|
            key == PropKey::Text(n) && !is_proxy(h, o) ==> (#[trigger] has_result(
                h,
                JsValue::Object(o),
                JsValue::Text(n),
            )) == (h, Ok::<JsValue, Fault>(JsValue::Bool(has_property(h, o, key)))),
{
    lemma_resolve_step(h.objects, o, key);
}

/// Writing through `Reflect.set` to a property of the object itself: one that may change
/// holds the value afterwards, with its attributes as they were; one that may not answers
/// false and stays.
pub proof fn law_reflect_set_own(h: HeapModel, o: usize, n: usize, v: JsValue)
    requires
        is_named(h, o, PropKey::Text(n)),
        !is_proxy(h, o),
        named(h, o, PropKey::Text(n)) matches Some(p) && p.body is Data,
        v != JsValue::Hole,
    ensures
        ({
            let key = PropKey::Text(n);
            let p = named(h, o, key)->0;
            let r = set_result(h, seq![JsValue::Object(o), JsValue::Text(n), v]);
            &&& p.attrs.writable ==> r.1 == Ok::<JsValue, Fault>(JsValue::Bool(true)) && named(
                r.0,
                o,
                key,
            ) == Some(Prop { key: p.key, attrs: p.attrs, body: PropBody::Data(v) })
            &&& !p.attrs.writable ==> r == (h, Ok::<JsValue, Fault>(JsValue::Bool(false)))
        }),
{
    let key = PropKey::Text(n);
    lemma_lookup_key(h.objects[o as int].named.list, key);
    let p = named(h, o, key)->0;
    if p.attrs.writable {
        lemma_later(h, o, key, FullDescriptor { value: Some(v), ..no_fields() });
    }
}

/// Writing a property that neither the object nor its prototype has makes one that a
/// script can change, list and delete; a closed object answers false.
pub proof fn law_reflect_set_new(h: HeapModel, o: usize, n: usize, v: JsValue)
    requires
        is_named(h, o, PropKey::Text(n)),
        !is_proxy(h, o),
        named(h, o, PropKey::Text(n)) is None,
        h.objects[o as int].prototype is None,
        v != JsValue::Hole,
    ensures
        ({
            let key = PropKey::Text(n);
            let r = set_result(h, seq![JsValue::Object(o), JsValue::Text(n), v]);
            &&& h.objects[o as int].extensible ==> r.1 == Ok::<JsValue, Fault>(JsValue::Bool(true))
                && named(r.0, o, key) == Some(
                Prop {
                    key,
                    attrs: Attrs { writable: true, enumerable: true, configurable: true },
                    body: PropBody::Data(v),
                },
            )
            &&& !h.objects[o as int].extensible ==> r.1 == Ok::<JsValue, Fault>(
                JsValue::Bool(false),
            ) && r.0.objects == h.objects
        }),
{
    let key = PropKey::Text(n);
    reveal_with_fuel(crate::reflect::chain_rule, 2);
    if has_key(h.objects[o as int].named.list, key) {
        lemma_lookup_key(h.objects[o as int].named.list, key);
    }
    if h.objects[o as int].extensible {
        lemma_later(h, o, key, crate::descriptor::data_fields(v));
    } else {
        assert(h.objects.update(o as int, h.objects[o as int]) =~= h.objects);
    }
}

/// A prototype that was set is the one that is read; an object that is closed keeps the one
/// that it has, and none becomes its own.
pub proof fn law_set_prototype(h: HeapModel, o: usize, p: usize)
    requires
        o < h.objects.len(),
        p < h.objects.len(),
    ensures
        ({
            let r = link_result(h, seq![JsValue::Object(o), JsValue::Object(p)]);
            &&& r.1 == Ok::<JsValue, Fault>(JsValue::Bool(true)) ==> get_prototype_result(
                r.0,
                JsValue::Object(o),
            ).1 == Ok::<JsValue, Fault>(JsValue::Object(p))
            &&& r.1 == Ok::<JsValue, Fault>(JsValue::Bool(false)) ==> r.0 == h
            &&& r.1 == Ok::<JsValue, Fault>(JsValue::Bool(true)) || r.1 == Ok::<JsValue, Fault>(
                JsValue::Bool(false),
            )
            &&& p == o && h.objects[o as int].prototype != Some(o) ==> r.1 == Ok::<JsValue, Fault>(
                JsValue::Bool(false),
            )
            &&& !h.objects[o as int].extensible && h.objects[o as int].prototype != Some(p)
                ==> r.1 == Ok::<JsValue, Fault>(JsValue::Bool(false))
        }),
        ({
            let r = link_result(h, seq![JsValue::Object(o), JsValue::Null]);
            h.objects[o as int].extensible ==> get_prototype_result(r.0, JsValue::Object(o)).1
                == Ok::<JsValue, Fault>(JsValue::Null)
        }),
{
}

/// An object that was closed is not extensible, and takes no new property.
pub proof fn law_prevent_extensions(h: HeapModel, o: usize, key: PropKey, d: FullDescriptor)
    requires
        is_named(h, o, key),
        named(h, o, key) is None,
    ensures
        ({
            let r = prevent_result(h, JsValue::Object(o));
            &&& r.1 == Ok::<JsValue, Fault>(JsValue::Bool(true))
            &&& extensible_result(r.0, JsValue::Object(o)).1 == Ok::<JsValue, Fault>(
                JsValue::Bool(false),
            )
            &&& !defined_by(r.0, o, key, d).1
            &&& r.0.objects[o as int].named == h.objects[o as int].named
            &&& r.0.objects[o as int].elements == h.objects[o as int].elements
            &&& r.0.objects[o as int].prototype == h.objects[o as int].prototype
        }),
{
}

/// Reading a property gives the element or the value that the object has under the key,
/// and else what its prototype has there; `undefined` where the chain has none.
pub proof fn law_get_along_chain(h: HeapModel, o: usize, key: PropKey, v: JsValue)
    requires
        chain_ends(h.objects, Some(o)),
    ensures
        keyed_element(h, o, key) == Some(v) ==> get_property(h, o, key) == (
            h,
            Ok::<JsValue, crate::value::Throw>(v),
        ),
        keyed_element(h, o, key) is None && named(h, o, key) is Some && named(h, o, key)->0.body
            == PropBody::Data(v) ==> get_property(h, o, key) == (
            h,
            Ok::<JsValue, crate::value::Throw>(v),
        ),
        keyed_element(h, o, key) is None && named(h, o, key) is None
            && h.objects[o as int].prototype is None ==> get_property(h, o, key) == (
            h,
            Ok::<JsValue, crate::value::Throw>(JsValue::Undefined),
        ),
        forall|p: usize|
            keyed_element(h, o, key) is None && named(h, o, key) is None
                && h.objects[o as int].prototype == Some(p) && #[trigger] keyed_element(h, p, key)
                is None ==> get_property(h, o, key) == get_property(h, p, key),
{
    lemma_resolve_step(h.objects, o, key);
}

/// `Reflect.ownKeys` lists the symbols of an object behind its texts.
pub proof fn law_own_keys(h: HeapModel, global: Option<usize>, o: usize)
    requires
        o < h.objects.len() < usize::MAX,
        !indexed_kind(h.objects[o as int].kind),
    ensures
        ({
            let r = own_keys_result(h, global, JsValue::Object(o));
            let s = r.0.objects.last().elements;
            let texts = own_text_ids(h, o, false).1;
            let list = h.objects[o as int].named.list;
            let symbols = symbol_ids(list, list.len() as int);
            &&& r.1 == Ok::<JsValue, Fault>(JsValue::Object(h.objects.len() as usize))
            &&& s.len() == texts.len() + symbols.len()
            &&& forall|i: int|
                0 <= i < texts.len() ==> #[trigger] s[i] == JsValue::Text(texts[i])
            &&& forall|i: int|
                0 <= i < symbols.len() ==> #[trigger] s[texts.len() + i] == JsValue::Symbol(
                    symbols[i],
                )
        }),
{
}

/// A proxy is made of two objects, and remembers which is its target and which its
/// handler; anything else is refused.
pub proof fn law_proxy_made(h: HeapModel, t: usize, n: usize, v: JsValue)
    requires
        h.objects.len() < usize::MAX,
        !(v is Object),
    ensures
        ({
            let r = created_proxy(h, seq![JsValue::Object(t), JsValue::Object(n)]);
            &&& r.1 == Ok::<JsValue, Fault>(JsValue::Object(h.objects.len() as usize))
            &&& r.0.objects.last().proxy_target == Some(t)
            &&& r.0.objects.last().proxy_handler == Some(n)
            &&& is_proxy(r.0, h.objects.len() as usize)
        }),
        created_proxy(h, seq![v, JsValue::Object(n)]).1 is Err,
        created_proxy(h, seq![JsValue::Object(t), v]).1 is Err,
{
}

// ---------------------------------------------------------------------------
// URIs
// ---------------------------------------------------------------------------

/// What may stand in a URI: letters, digits, marks, and the sign of an escape; the syntax
/// of URIs where it is kept.
pub open spec fn may_stand(u: u16, keep: bool) -> bool {
    u < 0x80 && (unreserved(u as u8) || u == 0x25 || (keep && reserved(u as u8)))
}

/// A text as it is written in a URI holds nothing that may not stand there.
pub proof fn law_uri_units(t: Seq<u16>, keep: bool)
    ensures
        forall|i: int|
            0 <= i < encoded(t, keep).len() ==> may_stand(#[trigger] encoded(t, keep)[i], keep),
{
    lemma_escaped_units(utf8_of(t, 0), 0, keep);
    let b = escaped(utf8_of(t, 0), 0, keep);
    assert forall|i: int| 0 <= i < encoded(t, keep).len() implies may_stand(
        #[trigger] encoded(t, keep)[i],
        keep,
    ) by {
        assert(may_stand(b[i] as u16, keep));
    }
}

proof fn lemma_escaped_units(b: Seq<u8>, i: int, keep: bool)
    requires
        0 <= i,
    ensures
        forall|k: int|
            0 <= k < escaped(b, i, keep).len() ==> may_stand(
                #[trigger] escaped(b, i, keep)[k] as u16,
                keep,
            ),
    decreases b.len() - i,
{
    if i < b.len() {
        lemma_escaped_units(b, i + 1, keep);
        let x = escaped_byte(b[i], keep);
        let r = escaped(b, i + 1, keep);
        let s = escaped(b, i, keep);
        assert forall|k: int| 0 <= k < s.len() implies may_stand(#[trigger] s[k] as u16, keep) by {
            if k < x.len() {
                assert(s[k] == x[k]);
                assert(0 <= b[i] as int / 16 < 16 && 0 <= b[i] as int % 16 < 16);
            } else {
                assert(s[k] == r[k - x.len()]);
            }
        }
    }
}

/// Letters and digits are written as they are; a byte that may not stand is written as
/// two hexadecimal digits that spell it.
pub proof fn law_escaped_byte(b: u8, keep: bool)
    ensures
        0x30 <= b <= 0x39 || 0x41 <= b <= 0x5a || 0x61 <= b <= 0x7a ==> escaped_byte(b, keep)
            == seq![b],
        b == 0x2f || b == 0x3f || b == 0x26 || b == 0x3d || b == 0x23 ==> escaped_byte(b, true)
            == seq![b] && escaped_byte(b, false).len() == 3,
        escaped_byte(b, keep).len() == 1 ==> escaped_byte(b, keep)[0] == b && b < 0x80 && b > 0x20
            && b != 0x25,
        escaped_byte(b, keep).len() != 1 ==> {
            let s = escaped_byte(b, keep);
            &&& s.len() == 3
            &&& s[0] == 0x25
            &&& 16 * crate::global::hex_of(s[1]) + crate::global::hex_of(s[2]) == b
        },
{
}

} // verus!
