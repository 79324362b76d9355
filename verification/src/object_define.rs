//! `Object` functions that define properties.
use vstd::prelude::*;

use crate::convert::{
    as_number, error, int_value, number_of, smi_or_f64, to_boolean, truthy, value_number,
};
use crate::ctx::{Ctx, arg, arg_of, only_heap, to_key, valid_args};
use crate::descriptor::{
    Fault, FullDescriptor, applied, apply_property_descriptor, is_fault, no_fields,
};
use crate::double::{
    below, equal, feq, finite, flt, from_i64, int_double, int_mod, is_finite, saturated, to_i64,
    trunc_int,
};
use crate::heap::{Heap, HeapModel, JsObject, ObjModel, lemma_text_id, plain_object};
use crate::internal_methods::{
    dispatch_get, dispatch_has, get_property, has_property, is_proxy, keyed_element,
    trap_message,
};
use crate::key_order::{is_live, own_keys, own_keys_ordered, shaped_data, shaped_slot};
use crate::properties::{PropBody, lookup};
use crate::text::{utf16, utf16_of};
use crate::value::{Integrity, JsValue, Kind, PropKey, Throw};

verus! {

/// Whether a function left the heap and returned the result that are expected.
pub open spec fn ends_in(
    before: Ctx,
    after: Ctx,
    r: Result<JsValue, Throw>,
    expected: (HeapModel, Result<JsValue, Fault>),
) -> bool {
    &&& only_heap(before, after, expected.0)
    &&& match expected.1 {
        Ok(v) => r == Ok::<JsValue, Throw>(v) && after.heap@.valid(v),
        Err(f) => r is Err && is_fault(r->Err_0, f),
    }
}

// ---------------------------------------------------------------------------
// Reading a descriptor
// ---------------------------------------------------------------------------

/// Names of the fields of a descriptor object.
pub open spec fn field_name(k: int) -> Seq<char> {
    if k == 0 {
        "value"@
    } else if k == 1 {
        "writable"@
    } else if k == 2 {
        "enumerable"@
    } else if k == 3 {
        "configurable"@
    } else if k == 4 {
        "get"@
    } else {
        "set"@
    }
}

/// The heap with the names of the first `k` fields.
pub open spec fn with_names(h: HeapModel, k: int) -> HeapModel
    decreases k,
{
    if k <= 0 {
        h
    } else {
        with_names(h, k - 1).interned(utf16_of(field_name(k - 1)))
    }
}

/// The heap with the names of all fields.
pub open spec fn with_field_names(h: HeapModel) -> HeapModel {
    with_names(h, 6)
}

/// The key of a field.
pub open spec fn field_key(h: HeapModel, k: int) -> PropKey {
    PropKey::Text(h.text_id(utf16_of(field_name(k))))
}

/// What reading a property gives, and the heap that it leaves.
pub open spec fn fetched(h: HeapModel, o: usize, key: PropKey) -> (
    HeapModel,
    Result<JsValue, Fault>,
) {
    if is_proxy(h, o) {
        (h, Err(Fault::Text(trap_message("Get"@))))
    } else {
        match get_property(h, o, key) {
            (h1, Ok(v)) => (h1, Ok(v)),
            (h1, Err(Throw::HostGetter(g, w))) => (h1, Err(Fault::Getter(g, w))),
            (h1, Err(Throw::Value(v))) => (h1, Err(Fault::Value(v))),
            (h1, Err(Throw::Error(_))) => (h1, Err(Fault::Text(seq![]))),
        }
    }
}

/// What a field of a descriptor object holds, `None` where the object does not have it.
pub open spec fn field(h: HeapModel, o: usize, k: int) -> (
    HeapModel,
    Result<Option<JsValue>, Fault>,
) {
    if is_proxy(h, o) {
        (h, Err(Fault::Text(trap_message("HasProperty"@))))
    } else if !has_property(h, o, field_key(h, k)) {
        (h, Ok(None))
    } else {
        match fetched(h, o, field_key(h, k)) {
            (h1, Ok(v)) => (h1, Ok(Some(v))),
            (h1, Err(f)) => (h1, Err(f)),
        }
    }
}

/// Whether a value can be called.
pub open spec fn is_callable(h: HeapModel, v: JsValue) -> bool {
    v matches JsValue::Object(o) && h.objects[o as int].kind == Kind::Function
}

/// A descriptor with one more field.
pub open spec fn with_field(h: HeapModel, d: FullDescriptor, k: int, v: JsValue) -> Result<
    FullDescriptor,
    Fault,
> {
    if k == 0 {
        Ok(FullDescriptor { value: Some(v), ..d })
    } else if k == 1 {
        Ok(FullDescriptor { writable: Some(truthy(h, v)), ..d })
    } else if k == 2 {
        Ok(FullDescriptor { enumerable: Some(truthy(h, v)), ..d })
    } else if k == 3 {
        Ok(FullDescriptor { configurable: Some(truthy(h, v)), ..d })
    } else if v != JsValue::Undefined && !is_callable(h, v) {
        Err(Fault::Text("TypeError: Accessor property must be a function or undefined"@))
    } else if k == 4 {
        Ok(FullDescriptor { get: Some(v), ..d })
    } else {
        Ok(FullDescriptor { set: Some(v), ..d })
    }
}

/// The first `k` fields of a descriptor object, read one after another.
pub open spec fn fields(h: HeapModel, o: usize, k: int) -> (HeapModel, Result<FullDescriptor, Fault>)
    decreases k,
{
    if k <= 0 {
        (h, Ok(no_fields()))
    } else {
        match fields(h, o, k - 1) {
            (h1, Err(f)) => (h1, Err(f)),
            (h1, Ok(d)) => match field(h1, o, k - 1) {
                (h2, Err(f)) => (h2, Err(f)),
                (h2, Ok(None)) => (h2, Ok(d)),
                (h2, Ok(Some(v))) => (h2, with_field(h2, d, k - 1, v)),
            },
        }
    }
}

/// `ToPropertyDescriptor`: the fields that an object has, inherited ones too; not both
/// halves of a descriptor.
pub open spec fn to_descriptor(h: HeapModel, v: JsValue) -> (
    HeapModel,
    Result<FullDescriptor, Fault>,
) {
    match v {
        JsValue::Object(o) => match fields(h, o, 6) {
            (h1, Err(f)) => (h1, Err(f)),
            (h1, Ok(d)) => if d.data() && d.accessor() {
                (
                    h1,
                    Err(
                        Fault::Text(
                            "TypeError: Invalid property descriptor: cannot both specify accessors and a value or writable attribute"@,
                        ),
                    ),
                )
            } else {
                (h1, Ok(d))
            },
        },
        _ => (h, Err(Fault::Text("TypeError: Property description must be an object"@))),
    }
}

/// Name of a field.
fn field_text(k: usize) -> (r: &'static str)
    requires
        k < 6,
    ensures
        r@ == field_name(k as int),
{
    if k == 0 {
        "value"
    } else if k == 1 {
        "writable"
    } else if k == 2 {
        "enumerable"
    } else if k == 3 {
        "configurable"
    } else if k == 4 {
        "get"
    } else {
        "set"
    }
}

/// Whether texts are the names of the first `n` fields.
pub open spec fn are_names(h: HeapModel, ids: Seq<usize>, n: int) -> bool {
    &&& ids.len() == n
    &&& forall|k: int|
        0 <= k < n ==> (#[trigger] ids[k]) < h.texts.len() && h.texts[ids[k] as int] == utf16_of(
            field_name(k),
        )
}

/// Puts the names of the fields into the heap.
pub fn intern_field_names(heap: &mut Heap) -> (r: Vec<usize>)
    requires
        old(heap).wf(),
    ensures
        final(heap).wf(),
        final(heap)@ == with_field_names(old(heap)@),
        are_names(final(heap)@, r@, 6),
        old(heap)@.grows_to(final(heap)@),
{
    let ghost h = heap@;
    let mut out: Vec<usize> = Vec::new();
    let mut k: usize = 0;
    proof {
        assert(h.texts.is_prefix_of(h.texts));
    }
    while k < 6
        invariant
            heap.wf(),
            k <= 6,
            heap@ == with_names(h, k as int),
            are_names(heap@, out@, k as int),
            h.grows_to(heap@),
        decreases 6 - k,
    {
        let ghost before = heap@;
        let id: usize = heap.intern_text(field_text(k));
        proof {
            assert(before.texts.is_prefix_of(heap@.texts));
            assert(h.texts.is_prefix_of(heap@.texts));
        }
        out.push(id);
        k = k + 1;
    }
    out
}

/// Reads a property.
pub fn fetch(heap: &mut Heap, obj: usize, key: PropKey) -> (r: Result<JsValue, Throw>)
    requires
        old(heap).wf(),
        obj < old(heap)@.objects.len(),
        old(heap)@.valid_key(key),
    ensures
        final(heap).wf(),
        old(heap)@.keeps(final(heap)@),
        ({
            let (h, x) = fetched(old(heap)@, obj, key);
            final(heap)@ == h && match x {
                Ok(v) => r == Ok::<JsValue, Throw>(v) && final(heap)@.valid(v),
                Err(f) => r is Err && is_fault(r->Err_0, f),
            }
        }),
{
    dispatch_get(heap, obj, key, JsValue::Object(obj))
}

/// `ToPropertyDescriptor`.
pub fn to_property_descriptor(heap: &mut Heap, names: &Vec<usize>, v: JsValue) -> (r: Result<
    FullDescriptor,
    Throw,
>)
    requires
        old(heap).wf(),
        old(heap)@.valid(v),
        are_names(old(heap)@, names@, 6),
    ensures
        final(heap).wf(),
        old(heap)@.keeps(final(heap)@),
        ({
            let (h, x) = to_descriptor(old(heap)@, v);
            final(heap)@ == h && match x {
                Ok(d) => r == Ok::<FullDescriptor, Throw>(d) && d.valid(h) && !(d.data()
                    && d.accessor()),
                Err(f) => r is Err && is_fault(r->Err_0, f),
            }
        }),
{
    let ghost h = heap@;
    let obj: usize = match v {
        JsValue::Object(o) => o,
        _ => {
            return Err(error("TypeError: Property description must be an object"));
        },
    };
    let mut d: FullDescriptor = FullDescriptor::default();
    let mut k: usize = 0;
    while k < 6
        invariant
            heap.wf(),
            h == old(heap)@,
            h.keeps(heap@),
            v == JsValue::Object(obj),
            obj < heap@.objects.len(),
            are_names(heap@, names@, 6),
            k <= 6,
            fields(h, obj, k as int) == (heap@, Ok::<FullDescriptor, Fault>(d)),
            d.valid(heap@),
        decreases 6 - k,
    {
        let ghost before = heap@;
        let key: PropKey = PropKey::Text(names[k]);
        proof {
            heap.lemma_wf();
            lemma_text_id(heap@, names@[k as int] as int);
            assert(key == field_key(heap@, k as int));
            lemma_fields_err(h, obj, k + 1, 6);
        }
        let present: bool = match dispatch_has(heap, obj, key) {
            Ok(x) => x,
            Err(t) => {
                return Err(t);
            },
        };
        if present {
            let got: JsValue = match fetch(heap, obj, key) {
                Ok(v) => v,
                Err(t) => {
                    proof {
                        lemma_keeps_chain(h, before, heap@);
                    }
                    return Err(t);
                },
            };
            proof {
                lemma_keeps_chain(h, before, heap@);
            }
            if k >= 4 && got != JsValue::Undefined {
                let callable: bool = match got {
                    JsValue::Object(f) => heap.object(f).kind == Kind::Function,
                    _ => false,
                };
                if !callable {
                    return Err(
                        error("TypeError: Accessor property must be a function or undefined"),
                    );
                }
            }
            if k == 0 {
                d.value = Some(got);
            } else if k == 1 {
                d.writable = Some(to_boolean(heap, got));
            } else if k == 2 {
                d.enumerable = Some(to_boolean(heap, got));
            } else if k == 3 {
                d.configurable = Some(to_boolean(heap, got));
            } else if k == 4 {
                d.get = Some(got);
            } else {
                d.set = Some(got);
            }
        }
        k = k + 1;
    }
    if d.is_data() && d.is_accessor() {
        return Err(
            error(
                "TypeError: Invalid property descriptor: cannot both specify accessors and a value or writable attribute",
            ),
        );
    }
    Ok(d)
}

/// What a heap keeps of another it keeps through a third.
pub proof fn lemma_keeps_chain(a: HeapModel, b: HeapModel, c: HeapModel)
    requires
        a.keeps(b),
        b.keeps(c),
    ensures
        a.keeps(c),
{
    assert forall|i: int| 0 <= i < a.objects.len() implies crate::heap::same_outline(
        #[trigger] a.objects[i],
        c.objects[i],
    ) by {
        assert(crate::heap::same_outline(b.objects[i], c.objects[i]));
    }
}

proof fn lemma_fields_err(h: HeapModel, o: usize, k: int, n: int)
    requires
        0 <= k <= n,
    ensures
        fields(h, o, k).1 is Err ==> fields(h, o, n) == fields(h, o, k),
    decreases n - k,
{
    if k < n {
        lemma_fields_err(h, o, k, n - 1);
    }
}

// ---------------------------------------------------------------------------
// The length of an array
// ---------------------------------------------------------------------------

/// `ToUint32`: the whole part modulo `2^32`; not-a-number and the infinities are 0.
pub open spec fn uint32_of(b: u64) -> int {
    if is_finite(b) {
        trunc_int(b) % 0x1_0000_0000
    } else {
        0
    }
}

/// `ToUint32`.
pub fn to_uint32(b: u64) -> (r: u32)
    ensures
        r == uint32_of(b),
{
    if !finite(b) {
        return 0;
    }
    int_mod(b, 0x1_0000_0000) as u32
}

/// What the `length` of an array says, and whether it may change.
pub open spec fn length_state(h: HeapModel, o: usize) -> Option<(int, bool)> {
    match shaped_data(h, o, utf16_of("length"@)) {
        None => None,
        Some(v) => {
            let n = match as_number(v) {
                Some(b) => b,
                None => int_double(0),
            };
            let key = PropKey::Text(h.text_id(utf16_of("length"@)));
            Some(
                (
                    if is_finite(n) && !below(n, int_double(0)) {
                        saturated(n)
                    } else {
                        0
                    },
                    lookup(h.objects[o as int].named.list, key)->0.attrs.writable,
                ),
            )
        },
    }
}

/// An object with its elements cut to a length.
pub open spec fn cut_elements(m: ObjModel, n: int) -> ObjModel {
    ObjModel {
        elements: if n < m.elements.len() {
            m.elements.take(n)
        } else {
            m.elements
        },
        ..m
    }
}

/// Defining a property of an object, in a heap that holds the text `length` where the
/// object is an array: the length of an array must be a 32-bit integer, and what lies
/// past a smaller one goes.
pub open spec fn define_in(h: HeapModel, o: usize, key: PropKey, d: FullDescriptor) -> Result<
    (HeapModel, bool),
    Fault,
> {
    let m = h.objects[o as int];
    if m.kind != Kind::Array || key != PropKey::Text(h.text_id(utf16_of("length"@))) {
        applied(h, o, key, d)
    } else if d.accessor() {
        Ok((h, false))
    } else {
        match d.value {
            None => applied(h, o, key, d),
            Some(v) => {
                let b = number_of(h, v);
                let n = uint32_of(b);
                let d2 = FullDescriptor { value: Some(int_value(n)), ..d };
                if !equal(int_double(n), b) {
                    Err(Fault::Text("RangeError: Invalid array length"@))
                } else {
                    match length_state(h, o) {
                        None => applied(h, o, key, d),
                        Some((old_len, writable)) => if n >= old_len {
                            applied(h, o, key, d2)
                        } else if !writable {
                            Ok((h, false))
                        } else {
                            applied(h.with_object(o, cut_elements(m, n)), o, key, d2)
                        },
                    }
                }
            },
        }
    }
}

/// Defining a property of an object.
pub open spec fn define_property(h: HeapModel, o: usize, key: PropKey, d: FullDescriptor) -> (
    HeapModel,
    Result<bool, Fault>,
) {
    let h1 = if h.objects[o as int].kind == Kind::Array {
        h.interned(utf16_of("length"@))
    } else {
        h
    };
    match define_in(h1, o, key, d) {
        Ok((h2, x)) => (h2, Ok(x)),
        Err(f) => (h1, Err(f)),
    }
}

/// What the `length` of an array says, and whether it may change.
fn array_length_state(heap: &Heap, obj: usize) -> (r: Option<(i64, bool)>)
    requires
        heap.wf(),
        obj < heap@.objects.len(),
    ensures
        match (length_state(heap@, obj), r) {
            (Some((n, w)), Some((a, b))) => a == n && b == w,
            (None, None) => true,
            _ => false,
        },
{
    let name: Vec<u16> = utf16("length");
    match shaped_slot(heap, obj, name.as_slice()) {
        None => None,
        Some(v) => {
            let n: u64 = match value_number(v) {
                Some(b) => b,
                None => from_i64(0),
            };
            let len: i64 = if finite(n) && !flt(n, from_i64(0)) {
                to_i64(n)
            } else {
                0
            };
            let writable: bool = match heap.find(name.as_slice()) {
                Some(id) => match heap.object(obj).named.get(PropKey::Text(id)) {
                    Some(p) => p.attrs.writable,
                    None => false,
                },
                None => false,
            };
            Some((len, writable))
        },
    }
}

/// Cuts the elements of an object to a length.
fn cut(heap: &mut Heap, obj: usize, n: u32)
    requires
        old(heap).wf(),
        obj < old(heap)@.objects.len(),
    ensures
        final(heap).wf(),
        final(heap)@ == old(heap)@.with_object(
            obj,
            cut_elements(old(heap)@.objects[obj as int], n as int),
        ),
{
    let ghost h = heap@;
    let ghost m = h.objects[obj as int];
    let o = heap.object_mut(obj);
    proof {
        let c = cut_elements(m, n as int);
        assert forall|i: int| 0 <= i < c.elements.len() implies h.valid(#[trigger] c.elements[i]) by {
            assert(h.valid(m.elements[i]));
        }
        assert(h.valid_refs(c));
    }
    if (n as usize) < o.elements.len() {
        o.elements.truncate(n as usize);
        proof {
            assert(o@ == cut_elements(m, n as int));
        }
    }
}

/// Defines a property of an object; the `length` of an array by its own rules.
pub fn define_any(heap: &mut Heap, obj: usize, key: PropKey, d: FullDescriptor) -> (r: Result<
    bool,
    Throw,
>)
    requires
        old(heap).wf(),
        obj < old(heap)@.objects.len(),
        old(heap)@.valid_key(key),
        d.valid(old(heap)@),
    ensures
        final(heap).wf(),
        ({
            let (h, x) = define_property(old(heap)@, obj, key, d);
            final(heap)@ == h && match x {
                Ok(y) => r == Ok::<bool, Throw>(y),
                Err(f) => r is Err && is_fault(r->Err_0, f),
            }
        }),
{
    if heap.object(obj).kind != Kind::Array {
        return apply_property_descriptor(heap, obj, key, d);
    }
    let id: usize = heap.intern_text("length");
    proof {
        heap.lemma_wf();
        lemma_text_id(heap@, id as int);
    }
    if key != PropKey::Text(id) {
        return apply_property_descriptor(heap, obj, key, d);
    }
    apply_array_length(heap, obj, key, d)
}

/// Defines the `length` of an array.
fn apply_array_length(heap: &mut Heap, obj: usize, key: PropKey, d: FullDescriptor) -> (r: Result<
    bool,
    Throw,
>)
    requires
        old(heap).wf(),
        obj < old(heap)@.objects.len(),
        old(heap)@.valid_key(key),
        d.valid(old(heap)@),
        old(heap)@.objects[obj as int].kind == Kind::Array,
        key == PropKey::Text(old(heap)@.text_id(utf16_of("length"@))),
    ensures
        final(heap).wf(),
        match define_in(old(heap)@, obj, key, d) {
            Ok((h, x)) => r == Ok::<bool, Throw>(x) && final(heap)@ == h,
            Err(f) => r is Err && is_fault(r->Err_0, f) && final(heap)@ == old(heap)@,
        },
{
    if d.is_accessor() {
        return Ok(false);
    }
    let v: JsValue = match d.value {
        None => {
            return apply_property_descriptor(heap, obj, key, d);
        },
        Some(v) => v,
    };
    let b: u64 = crate::convert::to_number(heap, v);
    let n: u32 = to_uint32(b);
    if !feq(from_i64(n as i64), b) {
        return Err(error("RangeError: Invalid array length"));
    }
    let (old_len, writable) = match array_length_state(heap, obj) {
        None => {
            return apply_property_descriptor(heap, obj, key, d);
        },
        Some(s) => s,
    };
    let coerced: FullDescriptor = FullDescriptor { value: Some(smi_or_f64(n as i64)), ..d };
    if n as i64 >= old_len {
        return apply_property_descriptor(heap, obj, key, coerced);
    }
    if !writable {
        return Ok(false);
    }
    cut(heap, obj, n);
    apply_property_descriptor(heap, obj, key, coerced)
}

// ---------------------------------------------------------------------------
// defineProperty, defineProperties and create
// ---------------------------------------------------------------------------

/// Text of the error of a definition that is refused.
pub open spec fn refusal() -> Seq<char> {
    "TypeError: Cannot redefine property: Invalid property definition"@
}

/// Defining a property, where a refusal is an error.
pub open spec fn define_or_throw(h: HeapModel, o: usize, key: PropKey, d: FullDescriptor) -> (
    HeapModel,
    Result<(), Fault>,
) {
    match define_property(h, o, key, d) {
        (h1, Err(f)) => (h1, Err(f)),
        (h1, Ok(true)) => (h1, Ok(())),
        (h1, Ok(false)) => (h1, Err(Fault::Text(refusal()))),
    }
}

/// Defines a property; a refusal is an error.
fn define_checked(heap: &mut Heap, obj: usize, key: PropKey, d: FullDescriptor) -> (r: Result<
    (),
    Throw,
>)
    requires
        old(heap).wf(),
        obj < old(heap)@.objects.len(),
        old(heap)@.valid_key(key),
        d.valid(old(heap)@),
    ensures
        final(heap).wf(),
        ({
            let (h, x) = define_or_throw(old(heap)@, obj, key, d);
            final(heap)@ == h && match x {
                Ok(_) => r is Ok,
                Err(f) => r is Err && is_fault(r->Err_0, f),
            }
        }),
        old(heap)@.within(final(heap)@),
{
    match define_any(heap, obj, key, d) {
        Err(t) => Err(t),
        Ok(true) => Ok(()),
        Ok(false) => Err(
            error("TypeError: Cannot redefine property: Invalid property definition"),
        ),
    }
}

/// What `Object.defineProperty` does.
pub open spec fn define_property_result(h: HeapModel, args: Seq<JsValue>) -> (
    HeapModel,
    Result<JsValue, Fault>,
) {
    if args.len() < 2 {
        (h, Err(Fault::Text("TypeError: Object.defineProperty requires 2 arguments"@)))
    } else {
        match args[0] {
            JsValue::Object(o) => {
                let (h1, key) = to_key(h, args[1]);
                let h2 = with_field_names(h1);
                match if args.len() >= 3 {
                    to_descriptor(h2, args[2])
                } else {
                    (h2, Ok(no_fields()))
                } {
                    (h3, Err(f)) => (h3, Err(f)),
                    (h3, Ok(d)) => match define_or_throw(h3, o, key, d) {
                        (h4, Ok(_)) => (h4, Ok(args[0])),
                        (h4, Err(f)) => (h4, Err(f)),
                    },
                }
            },
            _ => (h, Err(Fault::Text("TypeError: Object.defineProperty called on non-object"@))),
        }
    }
}

/// `Object.defineProperty(obj, key, descriptor)`: absent flags of a new property are
/// false; a definition that is not allowed is an error.
pub fn object_define_property(ctx: &mut Ctx, _this: JsValue, args: &[JsValue]) -> (r: Result<
    JsValue,
    Throw,
>)
    requires
        old(ctx).wf(),
        valid_args(old(ctx).heap@, args@),
    ensures
        ends_in(*old(ctx), *final(ctx), r, define_property_result(old(ctx).heap@, args@)),
{
    if args.len() < 2 {
        return Err(error("TypeError: Object.defineProperty requires 2 arguments"));
    }
    let obj: usize = match args[0] {
        JsValue::Object(o) => o,
        _ => {
            return Err(error("TypeError: Object.defineProperty called on non-object"));
        },
    };
    let ghost h = ctx.heap@;
    let key: PropKey = ctx.property_key(args[1]);
    let names: Vec<usize> = intern_field_names(&mut ctx.heap);
    let d: FullDescriptor = if args.len() >= 3 {
        match to_property_descriptor(&mut ctx.heap, &names, args[2]) {
            Ok(d) => d,
            Err(t) => {
                return Err(t);
            },
        }
    } else {
        FullDescriptor::default()
    };
    match define_checked(&mut ctx.heap, obj, key, d) {
        Ok(_) => Ok(JsValue::Object(obj)),
        Err(t) => Err(t),
    }
}

/// Whether a key names an enumerable own property.
pub open spec fn enumerable_own(h: HeapModel, o: usize, key: PropKey) -> bool {
    keyed_element(h, o, key) is Some || match lookup(h.objects[o as int].named.list, key) {
        Some(p) => is_live(p) && p.attrs.enumerable,
        None => false,
    }
}

/// Whether a key names an enumerable own property.
pub fn descriptor_enumerable(heap: &Heap, obj: usize, key: PropKey) -> (r: bool)
    requires
        heap.wf(),
        obj < heap@.objects.len(),
        heap@.valid_key(key),
    ensures
        r == enumerable_own(heap@, obj, key),
{
    if crate::internal_methods::element_of_key(heap, obj, key).is_some() {
        return true;
    }
    match heap.object(obj).named.get(key) {
        Some(p) => p.body != PropBody::Data(JsValue::Hole) && p.attrs.enumerable,
        None => false,
    }
}

/// The descriptors that the first `k` keys of an object name, of those that are
/// enumerable, read one after another.
pub open spec fn collected(h: HeapModel, props: usize, keys: Seq<PropKey>, k: int) -> (
    HeapModel,
    Result<Seq<(PropKey, FullDescriptor)>, Fault>,
)
    decreases k,
{
    if k <= 0 {
        (h, Ok(seq![]))
    } else {
        match collected(h, props, keys, k - 1) {
            (h1, Err(f)) => (h1, Err(f)),
            (h1, Ok(head)) => if !enumerable_own(h1, props, keys[k - 1]) {
                (h1, Ok(head))
            } else {
                match fetched(h1, props, keys[k - 1]) {
                    (h2, Err(f)) => (h2, Err(f)),
                    (h2, Ok(v)) => match to_descriptor(h2, v) {
                        (h3, Err(f)) => (h3, Err(f)),
                        (h3, Ok(d)) => (h3, Ok(head.push((keys[k - 1], d)))),
                    },
                }
            },
        }
    }
}

/// The heap after the first `k` definitions.
pub open spec fn define_pairs(
    h: HeapModel,
    o: usize,
    pairs: Seq<(PropKey, FullDescriptor)>,
    k: int,
) -> (HeapModel, Result<(), Fault>)
    decreases k,
{
    if k <= 0 {
        (h, Ok(()))
    } else {
        match define_pairs(h, o, pairs, k - 1) {
            (h1, Err(f)) => (h1, Err(f)),
            (h1, Ok(_)) => define_or_throw(h1, o, pairs[k - 1].0, pairs[k - 1].1),
        }
    }
}

/// `ObjectDefineProperties`: all descriptors are read before the first property is
/// defined.
pub open spec fn define_all(h: HeapModel, o: usize, props: JsValue) -> (
    HeapModel,
    Result<(), Fault>,
) {
    match props {
        JsValue::Undefined | JsValue::Null => (
            h,
            Err(
                Fault::Text(
                    "TypeError: Object.defineProperties called with non-object descriptors"@,
                ),
            ),
        ),
        JsValue::Object(p) => {
            let (h1, keys) = own_keys(h, p);
            let h2 = with_field_names(h1);
            match collected(h2, p, keys, keys.len() as int) {
                (h3, Err(f)) => (h3, Err(f)),
                (h3, Ok(pairs)) => define_pairs(h3, o, pairs, pairs.len() as int),
            }
        },
        _ => (h, Ok(())),
    }
}

proof fn lemma_collected_err(h: HeapModel, props: usize, keys: Seq<PropKey>, k: int, n: int)
    requires
        0 <= k <= n,
    ensures
        collected(h, props, keys, k).1 is Err ==> collected(h, props, keys, n) == collected(
            h,
            props,
            keys,
            k,
        ),
    decreases n - k,
{
    if k < n {
        lemma_collected_err(h, props, keys, k, n - 1);
    }
}

proof fn lemma_define_pairs_err(
    h: HeapModel,
    o: usize,
    pairs: Seq<(PropKey, FullDescriptor)>,
    k: int,
    n: int,
)
    requires
        0 <= k <= n,
    ensures
        define_pairs(h, o, pairs, k).1 is Err ==> define_pairs(h, o, pairs, n) == define_pairs(
            h,
            o,
            pairs,
            k,
        ),
    decreases n - k,
{
    if k < n {
        lemma_define_pairs_err(h, o, pairs, k, n - 1);
    }
}

/// Reads the descriptors of the enumerable properties of an object.
fn collect_descriptors(
    heap: &mut Heap,
    names: &Vec<usize>,
    props: usize,
    keys: &Vec<PropKey>,
) -> (r: Result<Vec<(PropKey, FullDescriptor)>, Throw>)
    requires
        old(heap).wf(),
        props < old(heap)@.objects.len(),
        are_names(old(heap)@, names@, 6),
        forall|i: int| 0 <= i < keys@.len() ==> old(heap)@.valid_key(#[trigger] keys@[i]),
    ensures
        final(heap).wf(),
        old(heap)@.keeps(final(heap)@),
        ({
            let (h, x) = collected(old(heap)@, props, keys@, keys@.len() as int);
            final(heap)@ == h && match x {
                Ok(pairs) => r is Ok && r->Ok_0@ == pairs && forall|i: int|
                    0 <= i < pairs.len() ==> h.valid_key((#[trigger] pairs[i]).0)
                        && pairs[i].1.valid(h),
                Err(f) => r is Err && is_fault(r->Err_0, f),
            }
        }),
{
    let ghost h = heap@;
    let mut pairs: Vec<(PropKey, FullDescriptor)> = Vec::new();
    let mut i: usize = 0;
    while i < keys.len()
        invariant
            heap.wf(),
            h == old(heap)@,
            h.keeps(heap@),
            props < heap@.objects.len(),
            are_names(heap@, names@, 6),
            forall|i: int| 0 <= i < keys@.len() ==> heap@.valid_key(#[trigger] keys@[i]),
            i <= keys@.len(),
            collected(h, props, keys@, i as int) == (
                heap@,
                Ok::<Seq<(PropKey, FullDescriptor)>, Fault>(pairs@),
            ),
            forall|i: int|
                0 <= i < pairs@.len() ==> heap@.valid_key((#[trigger] pairs@[i]).0)
                    && pairs@[i].1.valid(heap@),
        decreases keys@.len() - i,
    {
        let key: PropKey = keys[i];
        let ghost before = heap@;
        proof {
            lemma_collected_err(h, props, keys@, i + 1, keys@.len() as int);
        }
        if descriptor_enumerable(heap, props, key) {
            let got: Result<JsValue, Throw> = fetch(heap, props, key);
            proof {
                lemma_keeps_chain(h, before, heap@);
            }
            let v: JsValue = match got {
                Ok(v) => v,
                Err(t) => {
                    return Err(t);
                },
            };
            let ghost mid = heap@;
            let read: Result<FullDescriptor, Throw> = to_property_descriptor(heap, names, v);
            proof {
                lemma_keeps_chain(h, mid, heap@);
            }
            match read {
                Ok(d) => {
                    pairs.push((key, d));
                },
                Err(t) => {
                    return Err(t);
                },
            }
            proof {
                assert forall|j: int| 0 <= j < pairs@.len() implies heap@.valid_key(
                    (#[trigger] pairs@[j]).0,
                ) && pairs@[j].1.valid(heap@) by {
                    if j < pairs@.len() - 1 {
                        assert(before.valid_key(pairs@[j].0) && pairs@[j].1.valid(before));
                    }
                }
                assert forall|j: int| 0 <= j < keys@.len() implies heap@.valid_key(
                    #[trigger] keys@[j],
                ) by {
                    assert(before.valid_key(keys@[j]));
                }
            }
        }
        i = i + 1;
    }
    Ok(pairs)
}

/// `ObjectDefineProperties`.
fn apply_define_properties(heap: &mut Heap, obj: usize, props: JsValue) -> (r: Result<(), Throw>)
    requires
        old(heap).wf(),
        obj < old(heap)@.objects.len(),
        old(heap)@.valid(props),
    ensures
        final(heap).wf(),
        ({
            let (h, x) = define_all(old(heap)@, obj, props);
            final(heap)@ == h && match x {
                Ok(_) => r is Ok,
                Err(f) => r is Err && is_fault(r->Err_0, f),
            }
        }),
        old(heap)@.within(final(heap)@),
{
    let ghost h0 = heap@;
    match props {
        JsValue::Undefined | JsValue::Null => {
            return Err(
                error("TypeError: Object.defineProperties called with non-object descriptors"),
            );
        },
        _ => {},
    }
    let p: usize = match props {
        JsValue::Object(p) => p,
        _ => {
            return Ok(());
        },
    };
    let keys: Vec<PropKey> = own_keys_ordered(heap, p);
    let ghost h1 = heap@;
    let names: Vec<usize> = intern_field_names(heap);
    let ghost h2 = heap@;
    proof {
        assert forall|i: int| 0 <= i < keys@.len() implies h2.valid_key(#[trigger] keys@[i]) by {
            assert(h1.valid_key(keys@[i]));
        }
    }
    let pairs: Vec<(PropKey, FullDescriptor)> = match collect_descriptors(heap, &names, p, &keys) {
        Ok(pairs) => pairs,
        Err(t) => {
            return Err(t);
        },
    };
    let ghost h3 = heap@;
    let mut i: usize = 0;
    while i < pairs.len()
        invariant
            heap.wf(),
            h0 == old(heap)@,
            obj < heap@.objects.len(),
            i <= pairs@.len(),
            define_pairs(h3, obj, pairs@, i as int) == (heap@, Ok::<(), Fault>(())),
            define_all(h0, obj, props) == define_pairs(h3, obj, pairs@, pairs@.len() as int),
            h3.within(heap@),
            h0.within(h3),
            forall|i: int|
                0 <= i < pairs@.len() ==> h3.valid_key((#[trigger] pairs@[i]).0)
                    && pairs@[i].1.valid(h3),
        decreases pairs@.len() - i,
    {
        let (key, d) = pairs[i];
        proof {
            assert(h3.valid_key(pairs@[i as int].0));
            lemma_define_pairs_err(h3, obj, pairs@, i + 1, pairs@.len() as int);
        }
        match define_checked(heap, obj, key, d) {
            Ok(_) => {},
            Err(t) => {
                return Err(t);
            },
        }
        i = i + 1;
    }
    Ok(())
}

/// What `Object.defineProperties` does.
pub open spec fn define_properties_result(h: HeapModel, args: Seq<JsValue>) -> (
    HeapModel,
    Result<JsValue, Fault>,
) {
    match arg_of(args, 0) {
        JsValue::Object(o) => match define_all(h, o, arg_of(args, 1)) {
            (h1, Ok(_)) => (h1, Ok(JsValue::Object(o))),
            (h1, Err(f)) => (h1, Err(f)),
        },
        _ => (h, Err(Fault::Text("TypeError: Object.defineProperties called on non-object"@))),
    }
}

/// `Object.defineProperties(obj, props)`.
pub fn object_define_properties(ctx: &mut Ctx, _this: JsValue, args: &[JsValue]) -> (r: Result<
    JsValue,
    Throw,
>)
    requires
        old(ctx).wf(),
        valid_args(old(ctx).heap@, args@),
    ensures
        ends_in(*old(ctx), *final(ctx), r, define_properties_result(old(ctx).heap@, args@)),
{
    let obj: usize = match arg(args, 0) {
        JsValue::Object(o) => o,
        _ => {
            return Err(error("TypeError: Object.defineProperties called on non-object"));
        },
    };
    match apply_define_properties(&mut ctx.heap, obj, arg(args, 1)) {
        Ok(_) => Ok(JsValue::Object(obj)),
        Err(t) => Err(t),
    }
}

/// What `Object.create` does.
pub open spec fn create_result(h: HeapModel, args: Seq<JsValue>) -> (
    HeapModel,
    Result<JsValue, Fault>,
) {
    let proto = match arg_of(args, 0) {
        JsValue::Null | JsValue::Undefined => Ok(None),
        JsValue::Object(p) => Ok(Some(p)),
        _ => Err(Fault::Text("TypeError: Object.create prototype must be object or null"@)),
    };
    match proto {
        Err(f) => (h, Err(f)),
        Ok(p) => {
            let o = h.objects.len() as usize;
            let h1 = h.with_new(ObjModel { prototype: p, ..plain_object(Kind::Ordinary) });
            if arg_of(args, 1) == JsValue::Undefined {
                (h1, Ok(JsValue::Object(o)))
            } else {
                match define_all(h1, o, arg_of(args, 1)) {
                    (h2, Ok(_)) => (h2, Ok(JsValue::Object(o))),
                    (h2, Err(f)) => (h2, Err(f)),
                }
            }
        },
    }
}

/// `Object.create(proto, properties)`.
pub fn object_create(ctx: &mut Ctx, _this: JsValue, args: &[JsValue]) -> (r: Result<JsValue, Throw>)
    requires
        old(ctx).wf(),
        valid_args(old(ctx).heap@, args@),
    ensures
        ends_in(*old(ctx), *final(ctx), r, create_result(old(ctx).heap@, args@)),
{
    let proto: Option<usize> = match arg(args, 0) {
        JsValue::Null | JsValue::Undefined => None,
        JsValue::Object(p) => Some(p),
        _ => {
            return Err(error("TypeError: Object.create prototype must be object or null"));
        },
    };
    let ghost h = ctx.heap@;
    let mut fresh: JsObject = JsObject::plain(Kind::Ordinary);
    fresh.prototype = proto;
    proof {
        assert(fresh@ == ObjModel { prototype: proto, ..plain_object(Kind::Ordinary) });
    }
    let obj: usize = ctx.alloc_obj(fresh);
    let props: JsValue = arg(args, 1);
    if props == JsValue::Undefined {
        return Ok(JsValue::Object(obj));
    }
    match apply_define_properties(&mut ctx.heap, obj, props) {
        Ok(_) => Ok(JsValue::Object(obj)),
        Err(t) => Err(t),
    }
}

// ---------------------------------------------------------------------------
// __defineGetter__ and __defineSetter__
// ---------------------------------------------------------------------------

/// What defining one half of an accessor does.
pub open spec fn define_half_result(
    h: HeapModel,
    this: JsValue,
    args: Seq<JsValue>,
    getter: bool,
) -> (HeapModel, Result<JsValue, Fault>) {
    match this {
        JsValue::Object(o) => {
            let (h1, key) = to_key(h, arg_of(args, 0));
            let f = arg_of(args, 1);
            if !is_callable(h1, f) {
                (
                    h1,
                    Err(
                        Fault::Text(
                            if getter {
                                "TypeError: Object.prototype.__defineGetter__ called with a non-callable"@
                            } else {
                                "TypeError: Object.prototype.__defineSetter__ called with a non-callable"@
                            },
                        ),
                    ),
                )
            } else {
                let base = FullDescriptor {
                    enumerable: Some(true),
                    configurable: Some(true),
                    ..no_fields()
                };
                let d = if getter {
                    FullDescriptor { get: Some(f), ..base }
                } else {
                    FullDescriptor { set: Some(f), ..base }
                };
                match define_or_throw(h1, o, key, d) {
                    (h2, Ok(_)) => (h2, Ok(JsValue::Undefined)),
                    (h2, Err(e)) => (h2, Err(e)),
                }
            }
        },
        _ => (h, Err(Fault::Text("TypeError: called on non-object"@))),
    }
}

/// Defines one half of an accessor, enumerable and configurable.
fn object_proto_define_accessor(ctx: &mut Ctx, this: JsValue, args: &[JsValue], getter: bool) -> (r:
    Result<JsValue, Throw>)
    requires
        old(ctx).wf(),
        old(ctx).heap@.valid(this),
        valid_args(old(ctx).heap@, args@),
    ensures
        ends_in(
            *old(ctx),
            *final(ctx),
            r,
            define_half_result(old(ctx).heap@, this, args@, getter),
        ),
{
    let obj: usize = match this {
        JsValue::Object(o) => o,
        _ => {
            return Err(error("TypeError: called on non-object"));
        },
    };
    let key: PropKey = ctx.property_key(arg(args, 0));
    let f: JsValue = arg(args, 1);
    let callable: bool = match f {
        JsValue::Object(k) => ctx.heap.object(k).kind == Kind::Function,
        _ => false,
    };
    if !callable {
        if getter {
            return Err(
                error("TypeError: Object.prototype.__defineGetter__ called with a non-callable"),
            );
        }
        return Err(
            error("TypeError: Object.prototype.__defineSetter__ called with a non-callable"),
        );
    }
    let mut d: FullDescriptor = FullDescriptor::default();
    d.enumerable = Some(true);
    d.configurable = Some(true);
    if getter {
        d.get = Some(f);
    } else {
        d.set = Some(f);
    }
    match define_checked(&mut ctx.heap, obj, key, d) {
        Ok(_) => Ok(JsValue::Undefined),
        Err(t) => Err(t),
    }
}

/// `Object.prototype.__defineGetter__(key, getter)`.
pub fn object_proto_define_getter(ctx: &mut Ctx, this: JsValue, args: &[JsValue]) -> (r: Result<
    JsValue,
    Throw,
>)
    requires
        old(ctx).wf(),
        old(ctx).heap@.valid(this),
        valid_args(old(ctx).heap@, args@),
    ensures
        ends_in(*old(ctx), *final(ctx), r, define_half_result(old(ctx).heap@, this, args@, true)),
{
    object_proto_define_accessor(ctx, this, args, true)
}

/// `Object.prototype.__defineSetter__(key, setter)`.
pub fn object_proto_define_setter(ctx: &mut Ctx, this: JsValue, args: &[JsValue]) -> (r: Result<
    JsValue,
    Throw,
>)
    requires
        old(ctx).wf(),
        old(ctx).heap@.valid(this),
        valid_args(old(ctx).heap@, args@),
    ensures
        ends_in(*old(ctx), *final(ctx), r, define_half_result(old(ctx).heap@, this, args@, false)),
{
    object_proto_define_accessor(ctx, this, args, false)
}

// ---------------------------------------------------------------------------
// Freezing and sealing
// ---------------------------------------------------------------------------

/// The descriptor that closes a property: it may not be redefined, and where `frozen`
/// is set a value may not change.
pub open spec fn closing(h: HeapModel, o: usize, key: PropKey, frozen: bool) -> FullDescriptor {
    let accessor = match lookup(h.objects[o as int].named.list, key) {
        Some(p) => p.body is Accessor,
        None => false,
    };
    FullDescriptor {
        configurable: Some(false),
        writable: if frozen && !accessor {
            Some(false)
        } else {
            None
        },
        ..no_fields()
    }
}

/// The heap with the properties of an object under the first `k` keys closed.
pub open spec fn closed_keys(
    h: HeapModel,
    o: usize,
    keys: Seq<PropKey>,
    k: int,
    frozen: bool,
) -> Result<HeapModel, Fault>
    decreases k,
{
    if k <= 0 {
        Ok(h)
    } else {
        match closed_keys(h, o, keys, k - 1, frozen) {
            Err(f) => Err(f),
            Ok(h1) => match applied(h1, o, keys[k - 1], closing(h1, o, keys[k - 1], frozen)) {
                Err(f) => Err(f),
                Ok((h2, _)) => Ok(h2),
            },
        }
    }
}

/// An object closed against new properties, at a level.
pub open spec fn closed_object(m: ObjModel, frozen: bool) -> ObjModel {
    ObjModel {
        extensible: false,
        integrity: if frozen || m.integrity == Integrity::Frozen {
            Integrity::Frozen
        } else {
            Integrity::Sealed
        },
        ..m
    }
}

/// What freezing or sealing does: anything but an object is left as it is.
pub open spec fn integrity_result(h: HeapModel, v: JsValue, frozen: bool) -> (
    HeapModel,
    Result<JsValue, Fault>,
) {
    match v {
        JsValue::Object(o) => {
            let (h1, keys) = own_keys(h, o);
            let h2 = h1.with_object(o, closed_object(h1.objects[o as int], frozen));
            match closed_keys(h2, o, keys, keys.len() as int, frozen) {
                Ok(h3) => (h3, Ok(v)),
                Err(f) => (h2, Err(f)),
            }
        },
        _ => (h, Ok(v)),
    }
}

proof fn lemma_closed_keys_err(
    h: HeapModel,
    o: usize,
    keys: Seq<PropKey>,
    k: int,
    n: int,
    frozen: bool,
)
    requires
        0 <= k <= n,
    ensures
        closed_keys(h, o, keys, k, frozen) is Err ==> closed_keys(h, o, keys, n, frozen)
            == closed_keys(h, o, keys, k, frozen),
    decreases n - k,
{
    if k < n {
        lemma_closed_keys_err(h, o, keys, k, n - 1, frozen);
    }
}

/// Closes an object against new properties, at a level.
fn close_object(heap: &mut Heap, obj: usize, frozen: bool)
    requires
        old(heap).wf(),
        obj < old(heap)@.objects.len(),
    ensures
        final(heap).wf(),
        final(heap)@ == old(heap)@.with_object(
            obj,
            closed_object(old(heap)@.objects[obj as int], frozen),
        ),
{
    let ghost h = heap@;
    let o = heap.object_mut(obj);
    proof {
        assert(h.valid_refs(closed_object(h.objects[obj as int], frozen)));
    }
    o.extensible = false;
    if frozen || o.integrity == Integrity::Frozen {
        o.integrity = Integrity::Frozen;
    } else {
        o.integrity = Integrity::Sealed;
    }
}

/// Freezes or seals.
fn set_integrity(ctx: &mut Ctx, v: JsValue, frozen: bool) -> (r: Result<JsValue, Throw>)
    requires
        old(ctx).wf(),
        old(ctx).heap@.valid(v),
    ensures
        ends_in(*old(ctx), *final(ctx), r, integrity_result(old(ctx).heap@, v, frozen)),
{
    let obj: usize = match v {
        JsValue::Object(o) => o,
        _ => {
            return Ok(v);
        },
    };
    let keys: Vec<PropKey> = own_keys_ordered(&mut ctx.heap, obj);
    close_object(&mut ctx.heap, obj, frozen);
    let ghost h2 = ctx.heap@;
    let mut i: usize = 0;
    while i < keys.len()
        invariant
            ctx.wf(),
            ctx.global == old(ctx).global,
            ctx.pending == old(ctx).pending,
            obj < ctx.heap@.objects.len(),
            v == JsValue::Object(obj),
            i <= keys@.len(),
            h2.within(ctx.heap@),
            integrity_result(old(ctx).heap@, v, frozen) == (match closed_keys(
                h2,
                obj,
                keys@,
                keys@.len() as int,
                frozen,
            ) {
                Ok(h3) => (h3, Ok::<JsValue, Fault>(v)),
                Err(f) => (h2, Err::<JsValue, Fault>(f)),
            }),
            closed_keys(h2, obj, keys@, i as int, frozen) == Ok::<HeapModel, Fault>(ctx.heap@),
            is_proxy(ctx.heap@, obj) == is_proxy(h2, obj),
            is_proxy(h2, obj) ==> ctx.heap@ == h2,
            forall|i: int| 0 <= i < keys@.len() ==> h2.valid_key(#[trigger] keys@[i]),
        decreases keys@.len() - i,
    {
        let key: PropKey = keys[i];
        proof {
            assert(h2.valid_key(keys@[i as int]));
            lemma_closed_keys_err(h2, obj, keys@, i + 1, keys@.len() as int, frozen);
        }
        let accessor: bool = match ctx.heap.object(obj).named.get(key) {
            Some(p) => match p.body {
                PropBody::Accessor(_, _) => true,
                PropBody::Data(_) => false,
            },
            None => false,
        };
        let mut d: FullDescriptor = FullDescriptor::default();
        d.configurable = Some(false);
        if frozen && !accessor {
            d.writable = Some(false);
        }
        match apply_property_descriptor(&mut ctx.heap, obj, key, d) {
            Ok(_) => {},
            Err(t) => {
                return Err(t);
            },
        }
        i = i + 1;
    }
    Ok(v)
}

/// `Object.freeze(obj)`.
pub fn object_freeze(ctx: &mut Ctx, _this: JsValue, args: &[JsValue]) -> (r: Result<JsValue, Throw>)
    requires
        old(ctx).wf(),
        valid_args(old(ctx).heap@, args@),
    ensures
        ends_in(*old(ctx), *final(ctx), r, integrity_result(old(ctx).heap@, arg_of(args@, 0), true)),
{
    set_integrity(ctx, arg(args, 0), true)
}

/// `Object.seal(obj)`.
pub fn object_seal(ctx: &mut Ctx, _this: JsValue, args: &[JsValue]) -> (r: Result<JsValue, Throw>)
    requires
        old(ctx).wf(),
        valid_args(old(ctx).heap@, args@),
    ensures
        ends_in(*old(ctx), *final(ctx), r, integrity_result(old(ctx).heap@, arg_of(args@, 0), false)),
{
    set_integrity(ctx, arg(args, 0), false)
}

} // verus!
