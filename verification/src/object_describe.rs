//! `Object` functions that describe properties by descriptor objects.
use vstd::prelude::*;

use crate::convert::{error3, int_value, smi_or_f64};
use crate::ctx::{Ctx, Intrinsic, arg, arg_of, ctor_proto, to_key, valid_args};
use crate::descriptor::{Fault, half_value};
use crate::heap::{Heap, HeapModel, JsObject, ObjModel, lemma_text_id, plain_object};
use crate::internal_methods::{
    PropertyDescriptor, define_own, keyed_element, ordinary_define_own_property,
};
use crate::json_text::{array_index, array_index_of};
use crate::key_order::{is_live, own_keys, own_keys_ordered};
use crate::object_define::{
    are_names, ends_in, field_key, field_name, intern_field_names, with_field_names,
};
use crate::object_list::{intern_index, not_coercible};
use crate::properties::{Named, Prop, PropBody, Properties, lookup};
use crate::text::{char_units, nat_text, same_units, utf16, utf16_of};
use crate::value::{Attrs, JsValue, Kind, PropKey, Throw, all_attrs};

verus! {

// ---------------------------------------------------------------------------
// Descriptor objects
// ---------------------------------------------------------------------------

/// A field of a descriptor object.
pub open spec fn field_prop(h: HeapModel, k: int, v: JsValue) -> Prop {
    Prop { key: field_key(h, k), attrs: all_attrs(), body: PropBody::Data(v) }
}

/// The fields of the object that describes a property.
pub open spec fn description(h: HeapModel, p: Prop) -> Seq<Prop> {
    match p.body {
        PropBody::Data(v) => seq![
            field_prop(h, 0, v),
            field_prop(h, 1, JsValue::Bool(p.attrs.writable)),
            field_prop(h, 2, JsValue::Bool(p.attrs.enumerable)),
            field_prop(h, 3, JsValue::Bool(p.attrs.configurable)),
        ],
        PropBody::Accessor(g, s) => seq![
            field_prop(h, 4, half_value(g)),
            field_prop(h, 5, half_value(s)),
            field_prop(h, 2, JsValue::Bool(p.attrs.enumerable)),
            field_prop(h, 3, JsValue::Bool(p.attrs.configurable)),
        ],
    }
}

/// The heap with an object that describes a property: its value or its accessor, and
/// its attributes.
pub open spec fn described(h: HeapModel, p: Prop) -> HeapModel {
    let h1 = with_field_names(h);
    h1.with_new(
        ObjModel {
            named: Named { list: description(h1, p), base: 4, spilled: false },
            ..plain_object(Kind::Ordinary)
        },
    )
}

/// ASCII characters are their own units.
pub proof fn lemma_ascii_units(s: Seq<char>)
    requires
        forall|i: int| 0 <= i < s.len() ==> 0 <= (#[trigger] s[i] as int) < 0x80,
    ensures
        utf16_of(s).len() == s.len(),
        forall|i: int| 0 <= i < s.len() ==> (#[trigger] utf16_of(s)[i]) as int == s[i] as int,
    decreases s.len(),
{
    if s.len() > 0 {
        let d = s.drop_last();
        assert forall|i: int| 0 <= i < d.len() implies 0 <= (#[trigger] d[i] as int) < 0x80 by {
            assert(d[i] == s[i]);
        }
        lemma_ascii_units(d);
        assert(s[s.len() - 1] == s.last());
        assert(0 <= (s.last() as int) < 0x80);
        assert(char_units(s.last()).len() == 1);
        assert forall|i: int| 0 <= i < s.len() implies (#[trigger] utf16_of(s)[i]) as int
            == s[i] as int by {
            if i < d.len() {
                assert(utf16_of(d)[i] as int == d[i] as int);
            }
        }
    }
}

/// No two fields have one name.
proof fn lemma_field_names_differ(i: int, j: int)
    requires
        0 <= i < 6,
        0 <= j < 6,
        i != j,
    ensures
        utf16_of(field_name(i)) != utf16_of(field_name(j)),
{
    reveal_strlit("value");
    reveal_strlit("writable");
    reveal_strlit("enumerable");
    reveal_strlit("configurable");
    reveal_strlit("get");
    reveal_strlit("set");
    lemma_ascii_units("value"@);
    lemma_ascii_units("writable"@);
    lemma_ascii_units("enumerable"@);
    lemma_ascii_units("configurable"@);
    lemma_ascii_units("get"@);
    lemma_ascii_units("set"@);
    assert(utf16_of("get"@)[0] as int == 'g' as int);
    assert(utf16_of("set"@)[0] as int == 's' as int);
}

/// Appends a field to the properties of a descriptor object.
fn push_field(named: &mut Properties, names: &Vec<usize>, k: usize, v: JsValue, heap: &Heap)
    requires
        heap.wf(),
        old(named).wf(),
        k < 6,
        are_names(heap@, names@, 6),
        !old(named)@.spilled,
        forall|i: int|
            0 <= i < old(named)@.list.len() ==> exists|j: int|
                0 <= j < 6 && j != k && (#[trigger] old(named)@.list[i]).key == PropKey::Text(
                    #[trigger] names@[j],
                ),
    ensures
        final(named).wf(),
        final(named)@ == (Named {
            list: old(named)@.list.push(field_prop(heap@, k as int, v)),
            base: old(named)@.base + 1,
            spilled: false,
        }),
        field_key(heap@, k as int) == PropKey::Text(names@[k as int]),
{
    let key: PropKey = PropKey::Text(names[k]);
    proof {
        heap.lemma_wf();
        lemma_text_id(heap@, names@[k as int] as int);
        assert forall|i: int| 0 <= i < named@.list.len() implies (#[trigger] named@.list[i]).key
            != key by {
            let j = choose|j: int|
                0 <= j < 6 && j != k && named@.list[i].key == PropKey::Text(#[trigger] names@[j]);
            lemma_field_names_differ(j, k as int);
        }
    }
    named.install(Prop { key, attrs: Attrs::all(), body: PropBody::Data(v) });
}

/// One half of an accessor as a value.
fn half_as_value(f: Option<usize>) -> (r: JsValue)
    ensures
        r == half_value(f),
{
    match f {
        Some(o) => JsValue::Object(o),
        None => JsValue::Undefined,
    }
}

/// Makes an object that describes a property.
pub fn describe(heap: &mut Heap, p: Prop) -> (r: usize)
    requires
        old(heap).wf(),
        match p.body {
            PropBody::Data(v) => old(heap)@.valid(v),
            PropBody::Accessor(g, s) => old(heap)@.valid_object(g) && old(heap)@.valid_object(s),
        },
    ensures
        final(heap).wf(),
        final(heap)@ == described(old(heap)@, p),
        r == old(heap)@.objects.len(),
        r < final(heap)@.objects.len(),
        old(heap)@.extends_to(final(heap)@, old(heap)@.objects.len() as int),
{
    let ghost h = heap@;
    let names: Vec<usize> = intern_field_names(heap);
    let ghost h1 = heap@;
    let mut o: JsObject = JsObject::plain(Kind::Ordinary);
    match p.body {
        PropBody::Data(v) => {
            push_field(&mut o.named, &names, 0, v, heap);
            proof {
                assert(o.named@.list[0].key == PropKey::Text(names@[0]));
            }
            push_field(&mut o.named, &names, 1, JsValue::Bool(p.attrs.writable), heap);
            proof {
                assert(o.named@.list[0].key == PropKey::Text(names@[0]));
                assert(o.named@.list[1].key == PropKey::Text(names@[1]));
            }
        },
        PropBody::Accessor(g, s) => {
            push_field(&mut o.named, &names, 4, half_as_value(g), heap);
            proof {
                assert(o.named@.list[0].key == PropKey::Text(names@[4]));
            }
            push_field(&mut o.named, &names, 5, half_as_value(s), heap);
            proof {
                assert(o.named@.list[0].key == PropKey::Text(names@[4]));
                assert(o.named@.list[1].key == PropKey::Text(names@[5]));
            }
        },
    }
    let ghost list2 = o.named@.list;
    push_field(&mut o.named, &names, 2, JsValue::Bool(p.attrs.enumerable), heap);
    proof {
        assert(o.named@.list[0] == list2[0]);
        assert(o.named@.list[1] == list2[1]);
        assert(o.named@.list[2].key == PropKey::Text(names@[2]));
    }
    push_field(&mut o.named, &names, 3, JsValue::Bool(p.attrs.configurable), heap);
    proof {
        assert(o.named@.list =~= description(h1, p));
        assert(o@ == ObjModel {
            named: Named { list: description(h1, p), base: 4, spilled: false },
            ..plain_object(Kind::Ordinary)
        });
        assert forall|i: int| 0 <= i < o@.named.list.len() implies h1.valid_prop(
            #[trigger] o@.named.list[i],
        ) by {
            assert(names@[0] < h1.texts.len());
            assert(names@[1] < h1.texts.len());
            assert(names@[2] < h1.texts.len());
            assert(names@[3] < h1.texts.len());
            assert(names@[4] < h1.texts.len());
            assert(names@[5] < h1.texts.len());
        }
        assert(h1.valid_refs(o@));
    }
    heap.allocate(o)
}

/// The own property that a key names; an element has all attributes.
pub open spec fn own_prop(h: HeapModel, o: usize, key: PropKey) -> Option<Prop> {
    match keyed_element(h, o, key) {
        Some(v) => Some(Prop { key, attrs: all_attrs(), body: PropBody::Data(v) }),
        None => match lookup(h.objects[o as int].named.list, key) {
            Some(p) => if is_live(p) {
                Some(p)
            } else {
                None
            },
            None => None,
        },
    }
}

/// The object that describes an own property, and the heap that holds it.
pub open spec fn described_own(h: HeapModel, o: usize, key: PropKey) -> (HeapModel, Option<JsValue>) {
    match own_prop(h, o, key) {
        Some(p) => (described(h, p), Some(JsValue::Object(h.objects.len() as usize))),
        None => (h, None),
    }
}

/// The own property that a key names.
pub fn own_property_of(heap: &Heap, obj: usize, key: PropKey) -> (r: Option<Prop>)
    requires
        heap.wf(),
        obj < heap@.objects.len(),
        heap@.valid_key(key),
    ensures
        r == own_prop(heap@, obj, key),
        r matches Some(p) ==> heap@.valid_prop(p),
{
    match crate::internal_methods::element_of_key(heap, obj, key) {
        Some(v) => {
            return Some(Prop { key, attrs: Attrs::all(), body: PropBody::Data(v) });
        },
        None => {},
    }
    let o: &JsObject = heap.object(obj);
    match o.named.get(key) {
        Some(p) => {
            proof {
                crate::internal_methods::lemma_lookup_key(o@.named.list, key);
                assert(heap@.valid_prop(p));
            }
            if p.body == PropBody::Data(JsValue::Hole) {
                None
            } else {
                Some(p)
            }
        },
        None => None,
    }
}

/// Makes an object that describes an own property; `None` where there is none.
pub fn build_descriptor_object(heap: &mut Heap, obj: usize, key: PropKey) -> (r: Option<JsValue>)
    requires
        old(heap).wf(),
        obj < old(heap)@.objects.len(),
        old(heap)@.valid_key(key),
    ensures
        final(heap).wf(),
        (final(heap)@, r) == described_own(old(heap)@, obj, key),
        old(heap)@.extends_to(final(heap)@, old(heap)@.objects.len() as int),
        r matches Some(v) ==> final(heap)@.valid(v),
{
    proof {
        assert(heap@.texts.is_prefix_of(heap@.texts));
    }
    match own_property_of(heap, obj, key) {
        Some(p) => Some(JsValue::Object(describe(heap, p))),
        None => None,
    }
}

// ---------------------------------------------------------------------------
// Texts as objects
// ---------------------------------------------------------------------------

/// The array index that a key spells.
pub open spec fn key_array_index(h: HeapModel, key: PropKey) -> Option<u32> {
    match key {
        PropKey::Text(n) => array_index_of(h.texts[n as int]),
        PropKey::Symbol(_) => None,
    }
}

/// Attributes of the properties of a text.
pub open spec fn text_attrs(enumerable: bool) -> Attrs {
    Attrs { writable: false, enumerable, configurable: false }
}

/// The object that describes a property of a value that is no object: the units and the
/// length of a text; `undefined` where there is none.
pub open spec fn primitive_described(h: HeapModel, v: JsValue, key: PropKey) -> (HeapModel, JsValue) {
    match v {
        JsValue::Text(n) => {
            let t = h.texts[n as int];
            if key is Text && h.texts[key->Text_0 as int] == utf16_of("length"@) {
                (
                    described(
                        h,
                        Prop {
                            key,
                            attrs: text_attrs(false),
                            body: PropBody::Data(int_value(t.len() as int)),
                        },
                    ),
                    JsValue::Object(h.objects.len() as usize),
                )
            } else {
                match key_array_index(h, key) {
                    Some(i) => if i < t.len() {
                        let u = seq![t[i as int]];
                        (
                            described(
                                h.interned(u),
                                Prop {
                                    key,
                                    attrs: text_attrs(true),
                                    body: PropBody::Data(JsValue::Text(h.text_id(u))),
                                },
                            ),
                            JsValue::Object(h.objects.len() as usize),
                        )
                    } else {
                        (h, JsValue::Undefined)
                    },
                    None => (h, JsValue::Undefined),
                }
            }
        },
        _ => (h, JsValue::Undefined),
    }
}

/// Makes the object that describes a property of a value that is no object.
fn primitive_descriptor(heap: &mut Heap, v: JsValue, key: PropKey) -> (r: JsValue)
    requires
        old(heap).wf(),
        old(heap)@.valid(v),
        old(heap)@.valid_key(key),
        v matches JsValue::Text(n) ==> old(heap)@.texts[n as int].len() <= i64::MAX,
    ensures
        final(heap).wf(),
        (final(heap)@, r) == primitive_described(old(heap)@, v, key),
        old(heap)@.extends_to(final(heap)@, old(heap)@.objects.len() as int),
        final(heap)@.valid(r),
{
    let ghost h = heap@;
    proof {
        assert(h.texts.is_prefix_of(h.texts));
    }
    let n: usize = match v {
        JsValue::Text(n) => n,
        _ => {
            return JsValue::Undefined;
        },
    };
    let id: usize = match key {
        PropKey::Text(k) => k,
        PropKey::Symbol(_) => {
            return JsValue::Undefined;
        },
    };
    let len: usize = heap.text(n).len();
    if same_units(heap.text(id).as_slice(), utf16("length").as_slice()) {
        let p: Prop = Prop {
            key,
            attrs: Attrs::new(false, false, false),
            body: PropBody::Data(smi_or_f64(len as i64)),
        };
        return JsValue::Object(describe(heap, p));
    }
    match array_index(heap.text(id).as_slice()) {
        Some(i) => {
            if (i as usize) >= len {
                return JsValue::Undefined;
            }
            let mut one: Vec<u16> = Vec::new();
            one.push(heap.text(n)[i as usize]);
            proof {
                assert(one@ =~= seq![h.texts[n as int][i as int]]);
            }
            let u: usize = heap.intern(one.as_slice());
            let ghost h1 = heap@;
            let p: Prop = Prop {
                key,
                attrs: Attrs::new(false, true, false),
                body: PropBody::Data(JsValue::Text(u)),
            };
            let d: usize = describe(heap, p);
            proof {
                assert(h.texts.is_prefix_of(heap@.texts));
            }
            JsValue::Object(d)
        },
        None => JsValue::Undefined,
    }
}

/// What `Object.getOwnPropertyDescriptor` does.
pub open spec fn descriptor_result(h: HeapModel, v: JsValue, k: JsValue) -> (
    HeapModel,
    Result<JsValue, Fault>,
) {
    if v == JsValue::Undefined || v == JsValue::Null {
        (h, Err(Fault::Text(not_coercible("getOwnPropertyDescriptor"@))))
    } else {
        let (h1, key) = to_key(h, k);
        match v {
            JsValue::Object(o) => match described_own(h1, o, key) {
                (h2, Some(d)) => (h2, Ok(d)),
                (h2, None) => (h2, Ok(JsValue::Undefined)),
            },
            _ => {
                let (h2, d) = primitive_described(h1, v, key);
                (h2, Ok(d))
            },
        }
    }
}

/// Whether a text has a length that fits into 63 bits.
pub open spec fn countable(h: HeapModel, v: JsValue) -> bool {
    v matches JsValue::Text(n) ==> h.texts[n as int].len() <= i64::MAX
}

/// `Object.getOwnPropertyDescriptor(value, key)`.
pub fn object_get_own_property_descriptor(ctx: &mut Ctx, _this: JsValue, args: &[JsValue]) -> (r:
    Result<JsValue, Throw>)
    requires
        old(ctx).wf(),
        valid_args(old(ctx).heap@, args@),
        countable(old(ctx).heap@, arg_of(args@, 0)),
    ensures
        ends_in(
            *old(ctx),
            *final(ctx),
            r,
            descriptor_result(old(ctx).heap@, arg_of(args@, 0), arg_of(args@, 1)),
        ),
{
    let v: JsValue = arg(args, 0);
    if v == JsValue::Undefined || v == JsValue::Null {
        return Err(
            error3("TypeError: Object.", "getOwnPropertyDescriptor", " called on non-object"),
        );
    }
    let key: PropKey = ctx.property_key(arg(args, 1));
    match v {
        JsValue::Object(o) => match build_descriptor_object(&mut ctx.heap, o, key) {
            Some(d) => Ok(d),
            None => Ok(JsValue::Undefined),
        },
        _ => Ok(primitive_descriptor(&mut ctx.heap, v, key)),
    }
}

// ---------------------------------------------------------------------------
// getOwnPropertyDescriptors
// ---------------------------------------------------------------------------

/// The descriptor of a property that holds a value and has all attributes.
pub open spec fn plain_data(v: JsValue) -> PropertyDescriptor {
    PropertyDescriptor { value: Some(v), writable: true, enumerable: true, configurable: true }
}

/// The heap with a property on an object.
pub open spec fn with_own(h: HeapModel, o: usize, key: PropKey, v: JsValue) -> HeapModel {
    h.with_object(o, define_own(h, o, key, plain_data(v)).0)
}

/// The heap with the descriptions of the properties under the first `k` keys on an
/// object.
pub open spec fn with_descriptions(
    h: HeapModel,
    result: usize,
    o: usize,
    keys: Seq<PropKey>,
    k: int,
) -> HeapModel
    decreases k,
{
    if k <= 0 {
        h
    } else {
        let h1 = with_descriptions(h, result, o, keys, k - 1);
        match described_own(h1, o, keys[k - 1]) {
            (h2, Some(d)) => with_own(h2, result, keys[k - 1], d),
            (h2, None) => h2,
        }
    }
}

/// The heap with the descriptions of the first `k` units of a text on an object.
pub open spec fn with_unit_descriptions(h: HeapModel, result: usize, v: JsValue, k: int) -> HeapModel
    decreases k,
{
    if k <= 0 {
        h
    } else {
        let h1 = with_unit_descriptions(h, result, v, k - 1);
        let key = PropKey::Text(h1.text_id(nat_text((k - 1) as nat)));
        let (h2, d) = primitive_described(h1.interned(nat_text((k - 1) as nat)), v, key);
        if d == JsValue::Undefined {
            h2
        } else {
            with_own(h2, result, key, d)
        }
    }
}

/// What `Object.getOwnPropertyDescriptors` does.
pub open spec fn descriptors_result(h: HeapModel, global: Option<usize>, v: JsValue) -> (
    HeapModel,
    Result<JsValue, Fault>,
) {
    if v == JsValue::Undefined || v == JsValue::Null {
        (h, Err(Fault::Text(not_coercible("getOwnPropertyDescriptors"@))))
    } else {
        let result = h.objects.len() as usize;
        let h1 = h.with_new(
            ObjModel { prototype: ctor_proto(h, global, 0), ..plain_object(Kind::Ordinary) },
        );
        match v {
            JsValue::Object(o) => {
                let (h2, keys) = own_keys(h1, o);
                (
                    with_descriptions(h2, result, o, keys, keys.len() as int),
                    Ok(JsValue::Object(result)),
                )
            },
            JsValue::Text(n) => {
                let h2 = with_unit_descriptions(h1, result, v, h.texts[n as int].len() as int);
                let key = PropKey::Text(h2.text_id(utf16_of("length"@)));
                let (h3, d) = primitive_described(h2.interned(utf16_of("length"@)), v, key);
                (with_own(h3, result, key, d), Ok(JsValue::Object(result)))
            },
            _ => (h1, Ok(JsValue::Object(result))),
        }
    }
}

/// Puts a property on an object.
fn put_own(heap: &mut Heap, obj: usize, key: PropKey, v: JsValue)
    requires
        old(heap).wf(),
        obj < old(heap)@.objects.len(),
        old(heap)@.valid_key(key),
        old(heap)@.valid(v),
    ensures
        final(heap).wf(),
        final(heap)@ == with_own(old(heap)@, obj, key, v),
{
    let d: PropertyDescriptor = PropertyDescriptor {
        value: Some(v),
        writable: true,
        enumerable: true,
        configurable: true,
    };
    let _ = ordinary_define_own_property(heap, obj, key, d);
}

/// Describes the properties under the given keys on an object.
fn describe_keys(heap: &mut Heap, result: usize, obj: usize, keys: &Vec<PropKey>)
    requires
        old(heap).wf(),
        result < old(heap)@.objects.len(),
        obj < old(heap)@.objects.len(),
        forall|i: int| 0 <= i < keys@.len() ==> old(heap)@.valid_key(#[trigger] keys@[i]),
    ensures
        final(heap).wf(),
        final(heap)@ == with_descriptions(old(heap)@, result, obj, keys@, keys@.len() as int),
        old(heap)@.within(final(heap)@),
{
    let ghost h = heap@;
    let mut i: usize = 0;
    while i < keys.len()
        invariant
            heap.wf(),
            result < heap@.objects.len(),
            obj < heap@.objects.len(),
            h.within(heap@),
            forall|i: int| 0 <= i < keys@.len() ==> h.valid_key(#[trigger] keys@[i]),
            i <= keys@.len(),
            heap@ == with_descriptions(h, result, obj, keys@, i as int),
        decreases keys@.len() - i,
    {
        let key: PropKey = keys[i];
        proof {
            assert(h.valid_key(keys@[i as int]));
        }
        match build_descriptor_object(heap, obj, key) {
            Some(d) => {
                put_own(heap, result, key, d);
            },
            None => {},
        }
        i = i + 1;
    }
}

/// Describes the units and the length of a text on an object.
fn describe_text(heap: &mut Heap, result: usize, v: JsValue, len: usize)
    requires
        old(heap).wf(),
        result < old(heap)@.objects.len(),
        v matches JsValue::Text(n) && n < old(heap)@.texts.len() && old(heap)@.texts[n as int].len() == len,
        len <= i64::MAX,
    ensures
        final(heap).wf(),
        final(heap)@ == ({
            let h2 = with_unit_descriptions(old(heap)@, result, v, len as int);
            let key = PropKey::Text(h2.text_id(utf16_of("length"@)));
            let (h3, d) = primitive_described(h2.interned(utf16_of("length"@)), v, key);
            with_own(h3, result, key, d)
        }),
        old(heap)@.within(final(heap)@),
{
    let ghost h = heap@;
    let mut i: usize = 0;
    proof {
        assert(h.texts.is_prefix_of(h.texts));
    }
    while i < len
        invariant
            heap.wf(),
            result < heap@.objects.len(),
            v is Text,
            v->Text_0 < h.texts.len(),
            h.texts[v->Text_0 as int].len() == len,
            len <= i64::MAX,
            h.texts.is_prefix_of(heap@.texts),
            h.within(heap@),
            i <= len,
            heap@ == with_unit_descriptions(h, result, v, i as int),
        decreases len - i,
    {
        let ghost before = heap@;
        let id: usize = intern_index(heap, i as u64);
        let ghost h1 = heap@;
        proof {
            assert(h.texts.is_prefix_of(h1.texts));
            assert(h1.texts[v->Text_0 as int] == h.texts[v->Text_0 as int]);
        }
        let key: PropKey = PropKey::Text(id);
        let d: JsValue = primitive_descriptor(heap, v, key);
        proof {
            assert(h.texts.is_prefix_of(heap@.texts));
        }
        if d != JsValue::Undefined {
            put_own(heap, result, key, d);
        }
        i = i + 1;
    }
    let ghost h2 = heap@;
    let id: usize = heap.intern_text("length");
    proof {
        assert(h2.texts.is_prefix_of(heap@.texts));
        assert(heap@.texts[v->Text_0 as int] == h.texts[v->Text_0 as int]);
    }
    let key: PropKey = PropKey::Text(id);
    let d: JsValue = primitive_descriptor(heap, v, key);
    put_own(heap, result, key, d);
}

/// `Object.getOwnPropertyDescriptors(value)`.
pub fn object_get_own_property_descriptors(ctx: &mut Ctx, _this: JsValue, args: &[JsValue]) -> (r:
    Result<JsValue, Throw>)
    requires
        old(ctx).wf(),
        valid_args(old(ctx).heap@, args@),
        countable(old(ctx).heap@, arg_of(args@, 0)),
    ensures
        ends_in(
            *old(ctx),
            *final(ctx),
            r,
            descriptors_result(old(ctx).heap@, old(ctx).global, arg_of(args@, 0)),
        ),
{
    let v: JsValue = arg(args, 0);
    if v == JsValue::Undefined || v == JsValue::Null {
        return Err(
            error3("TypeError: Object.", "getOwnPropertyDescriptors", " called on non-object"),
        );
    }
    let mut fresh: JsObject = JsObject::plain(Kind::Ordinary);
    fresh.prototype = ctx.ctor_prototype(Intrinsic::ObjectCtor);
    proof {
        assert(fresh@ == ObjModel {
            prototype: ctor_proto(ctx.heap@, ctx.global, 0),
            ..plain_object(Kind::Ordinary)
        });
    }
    let result: usize = ctx.alloc_obj(fresh);
    match v {
        JsValue::Object(o) => {
            let keys: Vec<PropKey> = own_keys_ordered(&mut ctx.heap, o);
            describe_keys(&mut ctx.heap, result, o, &keys);
        },
        JsValue::Text(n) => {
            let len: usize = ctx.heap.text(n).len();
            describe_text(&mut ctx.heap, result, v, len);
        },
        _ => {},
    }
    Ok(JsValue::Object(result))
}

} // verus!
