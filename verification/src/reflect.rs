//! `Reflect`.
use vstd::prelude::*;

use crate::convert::{error, error3, is_error, number_of, to_number};
use crate::ctx::{Ctx, all_chains_end, arg, arg_of, array_object, only_heap, to_key, valid_args};
use crate::descriptor::{
    Fault, FullDescriptor, applied, apply_property_descriptor, data_fields, is_fault, no_fields,
};
use crate::double::{below, finite, flt, from_i64, int_double, is_finite, saturated, to_i64};
use crate::heap::{Heap, HeapModel, JsObject, ObjModel, same_outline};
use crate::internal_methods::{
    chain_ends, delete_own, dispatch_delete, dispatch_has, element_at, element_index,
    ends_within, has_property, is_proxy, lemma_chain_length, trap_message,
};
use crate::key_order::{own_keys, own_keys_ordered};
use crate::native::NativeId;
use crate::object::{link_prototype, proto_value, without_extension};
use crate::object_define::{
    ends_in, fetch, fetched, intern_field_names, to_descriptor, to_property_descriptor,
    with_field_names,
};
use crate::object_describe::{build_descriptor_object, described_own};
use crate::object_list::intern_index;
use crate::properties::{PropBody, lookup};
use crate::text::{nat_text, utf16_of};
use crate::value::{FunctionTarget, JsValue, Kind, PropKey, Throw};

verus! {

/// Text of the error of a function that is called on something else than an object.
pub open spec fn not_an_object(name: Seq<char>) -> Seq<char> {
    "TypeError: Reflect."@ + name + " target is not an object"@
}

/// The object that a function of `Reflect` is called on.
fn require_object(v: JsValue, name: &str) -> (r: Result<usize, Throw>)
    ensures
        match v {
            JsValue::Object(o) => r == Ok::<usize, Throw>(o),
            _ => r is Err && is_error(r->Err_0, not_an_object(name@)),
        },
{
    match v {
        JsValue::Object(o) => Ok(o),
        _ => Err(error3("TypeError: Reflect.", name, " target is not an object")),
    }
}

/// What `Reflect.getPrototypeOf` does.
pub open spec fn get_prototype_result(h: HeapModel, v: JsValue) -> (
    HeapModel,
    Result<JsValue, Fault>,
) {
    match v {
        JsValue::Object(o) => (h, Ok(proto_value(h.objects[o as int].prototype))),
        _ => (h, Err(Fault::Text(not_an_object("getPrototypeOf"@)))),
    }
}

/// `Reflect.getPrototypeOf(target)`.
pub fn reflect_get_prototype_of(ctx: &mut Ctx, _this: JsValue, args: &[JsValue]) -> (r: Result<
    JsValue,
    Throw,
>)
    requires
        old(ctx).wf(),
        valid_args(old(ctx).heap@, args@),
    ensures
        ends_in(*old(ctx), *final(ctx), r, get_prototype_result(old(ctx).heap@, arg_of(args@, 0))),
{
    let obj: usize = match require_object(arg(args, 0), "getPrototypeOf") {
        Ok(o) => o,
        Err(t) => {
            return Err(t);
        },
    };
    match ctx.heap.object(obj).prototype {
        Some(p) => Ok(JsValue::Object(p)),
        None => Ok(JsValue::Null),
    }
}

// ---------------------------------------------------------------------------
// setPrototypeOf
// ---------------------------------------------------------------------------

/// Whether an object is among the first `n` of a chain.
pub open spec fn chain_has(objects: Seq<ObjModel>, o: Option<usize>, target: usize, n: nat) -> bool
    decreases n,
{
    match o {
        None => false,
        Some(k) => n > 0 && (k == target || chain_has(
            objects,
            objects[k as int].prototype,
            target,
            (n - 1) as nat,
        )),
    }
}

/// The prototype that an object gets, and whether it may get it: the one it has already
/// always, another one only where new properties are allowed and no cycle arises.
pub open spec fn may_link(h: HeapModel, o: usize, link: Option<usize>) -> bool {
    let m = h.objects[o as int];
    link == m.prototype || (m.extensible && !chain_has(
        h.objects,
        link,
        o,
        h.objects.len(),
    ))
}

/// What `Reflect.setPrototypeOf` does.
pub open spec fn link_result(h: HeapModel, args: Seq<JsValue>) -> (
    HeapModel,
    Result<JsValue, Fault>,
) {
    match arg_of(args, 0) {
        JsValue::Object(o) => {
            let link = match arg_of(args, 1) {
                JsValue::Null => Ok(None),
                JsValue::Object(p) => Ok(Some(p)),
                _ => Err(
                    Fault::Text(
                        "TypeError: Reflect.setPrototypeOf proto must be an object or null"@,
                    ),
                ),
            };
            match link {
                Err(f) => (h, Err(f)),
                Ok(p) => (
                    if may_link(h, o, p) {
                        h.with_object(o, ObjModel { prototype: p, ..h.objects[o as int] })
                    } else {
                        h
                    },
                    Ok(JsValue::Bool(may_link(h, o, p))),
                ),
            }
        },
        _ => (h, Err(Fault::Text(not_an_object("setPrototypeOf"@)))),
    }
}

/// Whether an object is in a chain.
fn is_in_chain(heap: &Heap, link: Option<usize>, target: usize) -> (r: bool)
    requires
        heap.wf(),
        heap@.valid_object(link),
    ensures
        r == chain_has(heap@.objects, link, target, heap@.objects.len()),
{
    let ghost objects = heap@.objects;
    let mut left: usize = heap.object_count();
    let mut cur: Option<usize> = link;
    while left > 0
        invariant
            heap.wf(),
            objects == heap@.objects,
            heap@.valid_object(cur),
            chain_has(objects, link, target, objects.len()) == chain_has(
                objects,
                cur,
                target,
                left as nat,
            ),
        decreases left,
    {
        let p: usize = match cur {
            None => {
                return false;
            },
            Some(p) => p,
        };
        if p == target {
            return true;
        }
        cur = heap.object(p).prototype;
        left = left - 1;
    }
    false
}

/// `Reflect.setPrototypeOf(target, proto)`: `false` where the target takes no new
/// properties or a cycle would arise.
pub fn reflect_set_prototype_of(ctx: &mut Ctx, _this: JsValue, args: &[JsValue]) -> (r: Result<
    JsValue,
    Throw,
>)
    requires
        old(ctx).wf(),
        valid_args(old(ctx).heap@, args@),
    ensures
        ends_in(*old(ctx), *final(ctx), r, link_result(old(ctx).heap@, args@)),
{
    let obj: usize = match require_object(arg(args, 0), "setPrototypeOf") {
        Ok(o) => o,
        Err(t) => {
            return Err(t);
        },
    };
    let link: Option<usize> = match arg(args, 1) {
        JsValue::Null => None,
        JsValue::Object(p) => Some(p),
        _ => {
            return Err(error("TypeError: Reflect.setPrototypeOf proto must be an object or null"));
        },
    };
    proof {
        let h = ctx.heap@;
        let m = h.objects[obj as int];
        assert(link == m.prototype ==> h.with_object(obj, ObjModel { prototype: link, ..m }) =~= h);
    }
    if link == ctx.heap.object(obj).prototype {
        return Ok(JsValue::Bool(true));
    }
    if !ctx.heap.object(obj).extensible {
        return Ok(JsValue::Bool(false));
    }
    if is_in_chain(&ctx.heap, link, obj) {
        return Ok(JsValue::Bool(false));
    }
    link_prototype(&mut ctx.heap, obj, link);
    Ok(JsValue::Bool(true))
}

proof fn lemma_chain_elsewhere(h: HeapModel, o: usize, link: Option<usize>, c: Option<usize>, n: nat)
    requires
        ends_within(h.objects, c, n),
        !chain_has(h.objects, c, o, n),
        h.closed(),
        h.valid_object(c),
        o < h.objects.len(),
    ensures
        ends_within(
            h.with_object(o, ObjModel { prototype: link, ..h.objects[o as int] }).objects,
            c,
            n,
        ),
    decreases n,
{
    match c {
        None => {},
        Some(k) => {
            assert(h.valid_refs(h.objects[k as int]));
            lemma_chain_elsewhere(h, o, link, h.objects[k as int].prototype, (n - 1) as nat);
        },
    }
}

proof fn lemma_chain_through(
    h: HeapModel,
    o: usize,
    link: Option<usize>,
    c: Option<usize>,
    n: nat,
    m: nat,
)
    requires
        ends_within(h.objects, c, n),
        h.closed(),
        h.valid_object(c),
        o < h.objects.len(),
        ends_within(
            h.with_object(o, ObjModel { prototype: link, ..h.objects[o as int] }).objects,
            link,
            m,
        ),
    ensures
        chain_ends(
            h.with_object(o, ObjModel { prototype: link, ..h.objects[o as int] }).objects,
            c,
        ),
    decreases n,
{
    let after = h.with_object(o, ObjModel { prototype: link, ..h.objects[o as int] }).objects;
    match c {
        None => {
            assert(ends_within(after, c, 0));
        },
        Some(k) => {
            if k == o {
                assert(ends_within(after, c, m + 1));
            } else {
                assert(h.valid_refs(h.objects[k as int]));
                let p = h.objects[k as int].prototype;
                lemma_chain_through(h, o, link, p, (n - 1) as nat, m);
                let j = choose|j: nat| ends_within(after, p, j);
                assert(ends_within(after, c, j + 1));
            }
        },
    }
}

/// Setting a prototype where it is allowed keeps every prototype chain finite.
pub proof fn law_link_keeps_chains(h: HeapModel, o: usize, link: Option<usize>)
    requires
        h.closed(),
        o < h.objects.len(),
        h.valid_object(link),
        all_chains_end(h),
        may_link(h, o, link),
    ensures
        all_chains_end(h.with_object(o, ObjModel { prototype: link, ..h.objects[o as int] })),
{
    let m = h.objects[o as int];
    let h1 = h.with_object(o, ObjModel { prototype: link, ..m });
    if link == m.prototype {
        assert(h1 =~= h);
    } else {
        match link {
            None => {
                assert(ends_within(h1.objects, link, 0));
                assert(ends_within(h.objects, link, 0));
            },
            Some(p) => {
                assert(chain_ends(h.objects, Some(p)));
            },
        }
        let n = h.objects.len();
        lemma_chain_length(h.objects, link);
        lemma_chain_elsewhere(h, o, link, link, n);
        assert forall|c: usize| c < h1.objects.len() implies #[trigger] chain_ends(
            h1.objects,
            Some(c),
        ) by {
            assert(chain_ends(h.objects, Some(c)));
            lemma_chain_length(h.objects, Some(c));
            lemma_chain_through(h, o, link, Some(c), n, n);
        }
    }
}

// ---------------------------------------------------------------------------
// Extensibility, tests and deletion
// ---------------------------------------------------------------------------

/// What `Reflect.isExtensible` does.
pub open spec fn extensible_result(h: HeapModel, v: JsValue) -> (HeapModel, Result<JsValue, Fault>) {
    match v {
        JsValue::Object(o) => (h, Ok(JsValue::Bool(h.objects[o as int].extensible))),
        _ => (h, Err(Fault::Text(not_an_object("isExtensible"@)))),
    }
}

/// `Reflect.isExtensible(target)`.
pub fn reflect_is_extensible(ctx: &mut Ctx, _this: JsValue, args: &[JsValue]) -> (r: Result<
    JsValue,
    Throw,
>)
    requires
        old(ctx).wf(),
        valid_args(old(ctx).heap@, args@),
    ensures
        ends_in(*old(ctx), *final(ctx), r, extensible_result(old(ctx).heap@, arg_of(args@, 0))),
{
    match require_object(arg(args, 0), "isExtensible") {
        Ok(o) => Ok(JsValue::Bool(ctx.heap.object(o).extensible)),
        Err(t) => Err(t),
    }
}

/// What `Reflect.preventExtensions` does.
pub open spec fn prevent_result(h: HeapModel, v: JsValue) -> (HeapModel, Result<JsValue, Fault>) {
    match v {
        JsValue::Object(o) => (without_extension(h, o), Ok(JsValue::Bool(true))),
        _ => (h, Err(Fault::Text(not_an_object("preventExtensions"@)))),
    }
}

/// `Reflect.preventExtensions(target)`.
pub fn reflect_prevent_extensions(ctx: &mut Ctx, _this: JsValue, args: &[JsValue]) -> (r: Result<
    JsValue,
    Throw,
>)
    requires
        old(ctx).wf(),
        valid_args(old(ctx).heap@, args@),
    ensures
        ends_in(*old(ctx), *final(ctx), r, prevent_result(old(ctx).heap@, arg_of(args@, 0))),
{
    match require_object(arg(args, 0), "preventExtensions") {
        Ok(o) => {
            let _ = crate::internal_methods::ordinary_prevent_extensions(&mut ctx.heap, o);
            Ok(JsValue::Bool(true))
        },
        Err(t) => Err(t),
    }
}

/// What `Reflect.has` does.
pub open spec fn has_result(h: HeapModel, v: JsValue, k: JsValue) -> (
    HeapModel,
    Result<JsValue, Fault>,
) {
    match v {
        JsValue::Object(o) => {
            let (h1, key) = to_key(h, k);
            (
                h1,
                if is_proxy(h1, o) {
                    Err(Fault::Text(trap_message("HasProperty"@)))
                } else {
                    Ok(JsValue::Bool(has_property(h1, o, key)))
                },
            )
        },
        _ => (h, Err(Fault::Text(not_an_object("has"@)))),
    }
}

/// `Reflect.has(target, key)`.
pub fn reflect_has(ctx: &mut Ctx, _this: JsValue, args: &[JsValue]) -> (r: Result<JsValue, Throw>)
    requires
        old(ctx).wf(),
        valid_args(old(ctx).heap@, args@),
    ensures
        ends_in(
            *old(ctx),
            *final(ctx),
            r,
            has_result(old(ctx).heap@, arg_of(args@, 0), arg_of(args@, 1)),
        ),
{
    let obj: usize = match require_object(arg(args, 0), "has") {
        Ok(o) => o,
        Err(t) => {
            return Err(t);
        },
    };
    let key: PropKey = ctx.property_key(arg(args, 1));
    match dispatch_has(&ctx.heap, obj, key) {
        Ok(x) => Ok(JsValue::Bool(x)),
        Err(t) => Err(t),
    }
}

/// What `Reflect.deleteProperty` does.
pub open spec fn delete_result(h: HeapModel, v: JsValue, k: JsValue) -> (
    HeapModel,
    Result<JsValue, Fault>,
) {
    match v {
        JsValue::Object(o) => {
            let (h1, key) = to_key(h, k);
            if is_proxy(h1, o) {
                (h1, Err(Fault::Text(trap_message("Delete"@))))
            } else {
                (
                    h1.with_object(o, delete_own(h1, o, key).0),
                    Ok(JsValue::Bool(delete_own(h1, o, key).1)),
                )
            }
        },
        _ => (h, Err(Fault::Text(not_an_object("deleteProperty"@)))),
    }
}

/// `Reflect.deleteProperty(target, key)`.
pub fn reflect_delete_property(ctx: &mut Ctx, _this: JsValue, args: &[JsValue]) -> (r: Result<
    JsValue,
    Throw,
>)
    requires
        old(ctx).wf(),
        valid_args(old(ctx).heap@, args@),
    ensures
        ends_in(
            *old(ctx),
            *final(ctx),
            r,
            delete_result(old(ctx).heap@, arg_of(args@, 0), arg_of(args@, 1)),
        ),
{
    let obj: usize = match require_object(arg(args, 0), "deleteProperty") {
        Ok(o) => o,
        Err(t) => {
            return Err(t);
        },
    };
    let key: PropKey = ctx.property_key(arg(args, 1));
    match dispatch_delete(&mut ctx.heap, obj, key) {
        Ok(x) => Ok(JsValue::Bool(x)),
        Err(t) => Err(t),
    }
}

// ---------------------------------------------------------------------------
// ownKeys and descriptors
// ---------------------------------------------------------------------------

/// A key as a value.
pub open spec fn key_value(k: PropKey) -> JsValue {
    match k {
        PropKey::Text(n) => JsValue::Text(n),
        PropKey::Symbol(n) => JsValue::Symbol(n),
    }
}

/// Keys as values.
pub open spec fn key_values(keys: Seq<PropKey>) -> Seq<JsValue> {
    keys.map_values(|k: PropKey| key_value(k))
}

/// What `Reflect.ownKeys` does.
pub open spec fn own_keys_result(h: HeapModel, global: Option<usize>, v: JsValue) -> (
    HeapModel,
    Result<JsValue, Fault>,
) {
    match v {
        JsValue::Object(o) => {
            let (h1, keys) = own_keys(h, o);
            (
                h1.with_new(array_object(h1, global, key_values(keys))),
                Ok(JsValue::Object(h1.objects.len() as usize)),
            )
        },
        _ => (h, Err(Fault::Text(not_an_object("ownKeys"@)))),
    }
}

/// `Reflect.ownKeys(target)`.
pub fn reflect_own_keys(ctx: &mut Ctx, _this: JsValue, args: &[JsValue]) -> (r: Result<
    JsValue,
    Throw,
>)
    requires
        old(ctx).wf(),
        valid_args(old(ctx).heap@, args@),
    ensures
        ends_in(
            *old(ctx),
            *final(ctx),
            r,
            own_keys_result(old(ctx).heap@, old(ctx).global, arg_of(args@, 0)),
        ),
{
    let obj: usize = match require_object(arg(args, 0), "ownKeys") {
        Ok(o) => o,
        Err(t) => {
            return Err(t);
        },
    };
    let keys: Vec<PropKey> = own_keys_ordered(&mut ctx.heap, obj);
    let mut items: Vec<JsValue> = Vec::new();
    let mut i: usize = 0;
    while i < keys.len()
        invariant
            i <= keys@.len(),
            forall|k: int| 0 <= k < keys@.len() ==> ctx.heap@.valid_key(#[trigger] keys@[k]),
            items@ == key_values(keys@.take(i as int)),
            valid_args(ctx.heap@, items@),
        decreases keys@.len() - i,
    {
        proof {
            assert(ctx.heap@.valid_key(keys@[i as int]));
        }
        items.push(
            match keys[i] {
                PropKey::Text(n) => JsValue::Text(n),
                PropKey::Symbol(n) => JsValue::Symbol(n),
            },
        );
        proof {
            assert(items@ =~= key_values(keys@.take(i + 1)));
        }
        i = i + 1;
    }
    proof {
        assert(keys@.take(i as int) =~= keys@);
    }
    Ok(ctx.array_value(items))
}

/// What `Reflect.getOwnPropertyDescriptor` does.
pub open spec fn own_descriptor_result(h: HeapModel, v: JsValue, k: JsValue) -> (
    HeapModel,
    Result<JsValue, Fault>,
) {
    match v {
        JsValue::Object(o) => {
            let (h1, key) = to_key(h, k);
            match described_own(h1, o, key) {
                (h2, Some(d)) => (h2, Ok(d)),
                (h2, None) => (h2, Ok(JsValue::Undefined)),
            }
        },
        _ => (h, Err(Fault::Text(not_an_object("getOwnPropertyDescriptor"@)))),
    }
}

/// `Reflect.getOwnPropertyDescriptor(target, key)`.
pub fn reflect_get_own_property_descriptor(ctx: &mut Ctx, _this: JsValue, args: &[JsValue]) -> (r:
    Result<JsValue, Throw>)
    requires
        old(ctx).wf(),
        valid_args(old(ctx).heap@, args@),
    ensures
        ends_in(
            *old(ctx),
            *final(ctx),
            r,
            own_descriptor_result(old(ctx).heap@, arg_of(args@, 0), arg_of(args@, 1)),
        ),
{
    let obj: usize = match require_object(arg(args, 0), "getOwnPropertyDescriptor") {
        Ok(o) => o,
        Err(t) => {
            return Err(t);
        },
    };
    let key: PropKey = ctx.property_key(arg(args, 1));
    match build_descriptor_object(&mut ctx.heap, obj, key) {
        Some(d) => Ok(d),
        None => Ok(JsValue::Undefined),
    }
}

/// What `Reflect.defineProperty` does.
pub open spec fn define_result(h: HeapModel, args: Seq<JsValue>) -> (
    HeapModel,
    Result<JsValue, Fault>,
) {
    match arg_of(args, 0) {
        JsValue::Object(o) => {
            let (h1, key) = to_key(h, arg_of(args, 1));
            let h2 = with_field_names(h1);
            match if args.len() >= 3 {
                to_descriptor(h2, args[2])
            } else {
                (h2, Ok(no_fields()))
            } {
                (h3, Err(f)) => (h3, Err(f)),
                (h3, Ok(d)) => match applied(h3, o, key, d) {
                    Ok((h4, x)) => (h4, Ok(JsValue::Bool(x))),
                    Err(f) => (h3, Err(f)),
                },
            }
        },
        _ => (h, Err(Fault::Text(not_an_object("defineProperty"@)))),
    }
}

/// `Reflect.defineProperty(target, key, attributes)`: whether the definition is allowed.
pub fn reflect_define_property(ctx: &mut Ctx, _this: JsValue, args: &[JsValue]) -> (r: Result<
    JsValue,
    Throw,
>)
    requires
        old(ctx).wf(),
        valid_args(old(ctx).heap@, args@),
    ensures
        ends_in(*old(ctx), *final(ctx), r, define_result(old(ctx).heap@, args@)),
{
    let obj: usize = match require_object(arg(args, 0), "defineProperty") {
        Ok(o) => o,
        Err(t) => {
            return Err(t);
        },
    };
    let ghost h = ctx.heap@;
    let key: PropKey = ctx.property_key(arg(args, 1));
    let names: Vec<usize> = intern_field_names(&mut ctx.heap);
    let d: FullDescriptor = if args.len() >= 3 {
        match to_property_descriptor(&mut ctx.heap, &names, args[2]) {
            Ok(d) => d,
            Err(t) => {
                return Err(t);
            },
        }
    } else {
        FullDescriptor::default()
    };
    match apply_property_descriptor(&mut ctx.heap, obj, key, d) {
        Ok(x) => Ok(JsValue::Bool(x)),
        Err(t) => Err(t),
    }
}

/// What `Reflect.get` does.
pub open spec fn get_result(h: HeapModel, v: JsValue, k: JsValue) -> (
    HeapModel,
    Result<JsValue, Fault>,
) {
    match v {
        JsValue::Object(o) => {
            let (h1, key) = to_key(h, k);
            fetched(h1, o, key)
        },
        _ => (h, Err(Fault::Text(not_an_object("get"@)))),
    }
}

/// `Reflect.get(target, key)`.
pub fn reflect_get(ctx: &mut Ctx, _this: JsValue, args: &[JsValue]) -> (r: Result<JsValue, Throw>)
    requires
        old(ctx).wf(),
        valid_args(old(ctx).heap@, args@),
    ensures
        ends_in(
            *old(ctx),
            *final(ctx),
            r,
            get_result(old(ctx).heap@, arg_of(args@, 0), arg_of(args@, 1)),
        ),
{
    let obj: usize = match require_object(arg(args, 0), "get") {
        Ok(o) => o,
        Err(t) => {
            return Err(t);
        },
    };
    let ghost h = ctx.heap@;
    let key: PropKey = ctx.property_key(arg(args, 1));
    fetch(&mut ctx.heap, obj, key)
}

// ---------------------------------------------------------------------------
// set
// ---------------------------------------------------------------------------

/// What an own property says of a write.
#[derive(Clone, Copy, PartialEq, Eq, Structural, Debug)]
pub enum OwnDesc {
    /// There is none.
    Absent,
    /// It holds a value, which may change or not.
    Data(bool),
    /// It is an accessor, with a setter or without.
    Accessor(bool),
}

/// What the own property under a key says of a write.
pub open spec fn write_rule(h: HeapModel, o: usize, key: PropKey) -> OwnDesc {
    let m = h.objects[o as int];
    match element_index(h, o, key) {
        Some(i) => if element_at(m.elements, i as int) is Some {
            OwnDesc::Data(true)
        } else {
            OwnDesc::Absent
        },
        None => match lookup(m.named.list, key) {
            Some(p) => match p.body {
                PropBody::Data(v) => if v == JsValue::Hole {
                    OwnDesc::Absent
                } else {
                    OwnDesc::Data(p.attrs.writable)
                },
                PropBody::Accessor(_, s) => OwnDesc::Accessor(s is Some),
            },
            None => OwnDesc::Absent,
        },
    }
}

/// What the first property under a key along a chain of at most `n` objects says of a
/// write.
pub open spec fn chain_rule(h: HeapModel, o: Option<usize>, key: PropKey, n: nat) -> OwnDesc
    decreases n,
{
    match o {
        None => OwnDesc::Absent,
        Some(k) => if n == 0 {
            OwnDesc::Absent
        } else if write_rule(h, k, key) != OwnDesc::Absent {
            write_rule(h, k, key)
        } else {
            chain_rule(h, h.objects[k as int].prototype, key, (n - 1) as nat)
        },
    }
}

/// What writing a property on a receiver does.
pub open spec fn write_result(h: HeapModel, receiver: JsValue, key: PropKey, v: JsValue) -> (
    HeapModel,
    Result<JsValue, Fault>,
) {
    match receiver {
        JsValue::Object(o) => {
            let d = match write_rule(h, o, key) {
                OwnDesc::Accessor(_) => None,
                OwnDesc::Data(writable) => if writable {
                    Some(FullDescriptor { value: Some(v), ..no_fields() })
                } else {
                    None
                },
                OwnDesc::Absent => Some(data_fields(v)),
            };
            match d {
                None => (h, Ok(JsValue::Bool(false))),
                Some(d) => match applied(h, o, key, d) {
                    Ok((h1, x)) => (h1, Ok(JsValue::Bool(x))),
                    Err(f) => (h, Err(f)),
                },
            }
        },
        _ => (h, Ok(JsValue::Bool(false))),
    }
}

/// What `Reflect.set` does: a value that may not change refuses, an accessor answers
/// whether it has a setter, anything else is written on the receiver.
pub open spec fn set_result(h: HeapModel, args: Seq<JsValue>) -> (HeapModel, Result<JsValue, Fault>) {
    match arg_of(args, 0) {
        JsValue::Object(o) => {
            let (h1, key) = to_key(h, arg_of(args, 1));
            let receiver = if args.len() > 3 {
                args[3]
            } else {
                JsValue::Object(o)
            };
            match chain_rule(h1, Some(o), key, h1.objects.len()) {
                OwnDesc::Data(false) => (h1, Ok(JsValue::Bool(false))),
                OwnDesc::Accessor(x) => (h1, Ok(JsValue::Bool(x))),
                _ => write_result(h1, receiver, key, arg_of(args, 2)),
            }
        },
        _ => (h, Err(Fault::Text(not_an_object("set"@)))),
    }
}

/// What the own property under a key says of a write.
fn own_desc(heap: &Heap, obj: usize, key: PropKey) -> (r: OwnDesc)
    requires
        heap.wf(),
        obj < heap@.objects.len(),
        heap@.valid_key(key),
    ensures
        r == write_rule(heap@, obj, key),
{
    match crate::internal_methods::element_key(heap, obj, key) {
        Some(i) => {
            return match heap.object(obj).get_element(i) {
                Some(_) => OwnDesc::Data(true),
                None => OwnDesc::Absent,
            };
        },
        None => {},
    }
    match heap.object(obj).named.get(key) {
        Some(p) => match p.body {
            PropBody::Data(v) => if v == JsValue::Hole {
                OwnDesc::Absent
            } else {
                OwnDesc::Data(p.attrs.writable)
            },
            PropBody::Accessor(_, s) => OwnDesc::Accessor(s.is_some()),
        },
        None => OwnDesc::Absent,
    }
}

/// What the first property under a key along the chain of an object says of a write.
fn inherited_own_desc(heap: &Heap, obj: usize, key: PropKey) -> (r: OwnDesc)
    requires
        heap.wf(),
        obj < heap@.objects.len(),
        heap@.valid_key(key),
    ensures
        r == chain_rule(heap@, Some(obj), key, heap@.objects.len()),
{
    let ghost h = heap@;
    let mut left: usize = heap.object_count();
    let mut cur: Option<usize> = Some(obj);
    while left > 0
        invariant
            heap.wf(),
            h == heap@,
            h.valid_object(cur),
            h.valid_key(key),
            chain_rule(h, Some(obj), key, h.objects.len()) == chain_rule(h, cur, key, left as nat),
        decreases left,
    {
        let o: usize = match cur {
            None => {
                return OwnDesc::Absent;
            },
            Some(o) => o,
        };
        let d: OwnDesc = own_desc(heap, o, key);
        if d != OwnDesc::Absent {
            return d;
        }
        cur = heap.object(o).prototype;
        left = left - 1;
    }
    OwnDesc::Absent
}

/// Writes a property on a receiver.
fn write_on(ctx: &mut Ctx, receiver: JsValue, key: PropKey, v: JsValue) -> (r: Result<
    JsValue,
    Throw,
>)
    requires
        old(ctx).wf(),
        old(ctx).heap@.valid(receiver),
        old(ctx).heap@.valid_key(key),
        old(ctx).heap@.valid(v),
    ensures
        ends_in(*old(ctx), *final(ctx), r, write_result(old(ctx).heap@, receiver, key, v)),
{
    let obj: usize = match receiver {
        JsValue::Object(o) => o,
        _ => {
            return Ok(JsValue::Bool(false));
        },
    };
    let mut d: FullDescriptor = FullDescriptor::default();
    d.value = Some(v);
    match own_desc(&ctx.heap, obj, key) {
        OwnDesc::Accessor(_) => {
            return Ok(JsValue::Bool(false));
        },
        OwnDesc::Data(writable) => {
            if !writable {
                return Ok(JsValue::Bool(false));
            }
        },
        OwnDesc::Absent => {
            d.writable = Some(true);
            d.enumerable = Some(true);
            d.configurable = Some(true);
        },
    }
    match apply_property_descriptor(&mut ctx.heap, obj, key, d) {
        Ok(x) => Ok(JsValue::Bool(x)),
        Err(t) => Err(t),
    }
}

/// `Reflect.set(target, key, value, receiver)`.
pub fn reflect_set(ctx: &mut Ctx, _this: JsValue, args: &[JsValue]) -> (r: Result<JsValue, Throw>)
    requires
        old(ctx).wf(),
        valid_args(old(ctx).heap@, args@),
    ensures
        ends_in(*old(ctx), *final(ctx), r, set_result(old(ctx).heap@, args@)),
{
    let target: usize = match require_object(arg(args, 0), "set") {
        Ok(o) => o,
        Err(t) => {
            return Err(t);
        },
    };
    let ghost h = ctx.heap@;
    let key: PropKey = ctx.property_key(arg(args, 1));
    let receiver: JsValue = if args.len() > 3 {
        args[3]
    } else {
        JsValue::Object(target)
    };
    match inherited_own_desc(&ctx.heap, target, key) {
        OwnDesc::Data(false) => {
            return Ok(JsValue::Bool(false));
        },
        OwnDesc::Accessor(x) => {
            return Ok(JsValue::Bool(x));
        },
        _ => {},
    }
    write_on(ctx, receiver, key, arg(args, 2))
}

// ---------------------------------------------------------------------------
// apply and construct
// ---------------------------------------------------------------------------

/// Whether a function object can be used with `new`: compiled functions can, of the
/// built-ins the constructors that make plain objects, arrays, booleans and errors.
pub open spec fn constructible(h: HeapModel, v: JsValue) -> bool {
    v matches JsValue::Object(o) && h.objects[o as int].kind == Kind::Function && match h.objects[o as int].callable {
        FunctionTarget::Bytecode(_) => true,
        FunctionTarget::Native(id) => constructor_id(id),
        _ => false,
    }
}

/// Whether a built-in function is a constructor.
pub open spec fn constructor_id(id: NativeId) -> bool {
    match id {
        NativeId::ObjectConstruct => true,
        NativeId::ArrayConstruct => true,
        NativeId::BooleanConstruct => true,
        NativeId::ErrorCreate => true,
        NativeId::TypeErrorCreate => true,
        NativeId::RangeErrorCreate => true,
        NativeId::ReferenceErrorCreate => true,
        NativeId::SyntaxErrorCreate => true,
        NativeId::EvalErrorCreate => true,
        NativeId::UriErrorCreate => true,
        _ => false,
    }
}

/// Whether a value can be used with `new`.
fn is_constructor(heap: &Heap, v: JsValue) -> (r: bool)
    requires
        heap.wf(),
        heap@.valid(v),
    ensures
        r == constructible(heap@, v),
{
    let o: &JsObject = match v {
        JsValue::Object(o) => heap.object(o),
        _ => {
            return false;
        },
    };
    if o.kind != Kind::Function {
        return false;
    }
    match o.callable {
        FunctionTarget::Bytecode(_) => true,
        FunctionTarget::Native(id) => match id {
            NativeId::ObjectConstruct => true,
            NativeId::ArrayConstruct => true,
            NativeId::BooleanConstruct => true,
            NativeId::ErrorCreate => true,
            NativeId::TypeErrorCreate => true,
            NativeId::RangeErrorCreate => true,
            NativeId::ReferenceErrorCreate => true,
            NativeId::SyntaxErrorCreate => true,
            NativeId::EvalErrorCreate => true,
            NativeId::UriErrorCreate => true,
            _ => false,
        },
        _ => false,
    }
}

/// The first `k` elements of an array-like object, with the heap that holds their names.
pub open spec fn listed(h: HeapModel, o: usize, k: int) -> (HeapModel, Result<Seq<JsValue>, Fault>)
    decreases k,
{
    if k <= 0 {
        (h, Ok(seq![]))
    } else {
        match listed(h, o, k - 1) {
            (h1, Err(f)) => (h1, Err(f)),
            (h1, Ok(s)) => {
                let t = nat_text((k - 1) as nat);
                let h2 = h1.interned(t);
                match fetched(h2, o, PropKey::Text(h1.text_id(t))) {
                    (h3, Ok(v)) => (h3, Ok(s.push(v))),
                    (h3, Err(f)) => (h3, Err(f)),
                }
            },
        }
    }
}

/// How many elements an array-like object has by its `length`.
pub open spec fn like_length(h: HeapModel, v: JsValue) -> int {
    let b = number_of(h, v);
    if is_finite(b) && below(int_double(0), b) && saturated(b) > 0 {
        saturated(b)
    } else {
        0
    }
}

/// `CreateListFromArrayLike`: the elements of an object up to its `length`.
pub open spec fn list_from(h: HeapModel, v: JsValue) -> (HeapModel, Result<Seq<JsValue>, Fault>) {
    match v {
        JsValue::Object(o) => {
            let t = utf16_of("length"@);
            let h1 = h.interned(t);
            match fetched(h1, o, PropKey::Text(h.text_id(t))) {
                (h2, Err(f)) => (h2, Err(f)),
                (h2, Ok(n)) => listed(h2, o, like_length(h2, n)),
            }
        },
        _ => (h, Err(Fault::Text("TypeError: CreateListFromArrayLike called on non-object"@))),
    }
}

proof fn lemma_listed_err(h: HeapModel, o: usize, k: int, n: int)
    requires
        0 <= k <= n,
    ensures
        listed(h, o, k).1 is Err ==> listed(h, o, n) == listed(h, o, k),
    decreases n - k,
{
    if k < n {
        lemma_listed_err(h, o, k, n - 1);
    }
}

/// `CreateListFromArrayLike`.
pub fn create_list_from_array_like(heap: &mut Heap, v: JsValue) -> (r: Result<Vec<JsValue>, Throw>)
    requires
        old(heap).wf(),
        old(heap)@.valid(v),
    ensures
        final(heap).wf(),
        old(heap)@.within(final(heap)@),
        outlines_kept(old(heap)@, final(heap)@),
        ({
            let (h, x) = list_from(old(heap)@, v);
            final(heap)@ == h && match x {
                Ok(s) => r is Ok && r->Ok_0@ == s && valid_args(final(heap)@, s),
                Err(f) => r is Err && is_fault(r->Err_0, f),
            }
        }),
{
    let ghost h = heap@;
    let obj: usize = match v {
        JsValue::Object(o) => o,
        _ => {
            return Err(error("TypeError: CreateListFromArrayLike called on non-object"));
        },
    };
    let id: usize = heap.intern_text("length");
    let len_v: JsValue = match fetch(heap, obj, PropKey::Text(id)) {
        Ok(n) => n,
        Err(t) => {
            return Err(t);
        },
    };
    let ghost h2 = heap@;
    let b: u64 = to_number(heap, len_v);
    let n: i64 = if finite(b) && flt(from_i64(0), b) && to_i64(b) > 0 {
        to_i64(b)
    } else {
        0
    };
    let mut out: Vec<JsValue> = Vec::new();
    let mut i: i64 = 0;
    proof {
        assert(out@ =~= Seq::<JsValue>::empty());
    }
    while i < n
        invariant
            heap.wf(),
            h == old(heap)@,
            h.within(heap@),
            outlines_kept(h, heap@),
            obj < h.objects.len(),
            0 <= i <= n,
            list_from(h, v) == listed(h2, obj, n as int),
            listed(h2, obj, i as int) == (heap@, Ok::<Seq<JsValue>, Fault>(out@)),
            valid_args(heap@, out@),
        decreases n - i,
    {
        let ghost before = heap@;
        proof {
            lemma_listed_err(h2, obj, i + 1, n as int);
        }
        let k: usize = intern_index(heap, i as u64);
        let got: Result<JsValue, Throw> = fetch(heap, obj, PropKey::Text(k));
        proof {
            assert forall|j: int| 0 <= j < h.objects.len() implies same_outline(
                #[trigger] h.objects[j],
                heap@.objects[j],
            ) by {
                assert(same_outline(h.objects[j], before.objects[j]));
                assert(same_outline(before.objects[j], heap@.objects[j]));
            }
            assert forall|j: int| 0 <= j < out@.len() implies heap@.valid(#[trigger] out@[j]) by {
                assert(before.valid(out@[j]));
            }
        }
        match got {
            Ok(x) => {
                out.push(x);
            },
            Err(t) => {
                return Err(t);
            },
        }
        i = i + 1;
    }
    Ok(out)
}

/// Whether every object of a heap has the same outline in another.
pub open spec fn outlines_kept(a: HeapModel, b: HeapModel) -> bool {
    forall|i: int| 0 <= i < a.objects.len() ==> same_outline(#[trigger] a.objects[i], b.objects[i])
}

/// A call that is left to the embedder.
#[derive(Debug)]
pub struct Invocation {
    /// What is called: a built-in or a function of the embedder.
    pub target: FunctionTarget,
    /// The receiver.
    pub this_arg: JsValue,
    /// The arguments.
    pub args: Vec<JsValue>,
}

/// What `Reflect.apply` does: the call that is to be made, and the heap before it.
pub open spec fn apply_result(h: HeapModel, args: Seq<JsValue>) -> (
    HeapModel,
    Result<(FunctionTarget, JsValue, Seq<JsValue>), Fault>,
) {
    match arg_of(args, 0) {
        JsValue::Object(o) => if h.objects[o as int].kind != Kind::Function {
            (h, Err(Fault::Text("TypeError: Reflect.apply target is not a function"@)))
        } else {
            match list_from(h, arg_of(args, 2)) {
                (h1, Err(f)) => (h1, Err(f)),
                (h1, Ok(list)) => match h.objects[o as int].callable {
                    FunctionTarget::Native(_) | FunctionTarget::Host(_) | FunctionTarget::RevokeProxy
                    | FunctionTarget::Settle { .. } => (
                        h1,
                        Ok((h.objects[o as int].callable, arg_of(args, 1), list)),
                    ),
                    _ => (
                        h1,
                        Err(
                            Fault::Text(
                                "TypeError: Reflect.apply requires the interpreter for bytecode targets"@,
                            ),
                        ),
                    ),
                },
            }
        },
        _ => (h, Err(Fault::Text("TypeError: Reflect.apply target is not a function"@))),
    }
}

/// `Reflect.apply(target, this, args)` up to the call itself, which only a built-in or
/// a function of the embedder can take without the interpreter.
pub fn reflect_apply(ctx: &mut Ctx, _this: JsValue, args: &[JsValue]) -> (r: Result<
    Invocation,
    Throw,
>)
    requires
        old(ctx).wf(),
        valid_args(old(ctx).heap@, args@),
    ensures
        ({
            let (h, x) = apply_result(old(ctx).heap@, args@);
            only_heap(*old(ctx), *final(ctx), h) && match x {
                Ok((target, this_arg, list)) => r is Ok && r->Ok_0.target == target
                    && r->Ok_0.this_arg == this_arg && r->Ok_0.args@ == list,
                Err(f) => r is Err && is_fault(r->Err_0, f),
            }
        }),
{
    let target: usize = match arg(args, 0) {
        JsValue::Object(o) => o,
        _ => {
            return Err(error("TypeError: Reflect.apply target is not a function"));
        },
    };
    if ctx.heap.object(target).kind != Kind::Function {
        return Err(error("TypeError: Reflect.apply target is not a function"));
    }
    let list: Vec<JsValue> = match create_list_from_array_like(&mut ctx.heap, arg(args, 2)) {
        Ok(list) => list,
        Err(t) => {
            return Err(t);
        },
    };
    let callable: FunctionTarget = ctx.heap.object(target).callable;
    match callable {
        FunctionTarget::Native(_) | FunctionTarget::Host(_) | FunctionTarget::RevokeProxy
                    | FunctionTarget::Settle { .. } => Ok(
            Invocation { target: callable, this_arg: arg(args, 1), args: list },
        ),
        _ => Err(error("TypeError: Reflect.apply requires the interpreter for bytecode targets")),
    }
}

/// What `Reflect.construct` does: after its checks, the construction itself needs the
/// interpreter.
pub open spec fn construct_fault(h: HeapModel, args: Seq<JsValue>) -> (HeapModel, Fault) {
    if !constructible(h, arg_of(args, 0)) {
        (h, Fault::Text("TypeError: Reflect.construct target is not a constructor"@))
    } else {
        match list_from(h, arg_of(args, 1)) {
            (h1, Err(f)) => (h1, f),
            (h1, Ok(_)) => {
                let new_target = if args.len() > 2 {
                    args[2]
                } else {
                    args[0]
                };
                if !constructible(h1, new_target) {
                    (h1, Fault::Text("TypeError: Reflect.construct newTarget is not a constructor"@))
                } else {
                    (h1, Fault::Text("TypeError: Reflect.construct requires the interpreter"@))
                }
            },
        }
    }
}

/// `Reflect.construct(target, args, newTarget)`.
pub fn reflect_construct(ctx: &mut Ctx, _this: JsValue, args: &[JsValue]) -> (r: Result<
    JsValue,
    Throw,
>)
    requires
        old(ctx).wf(),
        valid_args(old(ctx).heap@, args@),
    ensures
        ({
            let (h, f) = construct_fault(old(ctx).heap@, args@);
            ends_in(*old(ctx), *final(ctx), r, (h, Err(f)))
        }),
{
    if !is_constructor(&ctx.heap, arg(args, 0)) {
        return Err(error("TypeError: Reflect.construct target is not a constructor"));
    }
    match create_list_from_array_like(&mut ctx.heap, arg(args, 1)) {
        Ok(_) => {},
        Err(t) => {
            return Err(t);
        },
    }
    let new_target: JsValue = if args.len() > 2 {
        args[2]
    } else {
        arg(args, 0)
    };
    if !is_constructor(&ctx.heap, new_target) {
        return Err(error("TypeError: Reflect.construct newTarget is not a constructor"));
    }
    Err(error("TypeError: Reflect.construct requires the interpreter"))
}

} // verus!
