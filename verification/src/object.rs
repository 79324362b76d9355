//! `Object` itself, its prototype's methods, and functions on whole objects.
use vstd::prelude::*;

use crate::convert::error;
use crate::ctx::{Ctx, arg, arg_of, gives_error, gives_text, gives_value, to_key, valid_args};
use crate::descriptor::{Fault, is_fault, same_value, same_value_of};
use crate::heap::{Heap, HeapModel, JsObject, ObjModel, plain_object};
use crate::internal_methods::{
    PropertyDescriptor, element_at, lemma_with_element_refs, ordinary_define_own_property,
    with_element,
};
use crate::key_order::is_live;
use crate::object_define::{ends_in, fetch, fetched, lemma_keeps_chain};
use crate::object_describe::with_own;
use crate::properties::{Prop, PropBody};
use crate::text::utf16_of;
use crate::value::{Integrity, JsValue, Kind, PropKey, Throw};

verus! {

/// What `Object` called with a value does: objects are returned as they are, for
/// anything else a new object is made.
pub open spec fn construct_result(h: HeapModel, v: JsValue) -> (HeapModel, Result<JsValue, Fault>) {
    match v {
        JsValue::Object(_) => (h, Ok(v)),
        _ => (
            h.with_new(plain_object(Kind::Ordinary)),
            Ok(JsValue::Object(h.objects.len() as usize)),
        ),
    }
}

/// `Object(value)`.
pub fn object_construct(ctx: &mut Ctx, _this: JsValue, args: &[JsValue]) -> (r: Result<
    JsValue,
    Throw,
>)
    requires
        old(ctx).wf(),
        valid_args(old(ctx).heap@, args@),
    ensures
        ends_in(*old(ctx), *final(ctx), r, construct_result(old(ctx).heap@, arg_of(args@, 0))),
{
    match arg(args, 0) {
        JsValue::Object(o) => Ok(JsValue::Object(o)),
        _ => Ok(JsValue::Object(ctx.alloc_obj(JsObject::plain(Kind::Ordinary)))),
    }
}

/// A prototype as a value.
pub open spec fn proto_value(p: Option<usize>) -> JsValue {
    match p {
        Some(o) => JsValue::Object(o),
        None => JsValue::Null,
    }
}

/// `Object.getPrototypeOf(obj)`.
pub fn object_get_prototype_of(ctx: &mut Ctx, _this: JsValue, args: &[JsValue]) -> (r: Result<
    JsValue,
    Throw,
>)
    requires
        old(ctx).wf(),
        valid_args(old(ctx).heap@, args@),
    ensures
        match arg_of(args@, 0) {
            JsValue::Object(o) => gives_value(
                *old(ctx),
                *final(ctx),
                r,
                proto_value(old(ctx).heap@.objects[o as int].prototype),
            ),
            _ => gives_error(
                *old(ctx),
                *final(ctx),
                r,
                "TypeError: Object.getPrototypeOf called on non-object"@,
            ),
        },
{
    match arg(args, 0) {
        JsValue::Object(o) => match ctx.heap.object(o).prototype {
            Some(p) => Ok(JsValue::Object(p)),
            None => Ok(JsValue::Null),
        },
        _ => Err(error("TypeError: Object.getPrototypeOf called on non-object")),
    }
}

/// `Object.prototype.toString()`.
pub fn object_proto_to_string(ctx: &mut Ctx, this: JsValue, _args: &[JsValue]) -> (r: Result<
    JsValue,
    Throw,
>)
    requires
        old(ctx).wf(),
        old(ctx).heap@.valid(this),
    ensures
        gives_text(
            *old(ctx),
            *final(ctx),
            r,
            if crate::ctx::is_kind(old(ctx).heap@, this, Kind::Array) {
                utf16_of("[object Array]"@)
            } else {
                utf16_of("[object Object]"@)
            },
        ),
{
    let array: bool = match this {
        JsValue::Object(o) => ctx.heap.object(o).kind == Kind::Array,
        _ => false,
    };
    if array {
        ctx.str_value("[object Array]")
    } else {
        ctx.str_value("[object Object]")
    }
}

/// `Object.prototype.valueOf()`: the receiver.
pub fn object_proto_value_of(ctx: &mut Ctx, this: JsValue, _args: &[JsValue]) -> (r: Result<
    JsValue,
    Throw,
>)
    ensures
        gives_value(*old(ctx), *final(ctx), r, this),
{
    Ok(this)
}

/// `Function.prototype.toString()`.
pub fn function_proto_to_string(ctx: &mut Ctx, _this: JsValue, _args: &[JsValue]) -> (r: Result<
    JsValue,
    Throw,
>)
    requires
        old(ctx).wf(),
    ensures
        gives_text(*old(ctx), *final(ctx), r, utf16_of("function() {}"@)),
{
    ctx.str_value("function() {}")
}

/// `Object.is(a, b)`.
pub fn object_is(ctx: &mut Ctx, _this: JsValue, args: &[JsValue]) -> (r: Result<JsValue, Throw>)
    ensures
        gives_value(
            *old(ctx),
            *final(ctx),
            r,
            JsValue::Bool(same_value_of(arg_of(args@, 0), arg_of(args@, 1))),
        ),
{
    Ok(JsValue::Bool(same_value(arg(args, 0), arg(args, 1))))
}

// ---------------------------------------------------------------------------
// assign
// ---------------------------------------------------------------------------

/// Elements with the first `k` of others that are no holes put over them.
pub open spec fn overlaid(s: Seq<JsValue>, over: Seq<JsValue>, k: int) -> Seq<JsValue>
    decreases k,
{
    if k <= 0 {
        s
    } else {
        let t = overlaid(s, over, k - 1);
        if over[k - 1] == JsValue::Hole {
            t
        } else {
            with_element(t, k - 1, over[k - 1])
        }
    }
}

/// The values of the first `k` of some properties of an object, of those that are
/// enumerable, read one after another.
pub open spec fn read_values(h: HeapModel, source: usize, list: Seq<Prop>, k: int) -> (
    HeapModel,
    Result<Seq<(PropKey, JsValue)>, Fault>,
)
    decreases k,
{
    if k <= 0 {
        (h, Ok(seq![]))
    } else {
        match read_values(h, source, list, k - 1) {
            (h1, Err(f)) => (h1, Err(f)),
            (h1, Ok(head)) => {
                let p = list[k - 1];
                if !p.attrs.enumerable || !is_live(p) {
                    (h1, Ok(head))
                } else {
                    match p.body {
                        PropBody::Data(v) => (h1, Ok(head.push((p.key, v)))),
                        PropBody::Accessor(_, _) => match fetched(h1, source, p.key) {
                            (h2, Err(f)) => (h2, Err(f)),
                            (h2, Ok(v)) => (h2, Ok(head.push((p.key, v)))),
                        },
                    }
                }
            },
        }
    }
}

/// The heap with the first `k` of some values on an object.
pub open spec fn with_values(h: HeapModel, target: usize, pairs: Seq<(PropKey, JsValue)>, k: int) -> HeapModel
    decreases k,
{
    if k <= 0 {
        h
    } else {
        with_own(
            with_values(h, target, pairs, k - 1),
            target,
            pairs[k - 1].0,
            pairs[k - 1].1,
        )
    }
}

/// What copying a source to an object does: its elements, then the values of its
/// enumerable properties.
pub open spec fn with_source(h: HeapModel, target: usize, source: usize) -> (
    HeapModel,
    Result<(), Fault>,
) {
    let m = h.objects[target as int];
    let s = h.objects[source as int];
    let h1 = h.with_object(
        target,
        ObjModel { elements: overlaid(m.elements, s.elements, s.elements.len() as int), ..m },
    );
    match read_values(h1, source, s.named.list, s.named.list.len() as int) {
        (h2, Err(f)) => (h2, Err(f)),
        (h2, Ok(pairs)) => (with_values(h2, target, pairs, pairs.len() as int), Ok(())),
    }
}

/// What copying what the first `k` arguments hold to an object does.
pub open spec fn with_sources(h: HeapModel, target: usize, args: Seq<JsValue>, k: int) -> (
    HeapModel,
    Result<(), Fault>,
)
    decreases k,
{
    if k <= 1 {
        (h, Ok(()))
    } else {
        match with_sources(h, target, args, k - 1) {
            (h1, Err(f)) => (h1, Err(f)),
            (h1, Ok(_)) => match args[k - 1] {
                JsValue::Object(s) => with_source(h1, target, s),
                _ => (h1, Ok(())),
            },
        }
    }
}

/// What `Object.assign` does.
pub open spec fn assign_result(h: HeapModel, args: Seq<JsValue>) -> (
    HeapModel,
    Result<JsValue, Fault>,
) {
    match arg_of(args, 0) {
        JsValue::Object(o) => match with_sources(h, o, args, args.len() as int) {
            (h1, Ok(_)) => (h1, Ok(args[0])),
            (h1, Err(f)) => (h1, Err(f)),
        },
        _ => (h, Err(Fault::Text("TypeError: Object.assign called on non-object"@))),
    }
}

proof fn lemma_read_values_err(h: HeapModel, source: usize, list: Seq<Prop>, k: int, n: int)
    requires
        0 <= k <= n,
    ensures
        read_values(h, source, list, k).1 is Err ==> read_values(h, source, list, n) == read_values(
            h,
            source,
            list,
            k,
        ),
    decreases n - k,
{
    if k < n {
        lemma_read_values_err(h, source, list, k, n - 1);
    }
}

proof fn lemma_with_sources_err(h: HeapModel, target: usize, args: Seq<JsValue>, k: int, n: int)
    requires
        1 <= k <= n,
    ensures
        with_sources(h, target, args, k).1 is Err ==> with_sources(h, target, args, n)
            == with_sources(h, target, args, k),
    decreases n - k,
{
    if k < n {
        lemma_with_sources_err(h, target, args, k, n - 1);
    }
}

/// The elements of an object.
pub fn snapshot_elements(heap: &Heap, obj: usize) -> (r: Vec<JsValue>)
    requires
        heap.wf(),
        obj < heap@.objects.len(),
    ensures
        r@ == heap@.objects[obj as int].elements,
        valid_args(heap@, r@),
{
    let o: &JsObject = heap.object(obj);
    let mut out: Vec<JsValue> = Vec::new();
    let mut i: usize = 0;
    while i < o.elements.len()
        invariant
            heap@.valid_refs(o@),
            i <= o@.elements.len(),
            out@ == o@.elements.take(i as int),
        decreases o@.elements.len() - i,
    {
        out.push(o.elements[i]);
        proof {
            assert(out@ =~= o@.elements.take(i + 1));
        }
        i = i + 1;
    }
    proof {
        assert(out@ =~= o@.elements);
        assert forall|i: int| 0 <= i < out@.len() implies heap@.valid(#[trigger] out@[i]) by {
            assert(heap@.valid(o@.elements[i]));
        }
    }
    out
}

/// The named properties of an object.
pub fn snapshot_properties(heap: &Heap, obj: usize) -> (r: Vec<Prop>)
    requires
        heap.wf(),
        obj < heap@.objects.len(),
    ensures
        r@ == heap@.objects[obj as int].named.list,
        forall|i: int| 0 <= i < r@.len() ==> heap@.valid_prop(#[trigger] r@[i]),
{
    let o: &JsObject = heap.object(obj);
    let ghost list = o@.named.list;
    let keys: Vec<PropKey> = o.named.keys();
    let mut out: Vec<Prop> = Vec::new();
    let mut i: usize = 0;
    proof {
        o.named.lemma_distinct();
    }
    while i < keys.len()
        invariant
            o.named.wf(),
            list == o@.named.list,
            crate::properties::distinct_keys(list),
            keys@ == list.map_values(|p: Prop| p.key),
            i <= keys@.len(),
            out@ == list.take(i as int),
        decreases keys@.len() - i,
    {
        proof {
            crate::properties::lemma_index_of_key(list, keys@[i as int], i as int);
        }
        match o.named.get(keys[i]) {
            Some(p) => {
                out.push(p);
            },
            None => {},
        }
        proof {
            assert(out@ =~= list.take(i + 1));
        }
        i = i + 1;
    }
    proof {
        assert(out@ =~= list);
        assert forall|i: int| 0 <= i < out@.len() implies heap@.valid_prop(#[trigger] out@[i]) by {
            assert(heap@.valid_prop(list[i]));
        }
    }
    out
}

/// Puts a property on an object.
fn put_own(heap: &mut Heap, obj: usize, key: PropKey, v: JsValue)
    requires
        old(heap).wf(),
        obj < old(heap)@.objects.len(),
        old(heap)@.valid_key(key),
        old(heap)@.valid(v),
    ensures
        final(heap).wf(),
        final(heap)@ == with_own(old(heap)@, obj, key, v),
{
    let mut d: PropertyDescriptor = PropertyDescriptor::default();
    d.value = Some(v);
    let _ = ordinary_define_own_property(heap, obj, key, d);
}

/// Puts elements over those of an object.
fn overlay(heap: &mut Heap, target: usize, over: &Vec<JsValue>)
    requires
        old(heap).wf(),
        target < old(heap)@.objects.len(),
        valid_args(old(heap)@, over@),
    ensures
        final(heap).wf(),
        final(heap)@ == ({
            let m = old(heap)@.objects[target as int];
            old(heap)@.with_object(
                target,
                ObjModel { elements: overlaid(m.elements, over@, over@.len() as int), ..m },
            )
        }),
{
    let ghost h = heap@;
    let ghost m = h.objects[target as int];
    let mut i: usize = 0;
    proof {
        assert(h.with_object(target, ObjModel { elements: m.elements, ..m }) =~= h);
    }
    while i < over.len()
        invariant
            heap.wf(),
            target < h.objects.len(),
            m == h.objects[target as int],
            valid_args(h, over@),
                i <= over@.len(),
            heap@ == h.with_object(
                target,
                ObjModel { elements: overlaid(m.elements, over@, i as int), ..m },
            ),
        decreases over@.len() - i,
    {
        let v: JsValue = over[i];
        if v != JsValue::Hole {
            let ghost h1 = heap@;
            proof {
                assert(h.valid(over@[i as int]));
                heap.lemma_wf();
                assert(h1.valid_refs(h1.objects[target as int]));
                lemma_with_element_refs(h1, h1.objects[target as int], i as int, v);
            }
            let o = heap.object_mut(target);
            o.put_element(i, v);
            proof {
                assert(heap@ =~= h.with_object(
                    target,
                    ObjModel { elements: overlaid(m.elements, over@, i + 1), ..m },
                ));
            }
        }
        i = i + 1;
    }
}

/// Reads the values of the enumerable ones of some properties of an object.
fn collect_values(heap: &mut Heap, source: usize, props: &Vec<Prop>) -> (r: Result<
    Vec<(PropKey, JsValue)>,
    Throw,
>)
    requires
        old(heap).wf(),
        source < old(heap)@.objects.len(),
        forall|i: int| 0 <= i < props@.len() ==> old(heap)@.valid_prop(#[trigger] props@[i]),
    ensures
        final(heap).wf(),
        old(heap)@.keeps(final(heap)@),
        ({
            let (h, x) = read_values(old(heap)@, source, props@, props@.len() as int);
            final(heap)@ == h && match x {
                Ok(pairs) => r is Ok && r->Ok_0@ == pairs && forall|i: int|
                    0 <= i < pairs.len() ==> h.valid_key((#[trigger] pairs[i]).0) && h.valid(
                        pairs[i].1,
                    ),
                Err(f) => r is Err && is_fault(r->Err_0, f),
            }
        }),
{
    let ghost h = heap@;
    let mut pairs: Vec<(PropKey, JsValue)> = Vec::new();
    let mut i: usize = 0;
    while i < props.len()
        invariant
            heap.wf(),
            h == old(heap)@,
            h.keeps(heap@),
            source < heap@.objects.len(),
            forall|i: int| 0 <= i < props@.len() ==> h.valid_prop(#[trigger] props@[i]),
            i <= props@.len(),
            read_values(h, source, props@, i as int) == (
                heap@,
                Ok::<Seq<(PropKey, JsValue)>, Fault>(pairs@),
            ),
            forall|i: int|
                0 <= i < pairs@.len() ==> heap@.valid_key((#[trigger] pairs@[i]).0) && heap@.valid(
                    pairs@[i].1,
                ),
        decreases props@.len() - i,
    {
        let p: Prop = props[i];
        let ghost before = heap@;
        proof {
            assert(h.valid_prop(props@[i as int]));
            lemma_read_values_err(h, source, props@, i + 1, props@.len() as int);
        }
        if p.attrs.enumerable {
            match p.body {
                PropBody::Data(v) => {
                    if v != JsValue::Hole {
                        pairs.push((p.key, v));
                    }
                },
                PropBody::Accessor(_, _) => {
                    let got: Result<JsValue, Throw> = fetch(heap, source, p.key);
                    proof {
                        lemma_keeps_chain(h, before, heap@);
                    }
                    match got {
                        Ok(v) => {
                            pairs.push((p.key, v));
                        },
                        Err(t) => {
                            return Err(t);
                        },
                    }
                    proof {
                        assert forall|j: int| 0 <= j < pairs@.len() implies heap@.valid_key(
                            (#[trigger] pairs@[j]).0,
                        ) && heap@.valid(pairs@[j].1) by {
                            if j < pairs@.len() - 1 {
                                assert(before.valid_key(pairs@[j].0) && before.valid(pairs@[j].1));
                            }
                        }
                    }
                },
            }
        }
        i = i + 1;
    }
    Ok(pairs)
}

/// Copies what a source holds to an object.
fn copy_source(heap: &mut Heap, target: usize, source: usize) -> (r: Result<(), Throw>)
    requires
        old(heap).wf(),
        target < old(heap)@.objects.len(),
        source < old(heap)@.objects.len(),
    ensures
        final(heap).wf(),
        old(heap)@.within(final(heap)@),
        ({
            let (h, x) = with_source(old(heap)@, target, source);
            final(heap)@ == h && match x {
                Ok(_) => r is Ok,
                Err(f) => r is Err && is_fault(r->Err_0, f),
            }
        }),
{
    let elements: Vec<JsValue> = snapshot_elements(heap, source);
    let props: Vec<Prop> = snapshot_properties(heap, source);
    let ghost h0 = heap@;
    overlay(heap, target, &elements);
    proof {
        assert forall|i: int| 0 <= i < props@.len() implies heap@.valid_prop(
            #[trigger] props@[i],
        ) by {
            assert(h0.valid_prop(props@[i]));
        }
    }
    let pairs: Vec<(PropKey, JsValue)> = match collect_values(heap, source, &props) {
        Ok(pairs) => pairs,
        Err(t) => {
            return Err(t);
        },
    };
    let ghost h = heap@;
    let mut i: usize = 0;
    while i < pairs.len()
        invariant
            heap.wf(),
            target < heap@.objects.len(),
            h.within(heap@),
            forall|i: int|
                0 <= i < pairs@.len() ==> h.valid_key((#[trigger] pairs@[i]).0) && h.valid(
                    pairs@[i].1,
                ),
            i <= pairs@.len(),
            heap@ == with_values(h, target, pairs@, i as int),
        decreases pairs@.len() - i,
    {
        proof {
            assert(h.valid_key(pairs@[i as int].0) && h.valid(pairs@[i as int].1));
        }
        put_own(heap, target, pairs[i].0, pairs[i].1);
        i = i + 1;
    }
    Ok(())
}

/// `Object.assign(target, ...sources)`: copies elements and the values of enumerable
/// properties; accessors are read.
pub fn object_assign(ctx: &mut Ctx, _this: JsValue, args: &[JsValue]) -> (r: Result<JsValue, Throw>)
    requires
        old(ctx).wf(),
        valid_args(old(ctx).heap@, args@),
    ensures
        ends_in(*old(ctx), *final(ctx), r, assign_result(old(ctx).heap@, args@)),
{
    let target: usize = match arg(args, 0) {
        JsValue::Object(o) => o,
        _ => {
            return Err(error("TypeError: Object.assign called on non-object"));
        },
    };
    let ghost h = ctx.heap@;
    let mut i: usize = 1;
    while i < args.len()
        invariant
            ctx.wf(),
            ctx.global == old(ctx).global,
            ctx.pending == old(ctx).pending,
            h == old(ctx).heap@,
            arg_of(args@, 0) == JsValue::Object(target),
            1 <= i <= args@.len(),
            target < h.objects.len(),
            valid_args(h, args@),
            h.within(ctx.heap@),
            with_sources(h, target, args@, i as int) == (ctx.heap@, Ok::<(), Fault>(())),
        decreases args@.len() - i,
    {
        proof {
            assert(h.valid(args@[i as int]));
            lemma_with_sources_err(h, target, args@, i + 1, args@.len() as int);
        }
        match args[i] {
            JsValue::Object(s) => {
                match copy_source(&mut ctx.heap, target, s) {
                    Ok(_) => {},
                    Err(t) => {
                        return Err(t);
                    },
                }
            },
            _ => {},
        }
        i = i + 1;
    }
    Ok(JsValue::Object(target))
}

// ---------------------------------------------------------------------------
// Extensibility and integrity
// ---------------------------------------------------------------------------

/// The heap with an object closed against new properties.
pub open spec fn without_extension(h: HeapModel, o: usize) -> HeapModel {
    h.with_object(o, ObjModel { extensible: false, ..h.objects[o as int] })
}

/// `Object.preventExtensions(value)`: anything but an object is left as it is.
pub fn object_prevent_extensions(ctx: &mut Ctx, _this: JsValue, args: &[JsValue]) -> (r: Result<
    JsValue,
    Throw,
>)
    requires
        old(ctx).wf(),
        valid_args(old(ctx).heap@, args@),
    ensures
        ends_in(
            *old(ctx),
            *final(ctx),
            r,
            (
                match arg_of(args@, 0) {
                    JsValue::Object(o) => without_extension(old(ctx).heap@, o),
                    _ => old(ctx).heap@,
                },
                Ok(arg_of(args@, 0)),
            ),
        ),
{
    let v: JsValue = arg(args, 0);
    match v {
        JsValue::Object(o) => {
            let _ = crate::internal_methods::ordinary_prevent_extensions(&mut ctx.heap, o);
        },
        _ => {},
    }
    Ok(v)
}

/// `Object.isSealed(value)`: true of anything but an object.
pub fn object_is_sealed(ctx: &mut Ctx, _this: JsValue, args: &[JsValue]) -> (r: Result<
    JsValue,
    Throw,
>)
    requires
        old(ctx).wf(),
        valid_args(old(ctx).heap@, args@),
    ensures
        gives_value(
            *old(ctx),
            *final(ctx),
            r,
            JsValue::Bool(
                match arg_of(args@, 0) {
                    JsValue::Object(o) => old(ctx).heap@.objects[o as int].integrity
                        != Integrity::Open,
                    _ => true,
                },
            ),
        ),
{
    Ok(
        JsValue::Bool(
            match arg(args, 0) {
                JsValue::Object(o) => ctx.heap.object(o).integrity != Integrity::Open,
                _ => true,
            },
        ),
    )
}

/// `Object.isFrozen(value)`: true of anything but an object.
pub fn object_is_frozen(ctx: &mut Ctx, _this: JsValue, args: &[JsValue]) -> (r: Result<
    JsValue,
    Throw,
>)
    requires
        old(ctx).wf(),
        valid_args(old(ctx).heap@, args@),
    ensures
        gives_value(
            *old(ctx),
            *final(ctx),
            r,
            JsValue::Bool(
                match arg_of(args@, 0) {
                    JsValue::Object(o) => old(ctx).heap@.objects[o as int].integrity
                        == Integrity::Frozen,
                    _ => true,
                },
            ),
        ),
{
    Ok(
        JsValue::Bool(
            match arg(args, 0) {
                JsValue::Object(o) => ctx.heap.object(o).integrity == Integrity::Frozen,
                _ => true,
            },
        ),
    )
}

/// `Object.isExtensible(value)`: false of anything but an object.
pub fn object_is_extensible(ctx: &mut Ctx, _this: JsValue, args: &[JsValue]) -> (r: Result<
    JsValue,
    Throw,
>)
    requires
        old(ctx).wf(),
        valid_args(old(ctx).heap@, args@),
    ensures
        gives_value(
            *old(ctx),
            *final(ctx),
            r,
            JsValue::Bool(
                match arg_of(args@, 0) {
                    JsValue::Object(o) => old(ctx).heap@.objects[o as int].extensible,
                    _ => false,
                },
            ),
        ),
{
    Ok(
        JsValue::Bool(
            match arg(args, 0) {
                JsValue::Object(o) => ctx.heap.object(o).extensible,
                _ => false,
            },
        ),
    )
}

// ---------------------------------------------------------------------------
// fromEntries and setPrototypeOf
// ---------------------------------------------------------------------------

/// An element of an object, `undefined` where there is none.
pub open spec fn element_or_undefined(m: ObjModel, i: int) -> JsValue {
    match element_at(m.elements, i) {
        Some(v) => v,
        None => JsValue::Undefined,
    }
}

/// The heap with a property for each of the first `k` pairs on an object.
pub open spec fn with_entries(h: HeapModel, o: usize, pairs: Seq<JsValue>, k: int) -> HeapModel
    decreases k,
{
    if k <= 0 {
        h
    } else {
        let h1 = with_entries(h, o, pairs, k - 1);
        match pairs[k - 1] {
            JsValue::Object(p) => {
                let m = h1.objects[p as int];
                let (h2, key) = to_key(h1, element_or_undefined(m, 0));
                with_own(h2, o, key, element_or_undefined(m, 1))
            },
            _ => h1,
        }
    }
}

/// What `Object.fromEntries` does.
pub open spec fn from_entries_result(h: HeapModel, v: JsValue) -> (
    HeapModel,
    Result<JsValue, Fault>,
) {
    let o = h.objects.len() as usize;
    let h1 = h.with_new(plain_object(Kind::Ordinary));
    match v {
        JsValue::Object(e) => {
            let pairs = h.objects[e as int].elements;
            (with_entries(h1, o, pairs, pairs.len() as int), Ok(JsValue::Object(o)))
        },
        _ => (h1, Ok(JsValue::Object(o))),
    }
}

/// An element of an object, `undefined` where there is none.
fn element_value(heap: &Heap, obj: usize, i: u32) -> (r: JsValue)
    requires
        heap.wf(),
        obj < heap@.objects.len(),
    ensures
        r == element_or_undefined(heap@.objects[obj as int], i as int),
        heap@.valid(r),
{
    match heap.object(obj).get_element(i) {
        Some(v) => {
            proof {
                heap.lemma_wf();
                assert(heap@.valid_refs(heap@.objects[obj as int]));
                assert(heap@.valid(heap@.objects[obj as int].elements[i as int]));
            }
            v
        },
        None => JsValue::Undefined,
    }
}

/// `Object.fromEntries(entries)`: the elements of an object that are no objects are
/// left out.
pub fn object_from_entries(ctx: &mut Ctx, _this: JsValue, args: &[JsValue]) -> (r: Result<
    JsValue,
    Throw,
>)
    requires
        old(ctx).wf(),
        valid_args(old(ctx).heap@, args@),
    ensures
        ends_in(*old(ctx), *final(ctx), r, from_entries_result(old(ctx).heap@, arg_of(args@, 0))),
{
    let pairs: Vec<JsValue> = match arg(args, 0) {
        JsValue::Object(e) => snapshot_elements(&ctx.heap, e),
        _ => Vec::new(),
    };
    let ghost h0 = ctx.heap@;
    let obj: usize = ctx.alloc_obj(JsObject::plain(Kind::Ordinary));
    let ghost h1 = ctx.heap@;
    let mut i: usize = 0;
    while i < pairs.len()
        invariant
            ctx.wf(),
            ctx.global == old(ctx).global,
            ctx.pending == old(ctx).pending,
            obj < ctx.heap@.objects.len(),
            valid_args(h0, pairs@),
            h0.within(ctx.heap@),
            i <= pairs@.len(),
            ctx.heap@ == with_entries(h1, obj, pairs@, i as int),
        decreases pairs@.len() - i,
    {
        proof {
            assert(h0.valid(pairs@[i as int]));
        }
        match pairs[i] {
            JsValue::Object(p) => {
                let k: JsValue = element_value(&ctx.heap, p, 0);
                let v: JsValue = element_value(&ctx.heap, p, 1);
                let key: PropKey = ctx.property_key(k);
                put_own(&mut ctx.heap, obj, key, v);
            },
            _ => {},
        }
        i = i + 1;
    }
    Ok(JsValue::Object(obj))
}

/// What `Object.setPrototypeOf` does: the link is set without further tests.
pub open spec fn set_prototype_result(h: HeapModel, args: Seq<JsValue>) -> (
    HeapModel,
    Result<JsValue, Fault>,
) {
    match arg_of(args, 0) {
        JsValue::Object(o) => match arg_of(args, 1) {
            JsValue::Null => (
                h.with_object(o, ObjModel { prototype: None, ..h.objects[o as int] }),
                Ok(JsValue::Object(o)),
            ),
            JsValue::Object(p) => (
                h.with_object(o, ObjModel { prototype: Some(p), ..h.objects[o as int] }),
                Ok(JsValue::Object(o)),
            ),
            _ => (
                h,
                Err(
                    Fault::Text(
                        "TypeError: Object.setPrototypeOf prototype must be object or null"@,
                    ),
                ),
            ),
        },
        v => (h, Ok(v)),
    }
}

/// Sets the prototype of an object.
pub fn link_prototype(heap: &mut Heap, obj: usize, proto: Option<usize>)
    requires
        old(heap).wf(),
        obj < old(heap)@.objects.len(),
        old(heap)@.valid_object(proto),
    ensures
        final(heap).wf(),
        final(heap)@ == old(heap)@.with_object(
            obj,
            ObjModel { prototype: proto, ..old(heap)@.objects[obj as int] },
        ),
{
    let ghost h = heap@;
    let o = heap.object_mut(obj);
    proof {
        assert(h.valid_refs(ObjModel { prototype: proto, ..h.objects[obj as int] }));
    }
    o.prototype = proto;
}

/// `Object.setPrototypeOf(obj, proto)`.
pub fn object_set_prototype_of(ctx: &mut Ctx, _this: JsValue, args: &[JsValue]) -> (r: Result<
    JsValue,
    Throw,
>)
    requires
        old(ctx).wf(),
        valid_args(old(ctx).heap@, args@),
    ensures
        ends_in(*old(ctx), *final(ctx), r, set_prototype_result(old(ctx).heap@, args@)),
{
    let v: JsValue = arg(args, 0);
    let obj: usize = match v {
        JsValue::Object(o) => o,
        _ => {
            return Ok(v);
        },
    };
    let link: Option<usize> = match arg(args, 1) {
        JsValue::Null => None,
        JsValue::Object(p) => Some(p),
        _ => {
            return Err(
                error("TypeError: Object.setPrototypeOf prototype must be object or null"),
            );
        },
    };
    link_prototype(&mut ctx.heap, obj, link);
    Ok(v)
}

} // verus!
