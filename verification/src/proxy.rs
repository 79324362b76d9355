//! `Proxy`: making and revoking proxies.
use vstd::prelude::*;

use crate::convert::error;
use crate::ctx::{Ctx, arg, arg_of, fixed_attrs, is_kind, valid_args};
use crate::descriptor::Fault;
use crate::heap::{Heap, HeapModel, JsObject, ObjModel, lemma_text_id, plain_object};
use crate::object_define::ends_in;
use crate::object_describe::lemma_ascii_units;
use crate::record::{distinct_names, lemma_with_texts, make_record, recorded};
use crate::value::{Attrs, FunctionTarget, JsValue, Kind, Throw, all_attrs};

verus! {

/// A proxy of a target with a handler.
pub open spec fn proxy_object(target: usize, handler: usize) -> ObjModel {
    ObjModel {
        proxy_target: Some(target),
        proxy_handler: Some(handler),
        ..plain_object(Kind::Proxy)
    }
}

/// What making a proxy gives: target and handler must be objects.
pub open spec fn created_proxy(h: HeapModel, args: Seq<JsValue>) -> (
    HeapModel,
    Result<JsValue, Fault>,
) {
    match (arg_of(args, 0), arg_of(args, 1)) {
        (JsValue::Object(t), JsValue::Object(n)) => (
            h.with_new(proxy_object(t, n)),
            Ok(JsValue::Object(h.objects.len() as usize)),
        ),
        _ => (
            h,
            Err(
                Fault::Text(
                    "TypeError: Cannot create proxy with a non-object as target or handler"@,
                ),
            ),
        ),
    }
}

/// Makes a proxy; no trap of the handler runs.
fn create_proxy(ctx: &mut Ctx, args: &[JsValue]) -> (r: Result<JsValue, Throw>)
    requires
        old(ctx).wf(),
        valid_args(old(ctx).heap@, args@),
    ensures
        ends_in(*old(ctx), *final(ctx), r, created_proxy(old(ctx).heap@, args@)),
        r matches Ok(v) ==> final(ctx).heap@.valid(v),
{
    match (arg(args, 0), arg(args, 1)) {
        (JsValue::Object(t), JsValue::Object(n)) => {
            proof {
                assert(ctx.heap@.valid(arg_of(args@, 0)));
                assert(ctx.heap@.valid(arg_of(args@, 1)));
            }
            let mut o: JsObject = JsObject::plain(Kind::Proxy);
            o.proxy_target = Some(t);
            o.proxy_handler = Some(n);
            proof {
                assert(o@ == proxy_object(t, n));
            }
            let p: usize = ctx.alloc_obj(o);
            Ok(JsValue::Object(p))
        },
        _ => Err(error("TypeError: Cannot create proxy with a non-object as target or handler")),
    }
}

/// `new Proxy(target, handler)`: the receiver is the constructor itself.
pub fn proxy_construct(ctx: &mut Ctx, this: JsValue, args: &[JsValue]) -> (r: Result<JsValue, Throw>)
    requires
        old(ctx).wf(),
        old(ctx).heap@.valid(this),
        valid_args(old(ctx).heap@, args@),
    ensures
        ends_in(
            *old(ctx),
            *final(ctx),
            r,
            if is_kind(old(ctx).heap@, this, Kind::Function) {
                created_proxy(old(ctx).heap@, args@)
            } else {
                (
                    old(ctx).heap@,
                    Err(Fault::Text("TypeError: Constructor Proxy requires 'new'"@)),
                )
            },
        ),
{
    let constructs: bool = match this {
        JsValue::Object(o) => ctx.heap.object(o).kind == Kind::Function,
        _ => false,
    };
    if !constructs {
        return Err(error("TypeError: Constructor Proxy requires 'new'"));
    }
    create_proxy(ctx, args)
}

/// The function that revokes the proxy it is called on.
pub open spec fn revoker() -> ObjModel {
    ObjModel { callable: FunctionTarget::RevokeProxy, ..plain_object(Kind::Function) }
}

/// What a bound function holds: the function to run and its receiver.
pub open spec fn bound_state(inner: usize, receiver: usize) -> ObjModel {
    ObjModel {
        elements: seq![JsValue::Object(inner), JsValue::Object(receiver)],
        ..plain_object(Kind::Ordinary)
    }
}

/// A bound function before its properties.
pub open spec fn bound_function(state: usize) -> ObjModel {
    ObjModel { callable: FunctionTarget::Bound(state), ..plain_object(Kind::Function) }
}

/// The heap after `Proxy.revocable` made a proxy: a function that is bound to it and
/// revokes it, with `length` 0 and an empty `name`, and an object with both.
pub open spec fn with_revocable(h: HeapModel, proxy: usize) -> HeapModel {
    let h1 = h.with_new(revoker());
    let h2 = h1.with_new(bound_state(h.objects.len() as usize, proxy));
    let h3 = h2.interned(seq![]);
    let h4 = recorded(
        h3,
        bound_function(h1.objects.len() as usize),
        seq!["length", "name"],
        seq![JsValue::Smi(0), JsValue::Text(h3.text_id(seq![]))],
        fixed_attrs(),
    );
    recorded(
        h4,
        plain_object(Kind::Ordinary),
        seq!["proxy", "revoke"],
        seq![JsValue::Object(proxy), JsValue::Object(h2.objects.len() as usize)],
        all_attrs(),
    )
}

/// What `Proxy.revocable` gives.
pub open spec fn revocable(h: HeapModel, args: Seq<JsValue>) -> (HeapModel, Result<JsValue, Fault>) {
    match created_proxy(h, args) {
        (h1, Ok(_)) => (
            with_revocable(h1, h.objects.len() as usize),
            Ok(JsValue::Object((h.objects.len() + 4) as usize)),
        ),
        (h1, Err(f)) => (h1, Err(f)),
    }
}

/// Makes a function that is bound to a proxy and revokes it.
fn make_revoke(heap: &mut Heap, proxy: usize) -> (r: usize)
    requires
        old(heap).wf(),
        proxy < old(heap)@.objects.len(),
    ensures
        final(heap).wf(),
        ({
            let h1 = old(heap)@.with_new(revoker());
            let h2 = h1.with_new(bound_state(old(heap)@.objects.len() as usize, proxy));
            let h3 = h2.interned(seq![]);
            &&& final(heap)@ == recorded(
                h3,
                bound_function(h1.objects.len() as usize),
                seq!["length", "name"],
                seq![JsValue::Smi(0), JsValue::Text(h3.text_id(seq![]))],
                fixed_attrs(),
            )
            &&& r == h2.objects.len()
        }),
        final(heap)@.objects.len() == old(heap)@.objects.len() + 3,
        old(heap)@.extends_to(final(heap)@, old(heap)@.objects.len() as int),
{
    let ghost h = heap@;
    let mut f: JsObject = JsObject::plain(Kind::Function);
    f.callable = FunctionTarget::RevokeProxy;
    proof {
        assert(f@ == revoker());
    }
    let inner: usize = heap.allocate(f);
    let ghost h1 = heap@;
    let mut s: JsObject = JsObject::plain(Kind::Ordinary);
    s.elements.push(JsValue::Object(inner));
    s.elements.push(JsValue::Object(proxy));
    proof {
        assert(s@.elements =~= bound_state(inner, proxy).elements);
        assert(s@ == bound_state(inner, proxy));
        assert(h1.valid_refs(s@));
    }
    let state: usize = heap.allocate(s);
    let ghost h2 = heap@;
    let none: Vec<u16> = Vec::new();
    let empty: usize = heap.intern(none.as_slice());
    let ghost h3 = heap@;
    proof {
        assert(none@ =~= seq![]);
        heap.lemma_wf();
        lemma_text_id(h3, empty as int);
        reveal_strlit("length");
        reveal_strlit("name");
        lemma_ascii_units("length"@);
        lemma_ascii_units("name"@);
    }
    let mut b: JsObject = JsObject::plain(Kind::Function);
    b.callable = FunctionTarget::Bound(state);
    let mut names: Vec<&'static str> = Vec::new();
    names.push("length");
    names.push("name");
    let mut values: Vec<JsValue> = Vec::new();
    values.push(JsValue::Smi(0));
    values.push(JsValue::Text(empty));
    proof {
        assert(b@ == bound_function(state));
        assert(names@ =~= seq!["length", "name"]);
        assert(values@ =~= seq![JsValue::Smi(0), JsValue::Text(empty)]);
        assert(distinct_names(names@));
        lemma_with_texts(h3, names@, 2);
    }
    make_record(heap, b, &names, &values, Attrs::new(false, false, true))
}

/// `Proxy.revocable(target, handler)`: an object with the `proxy` and a function that
/// revokes it.
pub fn proxy_revocable(ctx: &mut Ctx, _this: JsValue, args: &[JsValue]) -> (r: Result<
    JsValue,
    Throw,
>)
    requires
        old(ctx).wf(),
        valid_args(old(ctx).heap@, args@),
    ensures
        ends_in(*old(ctx), *final(ctx), r, revocable(old(ctx).heap@, args@)),
{
    let proxy: usize = match create_proxy(ctx, args) {
        Err(t) => {
            return Err(t);
        },
        Ok(JsValue::Object(p)) => p,
        Ok(v) => {
            return Ok(v);
        },
    };
    let ghost h = ctx.heap@;
    let revoke: usize = make_revoke(&mut ctx.heap, proxy);
    let mut names: Vec<&'static str> = Vec::new();
    names.push("proxy");
    names.push("revoke");
    let mut values: Vec<JsValue> = Vec::new();
    values.push(JsValue::Object(proxy));
    values.push(JsValue::Object(revoke));
    proof {
        reveal_strlit("proxy");
        reveal_strlit("revoke");
        lemma_ascii_units("proxy"@);
        lemma_ascii_units("revoke"@);
        assert(names@ =~= seq!["proxy", "revoke"]);
        assert(values@ =~= seq![JsValue::Object(proxy), JsValue::Object(revoke)]);
        assert(distinct_names(names@));
    }
    let o: usize = make_record(
        &mut ctx.heap,
        JsObject::plain(Kind::Ordinary),
        &names,
        &values,
        Attrs::all(),
    );
    Ok(JsValue::Object(o))
}

/// A proxy without its target and handler.
pub open spec fn revoked(m: ObjModel) -> ObjModel {
    ObjModel { proxy_target: None, proxy_handler: None, ..m }
}

/// The heap after the revocation function was called on a receiver.
pub open spec fn after_revoke(h: HeapModel, this: JsValue) -> HeapModel {
    match this {
        JsValue::Object(o) => if h.objects[o as int].kind == Kind::Proxy {
            h.with_object(o, revoked(h.objects[o as int]))
        } else {
            h
        },
        _ => h,
    }
}

/// Revokes the proxy that is the receiver; anything else stays as it is.
pub fn revoke_proxy(heap: &mut Heap, this: JsValue, _args: &[JsValue]) -> (r: Result<JsValue, Throw>)
    requires
        old(heap).wf(),
        old(heap)@.valid(this),
    ensures
        final(heap).wf(),
        final(heap)@ == after_revoke(old(heap)@, this),
        r == Ok::<JsValue, Throw>(JsValue::Undefined),
{
    let ghost h = heap@;
    match this {
        JsValue::Object(p) => {
            if heap.object(p).kind == Kind::Proxy {
                proof {
                    assert(h.valid_refs(revoked(h.objects[p as int])));
                }
                let o = heap.object_mut(p);
                o.proxy_target = None;
                o.proxy_handler = None;
            }
        },
        _ => {},
    }
    Ok(JsValue::Undefined)
}

/// Revoking a proxy again changes nothing, and a revoked proxy is still a proxy.
pub proof fn law_revoke_once(m: ObjModel)
    ensures
        revoked(revoked(m)) == revoked(m),
        revoked(m).kind == m.kind,
        revoked(m).proxy_target is None,
        revoked(m).proxy_handler is None,
{
}

} // verus!
