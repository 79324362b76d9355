//! `Object` functions that list or test properties.
use vstd::prelude::*;

use crate::convert::{error, error3};
use crate::ctx::{Ctx, arg, arg_of, array_object, only_heap, to_key, valid_args};
use crate::descriptor::{Fault, is_fault};
use crate::heap::{Heap, HeapModel, JsObject, ObjModel, plain_object};
use crate::internal_methods::{element_of_key, keyed_element};
use crate::key_order::{
    collect_symbols, is_live, ordered_ids, own_element_ids, own_elements, own_ordered_names,
    own_text_ids, own_texts, symbol_ids, text_ids, valid_ids,
};
use crate::object_define::{ends_in, fetch, fetched, lemma_keeps_chain};
use crate::properties::{PropBody, lookup};
use crate::text::{nat_text, push_nat, utf16_of};
use crate::value::{JsValue, Kind, PropKey, Throw};

verus! {

// ---------------------------------------------------------------------------
// Helpers
// ---------------------------------------------------------------------------

/// Texts as values.
pub open spec fn text_values(ids: Seq<usize>) -> Seq<JsValue> {
    ids.map_values(|n: usize| JsValue::Text(n))
}

/// The names of the first `k` units of a text, and the heap that holds them.
pub open spec fn index_names(h: HeapModel, k: int) -> (HeapModel, Seq<usize>)
    decreases k,
{
    if k <= 0 {
        (h, seq![])
    } else {
        let (h1, ids) = index_names(h, k - 1);
        let t = nat_text((k - 1) as nat);
        (h1.interned(t), ids.push(h1.text_id(t)))
    }
}

/// The first `k` units of a text as texts, and the heap that holds them.
pub open spec fn unit_texts(h: HeapModel, t: Seq<u16>, k: int) -> (HeapModel, Seq<usize>)
    decreases k,
{
    if k <= 0 {
        (h, seq![])
    } else {
        let (h1, ids) = unit_texts(h, t, k - 1);
        let u = seq![t[k - 1]];
        (h1.interned(u), ids.push(h1.text_id(u)))
    }
}

/// Texts as values.
fn as_text_values(ids: &Vec<usize>) -> (r: Vec<JsValue>)
    ensures
        r@ == text_values(ids@),
{
    let mut out: Vec<JsValue> = Vec::new();
    let mut i: usize = 0;
    while i < ids.len()
        invariant
            i <= ids@.len(),
            out@ == text_values(ids@.take(i as int)),
        decreases ids@.len() - i,
    {
        out.push(JsValue::Text(ids[i]));
        proof {
            assert(out@ =~= text_values(ids@.take(i + 1)));
        }
        i = i + 1;
    }
    proof {
        assert(ids@.take(i as int) =~= ids@);
    }
    out
}

/// The number of a text that is the decimal of `i`.
pub fn intern_index(heap: &mut Heap, i: u64) -> (r: usize)
    requires
        old(heap).wf(),
    ensures
        final(heap).wf(),
        final(heap)@ == old(heap)@.interned(nat_text(i as nat)),
        r == old(heap)@.text_id(nat_text(i as nat)),
        r < final(heap)@.texts.len(),
        final(heap)@.texts[r as int] == nat_text(i as nat),
        old(heap)@.grows_to(final(heap)@),
{
    let mut t: Vec<u16> = Vec::new();
    push_nat(&mut t, i);
    proof {
        assert(t@ =~= nat_text(i as nat));
        assert(heap@.texts.is_prefix_of(heap@.interned(t@).texts));
    }
    heap.intern(t.as_slice())
}

/// Names the first `n` units of a text.
fn name_indices(heap: &mut Heap, n: usize) -> (r: Vec<usize>)
    requires
        old(heap).wf(),
    ensures
        final(heap).wf(),
        (final(heap)@, r@) == index_names(old(heap)@, n as int),
        old(heap)@.grows_to(final(heap)@),
        valid_ids(final(heap)@, r@),
{
    let ghost h = heap@;
    let mut out: Vec<usize> = Vec::new();
    let mut i: usize = 0;
    proof {
        assert(h.texts.is_prefix_of(h.texts));
    }
    while i < n
        invariant
            heap.wf(),
            i <= n,
            (heap@, out@) == index_names(h, i as int),
            h.grows_to(heap@),
            valid_ids(heap@, out@),
        decreases n - i,
    {
        let id: usize = intern_index(heap, i as u64);
        out.push(id);
        i = i + 1;
    }
    out
}

/// The units of a text as texts.
fn split_units(heap: &mut Heap, text: usize) -> (r: Vec<usize>)
    requires
        old(heap).wf(),
        text < old(heap)@.texts.len(),
    ensures
        final(heap).wf(),
        (final(heap)@, r@) == unit_texts(
            old(heap)@,
            old(heap)@.texts[text as int],
            old(heap)@.texts[text as int].len() as int,
        ),
        old(heap)@.grows_to(final(heap)@),
        valid_ids(final(heap)@, r@),
{
    let ghost h = heap@;
    let ghost t = h.texts[text as int];
    let n: usize = heap.text(text).len();
    let mut out: Vec<usize> = Vec::new();
    let mut i: usize = 0;
    proof {
        assert(h.texts.is_prefix_of(h.texts));
    }
    while i < n
        invariant
            heap.wf(),
            text < h.texts.len(),
            t == h.texts[text as int],
            n == t.len(),
            i <= n,
            (heap@, out@) == unit_texts(h, t, i as int),
            h.grows_to(heap@),
            valid_ids(heap@, out@),
        decreases n - i,
    {
        let ghost before = heap@;
        let u: u16 = heap.text(text)[i];
        let mut one: Vec<u16> = Vec::new();
        one.push(u);
        proof {
            assert(one@ =~= seq![t[i as int]]);
        }
        let id: usize = heap.intern(one.as_slice());
        out.push(id);
        proof {
            assert(before.texts.is_prefix_of(heap@.texts));
            assert(h.texts.is_prefix_of(heap@.texts));
        }
        i = i + 1;
    }
    out
}

/// An error for a missing receiver of an `Object` function.
pub open spec fn not_coercible(method: Seq<char>) -> Seq<char> {
    "TypeError: Object."@ + method + " called on non-object"@
}

// ---------------------------------------------------------------------------
// keys, values, entries
// ---------------------------------------------------------------------------

/// The enumerable text keys of a value, with the heap that holds them: those of an
/// object, and the indices of a text.
pub open spec fn key_list(h: HeapModel, v: JsValue) -> (HeapModel, Seq<usize>) {
    match v {
        JsValue::Object(o) => own_text_ids(h, o, true),
        JsValue::Text(n) => index_names(h, h.texts[n as int].len() as int),
        _ => (h, seq![]),
    }
}

/// What `Object.keys` does.
pub open spec fn keys_result(h: HeapModel, v: JsValue) -> (HeapModel, Result<JsValue, Fault>) {
    if v == JsValue::Undefined || v == JsValue::Null {
        (h, Err(Fault::Text(not_coercible("keys"@))))
    } else {
        let (h1, ids) = key_list(h, v);
        (
            h1.with_new(ObjModel { elements: text_values(ids), ..plain_object(Kind::Array) }),
            Ok(JsValue::Object(h1.objects.len() as usize)),
        )
    }
}

/// `Object.keys(value)`.
pub fn object_keys(ctx: &mut Ctx, _this: JsValue, args: &[JsValue]) -> (r: Result<JsValue, Throw>)
    requires
        old(ctx).wf(),
        valid_args(old(ctx).heap@, args@),
    ensures
        ends_in(*old(ctx), *final(ctx), r, keys_result(old(ctx).heap@, arg_of(args@, 0))),
{
    let v: JsValue = arg(args, 0);
    if v == JsValue::Undefined || v == JsValue::Null {
        return Err(error3("TypeError: Object.", "keys", " called on non-object"));
    }
    let ids: Vec<usize> = match v {
        JsValue::Object(o) => own_texts(&mut ctx.heap, o, true),
        JsValue::Text(n) => {
            let len: usize = ctx.heap.text(n).len();
            name_indices(&mut ctx.heap, len)
        },
        _ => Vec::new(),
    };
    proof {
        assert(ids@ =~= key_list(old(ctx).heap@, v).1);
    }
    let mut o: JsObject = JsObject::plain(Kind::Array);
    o.elements = as_text_values(&ids);
    proof {
        assert(o@ == ObjModel { elements: text_values(ids@), ..plain_object(Kind::Array) });
        assert(ctx.heap@.valid_refs(o@));
    }
    Ok(JsValue::Object(ctx.alloc_obj(o)))
}

/// The values of the first `k` properties, read one after another: `undefined` where
/// reading one throws, a failure where a getter has to run first.
pub open spec fn property_values(h: HeapModel, o: usize, ids: Seq<usize>, k: int) -> (
    HeapModel,
    Result<Seq<JsValue>, Fault>,
)
    decreases k,
{
    if k <= 0 {
        (h, Ok(seq![]))
    } else {
        match property_values(h, o, ids, k - 1) {
            (h1, Err(f)) => (h1, Err(f)),
            (h1, Ok(s)) => match fetched(h1, o, PropKey::Text(ids[k - 1])) {
                (h2, Ok(v)) => (h2, Ok(s.push(v))),
                (h2, Err(Fault::Getter(g, w))) => (h2, Err(Fault::Getter(g, w))),
                (h2, Err(_)) => (h2, Ok(s.push(JsValue::Undefined))),
            },
        }
    }
}

proof fn lemma_values_err(h: HeapModel, o: usize, ids: Seq<usize>, k: int, n: int)
    requires
        0 <= k <= n,
    ensures
        property_values(h, o, ids, k).1 is Err ==> property_values(h, o, ids, n)
            == property_values(h, o, ids, k),
    decreases n - k,
{
    if k < n {
        lemma_values_err(h, o, ids, k, n - 1);
    }
}

/// The values of properties.
fn read_values(heap: &mut Heap, obj: usize, ids: &Vec<usize>) -> (r: Result<Vec<JsValue>, Throw>)
    requires
        old(heap).wf(),
        obj < old(heap)@.objects.len(),
        valid_ids(old(heap)@, ids@),
    ensures
        final(heap).wf(),
        old(heap)@.keeps(final(heap)@),
        ({
            let (h, x) = property_values(old(heap)@, obj, ids@, ids@.len() as int);
            final(heap)@ == h && match x {
                Ok(s) => r is Ok && r->Ok_0@ == s && s.len() == ids@.len() && valid_args(h, s),
                Err(f) => r is Err && is_fault(r->Err_0, f),
            }
        }),
{
    let ghost h = heap@;
    let mut out: Vec<JsValue> = Vec::new();
    let mut i: usize = 0;
    while i < ids.len()
        invariant
            heap.wf(),
            h == old(heap)@,
            h.keeps(heap@),
            obj < heap@.objects.len(),
            valid_ids(heap@, ids@),
            i <= ids@.len(),
            out@.len() == i,
            property_values(h, obj, ids@, i as int) == (heap@, Ok::<Seq<JsValue>, Fault>(out@)),
            valid_args(heap@, out@),
        decreases ids@.len() - i,
    {
        let ghost before = heap@;
        let got: Result<JsValue, Throw> = fetch(heap, obj, PropKey::Text(ids[i]));
        proof {
            lemma_keeps_chain(h, before, heap@);
            lemma_values_err(h, obj, ids@, i + 1, ids@.len() as int);
        }
        let v: JsValue = match got {
            Ok(v) => v,
            Err(Throw::HostGetter(g, w)) => {
                return Err(Throw::HostGetter(g, w));
            },
            Err(_) => JsValue::Undefined,
        };
        out.push(v);
        proof {
            assert forall|j: int| 0 <= j < out@.len() implies heap@.valid(#[trigger] out@[j]) by {
                if j < i {
                    assert(before.valid(out@[j]));
                }
            }
        }
        i = i + 1;
    }
    Ok(out)
}

/// What `Object.values` does.
pub open spec fn values_result(h: HeapModel, global: Option<usize>, v: JsValue) -> (
    HeapModel,
    Result<JsValue, Fault>,
) {
    if v == JsValue::Undefined || v == JsValue::Null {
        (h, Err(Fault::Text(not_coercible("values"@))))
    } else {
        let (h1, x) = match v {
            JsValue::Object(o) => {
                let (h1, ids) = own_text_ids(h, o, true);
                property_values(h1, o, ids, ids.len() as int)
            },
            JsValue::Text(n) => {
                let (h1, ids) = unit_texts(h, h.texts[n as int], h.texts[n as int].len() as int);
                (h1, Ok(text_values(ids)))
            },
            _ => (h, Ok(seq![])),
        };
        match x {
            Err(f) => (h1, Err(f)),
            Ok(items) => (
                h1.with_new(array_object(h1, global, items)),
                Ok(JsValue::Object(h1.objects.len() as usize)),
            ),
        }
    }
}

/// `Object.values(value)`.
pub fn object_values(ctx: &mut Ctx, _this: JsValue, args: &[JsValue]) -> (r: Result<JsValue, Throw>)
    requires
        old(ctx).wf(),
        valid_args(old(ctx).heap@, args@),
    ensures
        ends_in(
            *old(ctx),
            *final(ctx),
            r,
            values_result(old(ctx).heap@, old(ctx).global, arg_of(args@, 0)),
        ),
{
    let v: JsValue = arg(args, 0);
    if v == JsValue::Undefined || v == JsValue::Null {
        return Err(error3("TypeError: Object.", "values", " called on non-object"));
    }
    let ghost h = ctx.heap@;
    let items: Vec<JsValue> = match v {
        JsValue::Object(o) => {
            let ids: Vec<usize> = own_texts(&mut ctx.heap, o, true);
            match read_values(&mut ctx.heap, o, &ids) {
                Ok(items) => items,
                Err(t) => {
                    return Err(t);
                },
            }
        },
        JsValue::Text(n) => {
            let ids: Vec<usize> = split_units(&mut ctx.heap, n);
            as_text_values(&ids)
        },
        _ => {
            let none: Vec<JsValue> = Vec::new();
            proof {
                assert(none@ =~= Seq::<JsValue>::empty());
            }
            none
        },
    };
    Ok(ctx.array_value(items))
}

/// The heap with a two-element array for each of the first `k` keys.
pub open spec fn with_pairs(h: HeapModel, keys: Seq<JsValue>, values: Seq<JsValue>, k: int) -> HeapModel
    decreases k,
{
    if k <= 0 {
        h
    } else {
        with_pairs(h, keys, values, k - 1).with_new(
            ObjModel {
                elements: seq![keys[k - 1], values[k - 1]],
                ..plain_object(Kind::Array)
            },
        )
    }
}

/// `n` objects from the number `first` on.
pub open spec fn object_run(first: int, n: nat) -> Seq<JsValue> {
    Seq::new(n, |i: int| JsValue::Object((first + i) as usize))
}

/// The enumerable keys and values of a value, with the heap that holds them.
pub open spec fn entry_list(h: HeapModel, v: JsValue) -> (
    HeapModel,
    Seq<JsValue>,
    Result<Seq<JsValue>, Fault>,
) {
    match v {
        JsValue::Object(o) => {
            let (h1, ids) = own_text_ids(h, o, true);
            let (h2, x) = property_values(h1, o, ids, ids.len() as int);
            (h2, text_values(ids), x)
        },
        JsValue::Text(n) => {
            let t = h.texts[n as int];
            let (h1, keys) = index_names(h, t.len() as int);
            let (h2, units) = unit_texts(h1, t, t.len() as int);
            (h2, text_values(keys), Ok(text_values(units)))
        },
        _ => (h, seq![], Ok(seq![])),
    }
}

/// What `Object.entries` does.
pub open spec fn entries_result(h: HeapModel, global: Option<usize>, v: JsValue) -> (
    HeapModel,
    Result<JsValue, Fault>,
) {
    if v == JsValue::Undefined || v == JsValue::Null {
        (h, Err(Fault::Text(not_coercible("entries"@))))
    } else {
        let (h1, keys, x) = entry_list(h, v);
        match x {
            Err(f) => (h1, Err(f)),
            Ok(values) => {
                let h2 = with_pairs(h1, keys, values, keys.len() as int);
                (
                    h2.with_new(
                        array_object(h2, global, object_run(h1.objects.len() as int, keys.len())),
                    ),
                    Ok(JsValue::Object(h2.objects.len() as usize)),
                )
            },
        }
    }
}

/// Makes a two-element array for each key.
fn make_pairs(ctx: &mut Ctx, keys: &Vec<JsValue>, values: &Vec<JsValue>) -> (r: Vec<JsValue>)
    requires
        old(ctx).wf(),
        keys@.len() == values@.len(),
        valid_args(old(ctx).heap@, keys@),
        valid_args(old(ctx).heap@, values@),
    ensures
        only_heap(
            *old(ctx),
            *final(ctx),
            with_pairs(old(ctx).heap@, keys@, values@, keys@.len() as int),
        ),
        r@ == object_run(old(ctx).heap@.objects.len() as int, keys@.len()),
        valid_args(final(ctx).heap@, r@),
{
    let ghost h = ctx.heap@;
    let mut out: Vec<JsValue> = Vec::new();
    let mut i: usize = 0;
    while i < keys.len()
        invariant
            ctx.wf(),
            ctx.global == old(ctx).global,
            ctx.pending == old(ctx).pending,
            keys@.len() == values@.len(),
            valid_args(h, keys@),
            valid_args(h, values@),
            i <= keys@.len(),
            ctx.heap@ == with_pairs(h, keys@, values@, i as int),
            h.within(ctx.heap@),
            ctx.heap@.objects.len() == h.objects.len() + i,
            out@ == object_run(h.objects.len() as int, i as nat),
            valid_args(ctx.heap@, out@),
        decreases keys@.len() - i,
    {
        let mut o: JsObject = JsObject::plain(Kind::Array);
        proof {
            assert(h.valid(keys@[i as int]));
            assert(h.valid(values@[i as int]));
        }
        o.elements.push(keys[i]);
        o.elements.push(values[i]);
        proof {
            assert(o.elements@ =~= seq![keys@[i as int], values@[i as int]]);
            assert(o@ == ObjModel {
                elements: seq![keys@[i as int], values@[i as int]],
                ..plain_object(Kind::Array)
            });
        }
        let n: usize = ctx.alloc_obj(o);
        out.push(JsValue::Object(n));
        proof {
            assert(out@ =~= object_run(h.objects.len() as int, (i + 1) as nat));
        }
        i = i + 1;
    }
    out
}

/// `Object.entries(value)`.
pub fn object_entries(ctx: &mut Ctx, _this: JsValue, args: &[JsValue]) -> (r: Result<JsValue, Throw>)
    requires
        old(ctx).wf(),
        valid_args(old(ctx).heap@, args@),
    ensures
        ends_in(
            *old(ctx),
            *final(ctx),
            r,
            entries_result(old(ctx).heap@, old(ctx).global, arg_of(args@, 0)),
        ),
{
    let v: JsValue = arg(args, 0);
    if v == JsValue::Undefined || v == JsValue::Null {
        return Err(error3("TypeError: Object.", "entries", " called on non-object"));
    }
    let ghost h = ctx.heap@;
    let mut keys: Vec<JsValue> = Vec::new();
    let mut values: Vec<JsValue> = Vec::new();
    match v {
        JsValue::Object(o) => {
            let ids: Vec<usize> = own_texts(&mut ctx.heap, o, true);
            keys = as_text_values(&ids);
            values = match read_values(&mut ctx.heap, o, &ids) {
                Ok(values) => values,
                Err(t) => {
                    return Err(t);
                },
            };
        },
        JsValue::Text(n) => {
            let len: usize = ctx.heap.text(n).len();
            let ids: Vec<usize> = name_indices(&mut ctx.heap, len);
            let ghost h1 = ctx.heap@;
            let units: Vec<usize> = split_units(&mut ctx.heap, n);
            proof {
                assert(h1.texts[n as int] == h.texts[n as int]);
                lemma_index_names_len(h, len as int);
                lemma_unit_texts_len(h1, h.texts[n as int], len as int);
            }
            keys = as_text_values(&ids);
            values = as_text_values(&units);
        },
        _ => {
            proof {
                assert(keys@ =~= Seq::<JsValue>::empty());
                assert(values@ =~= Seq::<JsValue>::empty());
            }
        },
    }
    let items: Vec<JsValue> = make_pairs(ctx, &keys, &values);
    Ok(ctx.array_value(items))
}

proof fn lemma_index_names_len(h: HeapModel, k: int)
    requires
        0 <= k,
    ensures
        index_names(h, k).1.len() == k,
    decreases k,
{
    if k > 0 {
        lemma_index_names_len(h, k - 1);
    }
}

proof fn lemma_unit_texts_len(h: HeapModel, t: Seq<u16>, k: int)
    requires
        0 <= k,
    ensures
        unit_texts(h, t, k).1.len() == k,
    decreases k,
{
    if k > 0 {
        lemma_unit_texts_len(h, t, k - 1);
    }
}

// ---------------------------------------------------------------------------
// for-in
// ---------------------------------------------------------------------------

/// Texts with those of the first `k` others that are not among them yet.
pub open spec fn add_new(seen: Seq<usize>, ids: Seq<usize>, k: int) -> Seq<usize>
    decreases k,
{
    if k <= 0 {
        seen
    } else {
        let s = add_new(seen, ids, k - 1);
        if s.contains(ids[k - 1]) {
            s
        } else {
            s.push(ids[k - 1])
        }
    }
}

/// The enumerable keys along a chain of at most `n` objects, each once, behind those
/// that were seen before; and the heap that holds them.
pub open spec fn chain_keys(h: HeapModel, o: Option<usize>, n: nat, seen: Seq<usize>) -> (
    HeapModel,
    Seq<usize>,
)
    decreases n,
{
    match o {
        None => (h, seen),
        Some(k) => if n == 0 {
            (h, seen)
        } else {
            let (h1, ids) = own_text_ids(h, k, true);
            chain_keys(
                h1,
                h.objects[k as int].prototype,
                (n - 1) as nat,
                add_new(seen, ids, ids.len() as int),
            )
        },
    }
}

/// What listing the keys for a `for`-`in` loop does.
pub open spec fn enumerated_result(h: HeapModel, global: Option<usize>, v: JsValue) -> (
    HeapModel,
    Result<JsValue, Fault>,
) {
    let (h1, ids) = match v {
        JsValue::Object(o) => chain_keys(h, Some(o), h.objects.len(), seq![]),
        _ => (h, seq![]),
    };
    (
        h1.with_new(array_object(h1, global, text_values(ids))),
        Ok(JsValue::Object(h1.objects.len() as usize)),
    )
}

/// Appends texts that are not there yet.
fn append_new(seen: &mut Vec<usize>, ids: &Vec<usize>)
    ensures
        final(seen)@ == add_new(old(seen)@, ids@, ids@.len() as int),
{
    let ghost start = seen@;
    let mut i: usize = 0;
    while i < ids.len()
        invariant
            i <= ids@.len(),
            seen@ == add_new(start, ids@, i as int),
        decreases ids@.len() - i,
    {
        let id: usize = ids[i];
        if !has_id(seen, id) {
            seen.push(id);
        }
        i = i + 1;
    }
}

/// Whether a text is among others.
fn has_id(seen: &Vec<usize>, id: usize) -> (r: bool)
    ensures
        r == seen@.contains(id),
{
    let mut i: usize = 0;
    while i < seen.len()
        invariant
            i <= seen@.len(),
            forall|k: int| 0 <= k < i ==> #[trigger] seen@[k] != id,
        decreases seen@.len() - i,
    {
        if seen[i] == id {
            proof {
                assert(seen@[i as int] == id);
            }
            return true;
        }
        i = i + 1;
    }
    false
}

proof fn lemma_add_new_valid(h: HeapModel, seen: Seq<usize>, ids: Seq<usize>, k: int)
    requires
        valid_ids(h, seen),
        valid_ids(h, ids),
        k <= ids.len(),
    ensures
        valid_ids(h, add_new(seen, ids, k)),
    decreases k,
{
    if k > 0 {
        lemma_add_new_valid(h, seen, ids, k - 1);
    }
}

/// Lists the enumerable keys along the chain of an object.
fn list_chain(heap: &mut Heap, obj: usize) -> (r: Vec<usize>)
    requires
        old(heap).wf(),
        obj < old(heap)@.objects.len(),
    ensures
        final(heap).wf(),
        (final(heap)@, r@) == chain_keys(
            old(heap)@,
            Some(obj),
            old(heap)@.objects.len(),
            seq![],
        ),
        old(heap)@.grows_to(final(heap)@),
        valid_ids(final(heap)@, r@),
{
    let ghost h = heap@;
    let mut out: Vec<usize> = Vec::new();
    let mut cur: Option<usize> = Some(obj);
    proof {
        assert(h.texts.is_prefix_of(h.texts));
        assert(out@ =~= Seq::<usize>::empty());
    }
    let mut left: usize = heap.object_count();
    while left > 0
        invariant
            heap.wf(),
            h == old(heap)@,
            h.grows_to(heap@),
            h.valid_object(cur),
            valid_ids(heap@, out@),
            chain_keys(h, Some(obj), h.objects.len(), seq![]) == chain_keys(
                heap@,
                cur,
                left as nat,
                out@,
            ),
        decreases left,
    {
        let o: usize = match cur {
            None => {
                return out;
            },
            Some(o) => o,
        };
        let ghost before = heap@;
        let ids: Vec<usize> = own_texts(heap, o, true);
        proof {
            assert(h.texts.is_prefix_of(heap@.texts));
            assert forall|i: int| 0 <= i < out@.len() implies #[trigger] out@[i] < heap@.texts.len() by {
                assert(out@[i] < before.texts.len());
            }
            lemma_add_new_valid(heap@, out@, ids@, ids@.len() as int);
        }
        append_new(&mut out, &ids);
        cur = heap.object(o).prototype;
        left = left - 1;
    }
    out
}

/// Lists the keys for a `for`-`in` loop: the enumerable text keys of an object and of
/// the prototypes behind it, each once; none of anything else.
pub fn object_enumerable_own_keys(ctx: &mut Ctx, _this: JsValue, args: &[JsValue]) -> (r: Result<
    JsValue,
    Throw,
>)
    requires
        old(ctx).wf(),
        valid_args(old(ctx).heap@, args@),
    ensures
        ends_in(
            *old(ctx),
            *final(ctx),
            r,
            enumerated_result(old(ctx).heap@, old(ctx).global, arg_of(args@, 0)),
        ),
{
    let items: Vec<JsValue> = match arg(args, 0) {
        JsValue::Object(o) => {
            let ids: Vec<usize> = list_chain(&mut ctx.heap, o);
            as_text_values(&ids)
        },
        _ => {
            let none: Vec<JsValue> = Vec::new();
            proof {
                assert(none@ =~= text_values(seq![]));
            }
            none
        },
    };
    Ok(ctx.array_value(items))
}

// ---------------------------------------------------------------------------
// Own names and symbols
// ---------------------------------------------------------------------------

/// All text keys of an object in order, and the heap that holds them.
pub open spec fn own_names_of(h: HeapModel, o: usize) -> (HeapModel, Seq<usize>) {
    let m = h.objects[o as int];
    let (h1, e) = own_element_ids(h, m);
    (h1, e + ordered_ids(h1, text_ids(m.named.list, m.named.list.len() as int, false)))
}

/// All text keys of an object: elements first, then names in order.
pub fn own_property_names(heap: &mut Heap, obj: usize) -> (r: Vec<usize>)
    requires
        old(heap).wf(),
        obj < old(heap)@.objects.len(),
    ensures
        final(heap).wf(),
        (final(heap)@, r@) == own_names_of(old(heap)@, obj),
        old(heap)@.grows_to(final(heap)@),
        valid_ids(final(heap)@, r@),
{
    let mut out: Vec<usize> = own_elements(heap, obj);
    let names: Vec<usize> = own_ordered_names(heap, obj);
    let ghost first = out@;
    let mut k: usize = 0;
    proof {
        assert(first + names@.take(0) =~= first);
    }
    while k < names.len()
        invariant
            k <= names@.len(),
            valid_ids(heap@, names@),
            valid_ids(heap@, out@),
            out@ == first + names@.take(k as int),
        decreases names@.len() - k,
    {
        out.push(names[k]);
        proof {
            assert(first + names@.take(k + 1) =~= (first + names@.take(k as int)).push(
                names@[k as int],
            ));
        }
        k = k + 1;
    }
    proof {
        assert(names@.take(k as int) =~= names@);
    }
    out
}

/// What `Object.getOwnPropertyNames` does.
pub open spec fn names_result(h: HeapModel, global: Option<usize>, v: JsValue) -> (
    HeapModel,
    Result<JsValue, Fault>,
) {
    if v == JsValue::Undefined || v == JsValue::Null {
        (h, Err(Fault::Text(not_coercible("getOwnPropertyNames"@))))
    } else {
        let (h1, ids) = match v {
            JsValue::Object(o) => own_names_of(h, o),
            JsValue::Text(n) => {
                let (h1, ids) = index_names(h, h.texts[n as int].len() as int);
                (h1.interned(utf16_of("length"@)), ids.push(h1.text_id(utf16_of("length"@))))
            },
            _ => (h, seq![]),
        };
        (
            h1.with_new(array_object(h1, global, text_values(ids))),
            Ok(JsValue::Object(h1.objects.len() as usize)),
        )
    }
}

/// `Object.getOwnPropertyNames(value)`.
pub fn object_get_own_property_names(ctx: &mut Ctx, _this: JsValue, args: &[JsValue]) -> (r: Result<
    JsValue,
    Throw,
>)
    requires
        old(ctx).wf(),
        valid_args(old(ctx).heap@, args@),
    ensures
        ends_in(
            *old(ctx),
            *final(ctx),
            r,
            names_result(old(ctx).heap@, old(ctx).global, arg_of(args@, 0)),
        ),
{
    let v: JsValue = arg(args, 0);
    if v == JsValue::Undefined || v == JsValue::Null {
        return Err(error3("TypeError: Object.", "getOwnPropertyNames", " called on non-object"));
    }
    let ids: Vec<usize> = match v {
        JsValue::Object(o) => own_property_names(&mut ctx.heap, o),
        JsValue::Text(n) => {
            let len: usize = ctx.heap.text(n).len();
            let mut ids: Vec<usize> = name_indices(&mut ctx.heap, len);
            let id: usize = ctx.heap.intern_text("length");
            ids.push(id);
            ids
        },
        _ => {
            let none: Vec<usize> = Vec::new();
            proof {
                assert(none@ =~= Seq::<usize>::empty());
            }
            none
        },
    };
    let items: Vec<JsValue> = as_text_values(&ids);
    Ok(ctx.array_value(items))
}

/// Symbols as values.
pub open spec fn symbol_values(ids: Seq<usize>) -> Seq<JsValue> {
    ids.map_values(|n: usize| JsValue::Symbol(n))
}

/// What `Object.getOwnPropertySymbols` does.
pub open spec fn symbols_result(h: HeapModel, global: Option<usize>, v: JsValue) -> (
    HeapModel,
    Result<JsValue, Fault>,
) {
    match v {
        JsValue::Object(o) => {
            let list = h.objects[o as int].named.list;
            (
                h.with_new(
                    array_object(h, global, symbol_values(symbol_ids(list, list.len() as int))),
                ),
                Ok(JsValue::Object(h.objects.len() as usize)),
            )
        },
        _ => (h, Err(Fault::Text(not_coercible("getOwnPropertySymbols"@)))),
    }
}

/// `Object.getOwnPropertySymbols(obj)`.
pub fn object_get_own_property_symbols(ctx: &mut Ctx, _this: JsValue, args: &[JsValue]) -> (r: Result<
    JsValue,
    Throw,
>)
    requires
        old(ctx).wf(),
        valid_args(old(ctx).heap@, args@),
    ensures
        ends_in(
            *old(ctx),
            *final(ctx),
            r,
            symbols_result(old(ctx).heap@, old(ctx).global, arg_of(args@, 0)),
        ),
{
    let obj: usize = match arg(args, 0) {
        JsValue::Object(o) => o,
        _ => {
            return Err(
                error3("TypeError: Object.", "getOwnPropertySymbols", " called on non-object"),
            );
        },
    };
    let ids: Vec<usize> = collect_symbols(&ctx.heap, obj);
    let mut items: Vec<JsValue> = Vec::new();
    let mut i: usize = 0;
    while i < ids.len()
        invariant
            i <= ids@.len(),
            forall|k: int| 0 <= k < ids@.len() ==> #[trigger] ids@[k] < ctx.heap@.symbols,
            items@ == symbol_values(ids@.take(i as int)),
            valid_args(ctx.heap@, items@),
        decreases ids@.len() - i,
    {
        items.push(JsValue::Symbol(ids[i]));
        proof {
            assert(items@ =~= symbol_values(ids@.take(i + 1)));
        }
        i = i + 1;
    }
    proof {
        assert(ids@.take(i as int) =~= ids@);
    }
    Ok(ctx.array_value(items))
}

// ---------------------------------------------------------------------------
// Tests
// ---------------------------------------------------------------------------

/// Whether a key names an own property.
pub open spec fn has_own(h: HeapModel, o: usize, key: PropKey) -> bool {
    keyed_element(h, o, key) is Some || match lookup(h.objects[o as int].named.list, key) {
        Some(p) => is_live(p),
        None => false,
    }
}

/// Whether a key names an own property.
pub fn own_property_exists(heap: &Heap, obj: usize, key: PropKey) -> (r: bool)
    requires
        heap.wf(),
        obj < heap@.objects.len(),
        heap@.valid_key(key),
    ensures
        r == has_own(heap@, obj, key),
{
    if crate::internal_methods::element_of_key(heap, obj, key).is_some() {
        return true;
    }
    match heap.object(obj).named.get(key) {
        Some(p) => p.body != PropBody::Data(JsValue::Hole),
        None => false,
    }
}

/// Whether a key names an enumerable own property that holds a value: an element, or a
/// named property that is no accessor.
pub open spec fn enumerable_data(h: HeapModel, o: usize, key: PropKey) -> bool {
    keyed_element(h, o, key) is Some || match lookup(h.objects[o as int].named.list, key) {
        Some(p) => p.body is Data && is_live(p) && p.attrs.enumerable,
        None => false,
    }
}

/// Whether a key names an enumerable own property that holds a value.
pub fn data_enumerable(heap: &Heap, obj: usize, key: PropKey) -> (r: bool)
    requires
        heap.wf(),
        obj < heap@.objects.len(),
        heap@.valid_key(key),
    ensures
        r == enumerable_data(heap@, obj, key),
{
    if element_of_key(heap, obj, key).is_some() {
        return true;
    }
    match heap.object(obj).named.get(key) {
        Some(p) => match p.body {
            PropBody::Data(v) => v != JsValue::Hole && p.attrs.enumerable,
            PropBody::Accessor(_, _) => false,
        },
        None => false,
    }
}

/// What a test of an own property does.
pub open spec fn own_test(h: HeapModel, target: JsValue, key: JsValue, text: Seq<char>, enumerable: bool) -> (
    HeapModel,
    Result<JsValue, Fault>,
) {
    match target {
        JsValue::Object(o) => {
            let (h1, k) = to_key(h, key);
            (
                h1,
                Ok(
                    JsValue::Bool(
                        if enumerable {
                            enumerable_data(h1, o, k)
                        } else {
                            has_own(h1, o, k)
                        },
                    ),
                ),
            )
        },
        _ => (h, Err(Fault::Text(text))),
    }
}

/// `Object.prototype.hasOwnProperty(key)`.
pub fn object_has_own_property(ctx: &mut Ctx, this: JsValue, args: &[JsValue]) -> (r: Result<
    JsValue,
    Throw,
>)
    requires
        old(ctx).wf(),
        old(ctx).heap@.valid(this),
        valid_args(old(ctx).heap@, args@),
    ensures
        ends_in(
            *old(ctx),
            *final(ctx),
            r,
            own_test(
                old(ctx).heap@,
                this,
                arg_of(args@, 0),
                "TypeError: Object.prototype.hasOwnProperty called on non-object"@,
                false,
            ),
        ),
{
    let obj: usize = match this {
        JsValue::Object(o) => o,
        _ => {
            return Err(error("TypeError: Object.prototype.hasOwnProperty called on non-object"));
        },
    };
    let key: PropKey = ctx.property_key(arg(args, 0));
    Ok(JsValue::Bool(own_property_exists(&ctx.heap, obj, key)))
}

/// `Object.hasOwn(obj, key)`.
pub fn object_has_own(ctx: &mut Ctx, _this: JsValue, args: &[JsValue]) -> (r: Result<JsValue, Throw>)
    requires
        old(ctx).wf(),
        valid_args(old(ctx).heap@, args@),
    ensures
        ends_in(
            *old(ctx),
            *final(ctx),
            r,
            own_test(
                old(ctx).heap@,
                arg_of(args@, 0),
                arg_of(args@, 1),
                "TypeError: Object.hasOwn called on non-object"@,
                false,
            ),
        ),
{
    let obj: usize = match arg(args, 0) {
        JsValue::Object(o) => o,
        _ => {
            return Err(error("TypeError: Object.hasOwn called on non-object"));
        },
    };
    let key: PropKey = ctx.property_key(arg(args, 1));
    Ok(JsValue::Bool(own_property_exists(&ctx.heap, obj, key)))
}

/// `Object.prototype.propertyIsEnumerable(key)`: whether the key names an own enumerable
/// data property.
pub fn object_proto_property_is_enumerable(ctx: &mut Ctx, this: JsValue, args: &[JsValue]) -> (r:
    Result<JsValue, Throw>)
    requires
        old(ctx).wf(),
        old(ctx).heap@.valid(this),
        valid_args(old(ctx).heap@, args@),
    ensures
        ends_in(
            *old(ctx),
            *final(ctx),
            r,
            own_test(
                old(ctx).heap@,
                this,
                arg_of(args@, 0),
                "TypeError: Object.prototype.propertyIsEnumerable called on non-object"@,
                true,
            ),
        ),
{
    let obj: usize = match this {
        JsValue::Object(o) => o,
        _ => {
            return Err(
                error("TypeError: Object.prototype.propertyIsEnumerable called on non-object"),
            );
        },
    };
    let key: PropKey = ctx.property_key(arg(args, 0));
    Ok(JsValue::Bool(data_enumerable(&ctx.heap, obj, key)))
}

} // verus!
