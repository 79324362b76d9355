//! Iterators over arrays, maps and sets.
use vstd::prelude::*;

use crate::array::bare_array;
use crate::convert::{error, int_value, number_of, smi_or_f64};
use crate::ctx::{Ctx, arg, arg_of, is_kind, only_heap, receiver, valid_args};
use crate::descriptor::{Fault, is_fault};
use crate::double::{finite, is_finite, saturated, to_i64};
use crate::heap::{Heap, HeapModel, JsObject, ObjModel, plain_object};
use crate::object_define::ends_in;
use crate::object_describe::lemma_ascii_units;
use crate::record::{distinct_names, make_record, recorded};
use crate::value::{Attrs, JsValue, Kind, Throw, all_attrs};

verus! {

/// An iterator over the values of an array.
pub const ITER_KIND_ARRAY_VALUES: i32 = 0;

/// An iterator over the entries of an array.
pub const ITER_KIND_ARRAY_ENTRIES: i32 = 1;

/// An iterator over the indices of an array.
pub const ITER_KIND_ARRAY_KEYS: i32 = 2;

/// An iterator over the entries of a map.
pub const ITER_KIND_MAP_ENTRIES: i32 = 3;

/// An iterator over the keys of a map.
pub const ITER_KIND_MAP_KEYS: i32 = 4;

/// An iterator over the values of a map.
pub const ITER_KIND_MAP_VALUES: i32 = 5;

/// An iterator over the values of a set.
pub const ITER_KIND_SET_VALUES: i32 = 6;

/// How many values an iterator is drained of at most.
pub const DRAIN_LIMIT: usize = 1_000_001;

/// The largest number of values that can be taken or dropped.
pub const TAKE_LIMIT: i64 = 1_000_000;

// ---------------------------------------------------------------------------
// State
// ---------------------------------------------------------------------------

/// An iterator: its kind, its source and its next index.
pub open spec fn iterator_object(source: usize, kind: i32) -> ObjModel {
    ObjModel {
        elements: seq![JsValue::Smi(kind), JsValue::Object(source), JsValue::Smi(0)],
        ..plain_object(Kind::Iterator)
    }
}

/// The source and the next index of an iterator, `None` where the object is none.
pub open spec fn state_of(m: ObjModel) -> Option<(usize, int)> {
    if m.kind != Kind::Iterator || m.elements.len() < 3 {
        None
    } else {
        match m.elements[1] {
            JsValue::Object(source) => Some(
                (
                    source,
                    match m.elements[2] {
                        JsValue::Smi(n) => if n >= 0 {
                            n as int
                        } else {
                            0
                        },
                        _ => 0,
                    },
                ),
            ),
            _ => None,
        }
    }
}

/// The kind of an iterator.
pub open spec fn kind_of(m: ObjModel) -> int {
    match m.elements[0] {
        JsValue::Smi(n) => n as int,
        _ => 0,
    }
}

/// How many steps a source has.
pub open spec fn source_length(m: ObjModel) -> int {
    match m.kind {
        Kind::Array | Kind::SetObject | Kind::Arguments => m.elements.len() as int,
        Kind::MapObject => m.elements.len() as int / 2,
        _ => 0,
    }
}

/// A value of a source; a hole is `undefined`.
pub open spec fn source_value(m: ObjModel, i: int) -> JsValue {
    match m.kind {
        Kind::Array | Kind::MapObject | Kind::SetObject | Kind::Arguments => if 0 <= i
            < m.elements.len() {
            if m.elements[i] == JsValue::Hole {
                JsValue::Undefined
            } else {
                m.elements[i]
            }
        } else {
            JsValue::Undefined
        },
        _ => JsValue::Undefined,
    }
}

/// The source and the next index of an iterator.
fn state(heap: &Heap, iter: usize) -> (r: Option<(usize, usize)>)
    requires
        heap.wf(),
        iter < heap@.objects.len(),
    ensures
        match state_of(heap@.objects[iter as int]) {
            Some((s, i)) => r matches Some(p) && p.0 == s && p.1 == i && s < heap@.objects.len()
                && i <= i32::MAX,
            None => r is None,
        },
{
    let o = heap.object(iter);
    if o.kind != Kind::Iterator || o.elements.len() < 3 {
        return None;
    }
    proof {
        assert(heap@.valid(o@.elements[1]));
    }
    match o.elements[1] {
        JsValue::Object(source) => {
            let index: usize = match o.elements[2] {
                JsValue::Smi(n) => if n >= 0 {
                    n as usize
                } else {
                    0
                },
                _ => 0,
            };
            Some((source, index))
        },
        _ => None,
    }
}

/// How many steps a source has.
fn source_len(heap: &Heap, source: usize) -> (r: usize)
    requires
        heap.wf(),
        source < heap@.objects.len(),
    ensures
        r == source_length(heap@.objects[source as int]),
{
    let o = heap.object(source);
    match o.kind {
        Kind::Array | Kind::SetObject | Kind::Arguments => o.elements.len(),
        Kind::MapObject => o.elements.len() / 2,
        _ => 0,
    }
}

/// A value of a source.
fn source_elem(heap: &Heap, source: usize, i: usize) -> (r: JsValue)
    requires
        heap.wf(),
        source < heap@.objects.len(),
    ensures
        r == source_value(heap@.objects[source as int], i as int),
        heap@.valid(r),
{
    let o = heap.object(source);
    match o.kind {
        Kind::Array | Kind::MapObject | Kind::SetObject | Kind::Arguments => {
            if i < o.elements.len() {
                proof {
                    assert(heap@.valid(o@.elements[i as int]));
                }
                if o.elements[i] == JsValue::Hole {
                    JsValue::Undefined
                } else {
                    o.elements[i]
                }
            } else {
                JsValue::Undefined
            }
        },
        _ => JsValue::Undefined,
    }
}

/// An iterator with another next index.
pub open spec fn at_index(m: ObjModel, v: JsValue) -> ObjModel {
    ObjModel { elements: m.elements.update(2, v), ..m }
}

/// Sets the next index of an iterator.
fn set_index(heap: &mut Heap, iter: usize, v: JsValue)
    requires
        old(heap).wf(),
        iter < old(heap)@.objects.len(),
        old(heap)@.objects[iter as int].elements.len() >= 3,
        v is Smi || v is Double,
    ensures
        final(heap).wf(),
        final(heap)@ == old(heap)@.with_object(iter, at_index(old(heap)@.objects[iter as int], v)),
{
    let ghost h = heap@;
    let o = heap.object_mut(iter);
    proof {
        let m = at_index(h.objects[iter as int], v);
        assert forall|i: int| 0 <= i < m.elements.len() implies h.valid(
            #[trigger] m.elements[i],
        ) by {
            if i != 2 {
                assert(m.elements[i] == h.objects[iter as int].elements[i]);
            }
        }
        assert(h.valid_refs(m));
    }
    o.elements.set(2, v);
}

// ---------------------------------------------------------------------------
// Steps
// ---------------------------------------------------------------------------

/// The two values of an entry.
pub open spec fn entry_of(m: ObjModel, kind: int, i: int) -> Seq<JsValue> {
    if kind == ITER_KIND_ARRAY_ENTRIES {
        seq![int_value(i), source_value(m, i)]
    } else {
        seq![source_value(m, 2 * i), source_value(m, 2 * i + 1)]
    }
}

/// The value of a step at an index, and the heap that holds it.
pub open spec fn step_value(h: HeapModel, source: usize, kind: int, i: int) -> (HeapModel, JsValue) {
    let m = h.objects[source as int];
    if kind == ITER_KIND_ARRAY_VALUES || kind == ITER_KIND_SET_VALUES {
        (h, source_value(m, i))
    } else if kind == ITER_KIND_ARRAY_KEYS {
        (h, int_value(i))
    } else if kind == ITER_KIND_ARRAY_ENTRIES || kind == ITER_KIND_MAP_ENTRIES {
        (
            h.with_new(bare_array(entry_of(m, kind, i))),
            JsValue::Object(h.objects.len() as usize),
        )
    } else if kind == ITER_KIND_MAP_KEYS {
        (h, source_value(m, 2 * i))
    } else if kind == ITER_KIND_MAP_VALUES {
        (h, source_value(m, 2 * i + 1))
    } else {
        (h, JsValue::Undefined)
    }
}

/// One step of an iterator with a state: the heap after it, and its value, `None` past
/// the end of the source. An iterator that has come to the end stays there.
pub open spec fn stepped(h: HeapModel, iter: usize) -> (HeapModel, Option<JsValue>) {
    let m = h.objects[iter as int];
    let (source, i) = state_of(m).unwrap();
    if i >= source_length(h.objects[source as int]) {
        (h.with_object(iter, at_index(m, JsValue::Smi(i32::MAX))), None)
    } else {
        let h1 = h.with_object(iter, at_index(m, int_value(i + 1)));
        let (h2, v) = step_value(h1, source, kind_of(m), i);
        (h2, Some(v))
    }
}

/// Makes the value of a step.
fn make_value(heap: &mut Heap, source: usize, kind: i32, i: usize) -> (r: JsValue)
    requires
        old(heap).wf(),
        source < old(heap)@.objects.len(),
        i <= i32::MAX,
    ensures
        final(heap).wf(),
        (final(heap)@, r) == step_value(old(heap)@, source, kind as int, i as int),
        final(heap)@.valid(r),
        old(heap)@.within(final(heap)@),
{
    if kind == ITER_KIND_ARRAY_VALUES || kind == ITER_KIND_SET_VALUES {
        source_elem(heap, source, i)
    } else if kind == ITER_KIND_ARRAY_KEYS {
        smi_or_f64(i as i64)
    } else if kind == ITER_KIND_ARRAY_ENTRIES || kind == ITER_KIND_MAP_ENTRIES {
        let a: JsValue;
        let b: JsValue;
        if kind == ITER_KIND_ARRAY_ENTRIES {
            a = smi_or_f64(i as i64);
            b = source_elem(heap, source, i);
        } else {
            a = source_elem(heap, source, 2 * i);
            b = source_elem(heap, source, 2 * i + 1);
        }
        let mut o: JsObject = JsObject::plain(Kind::Array);
        o.elements.push(a);
        o.elements.push(b);
        proof {
            assert(o@.elements =~= entry_of(heap@.objects[source as int], kind as int, i as int));
            assert(o@ == bare_array(
                entry_of(heap@.objects[source as int], kind as int, i as int),
            ));
            assert(heap@.valid_refs(o@));
        }
        let n: usize = heap.allocate(o);
        JsValue::Object(n)
    } else if kind == ITER_KIND_MAP_KEYS {
        source_elem(heap, source, 2 * i)
    } else if kind == ITER_KIND_MAP_VALUES {
        source_elem(heap, source, 2 * i + 1)
    } else {
        JsValue::Undefined
    }
}

/// Takes one step of an iterator, `Err` where the object has no iterator state.
fn advance(heap: &mut Heap, iter: usize) -> (r: Result<Option<JsValue>, ()>)
    requires
        old(heap).wf(),
        iter < old(heap)@.objects.len(),
    ensures
        final(heap).wf(),
        match state_of(old(heap)@.objects[iter as int]) {
            None => final(heap)@ == old(heap)@ && r is Err,
            Some(_) => r is Ok && (final(heap)@, r->Ok_0) == stepped(old(heap)@, iter) && (r->Ok_0
                matches Some(v) ==> final(heap)@.valid(v)),
        },
        old(heap)@.within(final(heap)@),
{
    let (source, i) = match state(heap, iter) {
        Some(p) => p,
        None => {
            return Err(());
        },
    };
    let kind: i32 = match heap.object(iter).elements[0] {
        JsValue::Smi(n) => n,
        _ => 0,
    };
    let len: usize = source_len(heap, source);
    if i >= len {
        set_index(heap, iter, JsValue::Smi(0x7fff_ffff));
        return Ok(None);
    }
    set_index(heap, iter, smi_or_f64(i as i64 + 1));
    let v: JsValue = make_value(heap, source, kind, i);
    Ok(Some(v))
}

/// The heap with the result of a step: an object with `value` and `done`.
pub open spec fn with_result(h: HeapModel, v: JsValue, done: bool) -> HeapModel {
    recorded(
        h,
        plain_object(Kind::Ordinary),
        seq!["value", "done"],
        seq![v, JsValue::Bool(done)],
        all_attrs(),
    )
}

/// Makes the result of a step.
fn iterator_result(heap: &mut Heap, v: JsValue, done: bool) -> (r: usize)
    requires
        old(heap).wf(),
        old(heap)@.valid(v),
    ensures
        final(heap).wf(),
        final(heap)@ == with_result(old(heap)@, v, done),
        r == old(heap)@.objects.len(),
        r < final(heap)@.objects.len(),
        old(heap)@.within(final(heap)@),
{
    let mut names: Vec<&'static str> = Vec::new();
    names.push("value");
    names.push("done");
    let mut values: Vec<JsValue> = Vec::new();
    values.push(v);
    values.push(JsValue::Bool(done));
    proof {
        reveal_strlit("value");
        reveal_strlit("done");
        lemma_ascii_units("value"@);
        lemma_ascii_units("done"@);
        assert(names@ =~= seq!["value", "done"]);
        assert(values@ =~= seq![v, JsValue::Bool(done)]);
        assert(distinct_names(names@));
    }
    make_record(heap, JsObject::plain(Kind::Ordinary), &names, &values, Attrs::all())
}

/// What `iterator.next()` gives.
pub open spec fn next_result(h: HeapModel, this: JsValue) -> (HeapModel, Result<JsValue, Fault>) {
    match receiver(h, this, "iterator.next"@, Some(Kind::Iterator)) {
        Err(t) => (h, Err(Fault::Text(t))),
        Ok(iter) => match state_of(h.objects[iter as int]) {
            None => (h, Err(Fault::Text("TypeError: iterator.next called on non-iterator"@))),
            Some(_) => match stepped(h, iter) {
                (h1, Some(v)) => (
                    with_result(h1, v, false),
                    Ok(JsValue::Object(h1.objects.len() as usize)),
                ),
                (h1, None) => (
                    with_result(h1, JsValue::Undefined, true),
                    Ok(JsValue::Object(h1.objects.len() as usize)),
                ),
            },
        },
    }
}

/// `iterator.next()`: the next value, or that there is none.
pub fn iterator_next(ctx: &mut Ctx, this: JsValue, _args: &[JsValue]) -> (r: Result<JsValue, Throw>)
    requires
        old(ctx).wf(),
        old(ctx).heap@.valid(this),
    ensures
        ends_in(*old(ctx), *final(ctx), r, next_result(old(ctx).heap@, this)),
{
    let iter: usize = match ctx.this_object(this, "iterator.next", Some(Kind::Iterator)) {
        Ok(o) => o,
        Err(t) => {
            return Err(t);
        },
    };
    match advance(&mut ctx.heap, iter) {
        Err(_) => Err(error("TypeError: iterator.next called on non-iterator")),
        Ok(Some(v)) => {
            let o: usize = iterator_result(&mut ctx.heap, v, false);
            Ok(JsValue::Object(o))
        },
        Ok(None) => {
            let o: usize = iterator_result(&mut ctx.heap, JsValue::Undefined, true);
            Ok(JsValue::Object(o))
        },
    }
}

// ---------------------------------------------------------------------------
// Making iterators
// ---------------------------------------------------------------------------

/// What making an iterator over a value gives.
pub open spec fn iterator_over(h: HeapModel, v: JsValue, kind: i32) -> (
    HeapModel,
    Result<JsValue, Fault>,
) {
    match v {
        JsValue::Object(source) => (
            h.with_new(iterator_object(source, kind)),
            Ok(JsValue::Object(h.objects.len() as usize)),
        ),
        _ => (h, Err(Fault::Text("TypeError: value is not iterable"@))),
    }
}

/// Makes an iterator over an object.
fn create_iterator(ctx: &mut Ctx, source: usize, kind: i32) -> (r: usize)
    requires
        old(ctx).wf(),
        source < old(ctx).heap@.objects.len(),
    ensures
        only_heap(
            *old(ctx),
            *final(ctx),
            old(ctx).heap@.with_new(iterator_object(source, kind)),
        ),
        r == old(ctx).heap@.objects.len(),
{
    let mut o: JsObject = JsObject::plain(Kind::Iterator);
    o.elements.push(JsValue::Smi(kind));
    o.elements.push(JsValue::Object(source));
    o.elements.push(JsValue::Smi(0));
    proof {
        assert(o@.elements =~= iterator_object(source, kind).elements);
        assert(o@ == iterator_object(source, kind));
        assert(ctx.heap@.valid_refs(o@));
    }
    ctx.alloc_obj(o)
}

/// A new iterator of a kind over the receiver.
pub fn iterator_for(ctx: &mut Ctx, this: JsValue, kind: i32) -> (r: Result<JsValue, Throw>)
    requires
        old(ctx).wf(),
        old(ctx).heap@.valid(this),
    ensures
        ends_in(*old(ctx), *final(ctx), r, iterator_over(old(ctx).heap@, this, kind)),
{
    match this {
        JsValue::Object(source) => {
            let o: usize = create_iterator(ctx, source, kind);
            Ok(JsValue::Object(o))
        },
        _ => Err(error("TypeError: value is not iterable")),
    }
}

/// `iterator[Symbol.iterator]()`: the iterator itself.
pub fn iterator_self(ctx: &mut Ctx, this: JsValue, _args: &[JsValue]) -> (r: Result<JsValue, Throw>)
    ensures
        *final(ctx) == *old(ctx),
        r == Ok::<JsValue, Throw>(this),
{
    Ok(this)
}

/// `Array.prototype[Symbol.iterator]()`: an iterator over the values.
pub fn array_iterator(ctx: &mut Ctx, this: JsValue, _args: &[JsValue]) -> (r: Result<JsValue, Throw>)
    requires
        old(ctx).wf(),
        old(ctx).heap@.valid(this),
    ensures
        ends_in(*old(ctx), *final(ctx), r, iterator_over(old(ctx).heap@, this, ITER_KIND_ARRAY_VALUES)),
{
    iterator_for(ctx, this, ITER_KIND_ARRAY_VALUES)
}

/// `Array.prototype.entries()`: an iterator over indices and values.
pub fn array_iterator_entries(ctx: &mut Ctx, this: JsValue, _args: &[JsValue]) -> (r: Result<JsValue, Throw>)
    requires
        old(ctx).wf(),
        old(ctx).heap@.valid(this),
    ensures
        ends_in(*old(ctx), *final(ctx), r, iterator_over(old(ctx).heap@, this, ITER_KIND_ARRAY_ENTRIES)),
{
    iterator_for(ctx, this, ITER_KIND_ARRAY_ENTRIES)
}

/// `Array.prototype.keys()`: an iterator over the indices.
pub fn array_iterator_keys(ctx: &mut Ctx, this: JsValue, _args: &[JsValue]) -> (r: Result<JsValue, Throw>)
    requires
        old(ctx).wf(),
        old(ctx).heap@.valid(this),
    ensures
        ends_in(*old(ctx), *final(ctx), r, iterator_over(old(ctx).heap@, this, ITER_KIND_ARRAY_KEYS)),
{
    iterator_for(ctx, this, ITER_KIND_ARRAY_KEYS)
}

/// `Map.prototype[Symbol.iterator]()`: an iterator over keys and values.
pub fn map_iterator(ctx: &mut Ctx, this: JsValue, _args: &[JsValue]) -> (r: Result<JsValue, Throw>)
    requires
        old(ctx).wf(),
        old(ctx).heap@.valid(this),
    ensures
        ends_in(*old(ctx), *final(ctx), r, iterator_over(old(ctx).heap@, this, ITER_KIND_MAP_ENTRIES)),
{
    iterator_for(ctx, this, ITER_KIND_MAP_ENTRIES)
}

/// `Set.prototype[Symbol.iterator]()`: an iterator over the values.
pub fn set_iterator(ctx: &mut Ctx, this: JsValue, _args: &[JsValue]) -> (r: Result<JsValue, Throw>)
    requires
        old(ctx).wf(),
        old(ctx).heap@.valid(this),
    ensures
        ends_in(*old(ctx), *final(ctx), r, iterator_over(old(ctx).heap@, this, ITER_KIND_SET_VALUES)),
{
    iterator_for(ctx, this, ITER_KIND_SET_VALUES)
}

// ---------------------------------------------------------------------------
// Draining
// ---------------------------------------------------------------------------

/// The values that an iterator still has, at most `fuel` of them, after the ones that
/// are given.
pub open spec fn drained(h: HeapModel, iter: usize, out: Seq<JsValue>, fuel: nat) -> (
    HeapModel,
    Option<Seq<JsValue>>,
)
    decreases fuel,
{
    if state_of(h.objects[iter as int]) is None {
        (h, None)
    } else if fuel == 0 {
        (h, Some(out))
    } else {
        match stepped(h, iter) {
            (h1, Some(v)) => drained(h1, iter, out.push(v), (fuel - 1) as nat),
            (h1, None) => (h1, Some(out)),
        }
    }
}

/// A step leaves an iterator an iterator.
proof fn lemma_step_keeps(h: HeapModel, iter: usize)
    requires
        iter < h.objects.len(),
        state_of(h.objects[iter as int]) is Some,
    ensures
        state_of(stepped(h, iter).0.objects[iter as int]) is Some,
{
    let m = h.objects[iter as int];
    let later = stepped(h, iter).0.objects[iter as int];
    assert(later.elements.len() == m.elements.len());
    assert(later.elements[1] == m.elements[1]);
}

/// The values that an iterator still has.
fn drain_iterator(ctx: &mut Ctx, iter: usize) -> (r: Result<Vec<JsValue>, Throw>)
    requires
        old(ctx).wf(),
        iter < old(ctx).heap@.objects.len(),
    ensures
        ({
            let (h, out) = drained(old(ctx).heap@, iter, seq![], DRAIN_LIMIT as nat);
            &&& only_heap(*old(ctx), *final(ctx), h)
            &&& match out {
                Some(s) => r matches Ok(v) && v@ == s,
                None => r matches Err(t) && is_fault(
                    t,
                    Fault::Text("TypeError: iterator.next called on non-iterator"@),
                ),
            }
        }),
        r matches Ok(v) ==> valid_args(final(ctx).heap@, v@),
{
    let mut out: Vec<JsValue> = Vec::new();
    let mut fuel: usize = DRAIN_LIMIT;
    let ghost before = *ctx;
    proof {
        assert(out@ =~= seq![]);
    }
    if state(&ctx.heap, iter).is_none() {
        return Err(error("TypeError: iterator.next called on non-iterator"));
    }
    while fuel > 0
        invariant
            before == *old(ctx),
            before.wf(),
            ctx.wf(),
            iter < ctx.heap@.objects.len(),
            state_of(ctx.heap@.objects[iter as int]) is Some,
            only_heap(before, *ctx, ctx.heap@),
            drained(before.heap@, iter, seq![], DRAIN_LIMIT as nat) == drained(
                ctx.heap@,
                iter,
                out@,
                fuel as nat,
            ),
            valid_args(ctx.heap@, out@),
        decreases fuel,
    {
        let ghost h = ctx.heap@;
        proof {
            lemma_step_keeps(h, iter);
        }
        match advance(&mut ctx.heap, iter) {
            Err(_) => {
                return Err(error("TypeError: iterator.next called on non-iterator"));
            },
            Ok(None) => {
                return Ok(out);
            },
            Ok(Some(v)) => {
                out.push(v);
            },
        }
        fuel = fuel - 1;
    }
    Ok(out)
}

/// What `Iterator.prototype.toArray` gives.
pub open spec fn array_of_rest(h: HeapModel, this: JsValue) -> (HeapModel, Result<JsValue, Fault>) {
    match receiver(h, this, "Iterator.prototype.toArray"@, Some(Kind::Iterator)) {
        Err(t) => (h, Err(Fault::Text(t))),
        Ok(iter) => match drained(h, iter, seq![], DRAIN_LIMIT as nat) {
            (h1, None) => (
                h1,
                Err(Fault::Text("TypeError: iterator.next called on non-iterator"@)),
            ),
            (h1, Some(s)) => (
                h1.with_new(bare_array(s)),
                Ok(JsValue::Object(h1.objects.len() as usize)),
            ),
        },
    }
}

/// Makes an array of values.
fn make_array(ctx: &mut Ctx, values: Vec<JsValue>) -> (r: usize)
    requires
        old(ctx).wf(),
        valid_args(old(ctx).heap@, values@),
    ensures
        only_heap(*old(ctx), *final(ctx), old(ctx).heap@.with_new(bare_array(values@))),
        r == old(ctx).heap@.objects.len(),
        r < final(ctx).heap@.objects.len(),
{
    let mut o: JsObject = JsObject::plain(Kind::Array);
    o.elements = values;
    proof {
        assert(o@ == bare_array(values@));
        assert forall|i: int| 0 <= i < values@.len() implies ctx.heap@.valid(
            #[trigger] values@[i],
        ) by {}
        assert(ctx.heap@.valid_refs(o@));
    }
    ctx.alloc_obj(o)
}

/// `Iterator.prototype.toArray()`: an array of the values that are left.
pub fn iterator_to_array(ctx: &mut Ctx, this: JsValue, _args: &[JsValue]) -> (r: Result<
    JsValue,
    Throw,
>)
    requires
        old(ctx).wf(),
        old(ctx).heap@.valid(this),
    ensures
        ends_in(*old(ctx), *final(ctx), r, array_of_rest(old(ctx).heap@, this)),
{
    let iter: usize = match ctx.this_object(
        this,
        "Iterator.prototype.toArray",
        Some(Kind::Iterator),
    ) {
        Ok(o) => o,
        Err(t) => {
            return Err(t);
        },
    };
    match drain_iterator(ctx, iter) {
        Err(t) => Err(t),
        Ok(values) => {
            let o: usize = make_array(ctx, values);
            Ok(JsValue::Object(o))
        },
    }
}

/// A limit as a count: zero where the number is not finite or not positive, and at most
/// [`TAKE_LIMIT`].
pub open spec fn limit_of(h: HeapModel, args: Seq<JsValue>) -> int {
    if args.len() == 0 {
        0
    } else {
        let b = number_of(h, args[0]);
        if !is_finite(b) || saturated(b) <= 0 {
            0
        } else if saturated(b) > TAKE_LIMIT {
            TAKE_LIMIT as int
        } else {
            saturated(b)
        }
    }
}

/// A limit as a count.
fn take_limit(ctx: &Ctx, args: &[JsValue]) -> (r: usize)
    requires
        ctx.wf(),
        valid_args(ctx.heap@, args@),
    ensures
        r == limit_of(ctx.heap@, args@),
{
    if args.len() == 0 {
        return 0;
    }
    let b: u64 = ctx.to_number(args[0]);
    if !finite(b) {
        return 0;
    }
    let n: i64 = to_i64(b);
    if n <= 0 {
        0
    } else if n > TAKE_LIMIT {
        TAKE_LIMIT as usize
    } else {
        n as usize
    }
}

/// The first values of a list.
pub open spec fn taken(s: Seq<JsValue>, n: int) -> Seq<JsValue> {
    if n < s.len() {
        s.take(n)
    } else {
        s
    }
}

/// A list without its first values.
pub open spec fn dropped(s: Seq<JsValue>, n: int) -> Seq<JsValue> {
    if n < s.len() {
        s.skip(n)
    } else {
        seq![]
    }
}

/// What `take` and `drop` give: an iterator over an array of a part of what is left.
pub open spec fn part_of_rest(
    h: HeapModel,
    this: JsValue,
    method: Seq<char>,
    args: Seq<JsValue>,
    first: bool,
) -> (HeapModel, Result<JsValue, Fault>) {
    match receiver(h, this, method, Some(Kind::Iterator)) {
        Err(t) => (h, Err(Fault::Text(t))),
        Ok(iter) => match drained(h, iter, seq![], DRAIN_LIMIT as nat) {
            (h1, None) => (
                h1,
                Err(Fault::Text("TypeError: iterator.next called on non-iterator"@)),
            ),
            (h1, Some(s)) => {
                let n = limit_of(h, args);
                let part = if first {
                    taken(s, n)
                } else {
                    dropped(s, n)
                };
                (
                    h1.with_new(bare_array(part)).with_new(
                        iterator_object(h1.objects.len() as usize, ITER_KIND_ARRAY_VALUES),
                    ),
                    Ok(JsValue::Object((h1.objects.len() + 1) as usize)),
                )
            },
        },
    }
}

/// An iterator over a part of the values that are left.
fn part(ctx: &mut Ctx, this: JsValue, method: &str, args: &[JsValue], first: bool) -> (r: Result<
    JsValue,
    Throw,
>)
    requires
        old(ctx).wf(),
        old(ctx).heap@.valid(this),
        valid_args(old(ctx).heap@, args@),
    ensures
        ends_in(
            *old(ctx),
            *final(ctx),
            r,
            part_of_rest(old(ctx).heap@, this, method@, args@, first),
        ),
{
    let iter: usize = match ctx.this_object(this, method, Some(Kind::Iterator)) {
        Ok(o) => o,
        Err(t) => {
            return Err(t);
        },
    };
    let limit: usize = take_limit(ctx, args);
    let values: Vec<JsValue> = match drain_iterator(ctx, iter) {
        Err(t) => {
            return Err(t);
        },
        Ok(v) => v,
    };
    let n: usize = values.len();
    let mut from: usize = 0;
    let mut to: usize = n;
    if first {
        if limit < n {
            to = limit;
        }
    } else if limit < n {
        from = limit;
    } else {
        from = n;
    }
    let mut some: Vec<JsValue> = Vec::new();
    let mut i: usize = from;
    while i < to
        invariant
            from <= i <= to <= n,
            n == values@.len(),
            some@ == values@.subrange(from as int, i as int),
            valid_args(ctx.heap@, values@),
            valid_args(ctx.heap@, some@),
        decreases to - i,
    {
        some.push(values[i]);
        i = i + 1;
        proof {
            assert(some@ =~= values@.subrange(from as int, i as int));
        }
    }
    proof {
        if first {
            assert(some@ =~= taken(values@, limit as int));
        } else {
            assert(some@ =~= dropped(values@, limit as int));
        }
    }
    let a: usize = make_array(ctx, some);
    let o: usize = create_iterator(ctx, a, ITER_KIND_ARRAY_VALUES);
    Ok(JsValue::Object(o))
}

/// `Iterator.prototype.take(limit)`: an iterator over the first values.
pub fn iterator_take(ctx: &mut Ctx, this: JsValue, args: &[JsValue]) -> (r: Result<JsValue, Throw>)
    requires
        old(ctx).wf(),
        old(ctx).heap@.valid(this),
        valid_args(old(ctx).heap@, args@),
    ensures
        ends_in(
            *old(ctx),
            *final(ctx),
            r,
            part_of_rest(old(ctx).heap@, this, "Iterator.prototype.take"@, args@, true),
        ),
{
    part(ctx, this, "Iterator.prototype.take", args, true)
}

/// `Iterator.prototype.drop(limit)`: an iterator over the values after the first ones.
pub fn iterator_drop(ctx: &mut Ctx, this: JsValue, args: &[JsValue]) -> (r: Result<JsValue, Throw>)
    requires
        old(ctx).wf(),
        old(ctx).heap@.valid(this),
        valid_args(old(ctx).heap@, args@),
    ensures
        ends_in(
            *old(ctx),
            *final(ctx),
            r,
            part_of_rest(old(ctx).heap@, this, "Iterator.prototype.drop"@, args@, false),
        ),
{
    part(ctx, this, "Iterator.prototype.drop", args, false)
}

/// `Iterator.from(value)`: an iterator itself, or one over the values of an object.
pub fn iterator_from(ctx: &mut Ctx, _this: JsValue, args: &[JsValue]) -> (r: Result<JsValue, Throw>)
    requires
        old(ctx).wf(),
        valid_args(old(ctx).heap@, args@),
    ensures
        ({
            let v = arg_of(args@, 0);
            ends_in(
                *old(ctx),
                *final(ctx),
                r,
                if is_kind(old(ctx).heap@, v, Kind::Iterator) {
                    (old(ctx).heap@, Ok(v))
                } else {
                    iterator_over(old(ctx).heap@, v, ITER_KIND_ARRAY_VALUES)
                },
            )
        }),
{
    let v: JsValue = arg(args, 0);
    match v {
        JsValue::Object(o) => {
            if ctx.heap.object(o).kind == Kind::Iterator {
                return Ok(v);
            }
        },
        _ => {},
    }
    iterator_for(ctx, v, ITER_KIND_ARRAY_VALUES)
}

// ---------------------------------------------------------------------------
// Laws
// ---------------------------------------------------------------------------

/// The values of a list in an array, from an index on; a hole is `undefined`.
pub open spec fn filled_values(m: ObjModel, from: int) -> Seq<JsValue> {
    Seq::new((source_length(m) - from) as nat, |i: int| source_value(m, from + i))
}

/// Draining an iterator over values gives each value of its source that is left, once
/// and in order, and leaves it at its end.
pub proof fn law_values_in_order(h: HeapModel, iter: usize, out: Seq<JsValue>, fuel: nat)
    requires
        iter < h.objects.len(),
        state_of(h.objects[iter as int]) is Some,
        kind_of(h.objects[iter as int]) == ITER_KIND_ARRAY_VALUES || kind_of(
            h.objects[iter as int],
        ) == ITER_KIND_SET_VALUES,
        ({
            let (source, i) = state_of(h.objects[iter as int]).unwrap();
            let m = h.objects[source as int];
            &&& source < h.objects.len()
            &&& source != iter
            &&& source_length(m) < i32::MAX
            &&& i <= source_length(m)
            &&& source_length(m) - i < fuel
        }),
    ensures
        ({
            let (source, i) = state_of(h.objects[iter as int]).unwrap();
            let (h1, s) = drained(h, iter, out, fuel);
            &&& s == Some(out + filled_values(h.objects[source as int], i))
            &&& stepped(h1, iter) == (h1, None::<JsValue>)
        }),
    decreases fuel,
{
    let m = h.objects[iter as int];
    let (source, i) = state_of(m).unwrap();
    let src = h.objects[source as int];
    if i >= source_length(src) {
        let h1 = stepped(h, iter).0;
        let m1 = h1.objects[iter as int];
        assert(m1.elements[1] == m.elements[1]);
        assert(m1.elements[2] == JsValue::Smi(i32::MAX));
        assert(at_index(m1, JsValue::Smi(i32::MAX)).elements =~= m1.elements);
        assert(h1.with_object(iter, at_index(m1, JsValue::Smi(i32::MAX))).objects =~= h1.objects);
        assert(out + filled_values(src, i) =~= out);
    } else {
        let (h1, v) = stepped(h, iter);
        let m1 = h1.objects[iter as int];
        assert(m1.elements[0] == m.elements[0]);
        assert(m1.elements[1] == m.elements[1]);
        assert(m1.elements[2] == int_value(i + 1));
        assert(h1.objects[source as int] == src);
        law_values_in_order(h1, iter, out.push(v.unwrap()), (fuel - 1) as nat);
        assert(out.push(v.unwrap()) + filled_values(src, i + 1) =~= out + filled_values(src, i));
    }
}

/// What is taken and what is dropped at one limit is the whole.
pub proof fn law_take_drop(s: Seq<JsValue>, n: int)
    requires
        0 <= n,
    ensures
        taken(s, n) + dropped(s, n) == s,
{
    assert(taken(s, n) + dropped(s, n) =~= s);
}

} // verus!
