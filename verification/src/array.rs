//! `Array` and its methods.
use vstd::prelude::*;

use crate::array_like::{
    MAX_WRITE_SPAN, array_len, array_length, clear_shaped, dense_bound, dense_of, full_length,
    index_int, index_number, lemma_past_bound, read_at, read_index, relative, relative_index,
    replace_elements, set_array_len, short_length, sync_length, with_elements, with_length,
    with_new_length, with_shaped_hole, write_index,
};
use crate::convert::{
    as_number, error, int_value, number_of, same_value_zero, same_value_zero_of, smi_or_f64,
    strict_equals, strictly_equal, text_of, to_number, value_number,
};
use crate::ctx::{
    Ctx, arg, arg_of, gives_value, has_named, named_key, only_heap, receiver, valid_args,
    with_property,
};
use crate::descriptor::Fault;
use crate::double::{
    below, flt, from_i64, int_double, integral, is_integral, is_nan, nan, saturated, to_i64,
};
use crate::heap::{Heap, HeapModel, JsObject, ObjModel, plain_object};
use crate::internal_methods::{lemma_lookup_key, with_element};
use crate::key_order::{shaped_slot, shaped_value};
use crate::object::snapshot_elements;
use crate::object_define::ends_in;
use crate::properties::{Named, Prop, PropBody, has_key, index_of_key};
use crate::text::{
    copy_range, is_high, is_low, nat_text, push_all, push_nat, to_well_formed, utf16, utf16_of,
    well_formed,
};
use crate::value::{Attrs, JsValue, Kind, PropKey, Throw, all_attrs};

verus! {

/// An array without a prototype.
pub open spec fn bare_array(items: Seq<JsValue>) -> ObjModel {
    ObjModel { elements: items, ..plain_object(Kind::Array) }
}

/// A new array, with the heap that holds it.
pub open spec fn new_array_result(h: HeapModel, items: Seq<JsValue>) -> (
    HeapModel,
    Result<JsValue, Fault>,
) {
    (h.with_new(bare_array(items)), Ok(JsValue::Object(h.objects.len() as usize)))
}

/// Puts an array into the heap.
fn new_array(ctx: &mut Ctx, items: Vec<JsValue>) -> (r: JsValue)
    requires
        old(ctx).wf(),
        valid_args(old(ctx).heap@, items@),
    ensures
        only_heap(*old(ctx), *final(ctx), old(ctx).heap@.with_new(bare_array(items@))),
        r == JsValue::Object(old(ctx).heap@.objects.len() as usize),
        old(ctx).heap@.objects.len() < final(ctx).heap@.objects.len() <= usize::MAX,
{
    let mut o: JsObject = JsObject::plain(Kind::Array);
    o.elements = items;
    proof {
        assert(o@ == bare_array(items@));
    }
    let n: usize = ctx.alloc_obj(o);
    let _ = ctx.heap.object_count();
    JsValue::Object(n)
}

// ---------------------------------------------------------------------------
// push and pop
// ---------------------------------------------------------------------------

/// Elements with the first `k` of others from an index on.
pub open spec fn written_from(s: Seq<JsValue>, at: int, items: Seq<JsValue>, k: int) -> Seq<JsValue>
    decreases k,
{
    if k <= 0 {
        s
    } else {
        with_element(written_from(s, at, items, k - 1), at + k - 1, items[k - 1])
    }
}

/// The heap with a length recorded on an object: its own `length` is set where it has one;
/// where it has none, an array has as many elements, and anything else gets the property.
pub open spec fn with_length_recorded(h: HeapModel, o: usize, v: JsValue) -> HeapModel {
    if h.objects[o as int].kind == Kind::Array || has_named(h, o, "length"@) {
        with_length(h, o, v)
    } else {
        with_property(h, o, "length"@, v, all_attrs())
    }
}

/// Records a length on an object.
fn record_length(ctx: &mut Ctx, obj: usize, v: JsValue)
    requires
        old(ctx).wf(),
        obj < old(ctx).heap@.objects.len(),
        old(ctx).heap@.valid(v),
    ensures
        only_heap(*old(ctx), *final(ctx), with_length_recorded(old(ctx).heap@, obj, v)),
{
    let array: bool = ctx.heap.object(obj).kind == Kind::Array;
    if array || own_named(&ctx.heap, obj, "length") {
        let _ = sync_length(&mut ctx.heap, obj, v);
    } else {
        ctx.define_data_prop_with_attrs(obj, "length", v, Attrs::new(true, true, true));
    }
}

/// Whether an object has a property of a name.
fn own_named(heap: &Heap, obj: usize, name: &str) -> (r: bool)
    requires
        heap.wf(),
        obj < heap@.objects.len(),
    ensures
        r == has_named(heap@, obj, name@),
{
    let _ = heap.text_count();
    match heap.find(utf16(name).as_slice()) {
        Some(id) => heap.object(obj).named.get(PropKey::Text(id)).is_some(),
        None => {
            proof {
                heap.lemma_wf();
                let m = heap@.objects[obj as int];
                let key = named_key(heap@, name@);
                assert(heap@.valid_refs(m));
                if has_key(m.named.list, key) {
                    lemma_lookup_key(m.named.list, key);
                    assert(heap@.valid_prop(m.named.list[index_of_key(m.named.list, key)]));
                }
            }
            false
        },
    }
}

/// What `push` does: the arguments go behind the length, which grows by their number.
pub open spec fn push_result(h: HeapModel, this: JsValue, args: Seq<JsValue>) -> (
    HeapModel,
    Result<JsValue, Fault>,
) {
    match receiver(h, this, "Array.prototype.push"@, None) {
        Err(t) => (h, Err(Fault::Text(t))),
        Ok(o) => {
            let len = full_length(h, o);
            let n = len + args.len();
            if n > u32::MAX {
                (h, Err(Fault::Text("RangeError: invalid array length"@)))
            } else {
                (
                    with_length_recorded(
                        with_elements(
                            h,
                            o,
                            written_from(
                                h.objects[o as int].elements,
                                len,
                                args,
                                args.len() as int,
                            ),
                        ),
                        o,
                        JsValue::Double(int_double(n)),
                    ),
                    Ok(int_value(n)),
                )
            }
        },
    }
}

/// `Array.prototype.push(...items)`.
pub fn array_push(ctx: &mut Ctx, this: JsValue, args: &[JsValue]) -> (r: Result<JsValue, Throw>)
    requires
        old(ctx).wf(),
        old(ctx).heap@.valid(this),
        valid_args(old(ctx).heap@, args@),
    ensures
        ends_in(*old(ctx), *final(ctx), r, push_result(old(ctx).heap@, this, args@)),
{
    let obj: usize = match ctx.this_object(this, "Array.prototype.push", None) {
        Ok(o) => o,
        Err(t) => {
            return Err(t);
        },
    };
    let len: u64 = array_length(&ctx.heap, obj);
    let count: usize = args.len();
    if len > 0xffff_ffff || count as u64 > 0xffff_ffff - len {
        return Err(error("RangeError: invalid array length"));
    }
    let ghost h = ctx.heap@;
    let ghost s = h.objects[obj as int].elements;
    let mut i: usize = 0;
    proof {
        assert(with_elements(h, obj, s) =~= h);
    }
    while i < count
        invariant
            ctx.wf(),
            ctx.global == old(ctx).global,
            ctx.pending == old(ctx).pending,
            count == args@.len(),
            i <= count,
            len + count <= 0xffff_ffff,
            obj < h.objects.len(),
            s == h.objects[obj as int].elements,
            valid_args(h, args@),
            ctx.heap@ == with_elements(h, obj, written_from(s, len as int, args@, i as int)),
        decreases count - i,
    {
        proof {
            assert(h.valid(args@[i as int]));
        }
        write_index(&mut ctx.heap, obj, len as usize + i, args[i]);
        proof {
            assert(ctx.heap@ =~= with_elements(h, obj, written_from(s, len as int, args@, i + 1)));
        }
        i = i + 1;
    }
    let n: i64 = len as i64 + count as i64;
    record_length(ctx, obj, JsValue::Double(from_i64(n)));
    Ok(smi_or_f64(n))
}

/// What `pop` takes from the end of an object: the last element, or where it is no
/// array a value of its shape.
pub open spec fn last_value(h: HeapModel, o: usize, last: int) -> JsValue {
    let found = if last < u32::MAX {
        read_at(h, o, last)
    } else {
        shaped_value(h, o, nat_text(last as nat))
    };
    match found {
        Some(v) => v,
        None => JsValue::Undefined,
    }
}

/// The heap without the last element of an object.
pub open spec fn without_last(h: HeapModel, o: usize, last: int) -> HeapModel {
    let m = h.objects[o as int];
    if last >= u32::MAX {
        h
    } else if m.kind == Kind::Array {
        if m.elements.len() == last + 1 {
            with_elements(h, o, m.elements.take(last))
        } else if last < m.elements.len() {
            with_elements(h, o, m.elements.update(last, JsValue::Hole))
        } else {
            h
        }
    } else {
        let h1 = if last < m.elements.len() {
            with_elements(h, o, m.elements.update(last, JsValue::Hole))
        } else {
            h
        };
        with_shaped_hole(h1, o, nat_text(last as nat))
    }
}

/// What `pop` does.
pub open spec fn pop_result(h: HeapModel, this: JsValue) -> (HeapModel, Result<JsValue, Fault>) {
    match receiver(h, this, "Array.prototype.pop"@, None) {
        Err(t) => (h, Err(Fault::Text(t))),
        Ok(o) => {
            let len = full_length(h, o);
            if len < 1 {
                (with_length_recorded(h, o, JsValue::Double(int_double(0))), Ok(JsValue::Undefined))
            } else {
                (
                    with_length_recorded(
                        without_last(h, o, len - 1),
                        o,
                        JsValue::Double(int_double(len - 1)),
                    ),
                    Ok(last_value(h, o, len - 1)),
                )
            }
        },
    }
}

/// Reads the last element of an object.
fn pop_read(heap: &Heap, obj: usize, last: u64) -> (r: JsValue)
    requires
        heap.wf(),
        obj < heap@.objects.len(),
    ensures
        r == last_value(heap@, obj, last as int),
        heap@.valid(r),
{
    if last < 0xffff_ffff {
        return match read_index(heap, obj, last) {
            Some(v) => v,
            None => JsValue::Undefined,
        };
    }
    let mut t: Vec<u16> = Vec::new();
    push_nat(&mut t, last);
    proof {
        assert(t@ =~= nat_text(last as nat));
    }
    match shaped_slot(heap, obj, t.as_slice()) {
        Some(v) => if v == JsValue::Hole {
            JsValue::Undefined
        } else {
            v
        },
        None => JsValue::Undefined,
    }
}

/// Removes the last element of an object.
fn pop_delete(heap: &mut Heap, obj: usize, last: u64)
    requires
        old(heap).wf(),
        obj < old(heap)@.objects.len(),
    ensures
        final(heap).wf(),
        final(heap)@ == without_last(old(heap)@, obj, last as int),
{
    if last >= 0xffff_ffff {
        return;
    }
    let array: bool = heap.object(obj).kind == Kind::Array;
    let stored: usize = heap.object(obj).elements.len();
    let ghost h = heap@;
    if array && stored as u64 == last + 1 {
        let mut kept: Vec<JsValue> = snapshot_elements(heap, obj);
        let _ = kept.pop();
        proof {
            assert(kept@ =~= h.objects[obj as int].elements.take(last as int));
            assert forall|i: int| 0 <= i < kept@.len() implies h.valid(#[trigger] kept@[i]) by {
                heap.lemma_wf();
                assert(h.valid_refs(h.objects[obj as int]));
                assert(h.valid(h.objects[obj as int].elements[i]));
            }
        }
        replace_elements(heap, obj, kept);
        return;
    }
    if last < stored as u64 {
        write_index(heap, obj, last as usize, JsValue::Hole);
    }
    if array {
        return;
    }
    let mut t: Vec<u16> = Vec::new();
    push_nat(&mut t, last);
    proof {
        assert(t@ =~= nat_text(last as nat));
    }
    clear_shaped(heap, obj, t.as_slice());
}

/// `Array.prototype.pop()`.
pub fn array_pop(ctx: &mut Ctx, this: JsValue, _args: &[JsValue]) -> (r: Result<JsValue, Throw>)
    requires
        old(ctx).wf(),
        old(ctx).heap@.valid(this),
    ensures
        ends_in(*old(ctx), *final(ctx), r, pop_result(old(ctx).heap@, this)),
{
    let obj: usize = match ctx.this_object(this, "Array.prototype.pop", None) {
        Ok(o) => o,
        Err(t) => {
            return Err(t);
        },
    };
    let len: u64 = array_length(&ctx.heap, obj);
    if len < 1 {
        record_length(ctx, obj, JsValue::Double(from_i64(0)));
        return Ok(JsValue::Undefined);
    }
    let last: u64 = len - 1;
    let value: JsValue = pop_read(&ctx.heap, obj, last);
    pop_delete(&mut ctx.heap, obj, last);
    record_length(ctx, obj, JsValue::Double(from_i64(last as i64)));
    Ok(value)
}

/// `Array.isArray(value)`.
pub fn array_is_array(ctx: &mut Ctx, _this: JsValue, args: &[JsValue]) -> (r: Result<
    JsValue,
    Throw,
>)
    requires
        old(ctx).wf(),
        valid_args(old(ctx).heap@, args@),
    ensures
        gives_value(
            *old(ctx),
            *final(ctx),
            r,
            JsValue::Bool(crate::ctx::is_kind(old(ctx).heap@, arg_of(args@, 0), Kind::Array)),
        ),
{
    Ok(
        JsValue::Bool(
            match arg(args, 0) {
                JsValue::Object(o) => ctx.heap.object(o).kind == Kind::Array,
                _ => false,
            },
        ),
    )
}

// ---------------------------------------------------------------------------
// Searching
// ---------------------------------------------------------------------------

/// Whether an object holds a value under an index.
pub open spec fn holds_at(h: HeapModel, o: usize, search: JsValue, i: int) -> bool {
    match read_at(h, o, i) {
        Some(v) => strictly_equal(search, v),
        None => false,
    }
}

/// The first index from `i` up to `n` under which an object holds a value, `-1` without
/// one.
pub open spec fn first_index(h: HeapModel, o: usize, search: JsValue, i: int, n: int) -> int
    decreases n - i,
{
    if i >= n {
        -1
    } else if holds_at(h, o, search, i) {
        i
    } else {
        first_index(h, o, search, i + 1, n)
    }
}

/// The last index from `i` down under which an object holds a value, `-1` without one.
pub open spec fn last_index(h: HeapModel, o: usize, search: JsValue, i: int) -> int
    decreases i + 1,
{
    if i < 0 {
        -1
    } else if holds_at(h, o, search, i) {
        i
    } else {
        last_index(h, o, search, i - 1)
    }
}

/// Whether an object holds a value from `i` up to `n`, where nothing counts as
/// `undefined`.
pub open spec fn included(h: HeapModel, o: usize, search: JsValue, i: int, n: int) -> bool
    decreases n - i,
{
    i < n && (match read_at(h, o, i) {
        Some(v) => same_value_zero_of(search, v),
        None => search == JsValue::Undefined,
    } || included(h, o, search, i + 1, n))
}

/// The facts about a heap that bound a search.
pub open spec fn searchable(h: HeapModel, o: usize) -> bool {
    &&& h.texts.len() <= usize::MAX
    &&& h.closed()
    &&& o < h.objects.len()
    &&& h.objects[o as int].named.base <= h.objects[o as int].named.list.len()
}

proof fn lemma_first_past(h: HeapModel, o: usize, search: JsValue, i: int, n: int)
    requires
        searchable(h, o),
        0 <= dense_of(h, o, n) <= i,
        n <= u32::MAX,
    ensures
        first_index(h, o, search, i, n) == -1,
    decreases n - i,
{
    if i < n {
        lemma_past_bound(h, o, n, i);
        lemma_first_past(h, o, search, i + 1, n);
    }
}

proof fn lemma_last_past(h: HeapModel, o: usize, search: JsValue, i: int, n: int)
    requires
        searchable(h, o),
        0 <= dense_of(h, o, n) <= i + 1,
        i < n <= u32::MAX,
    ensures
        last_index(h, o, search, i) == last_index(h, o, search, dense_of(h, o, n) - 1),
    decreases i + 1,
{
    if i >= dense_of(h, o, n) {
        lemma_past_bound(h, o, n, i);
        lemma_last_past(h, o, search, i - 1, n);
    }
}

proof fn lemma_included_past(h: HeapModel, o: usize, search: JsValue, i: int, n: int)
    requires
        searchable(h, o),
        0 <= dense_of(h, o, n) <= i,
        n <= u32::MAX,
    ensures
        included(h, o, search, i, n) == (i < n && search == JsValue::Undefined),
    decreases n - i,
{
    if i < n {
        lemma_past_bound(h, o, n, i);
        lemma_included_past(h, o, search, i + 1, n);
    }
}

/// Establishes the facts about a heap that bound a search.
fn search_facts(heap: &Heap, obj: usize)
    requires
        heap.wf(),
        obj < heap@.objects.len(),
    ensures
        searchable(heap@, obj),
{
    let _ = heap.text_count();
    proof {
        heap.lemma_wf();
    }
    let o: &JsObject = heap.object(obj);
    proof {
        o.named.lemma_base();
    }
}

/// What `indexOf` does.
pub open spec fn index_of_result(h: HeapModel, this: JsValue, args: Seq<JsValue>) -> (
    HeapModel,
    Result<JsValue, Fault>,
) {
    match receiver(h, this, "Array.prototype.indexOf"@, None) {
        Err(t) => (h, Err(Fault::Text(t))),
        Ok(o) => {
            let len = short_length(h, o);
            (
                h,
                Ok(
                    int_value(
                        first_index(h, o, arg_of(args, 0), relative(arg_of(args, 1), len, 0), len),
                    ),
                ),
            )
        },
    }
}

/// `Array.prototype.indexOf(search, fromIndex)`.
pub fn array_index_of(ctx: &mut Ctx, this: JsValue, args: &[JsValue]) -> (r: Result<JsValue, Throw>)
    requires
        old(ctx).wf(),
        old(ctx).heap@.valid(this),
        valid_args(old(ctx).heap@, args@),
    ensures
        ends_in(*old(ctx), *final(ctx), r, index_of_result(old(ctx).heap@, this, args@)),
{
    let obj: usize = match ctx.this_object(this, "Array.prototype.indexOf", None) {
        Ok(o) => o,
        Err(t) => {
            return Err(t);
        },
    };
    let search: JsValue = arg(args, 0);
    let len: u32 = array_len(&ctx.heap, obj);
    let dense: u32 = dense_bound(&ctx.heap, obj, len);
    search_facts(&ctx.heap, obj);
    let from: i64 = relative_index(arg(args, 1), len as i64, 0);
    let mut i: u64 = from as u64;
    let ghost h = ctx.heap@;
    while i < dense as u64
        invariant
            ctx.wf(),
            *ctx == *old(ctx),
            h == ctx.heap@,
            obj < h.objects.len(),
            from <= i,
            0 <= from <= len,
            dense <= len,
            dense == dense_of(h, obj, len as int),
            first_index(h, obj, search, from as int, len as int) == first_index(
                h,
                obj,
                search,
                i as int,
                len as int,
            ),
            index_of_result(h, this, args@) == (h, Ok::<JsValue, Fault>(
                int_value(first_index(h, obj, search, from as int, len as int)),
            )),
        decreases dense - i,
    {
        match read_index(&ctx.heap, obj, i) {
            Some(v) => {
                if strict_equals(search, v) {
                    return Ok(smi_or_f64(i as i64));
                }
            },
            None => {},
        }
        i = i + 1;
    }
    proof {
        lemma_first_past(h, obj, search, i as int, len as int);
    }
    Ok(smi_or_f64(-1))
}

/// What `lastIndexOf` does.
pub open spec fn last_index_of_result(h: HeapModel, this: JsValue, args: Seq<JsValue>) -> (
    HeapModel,
    Result<JsValue, Fault>,
) {
    match receiver(h, this, "Array.prototype.lastIndexOf"@, None) {
        Err(t) => (h, Err(Fault::Text(t))),
        Ok(o) => {
            let len = short_length(h, o);
            let from = relative(arg_of(args, 1), len, len - 1);
            (
                h,
                Ok(
                    int_value(
                        last_index(
                            h,
                            o,
                            arg_of(args, 0),
                            if from < len {
                                from
                            } else {
                                len - 1
                            },
                        ),
                    ),
                ),
            )
        },
    }
}

/// `Array.prototype.lastIndexOf(search, fromIndex)`.
pub fn array_last_index_of(ctx: &mut Ctx, this: JsValue, args: &[JsValue]) -> (r: Result<
    JsValue,
    Throw,
>)
    requires
        old(ctx).wf(),
        old(ctx).heap@.valid(this),
        valid_args(old(ctx).heap@, args@),
    ensures
        ends_in(*old(ctx), *final(ctx), r, last_index_of_result(old(ctx).heap@, this, args@)),
{
    let obj: usize = match ctx.this_object(this, "Array.prototype.lastIndexOf", None) {
        Ok(o) => o,
        Err(t) => {
            return Err(t);
        },
    };
    let search: JsValue = arg(args, 0);
    let len: u32 = array_len(&ctx.heap, obj);
    let dense: u32 = dense_bound(&ctx.heap, obj, len);
    search_facts(&ctx.heap, obj);
    let asked: i64 = relative_index(arg(args, 1), len as i64, len as i64 - 1);
    let from: i64 = if asked < len as i64 {
        asked
    } else {
        len as i64 - 1
    };
    let ghost h = ctx.heap@;
    let mut i: i64 = if from < dense as i64 {
        from
    } else {
        proof {
            lemma_last_past(h, obj, search, from as int, len as int);
        }
        dense as i64 - 1
    };
    while i >= 0
        invariant
            ctx.wf(),
            *ctx == *old(ctx),
            h == ctx.heap@,
            obj < h.objects.len(),
            -1 <= i < 0x1_0000_0000,
            last_index(h, obj, search, from as int) == last_index(h, obj, search, i as int),
            last_index_of_result(h, this, args@) == (h, Ok::<JsValue, Fault>(
                int_value(last_index(h, obj, search, from as int)),
            )),
        decreases i + 1,
    {
        match read_index(&ctx.heap, obj, i as u64) {
            Some(v) => {
                if strict_equals(search, v) {
                    return Ok(smi_or_f64(i));
                }
            },
            None => {},
        }
        i = i - 1;
    }
    Ok(smi_or_f64(-1))
}

/// What `includes` does.
pub open spec fn includes_result(h: HeapModel, this: JsValue, args: Seq<JsValue>) -> (
    HeapModel,
    Result<JsValue, Fault>,
) {
    match receiver(h, this, "Array.prototype.includes"@, None) {
        Err(t) => (h, Err(Fault::Text(t))),
        Ok(o) => {
            let len = short_length(h, o);
            (
                h,
                Ok(
                    JsValue::Bool(
                        included(h, o, arg_of(args, 0), relative(arg_of(args, 1), len, 0), len),
                    ),
                ),
            )
        },
    }
}

/// `Array.prototype.includes(search, fromIndex)`.
pub fn array_includes(ctx: &mut Ctx, this: JsValue, args: &[JsValue]) -> (r: Result<JsValue, Throw>)
    requires
        old(ctx).wf(),
        old(ctx).heap@.valid(this),
        valid_args(old(ctx).heap@, args@),
    ensures
        ends_in(*old(ctx), *final(ctx), r, includes_result(old(ctx).heap@, this, args@)),
{
    let obj: usize = match ctx.this_object(this, "Array.prototype.includes", None) {
        Ok(o) => o,
        Err(t) => {
            return Err(t);
        },
    };
    let search: JsValue = arg(args, 0);
    let len: u32 = array_len(&ctx.heap, obj);
    let dense: u32 = dense_bound(&ctx.heap, obj, len);
    search_facts(&ctx.heap, obj);
    let from: i64 = relative_index(arg(args, 1), len as i64, 0);
    let mut i: u64 = from as u64;
    let ghost h = ctx.heap@;
    while i < dense as u64
        invariant
            ctx.wf(),
            *ctx == *old(ctx),
            h == ctx.heap@,
            obj < h.objects.len(),
            from <= i,
            0 <= from <= len,
            dense <= len,
            dense == dense_of(h, obj, len as int),
            included(h, obj, search, from as int, len as int) == included(
                h,
                obj,
                search,
                i as int,
                len as int,
            ),
            includes_result(h, this, args@) == (h, Ok::<JsValue, Fault>(
                JsValue::Bool(included(h, obj, search, from as int, len as int)),
            )),
        decreases dense - i,
    {
        let hit: bool = match read_index(&ctx.heap, obj, i) {
            Some(v) => same_value_zero(search, v),
            None => search == JsValue::Undefined,
        };
        if hit {
            return Ok(JsValue::Bool(true));
        }
        i = i + 1;
    }
    proof {
        lemma_included_past(h, obj, search, i as int, len as int);
    }
    Ok(JsValue::Bool(i < len as u64 && search == JsValue::Undefined))
}

/// What `at` does: an index that counts from the end where it is negative.
pub open spec fn at_result(h: HeapModel, this: JsValue, args: Seq<JsValue>) -> (
    HeapModel,
    Result<JsValue, Fault>,
) {
    match receiver(h, this, "Array.prototype.at"@, None) {
        Err(t) => (h, Err(Fault::Text(t))),
        Ok(o) => {
            let len = short_length(h, o);
            let n = index_int(arg_of(args, 0));
            let i = if n < 0 {
                len + n
            } else {
                n
            };
            (
                h,
                Ok(
                    if 0 <= i < len {
                        match read_at(h, o, i) {
                            Some(v) => v,
                            None => JsValue::Undefined,
                        }
                    } else {
                        JsValue::Undefined
                    },
                ),
            )
        },
    }
}

/// `Array.prototype.at(index)`.
pub fn array_at(ctx: &mut Ctx, this: JsValue, args: &[JsValue]) -> (r: Result<JsValue, Throw>)
    requires
        old(ctx).wf(),
        old(ctx).heap@.valid(this),
        valid_args(old(ctx).heap@, args@),
    ensures
        ends_in(*old(ctx), *final(ctx), r, at_result(old(ctx).heap@, this, args@)),
{
    let obj: usize = match ctx.this_object(this, "Array.prototype.at", None) {
        Ok(o) => o,
        Err(t) => {
            return Err(t);
        },
    };
    let len: i64 = array_len(&ctx.heap, obj) as i64;
    let n: i64 = index_number(arg(args, 0));
    let i: i64 = if n < 0 {
        len + n
    } else {
        n
    };
    if i < 0 || i >= len {
        return Ok(JsValue::Undefined);
    }
    match read_index(&ctx.heap, obj, i as u64) {
        Some(v) => Ok(v),
        None => Ok(JsValue::Undefined),
    }
}

// ---------------------------------------------------------------------------
// New arrays
// ---------------------------------------------------------------------------

/// What `slice` does: the elements from an index up to another, as a new array.
pub open spec fn slice_result(h: HeapModel, this: JsValue, args: Seq<JsValue>) -> (
    HeapModel,
    Result<JsValue, Fault>,
) {
    match receiver(h, this, "Array.prototype.slice"@, None) {
        Err(t) => (h, Err(Fault::Text(t))),
        Ok(o) => {
            let s = h.objects[o as int].elements;
            let a = relative(arg_of(args, 0), s.len() as int, 0);
            let b = relative(arg_of(args, 1), s.len() as int, s.len() as int);
            new_array_result(
                h,
                if a < b {
                    s.subrange(a, b)
                } else {
                    seq![]
                },
            )
        },
    }
}

/// A part of some values.
fn copy_values(s: &Vec<JsValue>, from: usize, to: usize) -> (r: Vec<JsValue>)
    requires
        from <= to <= s@.len(),
    ensures
        r@ == s@.subrange(from as int, to as int),
{
    let mut out: Vec<JsValue> = Vec::new();
    push_values(&mut out, s, from, to);
    proof {
        assert(out@ =~= s@.subrange(from as int, to as int));
    }
    out
}

/// Appends a part of some values.
fn push_values(out: &mut Vec<JsValue>, s: &Vec<JsValue>, from: usize, to: usize)
    requires
        from <= to <= s@.len(),
    ensures
        final(out)@ == old(out)@ + s@.subrange(from as int, to as int),
{
    let ghost start = out@;
    let mut i: usize = from;
    proof {
        assert(start + s@.subrange(from as int, from as int) =~= start);
    }
    while i < to
        invariant
            from <= i <= to <= s@.len(),
            out@ == start + s@.subrange(from as int, i as int),
        decreases to - i,
    {
        out.push(s[i]);
        proof {
            assert(out@ =~= start + s@.subrange(from as int, i + 1));
        }
        i = i + 1;
    }
}

/// Appends arguments from an index on.
fn push_args(out: &mut Vec<JsValue>, args: &[JsValue], from: usize)
    requires
        from <= args@.len(),
    ensures
        final(out)@ == old(out)@ + args@.skip(from as int),
{
    let ghost start = out@;
    let n: usize = args.len();
    let mut i: usize = from;
    proof {
        assert(start + args@.subrange(from as int, from as int) =~= start);
    }
    while i < n
        invariant
            n == args@.len(),
            from <= i <= n,
            out@ == start + args@.subrange(from as int, i as int),
        decreases n - i,
    {
        out.push(args[i]);
        proof {
            assert(out@ =~= start + args@.subrange(from as int, i + 1));
        }
        i = i + 1;
    }
    proof {
        assert(args@.subrange(from as int, n as int) =~= args@.skip(from as int));
    }
}

/// Whether the elements of an object can be counted in 63 bits.
pub open spec fn countable_elements(h: HeapModel, v: JsValue) -> bool {
    v matches JsValue::Object(o) ==> h.objects[o as int].elements.len() <= i64::MAX
}

/// `Array.prototype.slice(start, end)`.
pub fn array_slice(ctx: &mut Ctx, this: JsValue, args: &[JsValue]) -> (r: Result<JsValue, Throw>)
    requires
        old(ctx).wf(),
        old(ctx).heap@.valid(this),
        valid_args(old(ctx).heap@, args@),
        countable_elements(old(ctx).heap@, this),
    ensures
        ends_in(*old(ctx), *final(ctx), r, slice_result(old(ctx).heap@, this, args@)),
{
    let obj: usize = match ctx.this_object(this, "Array.prototype.slice", None) {
        Ok(o) => o,
        Err(t) => {
            return Err(t);
        },
    };
    let elems: Vec<JsValue> = snapshot_elements(&ctx.heap, obj);
    let len: i64 = elems.len() as i64;
    let a: i64 = relative_index(arg(args, 0), len, 0);
    let b: i64 = relative_index(arg(args, 1), len, len);
    let items: Vec<JsValue> = if a < b {
        copy_values(&elems, a as usize, b as usize)
    } else {
        Vec::new()
    };
    proof {
        assert(items@ =~= if a < b {
            elems@.subrange(a as int, b as int)
        } else {
            seq![]
        });
        assert forall|i: int| 0 <= i < items@.len() implies ctx.heap@.valid(#[trigger] items@[i]) by {
            assert(ctx.heap@.valid(elems@[a + i]));
        }
    }
    Ok(new_array(ctx, items))
}

/// Elements with what the first `k` arguments stand for behind them: the elements of an
/// array, else the argument itself.
pub open spec fn concatenated(h: HeapModel, s: Seq<JsValue>, args: Seq<JsValue>, k: int) -> Seq<JsValue>
    decreases k,
{
    if k <= 0 {
        s
    } else {
        let t = concatenated(h, s, args, k - 1);
        match args[k - 1] {
            JsValue::Object(o) => if h.objects[o as int].kind == Kind::Array {
                t + h.objects[o as int].elements
            } else {
                t.push(args[k - 1])
            },
            v => t.push(v),
        }
    }
}

/// What `concat` does.
pub open spec fn concat_result(h: HeapModel, this: JsValue, args: Seq<JsValue>) -> (
    HeapModel,
    Result<JsValue, Fault>,
) {
    let s = match this {
        JsValue::Object(o) => h.objects[o as int].elements,
        _ => seq![],
    };
    new_array_result(h, concatenated(h, s, args, args.len() as int))
}

/// `Array.prototype.concat(...items)`.
pub fn array_concat(ctx: &mut Ctx, this: JsValue, args: &[JsValue]) -> (r: Result<JsValue, Throw>)
    requires
        old(ctx).wf(),
        old(ctx).heap@.valid(this),
        valid_args(old(ctx).heap@, args@),
    ensures
        ends_in(*old(ctx), *final(ctx), r, concat_result(old(ctx).heap@, this, args@)),
{
    let mut out: Vec<JsValue> = match this {
        JsValue::Object(o) => snapshot_elements(&ctx.heap, o),
        _ => Vec::new(),
    };
    let ghost h = ctx.heap@;
    let ghost start = out@;
    proof {
        assert(start =~= match this {
            JsValue::Object(o) => h.objects[o as int].elements,
            _ => seq![],
        });
    }
    let mut i: usize = 0;
    while i < args.len()
        invariant
            ctx.wf(),
            *ctx == *old(ctx),
            h == ctx.heap@,
            valid_args(h, args@),
            valid_args(h, out@),
            i <= args@.len(),
            out@ == concatenated(h, start, args@, i as int),
        decreases args@.len() - i,
    {
        let v: JsValue = args[i];
        proof {
            assert(h.valid(args@[i as int]));
        }
        let spread: bool = match v {
            JsValue::Object(o) => ctx.heap.object(o).kind == Kind::Array,
            _ => false,
        };
        match v {
            JsValue::Object(o) => {
                if spread {
                    let items: Vec<JsValue> = snapshot_elements(&ctx.heap, o);
                    let ghost before = out@;
                    push_values(&mut out, &items, 0, items.len());
                    proof {
                        assert(items@.subrange(0, items@.len() as int) =~= items@);
                        assert forall|j: int| 0 <= j < out@.len() implies h.valid(
                            #[trigger] out@[j],
                        ) by {
                            if j < before.len() {
                                assert(h.valid(before[j]));
                            } else {
                                assert(h.valid(items@[j - before.len()]));
                            }
                        }
                    }
                } else {
                    out.push(v);
                }
            },
            _ => {
                out.push(v);
            },
        }
        i = i + 1;
    }
    Ok(new_array(ctx, out))
}

/// What `Array.of` does.
pub open spec fn of_result(h: HeapModel, args: Seq<JsValue>) -> (HeapModel, Result<JsValue, Fault>) {
    new_array_result(h, args)
}

/// `Array.of(...items)`.
pub fn array_of(ctx: &mut Ctx, _this: JsValue, args: &[JsValue]) -> (r: Result<JsValue, Throw>)
    requires
        old(ctx).wf(),
        valid_args(old(ctx).heap@, args@),
    ensures
        ends_in(*old(ctx), *final(ctx), r, of_result(old(ctx).heap@, args@)),
{
    let mut items: Vec<JsValue> = Vec::new();
    push_args(&mut items, args, 0);
    proof {
        assert(items@ =~= args@);
    }
    Ok(new_array(ctx, items))
}

/// How many levels a depth flattens.
pub open spec fn levels_of(depth: u64) -> nat {
    if is_nan(depth) || below(depth, int_double(1)) || saturated(depth) < 1 {
        0
    } else {
        saturated(depth) as nat
    }
}

/// The first `k` elements with those of nested arrays in their places, as many levels
/// deep; holes are `undefined`.
pub open spec fn flattened(h: HeapModel, s: Seq<JsValue>, k: int, levels: nat) -> Seq<JsValue>
    decreases levels, k,
{
    if k <= 0 {
        seq![]
    } else {
        let head = flattened(h, s, k - 1, levels);
        match s[k - 1] {
            JsValue::Hole => head.push(JsValue::Undefined),
            JsValue::Object(o) => if h.objects[o as int].kind == Kind::Array && levels >= 1 {
                let t = h.objects[o as int].elements;
                head + flattened(h, t, t.len() as int, (levels - 1) as nat)
            } else {
                head.push(s[k - 1])
            },
            v => head.push(v),
        }
    }
}

/// Appends the elements of an array with those of nested arrays in their places.
fn flatten_into(heap: &Heap, obj: usize, levels: u64, out: &mut Vec<JsValue>)
    requires
        heap.wf(),
        obj < heap@.objects.len(),
        valid_args(heap@, old(out)@),
    ensures
        final(out)@ == old(out)@ + flattened(
            heap@,
            heap@.objects[obj as int].elements,
            heap@.objects[obj as int].elements.len() as int,
            levels as nat,
        ),
        valid_args(heap@, final(out)@),
    decreases levels,
{
    let o: &JsObject = heap.object(obj);
    let ghost s = o@.elements;
    let ghost start = out@;
    let mut i: usize = 0;
    proof {
        assert(start + flattened(heap@, s, 0, levels as nat) =~= start);
    }
    while i < o.elements.len()
        invariant
            heap.wf(),
            s == o@.elements,
            heap@.valid_refs(o@),
            i <= s.len(),
            out@ == start + flattened(heap@, s, i as int, levels as nat),
            valid_args(heap@, out@),
        decreases s.len() - i,
    {
        let v: JsValue = o.elements[i];
        proof {
            assert(heap@.valid(s[i as int]));
        }
        let ghost before = out@;
        match v {
            JsValue::Hole => {
                out.push(JsValue::Undefined);
            },
            JsValue::Object(k) => {
                if heap.object(k).kind == Kind::Array && levels >= 1 {
                    flatten_into(heap, k, levels - 1, out);
                } else {
                    out.push(v);
                }
            },
            _ => {
                out.push(v);
            },
        }
        proof {
            assert(out@ =~= start + flattened(heap@, s, i + 1, levels as nat));
        }
        i = i + 1;
    }
}

/// What `flat` does.
pub open spec fn flat_result(h: HeapModel, this: JsValue, args: Seq<JsValue>) -> (
    HeapModel,
    Result<JsValue, Fault>,
) {
    match receiver(h, this, "Array.prototype.flat"@, None) {
        Err(t) => (h, Err(Fault::Text(t))),
        Ok(o) => {
            let levels = if arg_of(args, 0) == JsValue::Undefined {
                1
            } else {
                levels_of(number_of(h, arg_of(args, 0)))
            };
            let s = h.objects[o as int].elements;
            new_array_result(h, flattened(h, s, s.len() as int, levels))
        },
    }
}

/// `Array.prototype.flat(depth)`.
pub fn array_flat(ctx: &mut Ctx, this: JsValue, args: &[JsValue]) -> (r: Result<JsValue, Throw>)
    requires
        old(ctx).wf(),
        old(ctx).heap@.valid(this),
        valid_args(old(ctx).heap@, args@),
    ensures
        ends_in(*old(ctx), *final(ctx), r, flat_result(old(ctx).heap@, this, args@)),
{
    let obj: usize = match ctx.this_object(this, "Array.prototype.flat", None) {
        Ok(o) => o,
        Err(t) => {
            return Err(t);
        },
    };
    let v: JsValue = arg(args, 0);
    let levels: u64 = if v == JsValue::Undefined {
        1
    } else {
        let depth: u64 = ctx.to_number(v);
        let n: i64 = to_i64(depth);
        if nan(depth) || flt(depth, from_i64(1)) || n < 1 {
            0
        } else {
            n as u64
        }
    };
    let mut out: Vec<JsValue> = Vec::new();
    flatten_into(&ctx.heap, obj, levels, &mut out);
    proof {
        let s = ctx.heap@.objects[obj as int].elements;
        assert(out@ =~= flattened(ctx.heap@, s, s.len() as int, levels as nat));
    }
    Ok(new_array(ctx, out))
}

// ---------------------------------------------------------------------------
// Changing an array in place
// ---------------------------------------------------------------------------

/// What `reverse` does.
pub open spec fn reverse_result(h: HeapModel, this: JsValue) -> (HeapModel, Result<JsValue, Fault>) {
    match receiver(h, this, "Array.prototype.reverse"@, None) {
        Err(t) => (h, Err(Fault::Text(t))),
        Ok(o) => (with_elements(h, o, h.objects[o as int].elements.reverse()), Ok(this)),
    }
}

/// `Array.prototype.reverse()`.
pub fn array_reverse(ctx: &mut Ctx, this: JsValue, _args: &[JsValue]) -> (r: Result<JsValue, Throw>)
    requires
        old(ctx).wf(),
        old(ctx).heap@.valid(this),
    ensures
        ends_in(*old(ctx), *final(ctx), r, reverse_result(old(ctx).heap@, this)),
{
    let obj: usize = match ctx.this_object(this, "Array.prototype.reverse", None) {
        Ok(o) => o,
        Err(t) => {
            return Err(t);
        },
    };
    let s: Vec<JsValue> = snapshot_elements(&ctx.heap, obj);
    let mut out: Vec<JsValue> = Vec::new();
    let mut i: usize = s.len();
    while i > 0
        invariant
            i <= s@.len(),
            valid_args(ctx.heap@, s@),
            out@ == s@.reverse().take(s@.len() - i),
        decreases i,
    {
        i = i - 1;
        out.push(s[i]);
        proof {
            assert(out@ =~= s@.reverse().take(s@.len() - i));
        }
    }
    proof {
        assert(out@ =~= s@.reverse());
        assert forall|k: int| 0 <= k < out@.len() implies ctx.heap@.valid(#[trigger] out@[k]) by {
            assert(ctx.heap@.valid(s@[s@.len() - 1 - k]));
        }
    }
    replace_elements(&mut ctx.heap, obj, out);
    Ok(this)
}

/// What `shift` does.
pub open spec fn shift_result(h: HeapModel, this: JsValue) -> (HeapModel, Result<JsValue, Fault>) {
    match receiver(h, this, "Array.prototype.shift"@, None) {
        Err(t) => (h, Err(Fault::Text(t))),
        Ok(o) => {
            let len = short_length(h, o);
            let s = h.objects[o as int].elements;
            if len == 0 {
                (h, Ok(JsValue::Undefined))
            } else {
                (
                    with_new_length(
                        with_elements(
                            h,
                            o,
                            if s.len() > 0 {
                                s.skip(1)
                            } else {
                                s
                            },
                        ),
                        o,
                        len - 1,
                    ),
                    Ok(
                        match read_at(h, o, 0) {
                            Some(v) => v,
                            None => JsValue::Undefined,
                        },
                    ),
                )
            }
        },
    }
}

/// `Array.prototype.shift()`.
pub fn array_shift(ctx: &mut Ctx, this: JsValue, _args: &[JsValue]) -> (r: Result<JsValue, Throw>)
    requires
        old(ctx).wf(),
        old(ctx).heap@.valid(this),
    ensures
        ends_in(*old(ctx), *final(ctx), r, shift_result(old(ctx).heap@, this)),
{
    let obj: usize = match ctx.this_object(this, "Array.prototype.shift", None) {
        Ok(o) => o,
        Err(t) => {
            return Err(t);
        },
    };
    let len: u32 = array_len(&ctx.heap, obj);
    if len == 0 {
        return Ok(JsValue::Undefined);
    }
    let first: JsValue = match read_index(&ctx.heap, obj, 0) {
        Some(v) => v,
        None => JsValue::Undefined,
    };
    let s: Vec<JsValue> = snapshot_elements(&ctx.heap, obj);
    let rest: Vec<JsValue> = if s.len() > 0 {
        copy_values(&s, 1, s.len())
    } else {
        Vec::new()
    };
    proof {
        assert(rest@ =~= if s@.len() > 0 {
            s@.skip(1)
        } else {
            s@
        });
        assert forall|k: int| 0 <= k < rest@.len() implies ctx.heap@.valid(#[trigger] rest@[k]) by {
            assert(ctx.heap@.valid(s@[k + 1]));
        }
    }
    replace_elements(&mut ctx.heap, obj, rest);
    set_array_len(&mut ctx.heap, obj, len - 1);
    Ok(first)
}

/// What `unshift` does: the arguments go in front; the length is told modulo `2^32`.
pub open spec fn unshift_result(h: HeapModel, this: JsValue, args: Seq<JsValue>) -> (
    HeapModel,
    Result<JsValue, Fault>,
) {
    match receiver(h, this, "Array.prototype.unshift"@, None) {
        Err(t) => (h, Err(Fault::Text(t))),
        Ok(o) => {
            let s = args + h.objects[o as int].elements;
            let h1 = with_elements(h, o, s);
            (
                if h.objects[o as int].kind == Kind::Array {
                    with_new_length(h1, o, s.len() as int % 0x1_0000_0000)
                } else {
                    h1
                },
                Ok(int_value(s.len() as int % 0x1_0000_0000)),
            )
        },
    }
}

/// `Array.prototype.unshift(...items)`.
pub fn array_unshift(ctx: &mut Ctx, this: JsValue, args: &[JsValue]) -> (r: Result<JsValue, Throw>)
    requires
        old(ctx).wf(),
        old(ctx).heap@.valid(this),
        valid_args(old(ctx).heap@, args@),
    ensures
        ends_in(*old(ctx), *final(ctx), r, unshift_result(old(ctx).heap@, this, args@)),
{
    let obj: usize = match ctx.this_object(this, "Array.prototype.unshift", None) {
        Ok(o) => o,
        Err(t) => {
            return Err(t);
        },
    };
    let s: Vec<JsValue> = snapshot_elements(&ctx.heap, obj);
    let mut out: Vec<JsValue> = Vec::new();
    push_args(&mut out, args, 0);
    push_values(&mut out, &s, 0, s.len());
    proof {
        assert(out@ =~= args@ + s@);
        assert forall|k: int| 0 <= k < out@.len() implies ctx.heap@.valid(#[trigger] out@[k]) by {
            if k < args@.len() {
                assert(ctx.heap@.valid(args@[k]));
            } else {
                assert(ctx.heap@.valid(s@[k - args@.len()]));
            }
        }
    }
    let len: u32 = (out.len() as u64 % 0x1_0000_0000) as u32;
    let array: bool = ctx.heap.object(obj).kind == Kind::Array;
    replace_elements(&mut ctx.heap, obj, out);
    if array {
        set_array_len(&mut ctx.heap, obj, len);
    }
    Ok(smi_or_f64(len as i64))
}

/// Where `splice` starts, how many elements it takes out of the stored ones, and the
/// length that it leaves.
pub open spec fn splice_plan(h: HeapModel, o: usize, args: Seq<JsValue>) -> (int, int, int) {
    let len = short_length(h, o);
    let s = h.objects[o as int].elements;
    let start = relative(arg_of(args, 0), len, 0);
    let asked = if arg_of(args, 1) == JsValue::Undefined {
        len - start
    } else {
        let d = index_int(arg_of(args, 1));
        if d < 0 {
            0
        } else if d > len - start {
            len - start
        } else {
            d
        }
    };
    let a = if start < s.len() {
        start
    } else {
        s.len() as int
    };
    let n = if asked < s.len() - a {
        asked
    } else {
        s.len() - a
    };
    let added = if args.len() > 2 {
        args.len() - 2
    } else {
        0
    };
    (
        a,
        n,
        if len - n + added > u32::MAX {
            u32::MAX as int
        } else {
            len - n + added
        },
    )
}

/// What `splice` does: takes elements out, puts arguments in their place, and returns
/// what it took.
pub open spec fn splice_result(h: HeapModel, this: JsValue, args: Seq<JsValue>) -> (
    HeapModel,
    Result<JsValue, Fault>,
) {
    match receiver(h, this, "Array.prototype.splice"@, None) {
        Err(t) => (h, Err(Fault::Text(t))),
        Ok(o) => {
            let s = h.objects[o as int].elements;
            let (a, n, len) = splice_plan(h, o, args);
            new_array_result(
                with_new_length(with_elements(h, o, spliced(s, a, n, args)), o, len),
                s.subrange(a, a + n),
            )
        },
    }
}

/// Where `splice` starts, how many elements it takes out, and the length that it leaves.
fn plan_splice(heap: &Heap, obj: usize, args: &[JsValue]) -> (r: (usize, usize, u32))
    requires
        heap.wf(),
        obj < heap@.objects.len(),
    ensures
        (r.0 as int, r.1 as int, r.2 as int) == splice_plan(heap@, obj, args@),
        r.0 + r.1 <= heap@.objects[obj as int].elements.len(),
{
    let len: i64 = array_len(heap, obj) as i64;
    let start: i64 = relative_index(arg(args, 0), len, 0);
    let second: JsValue = arg(args, 1);
    let asked: i64 = if second == JsValue::Undefined {
        len - start
    } else {
        let d: i64 = index_number(second);
        if d < 0 {
            0
        } else if d > len - start {
            len - start
        } else {
            d
        }
    };
    let stored: usize = heap.object(obj).elements.len();
    let a: usize = if (start as u64) < stored as u64 {
        start as usize
    } else {
        stored
    };
    let n: usize = if (asked as u64) < (stored - a) as u64 {
        asked as usize
    } else {
        stored - a
    };
    let count: usize = args.len();
    let added: i128 = if count > 2 {
        count as i128 - 2
    } else {
        0
    };
    let grown: i128 = len as i128 - n as i128 + added;
    let new_len: u32 = if grown > 0xffff_ffff {
        0xffff_ffff
    } else {
        grown as u32
    };
    (a, n, new_len)
}

/// Elements with some of them replaced by the arguments from the third on.
pub open spec fn spliced(s: Seq<JsValue>, a: int, n: int, args: Seq<JsValue>) -> Seq<JsValue> {
    let items = if args.len() > 2 {
        args.skip(2)
    } else {
        seq![]
    };
    s.take(a) + items + s.skip(a + n)
}

/// Elements with some of them replaced by the arguments from the third on.
fn splice_elements(heap: &Heap, s: &Vec<JsValue>, a: usize, n: usize, args: &[JsValue]) -> (r: Vec<
    JsValue,
>)
    requires
        a + n <= s@.len(),
        valid_args(heap@, s@),
        valid_args(heap@, args@),
    ensures
        r@ == spliced(s@, a as int, n as int, args@),
        valid_args(heap@, r@),
{
    let stored: usize = s.len();
    let mut next: Vec<JsValue> = copy_values(s, 0, a);
    if args.len() > 2 {
        push_args(&mut next, args, 2);
    }
    push_values(&mut next, s, a + n, stored);
    proof {
        let h = heap@;
        let items = if args@.len() > 2 {
            args@.skip(2)
        } else {
            seq![]
        };
        assert(next@ =~= s@.take(a as int) + items + s@.skip((a + n) as int));
        assert forall|k: int| 0 <= k < next@.len() implies h.valid(#[trigger] next@[k]) by {
            if k < a {
                assert(h.valid(s@[k]));
            } else if k < a + items.len() {
                assert(h.valid(args@[k - a + 2]));
            } else {
                assert(h.valid(s@[k - items.len() + n]));
            }
        }
    }
    next
}

/// `Array.prototype.splice(start, deleteCount, ...items)`.
pub fn array_splice(ctx: &mut Ctx, this: JsValue, args: &[JsValue]) -> (r: Result<JsValue, Throw>)
    requires
        old(ctx).wf(),
        old(ctx).heap@.valid(this),
        valid_args(old(ctx).heap@, args@),
    ensures
        ends_in(*old(ctx), *final(ctx), r, splice_result(old(ctx).heap@, this, args@)),
{
    let obj: usize = match ctx.this_object(this, "Array.prototype.splice", None) {
        Ok(o) => o,
        Err(t) => {
            return Err(t);
        },
    };
    let ghost h = ctx.heap@;
    let (a, n, new_len) = plan_splice(&ctx.heap, obj, args);
    let s: Vec<JsValue> = snapshot_elements(&ctx.heap, obj);
    let removed: Vec<JsValue> = copy_values(&s, a, a + n);
    let next: Vec<JsValue> = splice_elements(&ctx.heap, &s, a, n, args);
    proof {
        assert forall|k: int| 0 <= k < removed@.len() implies h.valid(#[trigger] removed@[k]) by {
            assert(h.valid(s@[a + k]));
        }
    }
    replace_elements(&mut ctx.heap, obj, next);
    set_array_len(&mut ctx.heap, obj, new_len);
    Ok(new_array(ctx, removed))
}

/// Elements with one value from an index up to another.
pub open spec fn filled_from(s: Seq<JsValue>, a: int, b: int, v: JsValue) -> Seq<JsValue>
    decreases b - a,
{
    if b <= a {
        s
    } else {
        with_element(filled_from(s, a, b - 1, v), b - 1, v)
    }
}

/// Up to which index `fill` writes: the one that is asked for, unless that is far past
/// what is stored.
pub open spec fn fill_end(h: HeapModel, o: usize, start: int, end: int) -> int {
    let stored = h.objects[o as int].elements.len();
    if end - start > MAX_WRITE_SPAN || end > stored + MAX_WRITE_SPAN {
        let dense = dense_of(h, o, short_length(h, o));
        let a = if dense < end {
            dense
        } else {
            end
        };
        let b = if a < stored + MAX_WRITE_SPAN {
            a
        } else {
            stored + MAX_WRITE_SPAN
        };
        if start > b {
            start
        } else {
            b
        }
    } else {
        end
    }
}

/// What `fill` does.
pub open spec fn fill_result(h: HeapModel, this: JsValue, args: Seq<JsValue>) -> (
    HeapModel,
    Result<JsValue, Fault>,
) {
    match receiver(h, this, "Array.prototype.fill"@, None) {
        Err(t) => (h, Err(Fault::Text(t))),
        Ok(o) => {
            let len = short_length(h, o);
            let a = relative(arg_of(args, 1), len, 0);
            let b = fill_end(h, o, a, relative(arg_of(args, 2), len, len));
            (
                with_elements(
                    h,
                    o,
                    filled_from(h.objects[o as int].elements, a, b, arg_of(args, 0)),
                ),
                Ok(this),
            )
        },
    }
}

/// `Array.prototype.fill(value, start, end)`.
pub fn array_fill(ctx: &mut Ctx, this: JsValue, args: &[JsValue]) -> (r: Result<JsValue, Throw>)
    requires
        old(ctx).wf(),
        old(ctx).heap@.valid(this),
        valid_args(old(ctx).heap@, args@),
        countable_elements(old(ctx).heap@, this),
    ensures
        ends_in(*old(ctx), *final(ctx), r, fill_result(old(ctx).heap@, this, args@)),
{
    let obj: usize = match ctx.this_object(this, "Array.prototype.fill", None) {
        Ok(o) => o,
        Err(t) => {
            return Err(t);
        },
    };
    let len32: u32 = array_len(&ctx.heap, obj);
    let len: i64 = len32 as i64;
    let start: i64 = relative_index(arg(args, 1), len, 0);
    let end: i64 = relative_index(arg(args, 2), len, len);
    let value: JsValue = arg(args, 0);
    let count: usize = ctx.heap.object(obj).elements.len();
    let stored: i64 = count as i64;
    let far: bool = stored < end && end - stored > MAX_WRITE_SPAN;
    let hi: i64 = if end - start > MAX_WRITE_SPAN || far {
        let dense: i64 = dense_bound(&ctx.heap, obj, len32) as i64;
        let a: i64 = if dense < end {
            dense
        } else {
            end
        };
        let b: i64 = if a <= stored || a - stored < MAX_WRITE_SPAN {
            a
        } else {
            stored + MAX_WRITE_SPAN
        };
        if start > b {
            start
        } else {
            b
        }
    } else {
        end
    };
    let ghost h = ctx.heap@;
    let ghost s = h.objects[obj as int].elements;
    proof {
        assert(hi as int == fill_end(h, obj, start as int, end as int));
        assert(with_elements(h, obj, s) =~= h);
    }
    let mut i: i64 = start;
    while i < hi
        invariant
            ctx.wf(),
            ctx.global == old(ctx).global,
            ctx.pending == old(ctx).pending,
            0 <= start <= i,
            i <= hi || hi < start,
            hi < start ==> i == start,
            hi <= 0x1_0000_0000,
            obj < h.objects.len(),
            s == h.objects[obj as int].elements,
            h.valid(value),
            ctx.heap@ == with_elements(h, obj, filled_from(s, start as int, i as int, value)),
        decreases hi - i,
    {
        write_index(&mut ctx.heap, obj, i as usize, value);
        proof {
            assert(ctx.heap@ =~= with_elements(
                h,
                obj,
                filled_from(s, start as int, i + 1, value),
            ));
        }
        i = i + 1;
    }
    proof {
        if hi < start {
            assert(filled_from(s, start as int, hi as int, value) == s);
        }
    }
    Ok(this)
}

/// Elements with the first `k` of a run copied to another place; what lies far past
/// the stored elements, and holes past them, are left out.
pub open spec fn copied_within(
    from: Seq<JsValue>,
    target: int,
    start: int,
    k: int,
) -> Seq<JsValue>
    decreases k,
{
    if k <= 0 {
        from
    } else {
        let s = copied_within(from, target, start, k - 1);
        let d = target + k - 1;
        let v = if start + k - 1 < from.len() {
            from[start + k - 1]
        } else {
            JsValue::Hole
        };
        if d >= from.len() && (v == JsValue::Hole || d > from.len() + MAX_WRITE_SPAN) {
            s
        } else {
            with_element(s, d, v)
        }
    }
}

/// How many elements `copyWithin` copies.
pub open spec fn copy_count(h: HeapModel, o: usize, target: int, start: int, end: int) -> int {
    let len = short_length(h, o);
    let stored = h.objects[o as int].elements.len();
    let dense = dense_of(h, o, len);
    let count = if end - start < len - target {
        end - start
    } else {
        len - target
    };
    let near = (if dense < end {
        dense
    } else {
        end
    }) - start;
    let behind = if stored - target > 0 {
        stored - target
    } else {
        0
    };
    let live = if near > behind {
        near
    } else {
        behind
    };
    if count < live {
        count
    } else {
        live
    }
}

/// What `copyWithin` does.
pub open spec fn copy_within_result(h: HeapModel, this: JsValue, args: Seq<JsValue>) -> (
    HeapModel,
    Result<JsValue, Fault>,
) {
    match receiver(h, this, "Array.prototype.copyWithin"@, None) {
        Err(t) => (h, Err(Fault::Text(t))),
        Ok(o) => {
            let len = short_length(h, o);
            let target = relative(arg_of(args, 0), len, 0);
            let start = relative(arg_of(args, 1), len, 0);
            let end = relative(arg_of(args, 2), len, len);
            if target >= len || start >= end {
                (h, Ok(this))
            } else {
                (
                    with_elements(
                        h,
                        o,
                        copied_within(
                            h.objects[o as int].elements,
                            target,
                            start,
                            copy_count(h, o, target, start, end),
                        ),
                    ),
                    Ok(this),
                )
            }
        },
    }
}

/// `Array.prototype.copyWithin(target, start, end)`.
pub fn array_copy_within(ctx: &mut Ctx, this: JsValue, args: &[JsValue]) -> (r: Result<
    JsValue,
    Throw,
>)
    requires
        old(ctx).wf(),
        old(ctx).heap@.valid(this),
        valid_args(old(ctx).heap@, args@),
        this matches JsValue::Object(o) ==> old(ctx).heap@.objects[o as int].elements.len()
            < 0x4000_0000_0000_0000,
    ensures
        ends_in(*old(ctx), *final(ctx), r, copy_within_result(old(ctx).heap@, this, args@)),
{
    let obj: usize = match ctx.this_object(this, "Array.prototype.copyWithin", None) {
        Ok(o) => o,
        Err(t) => {
            return Err(t);
        },
    };
    let len32: u32 = array_len(&ctx.heap, obj);
    let len: i64 = len32 as i64;
    let target: i64 = relative_index(arg(args, 0), len, 0);
    let start: i64 = relative_index(arg(args, 1), len, 0);
    let end: i64 = relative_index(arg(args, 2), len, len);
    if target >= len || start >= end {
        return Ok(this);
    }
    let wanted: i64 = if end - start < len - target {
        end - start
    } else {
        len - target
    };
    let dense: i64 = dense_bound(&ctx.heap, obj, len32) as i64;
    let from: Vec<JsValue> = snapshot_elements(&ctx.heap, obj);
    let stored: i64 = from.len() as i64;
    let near: i64 = (if dense < end {
        dense
    } else {
        end
    }) - start;
    let behind: i64 = if stored - target > 0 {
        stored - target
    } else {
        0
    };
    let live: i64 = if near > behind {
        near
    } else {
        behind
    };
    let count: i64 = if wanted < live {
        wanted
    } else {
        live
    };
    let ghost h = ctx.heap@;
    proof {
        assert(count as int == copy_count(h, obj, target as int, start as int, end as int));
        assert(with_elements(h, obj, from@) =~= h);
    }
    let mut k: i64 = 0;
    while k < count
        invariant
            ctx.wf(),
            ctx.global == old(ctx).global,
            ctx.pending == old(ctx).pending,
            0 <= k <= count,
            target + count <= 0xffff_ffff,
            0 <= target <= 0xffff_ffff,
            0 <= start <= 0xffff_ffff,
            obj < h.objects.len(),
            stored == from@.len(),
            stored < 0x4000_0000_0000_0000,
            valid_args(h, from@),
            from@ == h.objects[obj as int].elements,
            ctx.heap@ == with_elements(
                h,
                obj,
                copied_within(from@, target as int, start as int, k as int),
            ),
        decreases count - k,
    {
        let d: i64 = target + k;
        let v: JsValue = if start + k < stored {
            proof {
                assert(h.valid(from@[start + k]));
            }
            from[(start + k) as usize]
        } else {
            JsValue::Hole
        };
        if !(d >= stored && (v == JsValue::Hole || d > stored + MAX_WRITE_SPAN)) {
            write_index(&mut ctx.heap, obj, d as usize, v);
            proof {
                assert(ctx.heap@ =~= with_elements(
                    h,
                    obj,
                    copied_within(from@, target as int, start as int, k + 1),
                ));
            }
        }
        k = k + 1;
    }
    Ok(this)
}

// ---------------------------------------------------------------------------
// Texts, construction and conversion
// ---------------------------------------------------------------------------

/// Text of an element in a joined text: nothing of `undefined`, `null` and holes.
pub open spec fn joined_text(h: HeapModel, v: JsValue) -> Seq<u16> {
    if v == JsValue::Undefined || v == JsValue::Null || v == JsValue::Hole {
        seq![]
    } else {
        text_of(h, v)
    }
}

/// Texts of the first `k` elements with a separator between them.
pub open spec fn joined_with(h: HeapModel, s: Seq<JsValue>, k: int, sep: Seq<u16>) -> Seq<u16>
    decreases k,
{
    if k <= 0 {
        seq![]
    } else if k == 1 {
        joined_text(h, s[0])
    } else {
        joined_with(h, s, k - 1, sep) + sep + joined_text(h, s[k - 1])
    }
}

/// What `join` does.
pub open spec fn join_result(h: HeapModel, this: JsValue, args: Seq<JsValue>) -> (
    HeapModel,
    Result<JsValue, Fault>,
) {
    match this {
        JsValue::Object(o) => {
            let s = h.objects[o as int].elements;
            let sep = if arg_of(args, 0) == JsValue::Undefined {
                seq![0x2cu16]
            } else {
                text_of(h, arg_of(args, 0))
            };
            let t = joined_with(h, s, s.len() as int, sep);
            (h.interned(t), Ok(JsValue::Text(h.text_id(t))))
        },
        _ => (h, Err(Fault::Text("TypeError: Array.prototype.join requires an array"@))),
    }
}

/// `Array.prototype.join(separator)`.
pub fn array_join(ctx: &mut Ctx, this: JsValue, args: &[JsValue]) -> (r: Result<JsValue, Throw>)
    requires
        old(ctx).wf(),
        old(ctx).heap@.valid(this),
        valid_args(old(ctx).heap@, args@),
    ensures
        ends_in(*old(ctx), *final(ctx), r, join_result(old(ctx).heap@, this, args@)),
{
    let obj: usize = match this {
        JsValue::Object(o) => o,
        _ => {
            return Err(error("TypeError: Array.prototype.join requires an array"));
        },
    };
    let first: JsValue = arg(args, 0);
    let sep: Vec<u16> = if first == JsValue::Undefined {
        let mut c: Vec<u16> = Vec::new();
        c.push(0x2c);
        proof {
            assert(c@ =~= seq![0x2cu16]);
        }
        c
    } else {
        ctx.to_string(first)
    };
    let s: Vec<JsValue> = snapshot_elements(&ctx.heap, obj);
    let mut out: Vec<u16> = Vec::new();
    let mut i: usize = 0;
    while i < s.len()
        invariant
            ctx.wf(),
            *ctx == *old(ctx),
            valid_args(ctx.heap@, s@),
            i <= s@.len(),
            out@ == joined_with(ctx.heap@, s@, i as int, sep@),
        decreases s@.len() - i,
    {
        let ghost before = out@;
        let v: JsValue = s[i];
        proof {
            assert(ctx.heap@.valid(s@[i as int]));
        }
        if i > 0 {
            push_all(&mut out, sep.as_slice());
        }
        if v != JsValue::Undefined && v != JsValue::Null && v != JsValue::Hole {
            let t: Vec<u16> = ctx.to_string(v);
            push_all(&mut out, t.as_slice());
        }
        proof {
            assert(out@ =~= joined_with(ctx.heap@, s@, i + 1, sep@));
        }
        i = i + 1;
    }
    ctx.text_value(out.as_slice())
}

/// What `toString` of an array does.
pub open spec fn to_string_result(h: HeapModel, this: JsValue) -> (HeapModel, Result<JsValue, Fault>) {
    join_result(h, this, seq![])
}

/// `Array.prototype.toString()`: the elements joined by commas.
pub fn array_to_string(ctx: &mut Ctx, this: JsValue, _args: &[JsValue]) -> (r: Result<
    JsValue,
    Throw,
>)
    requires
        old(ctx).wf(),
        old(ctx).heap@.valid(this),
    ensures
        ends_in(*old(ctx), *final(ctx), r, to_string_result(old(ctx).heap@, this)),
{
    let none: Vec<JsValue> = Vec::new();
    proof {
        assert(none@ =~= Seq::<JsValue>::empty());
    }
    array_join(ctx, this, none.as_slice())
}

/// A number of units that the character at `i` takes.
pub open spec fn char_len(t: Seq<u16>, i: int) -> int {
    if i + 1 < t.len() && is_high(t[i]) && is_low(t[i + 1]) {
        2
    } else {
        1
    }
}

/// The characters of a text from `i` on as texts, behind others; and the heap that holds
/// them.
pub open spec fn char_texts(h: HeapModel, t: Seq<u16>, i: int, ids: Seq<JsValue>) -> (
    HeapModel,
    Seq<JsValue>,
)
    decreases t.len() - i,
{
    if i < 0 || i >= t.len() {
        (h, ids)
    } else {
        let c = t.subrange(i, i + char_len(t, i));
        char_texts(h.interned(c), t, i + char_len(t, i), ids.push(JsValue::Text(h.text_id(c))))
    }
}

/// The characters of a text as texts.
pub fn split_chars(heap: &mut Heap, t: &[u16]) -> (r: Vec<JsValue>)
    requires
        old(heap).wf(),
    ensures
        final(heap).wf(),
        (final(heap)@, r@) == char_texts(old(heap)@, t@, 0, seq![]),
        old(heap)@.grows_to(final(heap)@),
        valid_args(final(heap)@, r@),
{
    let ghost h = heap@;
    let n: usize = t.len();
    let mut out: Vec<JsValue> = Vec::new();
    let mut i: usize = 0;
    proof {
        assert(h.texts.is_prefix_of(h.texts));
        assert(out@ =~= Seq::<JsValue>::empty());
    }
    while i < n
        invariant
            heap.wf(),
            n == t@.len(),
            i <= n,
            h.grows_to(heap@),
            valid_args(heap@, out@),
            char_texts(h, t@, 0, seq![]) == char_texts(heap@, t@, i as int, out@),
        decreases n - i,
    {
        let ghost before = heap@;
        let pair: bool = n - i > 1 && 0xd800 <= t[i] && t[i] <= 0xdbff && 0xdc00 <= t[i + 1]
            && t[i + 1] <= 0xdfff;
        let step: usize = if pair {
            2
        } else {
            1
        };
        let c: Vec<u16> = copy_range(t, i, i + step);
        let id: usize = heap.intern(c.as_slice());
        out.push(JsValue::Text(id));
        proof {
            assert(before.texts.is_prefix_of(heap@.texts));
            assert(h.texts.is_prefix_of(heap@.texts));
            assert forall|k: int| 0 <= k < out@.len() implies heap@.valid(#[trigger] out@[k]) by {
                if k < out@.len() - 1 {
                    assert(before.valid(out@[k]));
                }
            }
        }
        i = i + step;
    }
    out
}

/// What an array-like object holds up to a length, nothing being `undefined`.
pub open spec fn read_run(h: HeapModel, o: usize, n: int) -> Seq<JsValue> {
    Seq::new(
        n as nat,
        |i: int|
            match read_at(h, o, i) {
                Some(v) => v,
                None => JsValue::Undefined,
            },
    )
}

/// What `Array.from` does: the characters of a text, or the elements of an object up to
/// its length.
pub open spec fn from_result(h: HeapModel, v: JsValue) -> (HeapModel, Result<JsValue, Fault>) {
    match v {
        JsValue::Text(n) => {
            let (h1, items) = char_texts(h, well_formed(h.texts[n as int]), 0, seq![]);
            new_array_result(h1, items)
        },
        JsValue::Object(o) => {
            let len = short_length(h, o);
            let h1 = h.with_new(bare_array(read_run(h, o, dense_of(h, o, len))));
            let a = h.objects.len() as usize;
            (with_new_length(h1, a, len), Ok(JsValue::Object(a)))
        },
        _ => new_array_result(h, seq![]),
    }
}

/// `Array.from(source)`.
pub fn array_from(ctx: &mut Ctx, _this: JsValue, args: &[JsValue]) -> (r: Result<JsValue, Throw>)
    requires
        old(ctx).wf(),
        valid_args(old(ctx).heap@, args@),
    ensures
        ends_in(*old(ctx), *final(ctx), r, from_result(old(ctx).heap@, arg_of(args@, 0))),
{
    let ghost h = ctx.heap@;
    match arg(args, 0) {
        JsValue::Text(n) => {
            let t: Vec<u16> = to_well_formed(ctx.heap.text(n).as_slice());
            let items: Vec<JsValue> = split_chars(&mut ctx.heap, t.as_slice());
            Ok(new_array(ctx, items))
        },
        JsValue::Object(o) => {
            let len: u32 = array_len(&ctx.heap, o);
            let dense: u32 = dense_bound(&ctx.heap, o, len);
            let mut items: Vec<JsValue> = Vec::new();
            let mut i: u64 = 0;
            while i < dense as u64
                invariant
                    ctx.wf(),
                    *ctx == *old(ctx),
                    h == ctx.heap@,
                    o < h.objects.len(),
                    i <= dense,
                    items@ == read_run(h, o, i as int),
                    valid_args(h, items@),
                decreases dense - i,
            {
                let v: JsValue = match read_index(&ctx.heap, o, i) {
                    Some(v) => v,
                    None => JsValue::Undefined,
                };
                items.push(v);
                proof {
                    assert(items@ =~= read_run(h, o, i + 1));
                }
                i = i + 1;
            }
            let a: JsValue = new_array(ctx, items);
            match a {
                JsValue::Object(k) => {
                    set_array_len(&mut ctx.heap, k, len);
                },
                _ => {},
            }
            Ok(a)
        },
        _ => {
            let none: Vec<JsValue> = Vec::new();
            proof {
                assert(none@ =~= Seq::<JsValue>::empty());
            }
            Ok(new_array(ctx, none))
        },
    }
}

/// The length that a single argument of the constructor asks for.
pub open spec fn asked_length(args: Seq<JsValue>) -> Option<int> {
    if args.len() != 1 {
        None
    } else {
        match as_number(args[0]) {
            Some(b) => if is_integral(b) && 0 <= saturated(b) <= u32::MAX {
                Some(saturated(b))
            } else {
                None
            },
            None => None,
        }
    }
}

/// What the constructor does: a single whole number is a length, anything else the
/// elements.
pub open spec fn construct_result(h: HeapModel, args: Seq<JsValue>) -> (
    HeapModel,
    Result<JsValue, Fault>,
) {
    match asked_length(args) {
        None => new_array_result(h, args),
        Some(n) => {
            let name = utf16_of("length"@);
            let p = Prop {
                key: PropKey::Text(h.text_id(name)),
                attrs: all_attrs(),
                body: PropBody::Data(int_value(n)),
            };
            (
                h.interned(name).with_new(
                    ObjModel {
                        named: Named { list: seq![p], base: 1, spilled: false },
                        ..plain_object(Kind::Array)
                    },
                ),
                Ok(JsValue::Object(h.objects.len() as usize)),
            )
        },
    }
}

/// `Array(...)`.
pub fn array_construct(ctx: &mut Ctx, _this: JsValue, args: &[JsValue]) -> (r: Result<
    JsValue,
    Throw,
>)
    requires
        old(ctx).wf(),
        valid_args(old(ctx).heap@, args@),
    ensures
        ends_in(*old(ctx), *final(ctx), r, construct_result(old(ctx).heap@, args@)),
{
    if args.len() == 1 {
        match value_number(args[0]) {
            Some(b) => {
                let n: i64 = to_i64(b);
                if integral(b) && 0 <= n && n <= 0xffff_ffff {
                    let id: usize = ctx.heap.intern_text("length");
                    let mut o: JsObject = JsObject::plain(Kind::Array);
                    let p: Prop = Prop {
                        key: PropKey::Text(id),
                        attrs: Attrs::all(),
                        body: PropBody::Data(smi_or_f64(n)),
                    };
                    o.named.install(p);
                    proof {
                        assert(o.named@.list =~= seq![p]);
                        assert(o@ == ObjModel {
                            named: Named { list: seq![p], base: 1, spilled: false },
                            ..plain_object(Kind::Array)
                        });
                        assert(ctx.heap@.valid_refs(o@));
                    }
                    return Ok(JsValue::Object(ctx.alloc_obj(o)));
                }
            },
            None => {},
        }
    }
    let mut items: Vec<JsValue> = Vec::new();
    push_args(&mut items, args, 0);
    proof {
        assert(items@ =~= args@);
    }
    Ok(new_array(ctx, items))
}

// ---------------------------------------------------------------------------
// Laws
// ---------------------------------------------------------------------------

/// Reversing twice gives the elements back.
pub proof fn law_reverse_twice(h: HeapModel, o: usize)
    requires
        o < h.objects.len(),
    ensures
        ({
            let h1 = reverse_result(h, JsValue::Object(o)).0;
            reverse_result(h1, JsValue::Object(o)).0 == h
        }),
{
    let s = h.objects[o as int].elements;
    assert(s.reverse().reverse() =~= s);
    let h1 = reverse_result(h, JsValue::Object(o)).0;
    assert(reverse_result(h1, JsValue::Object(o)).0 =~= h);
}

/// An array without an own `length` gives back by `pop` what `push` put there, and is as
/// it was before.
pub proof fn law_push_pop(h: HeapModel, o: usize, v: JsValue)
    requires
        o < h.objects.len(),
        h.objects[o as int].kind == Kind::Array,
        crate::array_like::length_data(h, o) is None,
        h.objects[o as int].elements.len() < u32::MAX,
        v != JsValue::Hole,
    ensures
        ({
            let h1 = push_result(h, JsValue::Object(o), seq![v]).0;
            pop_result(h1, JsValue::Object(o)) == (h, Ok::<JsValue, Fault>(v))
        }),
{
    let s = h.objects[o as int].elements;
    let args = seq![v];
    reveal_with_fuel(written_from, 2);
    let w = written_from(s, s.len() as int, args, 1);
    assert(w =~= s.push(v));
    let h1 = push_result(h, JsValue::Object(o), args).0;
    assert(h1 == with_elements(h, o, w));
    assert(crate::array_like::length_data(h1, o) is None);
    assert(full_length(h1, o) == s.len() + 1);
    assert(w.take(s.len() as int) =~= s);
    assert(without_last(h1, o, s.len() as int) =~= h);
}

} // verus!
