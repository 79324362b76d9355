//! `Map` and `Set`: entries in the order of their insertion.
use vstd::prelude::*;

use crate::array_like::{replace_elements, with_elements};
use crate::convert::{int_value, smi_or_f64};
use crate::ctx::{Ctx, arg, arg_of, receiver, valid_args};
use crate::descriptor::Fault;
use crate::double::magnitude;
use crate::heap::{HeapModel, JsObject, plain_object};
use crate::iterator::{
    ITER_KIND_MAP_ENTRIES, ITER_KIND_MAP_KEYS, ITER_KIND_MAP_VALUES, ITER_KIND_SET_VALUES,
    iterator_for, iterator_over,
};
use crate::object::snapshot_elements;
use crate::object_define::ends_in;
use crate::value::{JsValue, Kind, Throw};

verus! {

/// How many slots an entry takes: a key and a value in a map, a value in a set.
pub open spec fn entry_size(kind: Kind) -> int {
    if kind == Kind::MapObject {
        2
    } else {
        1
    }
}

/// Whether a value is a zero.
pub open spec fn is_zero_value(v: JsValue) -> bool {
    match v {
        JsValue::Smi(n) => n == 0,
        JsValue::Double(b) => magnitude(b) == 0,
        _ => false,
    }
}

/// Whether two values are one key: identical, or both a zero.
pub open spec fn same_key(a: JsValue, b: JsValue) -> bool {
    a == b || (is_zero_value(a) && is_zero_value(b))
}

/// Whether a value is a zero.
fn zero_value(v: JsValue) -> (r: bool)
    ensures
        r == is_zero_value(v),
{
    match v {
        JsValue::Smi(n) => n == 0,
        JsValue::Double(b) => crate::double::zero(b),
        _ => false,
    }
}

/// Whether two values are one key.
fn is_same_key(a: JsValue, b: JsValue) -> (r: bool)
    ensures
        r == same_key(a, b),
{
    a == b || (zero_value(a) && zero_value(b))
}

/// The slot of the first entry from the slot `i` on that has a key, `-1` without one.
pub open spec fn entry_slot(s: Seq<JsValue>, key: JsValue, size: int, i: int) -> int
    decreases s.len() - i,
{
    if i < 0 || size <= 0 || i + size > s.len() {
        -1
    } else if same_key(s[i], key) {
        i
    } else {
        entry_slot(s, key, size, i + size)
    }
}

/// The slot of the first entry that has a key.
fn find_entry(s: &Vec<JsValue>, key: JsValue, size: usize) -> (r: Option<usize>)
    requires
        1 <= size <= 2,
    ensures
        match r {
            Some(i) => i == entry_slot(s@, key, size as int, 0) && i + size <= s@.len(),
            None => entry_slot(s@, key, size as int, 0) == -1,
        },
        s@.len() <= usize::MAX,
{
    let n: usize = s.len();
    let mut i: usize = 0;
    while n - i >= size
        invariant
            n == s@.len(),
            i <= n,
            1 <= size <= 2,
            entry_slot(s@, key, size as int, 0) == entry_slot(s@, key, size as int, i as int),
        decreases n - i,
    {
        if is_same_key(s[i], key) {
            return Some(i);
        }
        i = i + size;
    }
    None
}

/// A new collection.
fn construct(ctx: &mut Ctx, kind: Kind) -> (r: Result<JsValue, Throw>)
    requires
        old(ctx).wf(),
        kind == Kind::MapObject || kind == Kind::SetObject,
    ensures
        ends_in(
            *old(ctx),
            *final(ctx),
            r,
            (
                old(ctx).heap@.with_new(plain_object(kind)),
                Ok(JsValue::Object(old(ctx).heap@.objects.len() as usize)),
            ),
        ),
{
    Ok(JsValue::Object(ctx.alloc_obj(JsObject::plain(kind))))
}

/// `Map()`.
pub fn map_construct(ctx: &mut Ctx, _this: JsValue, _args: &[JsValue]) -> (r: Result<JsValue, Throw>)
    requires
        old(ctx).wf(),
    ensures
        ends_in(
            *old(ctx),
            *final(ctx),
            r,
            (
                old(ctx).heap@.with_new(plain_object(Kind::MapObject)),
                Ok(JsValue::Object(old(ctx).heap@.objects.len() as usize)),
            ),
        ),
{
    construct(ctx, Kind::MapObject)
}

/// `Set()`.
pub fn set_construct(ctx: &mut Ctx, _this: JsValue, _args: &[JsValue]) -> (r: Result<JsValue, Throw>)
    requires
        old(ctx).wf(),
    ensures
        ends_in(
            *old(ctx),
            *final(ctx),
            r,
            (
                old(ctx).heap@.with_new(plain_object(Kind::SetObject)),
                Ok(JsValue::Object(old(ctx).heap@.objects.len() as usize)),
            ),
        ),
{
    construct(ctx, Kind::SetObject)
}

/// What a test for a key does.
pub open spec fn has_result(h: HeapModel, this: JsValue, method: Seq<char>, kind: Kind, key: JsValue) -> (
    HeapModel,
    Result<JsValue, Fault>,
) {
    match receiver(h, this, method, Some(kind)) {
        Err(t) => (h, Err(Fault::Text(t))),
        Ok(o) => (
            h,
            Ok(
                JsValue::Bool(
                    entry_slot(h.objects[o as int].elements, key, entry_size(kind), 0) >= 0,
                ),
            ),
        ),
    }
}

/// Tests for a key.
fn has(ctx: &Ctx, this: JsValue, method: &str, kind: Kind, key: JsValue) -> (r: Result<
    JsValue,
    Throw,
>)
    requires
        ctx.wf(),
        ctx.heap@.valid(this),
        kind == Kind::MapObject || kind == Kind::SetObject,
    ensures
        ends_in(*ctx, *ctx, r, has_result(ctx.heap@, this, method@, kind, key)),
{
    let obj: usize = match ctx.this_object(this, method, Some(kind)) {
        Ok(o) => o,
        Err(t) => {
            return Err(t);
        },
    };
    let size: usize = if kind == Kind::MapObject {
        2
    } else {
        1
    };
    Ok(JsValue::Bool(find_entry(&ctx.heap.object(obj).elements, key, size).is_some()))
}

/// What removing a key does: the first entry that has it goes.
pub open spec fn delete_result(
    h: HeapModel,
    this: JsValue,
    method: Seq<char>,
    kind: Kind,
    key: JsValue,
) -> (HeapModel, Result<JsValue, Fault>) {
    match receiver(h, this, method, Some(kind)) {
        Err(t) => (h, Err(Fault::Text(t))),
        Ok(o) => {
            let s = h.objects[o as int].elements;
            let n = entry_size(kind);
            let i = entry_slot(s, key, n, 0);
            if i >= 0 {
                (with_elements(h, o, s.take(i) + s.skip(i + n)), Ok(JsValue::Bool(true)))
            } else {
                (h, Ok(JsValue::Bool(false)))
            }
        },
    }
}

/// Removes a key.
fn delete(ctx: &mut Ctx, this: JsValue, method: &str, kind: Kind, key: JsValue) -> (r: Result<
    JsValue,
    Throw,
>)
    requires
        old(ctx).wf(),
        old(ctx).heap@.valid(this),
        kind == Kind::MapObject || kind == Kind::SetObject,
    ensures
        ends_in(
            *old(ctx),
            *final(ctx),
            r,
            delete_result(old(ctx).heap@, this, method@, kind, key),
        ),
{
    let obj: usize = match ctx.this_object(this, method, Some(kind)) {
        Ok(o) => o,
        Err(t) => {
            return Err(t);
        },
    };
    let size: usize = if kind == Kind::MapObject {
        2
    } else {
        1
    };
    let ghost h = ctx.heap@;
    let mut s: Vec<JsValue> = snapshot_elements(&ctx.heap, obj);
    let ghost before = s@;
    match find_entry(&s, key, size) {
        Some(i) => {
            let _ = s.remove(i);
            if size == 2 {
                let _ = s.remove(i);
            }
            proof {
                assert(s@ =~= before.take(i as int) + before.skip(i + size));
                assert forall|k: int| 0 <= k < s@.len() implies h.valid(#[trigger] s@[k]) by {
                    if k < i {
                        assert(h.valid(before[k]));
                    } else {
                        assert(h.valid(before[k + size]));
                    }
                }
            }
            replace_elements(&mut ctx.heap, obj, s);
            Ok(JsValue::Bool(true))
        },
        None => Ok(JsValue::Bool(false)),
    }
}

/// What `Map.prototype.get` does.
pub open spec fn get_result(h: HeapModel, this: JsValue, key: JsValue) -> (
    HeapModel,
    Result<JsValue, Fault>,
) {
    match receiver(h, this, "Map.prototype.get"@, Some(Kind::MapObject)) {
        Err(t) => (h, Err(Fault::Text(t))),
        Ok(o) => {
            let s = h.objects[o as int].elements;
            let i = entry_slot(s, key, 2, 0);
            (
                h,
                Ok(
                    if i >= 0 {
                        s[i + 1]
                    } else {
                        JsValue::Undefined
                    },
                ),
            )
        },
    }
}

/// `Map.prototype.get(key)`.
pub fn map_get(ctx: &mut Ctx, this: JsValue, args: &[JsValue]) -> (r: Result<JsValue, Throw>)
    requires
        old(ctx).wf(),
        old(ctx).heap@.valid(this),
        valid_args(old(ctx).heap@, args@),
    ensures
        ends_in(*old(ctx), *final(ctx), r, get_result(old(ctx).heap@, this, arg_of(args@, 0))),
{
    let obj: usize = match ctx.this_object(this, "Map.prototype.get", Some(Kind::MapObject)) {
        Ok(o) => o,
        Err(t) => {
            return Err(t);
        },
    };
    let s: &Vec<JsValue> = &ctx.heap.object(obj).elements;
    match find_entry(s, arg(args, 0), 2) {
        Some(i) => Ok(s[i + 1]),
        None => Ok(JsValue::Undefined),
    }
}

/// What `Map.prototype.set` does: a key that is there gets the value, another is added
/// behind the others.
pub open spec fn set_result(h: HeapModel, this: JsValue, key: JsValue, v: JsValue) -> (
    HeapModel,
    Result<JsValue, Fault>,
) {
    match receiver(h, this, "Map.prototype.set"@, Some(Kind::MapObject)) {
        Err(t) => (h, Err(Fault::Text(t))),
        Ok(o) => {
            let s = h.objects[o as int].elements;
            let i = entry_slot(s, key, 2, 0);
            (
                with_elements(
                    h,
                    o,
                    if i >= 0 {
                        s.update(i + 1, v)
                    } else {
                        s.push(key).push(v)
                    },
                ),
                Ok(this),
            )
        },
    }
}

/// `Map.prototype.set(key, value)`.
pub fn map_set(ctx: &mut Ctx, this: JsValue, args: &[JsValue]) -> (r: Result<JsValue, Throw>)
    requires
        old(ctx).wf(),
        old(ctx).heap@.valid(this),
        valid_args(old(ctx).heap@, args@),
    ensures
        ends_in(
            *old(ctx),
            *final(ctx),
            r,
            set_result(old(ctx).heap@, this, arg_of(args@, 0), arg_of(args@, 1)),
        ),
{
    let obj: usize = match ctx.this_object(this, "Map.prototype.set", Some(Kind::MapObject)) {
        Ok(o) => o,
        Err(t) => {
            return Err(t);
        },
    };
    let key: JsValue = arg(args, 0);
    let v: JsValue = arg(args, 1);
    let ghost h = ctx.heap@;
    let mut s: Vec<JsValue> = snapshot_elements(&ctx.heap, obj);
    let ghost before = s@;
    match find_entry(&s, key, 2) {
        Some(i) => {
            s.set(i + 1, v);
        },
        None => {
            s.push(key);
            s.push(v);
        },
    }
    proof {
        assert forall|k: int| 0 <= k < s@.len() implies h.valid(#[trigger] s@[k]) by {
            if k < before.len() {
                assert(h.valid(before[k]));
            }
        }
    }
    replace_elements(&mut ctx.heap, obj, s);
    Ok(this)
}

/// `Map.prototype.has(key)`.
pub fn map_has(ctx: &mut Ctx, this: JsValue, args: &[JsValue]) -> (r: Result<JsValue, Throw>)
    requires
        old(ctx).wf(),
        old(ctx).heap@.valid(this),
        valid_args(old(ctx).heap@, args@),
    ensures
        ends_in(
            *old(ctx),
            *final(ctx),
            r,
            has_result(
                old(ctx).heap@,
                this,
                "Map.prototype.has"@,
                Kind::MapObject,
                arg_of(args@, 0),
            ),
        ),
{
    has(ctx, this, "Map.prototype.has", Kind::MapObject, arg(args, 0))
}

/// `Map.prototype.delete(key)`.
pub fn map_delete(ctx: &mut Ctx, this: JsValue, args: &[JsValue]) -> (r: Result<JsValue, Throw>)
    requires
        old(ctx).wf(),
        old(ctx).heap@.valid(this),
        valid_args(old(ctx).heap@, args@),
    ensures
        ends_in(
            *old(ctx),
            *final(ctx),
            r,
            delete_result(
                old(ctx).heap@,
                this,
                "Map.prototype.delete"@,
                Kind::MapObject,
                arg_of(args@, 0),
            ),
        ),
{
    delete(ctx, this, "Map.prototype.delete", Kind::MapObject, arg(args, 0))
}

/// What the number of entries is.
pub open spec fn size_result(h: HeapModel, this: JsValue, method: Seq<char>, kind: Kind) -> (
    HeapModel,
    Result<JsValue, Fault>,
) {
    match receiver(h, this, method, Some(kind)) {
        Err(t) => (h, Err(Fault::Text(t))),
        Ok(o) => (
            h,
            Ok(int_value(h.objects[o as int].elements.len() as int / entry_size(kind))),
        ),
    }
}

/// `Map.prototype.size`.
pub fn map_size(ctx: &mut Ctx, this: JsValue, _args: &[JsValue]) -> (r: Result<JsValue, Throw>)
    requires
        old(ctx).wf(),
        old(ctx).heap@.valid(this),
        crate::array::countable_elements(old(ctx).heap@, this),
    ensures
        ends_in(
            *old(ctx),
            *final(ctx),
            r,
            size_result(old(ctx).heap@, this, "Map.prototype.size"@, Kind::MapObject),
        ),
{
    match ctx.this_object(this, "Map.prototype.size", Some(Kind::MapObject)) {
        Ok(o) => {
            let n: usize = ctx.heap.object(o).elements.len();
            Ok(smi_or_f64((n / 2) as i64))
        },
        Err(t) => Err(t),
    }
}

/// What `Set.prototype.add` does: a value that is not there yet is added behind the
/// others.
pub open spec fn add_result(h: HeapModel, this: JsValue, v: JsValue) -> (
    HeapModel,
    Result<JsValue, Fault>,
) {
    match receiver(h, this, "Set.prototype.add"@, Some(Kind::SetObject)) {
        Err(t) => (h, Err(Fault::Text(t))),
        Ok(o) => {
            let s = h.objects[o as int].elements;
            (
                if entry_slot(s, v, 1, 0) >= 0 {
                    h
                } else {
                    with_elements(h, o, s.push(v))
                },
                Ok(this),
            )
        },
    }
}

/// `Set.prototype.add(value)`.
pub fn set_add(ctx: &mut Ctx, this: JsValue, args: &[JsValue]) -> (r: Result<JsValue, Throw>)
    requires
        old(ctx).wf(),
        old(ctx).heap@.valid(this),
        valid_args(old(ctx).heap@, args@),
    ensures
        ends_in(*old(ctx), *final(ctx), r, add_result(old(ctx).heap@, this, arg_of(args@, 0))),
{
    let obj: usize = match ctx.this_object(this, "Set.prototype.add", Some(Kind::SetObject)) {
        Ok(o) => o,
        Err(t) => {
            return Err(t);
        },
    };
    let v: JsValue = arg(args, 0);
    let mut s: Vec<JsValue> = snapshot_elements(&ctx.heap, obj);
    if find_entry(&s, v, 1).is_some() {
        return Ok(this);
    }
    s.push(v);
    replace_elements(&mut ctx.heap, obj, s);
    Ok(this)
}

/// `Set.prototype.has(value)`.
pub fn set_has(ctx: &mut Ctx, this: JsValue, args: &[JsValue]) -> (r: Result<JsValue, Throw>)
    requires
        old(ctx).wf(),
        old(ctx).heap@.valid(this),
        valid_args(old(ctx).heap@, args@),
    ensures
        ends_in(
            *old(ctx),
            *final(ctx),
            r,
            has_result(
                old(ctx).heap@,
                this,
                "Set.prototype.has"@,
                Kind::SetObject,
                arg_of(args@, 0),
            ),
        ),
{
    has(ctx, this, "Set.prototype.has", Kind::SetObject, arg(args, 0))
}

/// `Set.prototype.delete(value)`.
pub fn set_delete(ctx: &mut Ctx, this: JsValue, args: &[JsValue]) -> (r: Result<JsValue, Throw>)
    requires
        old(ctx).wf(),
        old(ctx).heap@.valid(this),
        valid_args(old(ctx).heap@, args@),
    ensures
        ends_in(
            *old(ctx),
            *final(ctx),
            r,
            delete_result(
                old(ctx).heap@,
                this,
                "Set.prototype.delete"@,
                Kind::SetObject,
                arg_of(args@, 0),
            ),
        ),
{
    delete(ctx, this, "Set.prototype.delete", Kind::SetObject, arg(args, 0))
}

/// `Set.prototype.size`.
pub fn set_size(ctx: &mut Ctx, this: JsValue, _args: &[JsValue]) -> (r: Result<JsValue, Throw>)
    requires
        old(ctx).wf(),
        old(ctx).heap@.valid(this),
        crate::array::countable_elements(old(ctx).heap@, this),
    ensures
        ends_in(
            *old(ctx),
            *final(ctx),
            r,
            size_result(old(ctx).heap@, this, "Set.prototype.size"@, Kind::SetObject),
        ),
{
    match ctx.this_object(this, "Set.prototype.size", Some(Kind::SetObject)) {
        Ok(o) => Ok(smi_or_f64(ctx.heap.object(o).elements.len() as i64)),
        Err(t) => Err(t),
    }
}

/// What removing all entries does.
pub open spec fn clear_result(h: HeapModel, this: JsValue, method: Seq<char>, kind: Kind) -> (
    HeapModel,
    Result<JsValue, Fault>,
) {
    match receiver(h, this, method, Some(kind)) {
        Err(t) => (h, Err(Fault::Text(t))),
        Ok(o) => (with_elements(h, o, seq![]), Ok(JsValue::Undefined)),
    }
}

/// Removes all entries.
fn clear(ctx: &mut Ctx, this: JsValue, method: &str, kind: Kind) -> (r: Result<JsValue, Throw>)
    requires
        old(ctx).wf(),
        old(ctx).heap@.valid(this),
    ensures
        ends_in(*old(ctx), *final(ctx), r, clear_result(old(ctx).heap@, this, method@, kind)),
{
    match ctx.this_object(this, method, Some(kind)) {
        Ok(o) => {
            let none: Vec<JsValue> = Vec::new();
            proof {
                assert(none@ =~= Seq::<JsValue>::empty());
            }
            replace_elements(&mut ctx.heap, o, none);
            Ok(JsValue::Undefined)
        },
        Err(t) => Err(t),
    }
}

/// `Map.prototype.clear()`.
pub fn map_clear(ctx: &mut Ctx, this: JsValue, _args: &[JsValue]) -> (r: Result<JsValue, Throw>)
    requires
        old(ctx).wf(),
        old(ctx).heap@.valid(this),
    ensures
        ends_in(
            *old(ctx),
            *final(ctx),
            r,
            clear_result(old(ctx).heap@, this, "Map.prototype.clear"@, Kind::MapObject),
        ),
{
    clear(ctx, this, "Map.prototype.clear", Kind::MapObject)
}

/// `Set.prototype.clear()`.
pub fn set_clear(ctx: &mut Ctx, this: JsValue, _args: &[JsValue]) -> (r: Result<JsValue, Throw>)
    requires
        old(ctx).wf(),
        old(ctx).heap@.valid(this),
    ensures
        ends_in(
            *old(ctx),
            *final(ctx),
            r,
            clear_result(old(ctx).heap@, this, "Set.prototype.clear"@, Kind::SetObject),
        ),
{
    clear(ctx, this, "Set.prototype.clear", Kind::SetObject)
}

// ---------------------------------------------------------------------------
// Laws
// ---------------------------------------------------------------------------

proof fn lemma_slot_updated(s: Seq<JsValue>, key: JsValue, v: JsValue, i: int, at: int)
    requires
        0 <= i <= at,
        i % 2 == 0,
        at == entry_slot(s, key, 2, i),
    ensures
        entry_slot(s.update(at + 1, v), key, 2, i) == at,
        at % 2 == 0,
        at + 1 < s.len(),
    decreases s.len() - i,
{
    if i + 2 <= s.len() && !same_key(s[i], key) {
        lemma_slot_bound(s, key, i + 2);
        lemma_slot_updated(s, key, v, i + 2, at);
    }
}

proof fn lemma_slot_bound(s: Seq<JsValue>, key: JsValue, i: int)
    requires
        0 <= i,
        entry_slot(s, key, 2, i) >= 0,
    ensures
        entry_slot(s, key, 2, i) >= i,
    decreases s.len() - i,
{
    if i + 2 <= s.len() && !same_key(s[i], key) {
        lemma_slot_bound(s, key, i + 2);
    }
}

proof fn lemma_slot_pushed(s: Seq<JsValue>, key: JsValue, v: JsValue, i: int)
    requires
        0 <= i <= s.len(),
        i % 2 == 0,
        s.len() % 2 == 0,
        entry_slot(s, key, 2, i) == -1,
    ensures
        entry_slot(s.push(key).push(v), key, 2, i) == s.len(),
    decreases s.len() - i,
{
    let t = s.push(key).push(v);
    if i + 2 <= s.len() {
        assert(t[i] == s[i]);
        lemma_slot_pushed(s, key, v, i + 2);
    } else {
        assert(i == s.len());
        assert(t[i] == key);
    }
}

/// What `set` put into a map under a key, `get` gives back.
pub proof fn law_get_after_set(h: HeapModel, o: usize, key: JsValue, v: JsValue)
    requires
        o < h.objects.len(),
        h.objects[o as int].kind == Kind::MapObject,
        h.objects[o as int].elements.len() % 2 == 0,
    ensures
        ({
            let h1 = set_result(h, JsValue::Object(o), key, v).0;
            get_result(h1, JsValue::Object(o), key).1 == Ok::<JsValue, Fault>(v)
                && h1.objects[o as int].elements.len() % 2 == 0
        }),
{
    let s = h.objects[o as int].elements;
    let i = entry_slot(s, key, 2, 0);
    if i >= 0 {
        lemma_slot_updated(s, key, v, 0, i);
    } else {
        assert(i == -1) by {
            lemma_slot_none(s, key, 0);
        }
        lemma_slot_pushed(s, key, v, 0);
    }
}

proof fn lemma_slot_none(s: Seq<JsValue>, key: JsValue, i: int)
    ensures
        entry_slot(s, key, 2, i) >= -1,
    decreases s.len() - i,
{
    if 0 <= i && i + 2 <= s.len() && !same_key(s[i], key) {
        lemma_slot_none(s, key, i + 2);
    }
}

/// `Map.prototype.entries()`: an iterator over keys and values.
pub fn map_entries(ctx: &mut Ctx, this: JsValue, _args: &[JsValue]) -> (r: Result<JsValue, Throw>)
    requires
        old(ctx).wf(),
        old(ctx).heap@.valid(this),
    ensures
        ends_in(*old(ctx), *final(ctx), r, iterator_over(old(ctx).heap@, this, ITER_KIND_MAP_ENTRIES)),
{
    iterator_for(ctx, this, ITER_KIND_MAP_ENTRIES)
}

/// `Map.prototype.keys()`: an iterator over the keys.
pub fn map_keys(ctx: &mut Ctx, this: JsValue, _args: &[JsValue]) -> (r: Result<JsValue, Throw>)
    requires
        old(ctx).wf(),
        old(ctx).heap@.valid(this),
    ensures
        ends_in(*old(ctx), *final(ctx), r, iterator_over(old(ctx).heap@, this, ITER_KIND_MAP_KEYS)),
{
    iterator_for(ctx, this, ITER_KIND_MAP_KEYS)
}

/// `Map.prototype.values()`: an iterator over the values.
pub fn map_values(ctx: &mut Ctx, this: JsValue, _args: &[JsValue]) -> (r: Result<JsValue, Throw>)
    requires
        old(ctx).wf(),
        old(ctx).heap@.valid(this),
    ensures
        ends_in(*old(ctx), *final(ctx), r, iterator_over(old(ctx).heap@, this, ITER_KIND_MAP_VALUES)),
{
    iterator_for(ctx, this, ITER_KIND_MAP_VALUES)
}

/// `Set.prototype.entries()`: an iterator over the values.
pub fn set_entries(ctx: &mut Ctx, this: JsValue, _args: &[JsValue]) -> (r: Result<JsValue, Throw>)
    requires
        old(ctx).wf(),
        old(ctx).heap@.valid(this),
    ensures
        ends_in(*old(ctx), *final(ctx), r, iterator_over(old(ctx).heap@, this, ITER_KIND_SET_VALUES)),
{
    iterator_for(ctx, this, ITER_KIND_SET_VALUES)
}

/// `Set.prototype.keys()`: an iterator over the values.
pub fn set_keys(ctx: &mut Ctx, this: JsValue, _args: &[JsValue]) -> (r: Result<JsValue, Throw>)
    requires
        old(ctx).wf(),
        old(ctx).heap@.valid(this),
    ensures
        ends_in(*old(ctx), *final(ctx), r, iterator_over(old(ctx).heap@, this, ITER_KIND_SET_VALUES)),
{
    iterator_for(ctx, this, ITER_KIND_SET_VALUES)
}

/// `Set.prototype.values()`: an iterator over the values.
pub fn set_values(ctx: &mut Ctx, this: JsValue, _args: &[JsValue]) -> (r: Result<JsValue, Throw>)
    requires
        old(ctx).wf(),
        old(ctx).heap@.valid(this),
    ensures
        ends_in(*old(ctx), *final(ctx), r, iterator_over(old(ctx).heap@, this, ITER_KIND_SET_VALUES)),
{
    iterator_for(ctx, this, ITER_KIND_SET_VALUES)
}

} // verus!
