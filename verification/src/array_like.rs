//! Lengths and elements of arrays and of objects that look like arrays.
use vstd::prelude::*;

use crate::convert::{as_number, int_value, smi_or_f64, value_number};
use crate::ctx::valid_args;
use crate::decimal::{digits_value, is_digit};
use crate::double::{below, finite, flt, from_i64, int_double, is_finite, saturated, to_i64};
use crate::heap::{Heap, HeapModel, JsObject, ObjModel};
use crate::internal_methods::{
    element_at, lemma_lookup_key, lemma_prop_refs, lemma_with_element_refs, with_element,
};
use crate::key_order::{shaped_data, shaped_slot, shaped_value};
use crate::properties::{Prop, PropBody, has_key, index_of_key, lookup};
use crate::text::{nat_text, push_nat, utf16, utf16_of};
use crate::value::{JsValue, Kind, PropKey};

verus! {

/// Most entries that one call adds past the stored elements.
pub const MAX_WRITE_SPAN: i64 = 1_000_000;

/// The value of the own `length` of an object.
pub open spec fn length_data(h: HeapModel, o: usize) -> Option<JsValue> {
    shaped_data(h, o, utf16_of("length"@))
}

/// `ToLength`: a whole number from 0 to `2^53 - 1`; what is no number is 0.
pub open spec fn length_int(v: JsValue) -> int {
    match as_number(v) {
        None => 0,
        Some(b) => if saturated(b) < 0 {
            0
        } else if saturated(b) > 0x1f_ffff_ffff_ffff {
            0x1f_ffff_ffff_ffff
        } else {
            saturated(b)
        },
    }
}

/// How many elements an object holds, at most `2^53 - 1`.
pub open spec fn stored_length(m: ObjModel) -> int {
    if m.elements.len() > 0x1f_ffff_ffff_ffff {
        0x1f_ffff_ffff_ffff
    } else {
        m.elements.len() as int
    }
}

/// The length of an object: its own `length`, else how many elements it holds.
pub open spec fn full_length(h: HeapModel, o: usize) -> int {
    match length_data(h, o) {
        Some(v) => if v == JsValue::Undefined {
            stored_length(h.objects[o as int])
        } else {
            length_int(v)
        },
        None => stored_length(h.objects[o as int]),
    }
}

/// A number held below `2^32`.
pub open spec fn capped_u32(n: int) -> int {
    if n > u32::MAX {
        u32::MAX as int
    } else {
        n
    }
}

/// The length of an object in 32 bits: an array's `length` where it is a number that is
/// not negative, any other object's where it is a positive number, else how many
/// elements it holds.
pub open spec fn short_length(h: HeapModel, o: usize) -> int {
    let m = h.objects[o as int];
    let stored = capped_u32(m.elements.len() as int);
    match length_data(h, o) {
        None => stored,
        Some(v) => match as_number(v) {
            Some(b) => if is_finite(b) && !below(b, int_double(0)) && saturated(b) >= 0 {
                capped_u32(saturated(b))
            } else if m.kind == Kind::Array {
                stored
            } else {
                0
            },
            None => if m.kind == Kind::Array {
                stored
            } else {
                0
            },
        },
    }
}

/// The length of an object.
pub fn array_length(heap: &Heap, obj: usize) -> (r: u64)
    requires
        heap.wf(),
        obj < heap@.objects.len(),
    ensures
        r as int == full_length(heap@, obj),
        r <= 0x1f_ffff_ffff_ffff,
{
    match shaped_slot(heap, obj, utf16("length").as_slice()) {
        Some(v) => {
            if v != JsValue::Undefined {
                return match value_number(v) {
                    None => 0,
                    Some(b) => {
                        let n: i64 = to_i64(b);
                        if n < 0 {
                            0
                        } else if n > 0x1f_ffff_ffff_ffff {
                            0x1f_ffff_ffff_ffff
                        } else {
                            n as u64
                        }
                    },
                };
            }
        },
        None => {},
    }
    let n: u64 = heap.object(obj).elements.len() as u64;
    if n > 0x1f_ffff_ffff_ffff {
        0x1f_ffff_ffff_ffff
    } else {
        n
    }
}

/// The length of an object in 32 bits.
pub fn array_len(heap: &Heap, obj: usize) -> (r: u32)
    requires
        heap.wf(),
        obj < heap@.objects.len(),
    ensures
        r as int == short_length(heap@, obj),
{
    let o: &JsObject = heap.object(obj);
    let stored: u32 = if o.elements.len() as u64 > 0xffff_ffff {
        0xffff_ffff
    } else {
        o.elements.len() as u32
    };
    let v: JsValue = match shaped_slot(heap, obj, utf16("length").as_slice()) {
        None => {
            return stored;
        },
        Some(v) => v,
    };
    match value_number(v) {
        Some(b) => {
            let n: i64 = to_i64(b);
            if finite(b) && !flt(b, from_i64(0)) && n >= 0 {
                return if n > 0xffff_ffff {
                    0xffff_ffff
                } else {
                    n as u32
                };
            }
        },
        None => {},
    }
    if o.kind == Kind::Array {
        stored
    } else {
        0
    }
}

/// The heap with another value of the own `length` of an object, where it has one.
pub open spec fn with_length(h: HeapModel, o: usize, v: JsValue) -> HeapModel {
    let m = h.objects[o as int];
    let key = PropKey::Text(h.text_id(utf16_of("length"@)));
    if length_data(h, o) is Some {
        h.with_object(
            o,
            ObjModel {
                named: m.named.updated(
                    index_of_key(m.named.list, key),
                    Prop { body: PropBody::Data(v), ..lookup(m.named.list, key)->0 },
                ),
                ..m
            },
        )
    } else {
        h
    }
}

/// Stores a value of the shape of an object under a name, where it has one.
fn store_shaped(heap: &mut Heap, obj: usize, name: &[u16], v: JsValue) -> (r: bool)
    requires
        old(heap).wf(),
        obj < old(heap)@.objects.len(),
        old(heap)@.valid(v),
    ensures
        final(heap).wf(),
        r == shaped_data(old(heap)@, obj, name@) is Some,
        final(heap)@ == if r {
            let m = old(heap)@.objects[obj as int];
            let key = PropKey::Text(old(heap)@.text_id(name@));
            old(heap)@.with_object(
                obj,
                ObjModel {
                    named: m.named.updated(
                        index_of_key(m.named.list, key),
                        Prop { body: PropBody::Data(v), ..lookup(m.named.list, key)->0 },
                    ),
                    ..m
                },
            )
        } else {
            old(heap)@
        },
{
    if shaped_slot(heap, obj, name).is_none() {
        return false;
    }
    match heap.find(name) {
        Some(id) => {
            let key: PropKey = PropKey::Text(id);
            let ghost h = heap@;
            let ghost m = h.objects[obj as int];
            proof {
                heap.lemma_wf();
                assert(h.valid_refs(m));
                lemma_lookup_key(m.named.list, key);
                assert(h.valid_prop(lookup(m.named.list, key)->0));
                lemma_prop_refs(
                    h,
                    m,
                    index_of_key(m.named.list, key),
                    Prop { body: PropBody::Data(v), ..lookup(m.named.list, key)->0 },
                );
            }
            let o = heap.object_mut(obj);
            o.named.store(key, v);
        },
        None => {},
    }
    true
}

/// Stores the own `length` of an object, where it has one.
pub fn sync_length(heap: &mut Heap, obj: usize, v: JsValue) -> (r: bool)
    requires
        old(heap).wf(),
        obj < old(heap)@.objects.len(),
        old(heap)@.valid(v),
    ensures
        final(heap).wf(),
        final(heap)@ == with_length(old(heap)@, obj, v),
        r == length_data(old(heap)@, obj) is Some,
{
    store_shaped(heap, obj, utf16("length").as_slice(), v)
}

/// The heap with a hole in place of the value of the shape of an object under a name.
pub open spec fn with_shaped_hole(h: HeapModel, o: usize, name: Seq<u16>) -> HeapModel {
    let m = h.objects[o as int];
    let key = PropKey::Text(h.text_id(name));
    if shaped_data(h, o, name) is Some {
        h.with_object(
            o,
            ObjModel {
                named: m.named.updated(
                    index_of_key(m.named.list, key),
                    Prop { body: PropBody::Data(JsValue::Hole), ..lookup(m.named.list, key)->0 },
                ),
                ..m
            },
        )
    } else {
        h
    }
}

/// Puts a hole in place of the value of the shape of an object under a name.
pub fn clear_shaped(heap: &mut Heap, obj: usize, name: &[u16])
    requires
        old(heap).wf(),
        obj < old(heap)@.objects.len(),
    ensures
        final(heap).wf(),
        final(heap)@ == with_shaped_hole(old(heap)@, obj, name@),
{
    let _ = store_shaped(heap, obj, name, JsValue::Hole);
}

/// The heap with other elements of an object.
pub open spec fn with_elements(h: HeapModel, o: usize, s: Seq<JsValue>) -> HeapModel {
    h.with_object(o, ObjModel { elements: s, ..h.objects[o as int] })
}

/// Replaces the elements of an object.
pub fn replace_elements(heap: &mut Heap, obj: usize, s: Vec<JsValue>)
    requires
        old(heap).wf(),
        obj < old(heap)@.objects.len(),
        valid_args(old(heap)@, s@),
    ensures
        final(heap).wf(),
        final(heap)@ == with_elements(old(heap)@, obj, s@),
{
    let ghost h = heap@;
    let o = heap.object_mut(obj);
    proof {
        assert(h.valid_refs(ObjModel { elements: s@, ..h.objects[obj as int] }));
    }
    o.elements = s;
}

/// Puts an element into an object.
pub fn write_index(heap: &mut Heap, obj: usize, i: usize, v: JsValue)
    requires
        old(heap).wf(),
        obj < old(heap)@.objects.len(),
        old(heap)@.valid(v),
    ensures
        final(heap).wf(),
        final(heap)@ == with_elements(
            old(heap)@,
            obj,
            with_element(old(heap)@.objects[obj as int].elements, i as int, v),
        ),
{
    let ghost h = heap@;
    proof {
        heap.lemma_wf();
        assert(h.valid_refs(h.objects[obj as int]));
        lemma_with_element_refs(h, h.objects[obj as int], i as int, v);
    }
    let o = heap.object_mut(obj);
    o.put_element(i, v);
}

/// What an object holds under an index: an element, or where it is no array a value of
/// its shape.
pub open spec fn read_at(h: HeapModel, o: usize, i: int) -> Option<JsValue> {
    let m = h.objects[o as int];
    match element_at(m.elements, i) {
        Some(v) => Some(v),
        None => if m.kind == Kind::Array {
            None
        } else {
            shaped_value(h, o, nat_text(i as nat))
        },
    }
}

/// What an object holds under an index.
pub fn read_index(heap: &Heap, obj: usize, i: u64) -> (r: Option<JsValue>)
    requires
        heap.wf(),
        obj < heap@.objects.len(),
    ensures
        r == read_at(heap@, obj, i as int),
        r matches Some(v) ==> heap@.valid(v),
{
    let o: &JsObject = heap.object(obj);
    if i < o.elements.len() as u64 {
        let v: JsValue = o.elements[i as usize];
        if v != JsValue::Hole {
            proof {
                assert(heap@.valid(o@.elements[i as int]));
            }
            return Some(v);
        }
    }
    if o.kind == Kind::Array {
        return None;
    }
    let mut t: Vec<u16> = Vec::new();
    push_nat(&mut t, i);
    proof {
        assert(t@ =~= nat_text(i as nat));
    }
    match shaped_slot(heap, obj, t.as_slice()) {
        Some(v) => if v == JsValue::Hole {
            None
        } else {
            Some(v)
        },
        None => None,
    }
}

// ---------------------------------------------------------------------------
// How far an object holds anything
// ---------------------------------------------------------------------------

/// The number that a text of up to ten digits spells.
pub open spec fn digit_key(t: Seq<u16>) -> Option<int> {
    if 1 <= t.len() <= 10 && forall|i: int| 0 <= i < t.len() ==> is_digit(#[trigger] t[i]) {
        Some(digits_value(t, 0, t.len() as int) as int)
    } else {
        None
    }
}

/// One more than the largest number that a key among the first `k` properties spells,
/// and not less than `start`.
pub open spec fn key_bound(h: HeapModel, list: Seq<Prop>, k: int, start: int) -> int
    decreases k,
{
    if k <= 0 {
        start
    } else {
        let b = key_bound(h, list, k - 1, start);
        match list[k - 1].key {
            PropKey::Text(n) => match digit_key(h.texts[n as int]) {
                Some(x) => if x + 1 > b {
                    x + 1
                } else {
                    b
                },
                None => b,
            },
            PropKey::Symbol(_) => b,
        }
    }
}

/// A length from which on an object holds nothing, and not more than `len`.
pub open spec fn dense_of(h: HeapModel, o: usize, len: int) -> int {
    let m = h.objects[o as int];
    let b = if m.kind == Kind::Array {
        m.elements.len() as int
    } else {
        key_bound(h, m.named.list, m.named.base as int, m.elements.len() as int)
    };
    if b > len {
        len
    } else {
        b
    }
}

/// The number that a text of up to ten digits spells.
fn parse_digit_key(t: &[u16]) -> (r: Option<u64>)
    ensures
        match digit_key(t@) {
            Some(n) => r is Some && r->0 == n && n < 10_000_000_000,
            None => r is None,
        },
{
    let n: usize = t.len();
    if n == 0 || n > 10 {
        return None;
    }
    let mut v: u64 = 0;
    let mut i: usize = 0;
    proof {
        reveal_with_fuel(crate::decimal::pow10, 11);
    }
    while i < n
        invariant
            n == t@.len(),
            1 <= n <= 10,
            i <= n,
            forall|k: int| 0 <= k < i ==> is_digit(#[trigger] t@[k]),
            v == digits_value(t@, 0, i as int),
            v < crate::decimal::pow10(i as nat),
            crate::decimal::pow10(10) == 10_000_000_000,
        decreases n - i,
    {
        let u: u16 = t[i];
        if u < 0x30 || u > 0x39 {
            proof {
                assert(!is_digit(t@[i as int]));
            }
            return None;
        }
        proof {
            crate::decimal::lemma_pow10_monotone((i + 1) as nat, 10);
            crate::decimal::lemma_pow10_monotone(i as nat, 10);
            assert(crate::decimal::pow10((i + 1) as nat) == 10 * crate::decimal::pow10(i as nat));
        }
        v = 10 * v + (u - 0x30) as u64;
        i = i + 1;
    }
    Some(v)
}

/// A length from which on an object holds nothing, and not more than `len`.
pub fn dense_bound(heap: &Heap, obj: usize, len: u32) -> (r: u32)
    requires
        heap.wf(),
        obj < heap@.objects.len(),
    ensures
        r as int == dense_of(heap@, obj, len as int),
        r <= len,
{
    let o: &JsObject = heap.object(obj);
    let mut bound: u64 = o.elements.len() as u64;
    if o.kind != Kind::Array {
        let ghost list = o@.named.list;
        let keys: Vec<PropKey> = o.named.keys();
        let n: usize = o.named.base_len();
        let mut i: usize = 0;
        while i < n && i < keys.len()
            invariant
                heap.wf(),
                heap@.valid_refs(o@),
                list == o@.named.list,
                n == o@.named.base,
                keys@ == list.map_values(|p: Prop| p.key),
                i <= n,
                i <= keys@.len(),
                o@.elements.len() <= u64::MAX,
                bound as int == key_bound(heap@, list, i as int, o@.elements.len() as int),
            decreases keys@.len() - i,
        {
            proof {
                assert(heap@.valid_prop(list[i as int]));
            }
            match keys[i] {
                PropKey::Text(id) => {
                    match parse_digit_key(heap.text(id).as_slice()) {
                        Some(x) => {
                            if x + 1 > bound {
                                bound = x + 1;
                            }
                        },
                        None => {},
                    }
                },
                PropKey::Symbol(_) => {},
            }
            i = i + 1;
        }
        proof {
            o.named.lemma_base();
        }
    }
    if bound > len as u64 {
        len
    } else {
        bound as u32
    }
}

/// Past the bound an object holds nothing.
pub proof fn lemma_past_bound(h: HeapModel, o: usize, len: int, i: int)
    requires
        h.texts.len() <= usize::MAX,
        h.closed(),
        o < h.objects.len(),
        h.objects[o as int].named.base <= h.objects[o as int].named.list.len(),
        dense_of(h, o, len) <= i < len,
        i < u32::MAX,
        dense_of(h, o, len) >= 0,
    ensures
        read_at(h, o, i) is None,
{
    let m = h.objects[o as int];
    let list = m.named.list;
    if m.kind != Kind::Array {
        lemma_key_bound(h, list, m.named.base as int, m.elements.len() as int, 0);
        assert(element_at(m.elements, i) is None);
        let t = nat_text(i as nat);
        let key = PropKey::Text(h.text_id(t));
        if h.has_text(t) && has_key(list, key) && index_of_key(list, key) < m.named.base {
            lemma_lookup_key(list, key);
            let k = index_of_key(list, key);
            let j = choose|j: int| 0 <= j < h.texts.len() && #[trigger] h.texts[j] == t;
            assert(h.valid_refs(m));
            assert(h.valid_prop(list[k]));
            crate::text::law_index_text(i as u32);
            crate::text::law_nat_text_value(i as nat);
            lemma_short_index(i as u32);
            assert(h.texts[h.text_id(t) as int] == t) by {
                lemma_id_text(h, t);
            }
            assert(digit_key(t) == Some(i));
            lemma_key_bound(h, list, m.named.base as int, m.elements.len() as int, k + 1);
        }
    }
}

/// The number of a text names it.
proof fn lemma_id_text(h: HeapModel, t: Seq<u16>)
    requires
        h.has_text(t),
        h.texts.len() <= usize::MAX,
    ensures
        h.texts[h.text_id(t) as int] == t,
{
    let j = choose|j: int| 0 <= j < h.texts.len() && #[trigger] h.texts[j] == t;
    assert(h.texts[j] == t);
}

proof fn lemma_key_bound(h: HeapModel, list: Seq<Prop>, k: int, start: int, j: int)
    requires
        0 <= j <= k,
    ensures
        key_bound(h, list, k, start) >= start,
        key_bound(h, list, j, start) <= key_bound(h, list, k, start),
    decreases k,
{
    if k > 0 {
        lemma_key_bound(h, list, k - 1, start, 0);
        if j < k {
            lemma_key_bound(h, list, k - 1, start, j);
        }
    }
}

/// An index below `2^32` has at most ten digits.
proof fn lemma_short_index(n: u32)
    ensures
        nat_text(n as nat).len() <= 10,
{
    reveal_with_fuel(nat_text, 11);
}

// ---------------------------------------------------------------------------
// Setting the length
// ---------------------------------------------------------------------------

/// The heap with another length of an object: an array loses what lies past it; the
/// own `length` is set where there is one, else the elements are filled up to a length
/// that is not too far.
pub open spec fn with_new_length(h: HeapModel, o: usize, len: int) -> HeapModel {
    let m = h.objects[o as int];
    let h1 = if m.kind == Kind::Array && len < m.elements.len() {
        with_elements(h, o, m.elements.take(len))
    } else {
        h
    };
    let s = h1.objects[o as int].elements;
    if length_data(h1, o) is Some {
        with_length(h1, o, int_value(len))
    } else if s.len() < len <= s.len() + MAX_WRITE_SPAN {
        with_elements(h1, o, with_element(s, len - 1, JsValue::Undefined))
    } else {
        h1
    }
}

/// Sets the length of an object.
pub fn set_array_len(heap: &mut Heap, obj: usize, len: u32)
    requires
        old(heap).wf(),
        obj < old(heap)@.objects.len(),
    ensures
        final(heap).wf(),
        final(heap)@ == with_new_length(old(heap)@, obj, len as int),
{
    let array: bool = heap.object(obj).kind == Kind::Array;
    if array && (len as usize) < heap.object(obj).elements.len() {
        let ghost h = heap@;
        let ghost m = h.objects[obj as int];
        let o = heap.object_mut(obj);
        proof {
            let c = ObjModel { elements: m.elements.take(len as int), ..m };
            assert forall|i: int| 0 <= i < c.elements.len() implies h.valid(
                #[trigger] c.elements[i],
            ) by {
                assert(h.valid(m.elements[i]));
            }
            assert(h.valid_refs(c));
        }
        o.elements.truncate(len as usize);
        proof {
            assert(o.elements@ =~= m.elements.take(len as int));
        }
    }
    if sync_length(heap, obj, smi_or_f64(len as i64)) {
        return;
    }
    let stored: usize = heap.object(obj).elements.len();
    if (len as usize) > stored && len as usize - stored <= MAX_WRITE_SPAN as usize {
        write_index(heap, obj, len as usize - 1, JsValue::Undefined);
    }
}

// ---------------------------------------------------------------------------
// Relative indices
// ---------------------------------------------------------------------------

/// A number as an index; what is no number is 0.
pub open spec fn index_int(v: JsValue) -> int {
    match as_number(v) {
        Some(b) => saturated(b),
        None => 0,
    }
}

/// An index that counts from the end where it is negative, held between 0 and `len`.
pub open spec fn held_index(n: int, len: int) -> int {
    if n < 0 {
        if len + n < 0 {
            0
        } else {
            len + n
        }
    } else if n > len {
        len
    } else {
        n
    }
}

/// An argument as a relative index, `default` where it is missing or `undefined`.
pub open spec fn relative(v: JsValue, len: int, default: int) -> int {
    if v == JsValue::Undefined {
        default
    } else {
        held_index(index_int(v), len)
    }
}

/// A number as an index.
pub fn index_number(v: JsValue) -> (r: i64)
    ensures
        r == index_int(v),
{
    match value_number(v) {
        Some(b) => to_i64(b),
        None => 0,
    }
}

/// An argument as a relative index.
pub fn relative_index(v: JsValue, len: i64, default: i64) -> (r: i64)
    requires
        0 <= len,
    ensures
        r == relative(v, len as int, default as int),
{
    if v == JsValue::Undefined {
        return default;
    }
    let n: i64 = index_number(v);
    if n < 0 {
        if len + n < 0 {
            0
        } else {
            len + n
        }
    } else if n > len {
        len
    } else {
        n
    }
}

} // verus!
