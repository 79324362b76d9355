//! The order in which the own properties of an object are listed: index keys ascending,
//! then other texts in the order of their creation, then symbols.
use vstd::prelude::*;

use crate::heap::{Heap, HeapModel, JsObject, ObjModel};
use crate::internal_methods::{indexed_kind, lemma_lookup_key};
use crate::json_text::{array_index, array_index_of};
use crate::properties::{Prop, PropBody, has_key, index_of_key, lookup};
use crate::text::{nat_text, push_nat};
use crate::value::{JsValue, Kind, PropKey};

verus! {

/// Whether a property is there; one that was deleted may keep its place and hold a
/// hole.
pub open spec fn is_live(p: Prop) -> bool {
    p.body != PropBody::Data(JsValue::Hole)
}

/// The value of a data property of the shape of an object, under a name; a hole where
/// it was deleted.
pub open spec fn shaped_data(h: HeapModel, o: usize, name: Seq<u16>) -> Option<JsValue> {
    let m = h.objects[o as int];
    let key = PropKey::Text(h.text_id(name));
    if h.has_text(name) && has_key(m.named.list, key) && index_of_key(m.named.list, key)
        < m.named.base {
        match lookup(m.named.list, key)->0.body {
            PropBody::Data(v) => Some(v),
            PropBody::Accessor(_, _) => None,
        }
    } else {
        None
    }
}

/// The value of a data property of the shape of an object, under a name.
pub open spec fn shaped_value(h: HeapModel, o: usize, name: Seq<u16>) -> Option<JsValue> {
    match shaped_data(h, o, name) {
        Some(v) => if v == JsValue::Hole {
            None
        } else {
            Some(v)
        },
        None => None,
    }
}

/// The value of a data property of the shape of an object, under a name; a hole where
/// it was deleted.
pub fn shaped_slot(heap: &Heap, obj: usize, name: &[u16]) -> (r: Option<JsValue>)
    requires
        heap.wf(),
        obj < heap@.objects.len(),
    ensures
        r == shaped_data(heap@, obj, name@),
        r matches Some(v) ==> heap@.valid(v),
{
    match heap.find(name) {
        Some(id) => {
            let key: PropKey = PropKey::Text(id);
            let o: &JsObject = heap.object(obj);
            match o.named.get(key) {
                Some(p) => {
                    proof {
                        lemma_lookup_key(o@.named.list, key);
                        assert(heap@.valid_prop(p));
                    }
                    if o.named.in_dictionary(key) {
                        return None;
                    }
                    match p.body {
                        PropBody::Data(v) => Some(v),
                        PropBody::Accessor(_, _) => None,
                    }
                },
                None => None,
            }
        },
        None => None,
    }
}

/// Texts that are keys of the first `k` properties, all of them or the enumerable ones.
pub open spec fn text_ids(list: Seq<Prop>, k: int, enumerable: bool) -> Seq<usize>
    decreases k,
{
    if k <= 0 {
        seq![]
    } else {
        let head = text_ids(list, k - 1, enumerable);
        let p = list[k - 1];
        match p.key {
            PropKey::Text(n) => if is_live(p) && (!enumerable || p.attrs.enumerable) {
                head.push(n)
            } else {
                head
            },
            PropKey::Symbol(_) => head,
        }
    }
}

/// Symbols that are keys of the first `k` properties.
pub open spec fn symbol_ids(list: Seq<Prop>, k: int) -> Seq<usize>
    decreases k,
{
    if k <= 0 {
        seq![]
    } else {
        let head = symbol_ids(list, k - 1);
        match list[k - 1].key {
            PropKey::Symbol(n) => if is_live(list[k - 1]) {
                head.push(n)
            } else {
                head
            },
            PropKey::Text(_) => head,
        }
    }
}

/// The array index that a text spells.
pub open spec fn id_index(h: HeapModel, id: usize) -> Option<u32> {
    array_index_of(h.texts[id as int])
}

/// Texts in ascending order of their indices, with one more.
pub open spec fn insert_id(h: HeapModel, s: Seq<usize>, id: usize) -> Seq<usize>
    decreases s.len(),
{
    if s.len() == 0 || id_index(h, s.last())->0 <= id_index(h, id)->0 {
        s.push(id)
    } else {
        insert_id(h, s.drop_last(), id).push(s.last())
    }
}

/// Those of the first `k` texts that are array indices, in ascending order.
pub open spec fn index_ids(h: HeapModel, ids: Seq<usize>, k: int) -> Seq<usize>
    decreases k,
{
    if k <= 0 {
        seq![]
    } else if id_index(h, ids[k - 1]) is Some {
        insert_id(h, index_ids(h, ids, k - 1), ids[k - 1])
    } else {
        index_ids(h, ids, k - 1)
    }
}

/// Those of the first `k` texts that are no array indices.
pub open spec fn name_ids(h: HeapModel, ids: Seq<usize>, k: int) -> Seq<usize>
    decreases k,
{
    if k <= 0 {
        seq![]
    } else if id_index(h, ids[k - 1]) is Some {
        name_ids(h, ids, k - 1)
    } else {
        name_ids(h, ids, k - 1).push(ids[k - 1])
    }
}

/// Texts in the order in which they are listed.
pub open spec fn ordered_ids(h: HeapModel, ids: Seq<usize>) -> Seq<usize> {
    index_ids(h, ids, ids.len() as int) + name_ids(h, ids, ids.len() as int)
}

/// Whether all texts are in range.
pub open spec fn valid_ids(h: HeapModel, ids: Seq<usize>) -> bool {
    forall|i: int| 0 <= i < ids.len() ==> #[trigger] ids[i] < h.texts.len()
}

/// The texts that name the first `k` elements that are no holes, and the heap that
/// holds them.
pub open spec fn element_ids(h: HeapModel, s: Seq<JsValue>, k: int) -> (HeapModel, Seq<usize>)
    decreases k,
{
    if k <= 0 {
        (h, seq![])
    } else {
        let (h1, ids) = element_ids(h, s, k - 1);
        if s[k - 1] == JsValue::Hole {
            (h1, ids)
        } else {
            (h1.interned(nat_text((k - 1) as nat)), ids.push(h1.text_id(nat_text((k - 1) as nat))))
        }
    }
}

/// The texts that name elements of an object, and the heap that holds them.
pub open spec fn own_element_ids(h: HeapModel, m: ObjModel) -> (HeapModel, Seq<usize>) {
    if indexed_kind(m.kind) {
        element_ids(h, m.elements, m.elements.len() as int)
    } else {
        (h, seq![])
    }
}

/// The texts that name properties of an object besides its elements.
pub open spec fn own_name_ids(h: HeapModel, m: ObjModel, enumerable: bool) -> Seq<usize> {
    let ids = text_ids(m.named.list, m.named.list.len() as int, enumerable);
    if indexed_kind(m.kind) {
        name_ids(h, ids, ids.len() as int)
    } else {
        ordered_ids(h, ids)
    }
}

/// The texts that are keys of an object, in order, and the heap that holds them.
pub open spec fn own_text_ids(h: HeapModel, o: usize, enumerable: bool) -> (HeapModel, Seq<usize>) {
    let m = h.objects[o as int];
    let (h1, e) = own_element_ids(h, m);
    (h1, e + own_name_ids(h1, m, enumerable))
}

/// Texts as keys.
pub open spec fn text_keys(ids: Seq<usize>) -> Seq<PropKey> {
    ids.map_values(|n: usize| PropKey::Text(n))
}

/// Symbols as keys.
pub open spec fn symbol_keys(ids: Seq<usize>) -> Seq<PropKey> {
    ids.map_values(|n: usize| PropKey::Symbol(n))
}

/// All keys of an object, in order, and the heap that holds them.
pub open spec fn own_keys(h: HeapModel, o: usize) -> (HeapModel, Seq<PropKey>) {
    let m = h.objects[o as int];
    let (h1, ids) = own_text_ids(h, o, false);
    (h1, text_keys(ids) + symbol_keys(symbol_ids(m.named.list, m.named.list.len() as int)))
}

// ---------------------------------------------------------------------------
// Collecting keys
// ---------------------------------------------------------------------------

/// Texts that are keys of an object, in the order of their creation.
pub fn collect_texts(heap: &Heap, obj: usize, enumerable: bool) -> (r: Vec<usize>)
    requires
        heap.wf(),
        obj < heap@.objects.len(),
    ensures
        r@ == text_ids(
            heap@.objects[obj as int].named.list,
            heap@.objects[obj as int].named.list.len() as int,
            enumerable,
        ),
        valid_ids(heap@, r@),
{
    let o: &JsObject = heap.object(obj);
    let ghost list = o@.named.list;
    let keys: Vec<PropKey> = o.named.keys();
    let mut out: Vec<usize> = Vec::new();
    let mut i: usize = 0;
    proof {
        o.named.lemma_distinct();
    }
    while i < keys.len()
        invariant
            heap.wf(),
            o.named.wf(),
            heap@.valid_refs(o@),
            list == o@.named.list,
            crate::properties::distinct_keys(list),
            keys@ == list.map_values(|p: Prop| p.key),
            i <= keys@.len(),
            out@ == text_ids(list, i as int, enumerable),
            valid_ids(heap@, out@),
        decreases keys@.len() - i,
    {
        let key: PropKey = keys[i];
        proof {
            crate::properties::lemma_index_of_key(list, key, i as int);
            assert(heap@.valid_prop(list[i as int]));
        }
        match key {
            PropKey::Text(n) => {
                match o.named.get(key) {
                    Some(p) => {
                        if p.body != PropBody::Data(JsValue::Hole) && (!enumerable
                            || p.attrs.enumerable) {
                            out.push(n);
                        }
                    },
                    None => {},
                }
            },
            PropKey::Symbol(_) => {},
        }
        i = i + 1;
    }
    out
}

/// Symbols that are keys of an object, in the order of their creation.
pub fn collect_symbols(heap: &Heap, obj: usize) -> (r: Vec<usize>)
    requires
        heap.wf(),
        obj < heap@.objects.len(),
    ensures
        r@ == symbol_ids(
            heap@.objects[obj as int].named.list,
            heap@.objects[obj as int].named.list.len() as int,
        ),
        forall|i: int| 0 <= i < r@.len() ==> #[trigger] r@[i] < heap@.symbols,
{
    let o: &JsObject = heap.object(obj);
    let ghost list = o@.named.list;
    let keys: Vec<PropKey> = o.named.keys();
    let mut out: Vec<usize> = Vec::new();
    let mut i: usize = 0;
    proof {
        o.named.lemma_distinct();
    }
    while i < keys.len()
        invariant
            heap.wf(),
            o.named.wf(),
            heap@.valid_refs(o@),
            list == o@.named.list,
            crate::properties::distinct_keys(list),
            keys@ == list.map_values(|p: Prop| p.key),
            i <= keys@.len(),
            out@ == symbol_ids(list, i as int),
            forall|i: int| 0 <= i < out@.len() ==> #[trigger] out@[i] < heap@.symbols,
        decreases keys@.len() - i,
    {
        let key: PropKey = keys[i];
        proof {
            crate::properties::lemma_index_of_key(list, key, i as int);
            assert(heap@.valid_prop(list[i as int]));
        }
        match key {
            PropKey::Symbol(n) => {
                match o.named.get(key) {
                    Some(p) => {
                        if p.body != PropBody::Data(JsValue::Hole) {
                            out.push(n);
                        }
                    },
                    None => {},
                }
            },
            PropKey::Text(_) => {},
        }
        i = i + 1;
    }
    out
}

proof fn lemma_insert_at(h: HeapModel, s: Seq<usize>, id: usize, j: int)
    requires
        0 <= j <= s.len(),
        forall|k: int| j <= k < s.len() ==> id_index(h, #[trigger] s[k])->0 > id_index(h, id)->0,
        j == 0 || id_index(h, s[j - 1])->0 <= id_index(h, id)->0,
    ensures
        insert_id(h, s, id) == s.insert(j, id),
    decreases s.len(),
{
    if j == s.len() {
        assert(s.insert(j, id) =~= s.push(id));
        if s.len() > 0 {
            assert(s.last() == s[j - 1]);
        }
    } else {
        assert(s.last() == s[s.len() - 1]);
        assert(id_index(h, s[s.len() - 1])->0 > id_index(h, id)->0);
        let d = s.drop_last();
        assert forall|k: int| j <= k < d.len() implies id_index(h, #[trigger] d[k])->0 > id_index(
            h,
            id,
        )->0 by {
            assert(d[k] == s[k]);
        }
        lemma_insert_at(h, d, id, j);
        assert(d.insert(j, id).push(s.last()) =~= s.insert(j, id));
    }
}

/// The array index that a text of the heap spells.
pub fn text_array_index(heap: &Heap, id: usize) -> (r: Option<u32>)
    requires
        id < heap@.texts.len(),
    ensures
        r == id_index(heap@, id),
{
    array_index(heap.text(id).as_slice())
}

/// Puts a text that is an array index among others in ascending order.
fn insert_sorted(heap: &Heap, s: &mut Vec<usize>, id: usize, index: u32)
    requires
        valid_ids(heap@, old(s)@),
        id < heap@.texts.len(),
        id_index(heap@, id) == Some(index),
        forall|i: int| 0 <= i < old(s)@.len() ==> id_index(heap@, #[trigger] old(s)@[i]) is Some,
    ensures
        final(s)@ == insert_id(heap@, old(s)@, id),
        valid_ids(heap@, final(s)@),
        forall|i: int|
            0 <= i < final(s)@.len() ==> id_index(heap@, #[trigger] final(s)@[i]) is Some,
{
    let mut j: usize = s.len();
    let ghost before = s@;
    while j > 0 && index_above(heap, s[j - 1], index)
        invariant
            j <= s@.len(),
            s@ == before,
            valid_ids(heap@, s@),
            id_index(heap@, id) == Some(index),
            forall|k: int| 0 <= k < s@.len() ==> id_index(heap@, #[trigger] s@[k]) is Some,
            forall|k: int|
                j <= k < s@.len() ==> id_index(heap@, #[trigger] s@[k])->0 > id_index(heap@, id)->0,
        decreases j,
    {
        j = j - 1;
    }
    proof {
        lemma_insert_at(heap@, before, id, j as int);
    }
    s.insert(j, id);
}

/// Whether a text is an array index above `index`.
fn index_above(heap: &Heap, id: usize, index: u32) -> (r: bool)
    requires
        id < heap@.texts.len(),
    ensures
        r == (id_index(heap@, id) is Some && id_index(heap@, id)->0 > index),
{
    match text_array_index(heap, id) {
        Some(i) => i > index,
        None => false,
    }
}

/// Texts in the order in which they are listed; without the array indices where
/// `names_only` is set.
fn order_texts(heap: &Heap, ids: &Vec<usize>, names_only: bool) -> (r: Vec<usize>)
    requires
        valid_ids(heap@, ids@),
    ensures
        r@ == if names_only {
            name_ids(heap@, ids@, ids@.len() as int)
        } else {
            ordered_ids(heap@, ids@)
        },
        valid_ids(heap@, r@),
{
    let mut indices: Vec<usize> = Vec::new();
    let mut names: Vec<usize> = Vec::new();
    let mut i: usize = 0;
    while i < ids.len()
        invariant
            i <= ids@.len(),
            valid_ids(heap@, ids@),
            valid_ids(heap@, indices@),
            valid_ids(heap@, names@),
            forall|k: int| 0 <= k < indices@.len() ==> id_index(heap@, #[trigger] indices@[k]) is Some,
            indices@ == index_ids(heap@, ids@, i as int),
            names@ == name_ids(heap@, ids@, i as int),
        decreases ids@.len() - i,
    {
        let id: usize = ids[i];
        match text_array_index(heap, id) {
            Some(index) => {
                insert_sorted(heap, &mut indices, id, index);
            },
            None => {
                names.push(id);
            },
        }
        i = i + 1;
    }
    if names_only {
        return names;
    }
    let ghost first = indices@;
    let mut k: usize = 0;
    proof {
        assert(first + names@.take(0) =~= first);
    }
    while k < names.len()
        invariant
            k <= names@.len(),
            valid_ids(heap@, names@),
            valid_ids(heap@, indices@),
            indices@ == first + names@.take(k as int),
        decreases names@.len() - k,
    {
        indices.push(names[k]);
        proof {
            assert(first + names@.take(k + 1) =~= (first + names@.take(k as int)).push(names@[k as int]));
        }
        k = k + 1;
    }
    proof {
        assert(names@.take(k as int) =~= names@);
    }
    indices
}

/// Whether objects of a sort keep elements under index keys.
fn keeps_elements(kind: Kind) -> (r: bool)
    ensures
        r == indexed_kind(kind),
{
    kind == Kind::Array || kind == Kind::Arguments
}

/// The texts that name properties of an object besides its elements.
pub fn own_names(heap: &Heap, obj: usize, enumerable: bool) -> (r: Vec<usize>)
    requires
        heap.wf(),
        obj < heap@.objects.len(),
    ensures
        r@ == own_name_ids(heap@, heap@.objects[obj as int], enumerable),
        valid_ids(heap@, r@),
{
    let ids: Vec<usize> = collect_texts(heap, obj, enumerable);
    order_texts(heap, &ids, keeps_elements(heap.object(obj).kind))
}

/// The texts that are keys of enumerable properties of an object, in order, as if it
/// had no elements.
pub fn enumerable_names(heap: &Heap, obj: usize) -> (r: Vec<usize>)
    requires
        heap.wf(),
        obj < heap@.objects.len(),
    ensures
        r@ == ordered_ids(
            heap@,
            text_ids(
                heap@.objects[obj as int].named.list,
                heap@.objects[obj as int].named.list.len() as int,
                true,
            ),
        ),
        valid_ids(heap@, r@),
{
    let ids: Vec<usize> = collect_texts(heap, obj, true);
    order_texts(heap, &ids, false)
}

/// The texts that are keys of an object, all of them in order, as if it had no elements.
pub fn own_ordered_names(heap: &Heap, obj: usize) -> (r: Vec<usize>)
    requires
        heap.wf(),
        obj < heap@.objects.len(),
    ensures
        r@ == ordered_ids(
            heap@,
            text_ids(
                heap@.objects[obj as int].named.list,
                heap@.objects[obj as int].named.list.len() as int,
                false,
            ),
        ),
        valid_ids(heap@, r@),
{
    let ids: Vec<usize> = collect_texts(heap, obj, false);
    order_texts(heap, &ids, false)
}

/// Names the elements of an object.
pub fn own_elements(heap: &mut Heap, obj: usize) -> (r: Vec<usize>)
    requires
        old(heap).wf(),
        obj < old(heap)@.objects.len(),
    ensures
        final(heap).wf(),
        (final(heap)@, r@) == own_element_ids(old(heap)@, old(heap)@.objects[obj as int]),
        old(heap)@.grows_to(final(heap)@),
        valid_ids(final(heap)@, r@),
{
    let ghost h = heap@;
    let ghost s = h.objects[obj as int].elements;
    let mut out: Vec<usize> = Vec::new();
    proof {
        assert(h.texts.is_prefix_of(h.texts));
    }
    if !keeps_elements(heap.object(obj).kind) {
        return out;
    }
    let n: usize = heap.object(obj).elements.len();
    let mut i: usize = 0;
    while i < n
        invariant
            heap.wf(),
            obj < h.objects.len(),
            s == h.objects[obj as int].elements,
            n == s.len(),
            i <= n,
            h.grows_to(heap@),
            (heap@, out@) == element_ids(h, s, i as int),
            valid_ids(heap@, out@),
        decreases n - i,
    {
        let ghost before = heap@;
        if heap.object(obj).elements[i] != JsValue::Hole {
            let mut t: Vec<u16> = Vec::new();
            push_nat(&mut t, i as u64);
            proof {
                assert(t@ =~= nat_text(i as nat));
            }
            let id: usize = heap.intern(t.as_slice());
            out.push(id);
            proof {
                assert(before.texts.is_prefix_of(heap@.texts));
                assert(h.texts.is_prefix_of(heap@.texts));
            }
        }
        i = i + 1;
    }
    out
}

/// The texts that are keys of an object, in order.
pub fn own_texts(heap: &mut Heap, obj: usize, enumerable: bool) -> (r: Vec<usize>)
    requires
        old(heap).wf(),
        obj < old(heap)@.objects.len(),
    ensures
        final(heap).wf(),
        (final(heap)@, r@) == own_text_ids(old(heap)@, obj, enumerable),
        old(heap)@.grows_to(final(heap)@),
        valid_ids(final(heap)@, r@),
{
    let mut out: Vec<usize> = own_elements(heap, obj);
    let names: Vec<usize> = own_names(heap, obj, enumerable);
    let ghost first = out@;
    let mut k: usize = 0;
    proof {
        assert(first + names@.take(0) =~= first);
    }
    while k < names.len()
        invariant
            k <= names@.len(),
            valid_ids(heap@, names@),
            valid_ids(heap@, out@),
            out@ == first + names@.take(k as int),
        decreases names@.len() - k,
    {
        out.push(names[k]);
        proof {
            assert(first + names@.take(k + 1) =~= (first + names@.take(k as int)).push(names@[k as int]));
        }
        k = k + 1;
    }
    proof {
        assert(names@.take(k as int) =~= names@);
    }
    out
}

/// All keys of an object, in order.
pub fn own_keys_ordered(heap: &mut Heap, obj: usize) -> (r: Vec<PropKey>)
    requires
        old(heap).wf(),
        obj < old(heap)@.objects.len(),
    ensures
        final(heap).wf(),
        (final(heap)@, r@) == own_keys(old(heap)@, obj),
        old(heap)@.grows_to(final(heap)@),
        forall|i: int| 0 <= i < r@.len() ==> final(heap)@.valid_key(#[trigger] r@[i]),
{
    let texts: Vec<usize> = own_texts(heap, obj, false);
    let symbols: Vec<usize> = collect_symbols(heap, obj);
    let mut out: Vec<PropKey> = Vec::new();
    let mut i: usize = 0;
    while i < texts.len()
        invariant
            i <= texts@.len(),
            valid_ids(heap@, texts@),
            out@ == text_keys(texts@.take(i as int)),
            forall|i: int| 0 <= i < out@.len() ==> heap@.valid_key(#[trigger] out@[i]),
        decreases texts@.len() - i,
    {
        out.push(PropKey::Text(texts[i]));
        proof {
            assert(out@ =~= text_keys(texts@.take(i + 1)));
        }
        i = i + 1;
    }
    proof {
        assert(texts@.take(i as int) =~= texts@);
    }
    let ghost first = out@;
    let mut k: usize = 0;
    proof {
        assert(first + symbol_keys(symbols@.take(0)) =~= first);
    }
    while k < symbols.len()
        invariant
            k <= symbols@.len(),
            forall|i: int| 0 <= i < symbols@.len() ==> #[trigger] symbols@[i] < heap@.symbols,
            out@ == first + symbol_keys(symbols@.take(k as int)),
            forall|i: int| 0 <= i < out@.len() ==> heap@.valid_key(#[trigger] out@[i]),
        decreases symbols@.len() - k,
    {
        out.push(PropKey::Symbol(symbols[k]));
        proof {
            assert(out@ =~= first + symbol_keys(symbols@.take(k + 1)));
        }
        k = k + 1;
    }
    proof {
        assert(symbols@.take(k as int) =~= symbols@);
    }
    out
}

// ---------------------------------------------------------------------------
// Laws
// ---------------------------------------------------------------------------

/// Whether texts are array indices in ascending order.
pub open spec fn ascending(h: HeapModel, s: Seq<usize>) -> bool {
    &&& forall|i: int| 0 <= i < s.len() ==> id_index(h, #[trigger] s[i]) is Some
    &&& forall|i: int, j: int|
        0 <= i < j < s.len() ==> id_index(h, #[trigger] s[i])->0 <= id_index(h, #[trigger] s[j])->0
}

proof fn lemma_insert_ascending(h: HeapModel, s: Seq<usize>, id: usize)
    requires
        ascending(h, s),
        id_index(h, id) is Some,
    ensures
        ascending(h, insert_id(h, s, id)),
        insert_id(h, s, id).to_multiset() == s.to_multiset().insert(id),
        forall|x: usize| #[trigger] insert_id(h, s, id).contains(x) ==> x == id || s.contains(x),
    decreases s.len(),
{
    broadcast use vstd::seq_lib::group_to_multiset_ensures;

    let r = insert_id(h, s, id);
    if s.len() == 0 || id_index(h, s.last())->0 <= id_index(h, id)->0 {
        assert forall|i: int, j: int| 0 <= i < j < r.len() implies id_index(h, #[trigger] r[i])->0
            <= id_index(h, #[trigger] r[j])->0 by {
            if j == s.len() {
                assert(r[i] == s[i]);
                if i < s.len() - 1 {
                    assert(id_index(h, s[i])->0 <= id_index(h, s[s.len() - 1])->0);
                }
            } else {
                assert(r[i] == s[i] && r[j] == s[j]);
            }
        }
        assert forall|x: usize| #[trigger] r.contains(x) implies x == id || s.contains(x) by {
            let i = r.index_of(x);
            if i < s.len() {
                assert(s[i] == x);
            }
        }
    } else {
        let d = s.drop_last();
        assert forall|i: int| 0 <= i < d.len() implies id_index(h, #[trigger] d[i]) is Some by {
            assert(d[i] == s[i]);
        }
        assert forall|i: int, j: int| 0 <= i < j < d.len() implies id_index(h, #[trigger] d[i])->0
            <= id_index(h, #[trigger] d[j])->0 by {
            assert(d[i] == s[i] && d[j] == s[j]);
        }
        lemma_insert_ascending(h, d, id);
        let q = insert_id(h, d, id);
        assert(s =~= d.push(s.last()));
        assert forall|i: int| 0 <= i < r.len() implies id_index(h, #[trigger] r[i]) is Some by {
            if i < q.len() {
                assert(r[i] == q[i]);
            }
        }
        assert forall|i: int, j: int| 0 <= i < j < r.len() implies id_index(h, #[trigger] r[i])->0
            <= id_index(h, #[trigger] r[j])->0 by {
            assert(r[i] == q[i]);
            if j < q.len() {
                assert(r[j] == q[j]);
            } else {
                assert(q.contains(q[i]));
                if q[i] != id {
                    let k = d.index_of(q[i]);
                    assert(d[k] == s[k]);
                    assert(id_index(h, s[k])->0 <= id_index(h, s[s.len() - 1])->0);
                }
            }
        }
        assert(r.to_multiset() =~= s.to_multiset().insert(id));
        assert forall|x: usize| #[trigger] r.contains(x) implies x == id || s.contains(x) by {
            let i = r.index_of(x);
            if i < q.len() {
                assert(q[i] == x);
                assert(q.contains(x));
                if x != id {
                    let k = d.index_of(x);
                    assert(s[k] == x);
                }
            } else {
                assert(s[s.len() - 1] == x);
            }
        }
    }
}

proof fn lemma_ordered(h: HeapModel, ids: Seq<usize>, k: int)
    requires
        0 <= k <= ids.len(),
    ensures
        ascending(h, index_ids(h, ids, k)),
        index_ids(h, ids, k).to_multiset().add(name_ids(h, ids, k).to_multiset()) == ids.take(k).to_multiset(),
        forall|i: int| 0 <= i < name_ids(h, ids, k).len() ==> id_index(h, #[trigger] name_ids(h, ids, k)[i]) is None,
    decreases k,
{
    broadcast use vstd::seq_lib::group_to_multiset_ensures;

    if k > 0 {
        lemma_ordered(h, ids, k - 1);
        assert(ids.take(k) =~= ids.take(k - 1).push(ids[k - 1]));
        if id_index(h, ids[k - 1]) is Some {
            lemma_insert_ascending(h, index_ids(h, ids, k - 1), ids[k - 1]);
        }
        assert(index_ids(h, ids, k).to_multiset().add(name_ids(h, ids, k).to_multiset())
            =~= ids.take(k).to_multiset());
    } else {
        assert(ids.take(0) =~= Seq::<usize>::empty());
        assert(index_ids(h, ids, k).to_multiset().add(name_ids(h, ids, k).to_multiset())
            =~= ids.take(k).to_multiset());
    }
}

/// Listing keys in order loses none and repeats none; array indices come first and
/// ascend, and what follows them is no array index.
pub proof fn law_key_order(h: HeapModel, ids: Seq<usize>)
    ensures
        ordered_ids(h, ids).to_multiset() == ids.to_multiset(),
        exists|n: int|
            0 <= n <= ids.len() && ordered_ids(h, ids).len() == ids.len() && #[trigger] ascending(
                h,
                ordered_ids(h, ids).take(n),
            ) && forall|i: int| n <= i < ids.len() ==> id_index(h, #[trigger] ordered_ids(h, ids)[i]) is None,
{
    broadcast use vstd::seq_lib::group_to_multiset_ensures;

    lemma_ordered(h, ids, ids.len() as int);
    assert(ids.take(ids.len() as int) =~= ids);
    let a = index_ids(h, ids, ids.len() as int);
    let b = name_ids(h, ids, ids.len() as int);
    vstd::seq_lib::lemma_multiset_commutative(a, b);
    assert((a + b).to_multiset() == ids.to_multiset());
    vstd::seq_lib::to_multiset_len(a + b);
    vstd::seq_lib::to_multiset_len(ids);
    assert((a + b).len() == ids.len());
    assert((a + b).take(a.len() as int) =~= a);
    assert forall|i: int| a.len() <= i < ids.len() implies id_index(h, #[trigger] ordered_ids(h, ids)[i]) is None by {
        assert(ordered_ids(h, ids)[i] == b[i - a.len()]);
    }
}

} // verus!
