//! `JSON.parse` and `JSON.stringify`.
use vstd::prelude::*;

use crate::convert::{as_number, error, is_error, js_number, number_value, text_of, value_number};
use crate::ctx::{
    Ctx, Intrinsic, arg, arg_of, ctor_proto, gives_error, gives_text, gives_value, only_heap,
    valid_args,
};
use crate::decimal::{parse_double, text_double};
use crate::double::{
    SIGN, below, finite, flt, from_i64, int_double, is_finite, is_nan, magnitude, nan,
    saturated, to_i64, zero,
};
use crate::heap::{Heap, HeapModel, JsObject, ObjModel, plain_object};
use crate::internal_methods::{lemma_lookup_key, lemma_prop_refs};
use crate::json_text::{
    Parser, at_position, indent, json_space_end, lemma_json_space_end, newline_indent,
    number_end, quote_units, quoted, string_literal,
};
use crate::key_order::{ordered_ids, shaped_data, shaped_slot, text_ids};
use crate::number_format::{number_string, number_to_string};
use crate::properties::{Prop, PropBody, has_key, index_of_key, lookup};
use crate::text::{copy_range, push_all, same_units, to_well_formed, utf16, utf16_of, well_formed};
use crate::value::{Attrs, JsValue, Kind, PropKey, Throw, all_attrs};

verus! {

// ---------------------------------------------------------------------------
// Stringify
// ---------------------------------------------------------------------------

/// Why a value cannot be written.
#[derive(Clone, Copy, PartialEq, Eq, Structural, Debug)]
pub enum WriteErr {
    /// An object contains itself.
    Cyclic,
    /// A big integer.
    BigInt,
}

/// The value that a text names in an object, `undefined` of an accessor.
pub open spec fn member_value(m: ObjModel, id: usize) -> JsValue {
    match lookup(m.named.list, PropKey::Text(id)) {
        Some(p) => match p.body {
            PropBody::Data(v) => v,
            PropBody::Accessor(_, _) => JsValue::Undefined,
        },
        None => JsValue::Undefined,
    }
}

/// Names and values of the enumerable properties of an object, in order.
pub open spec fn enumerable_members(h: HeapModel, o: usize) -> Seq<(usize, JsValue)> {
    let m = h.objects[o as int];
    ordered_ids(h, text_ids(m.named.list, m.named.list.len() as int, true)).map_values(
        |id: usize| (id, member_value(m, id)),
    )
}

/// The value that a name stands for in an object; `None` where it has no such property,
/// or an accessor.
pub open spec fn named_value(h: HeapModel, o: usize, name: Seq<u16>) -> Option<JsValue> {
    if h.has_text(name) {
        match lookup(h.objects[o as int].named.list, PropKey::Text(h.text_id(name))) {
            Some(p) => match p.body {
                PropBody::Data(v) => if v == JsValue::Hole {
                    None
                } else {
                    Some(v)
                },
                PropBody::Accessor(_, _) => None,
            },
            None => None,
        }
    } else {
        None
    }
}

/// Names and values of the properties that the first `k` names of a list pick.
pub open spec fn listed_members(h: HeapModel, o: usize, names: Seq<Seq<u16>>, k: int) -> Seq<
    (usize, JsValue),
>
    decreases k,
{
    if k <= 0 {
        seq![]
    } else {
        let head = listed_members(h, o, names, k - 1);
        match named_value(h, o, names[k - 1]) {
            Some(v) => head.push((h.text_id(names[k - 1]), v)),
            None => head,
        }
    }
}

/// Names and values of the properties of an object that are written.
pub open spec fn members(h: HeapModel, o: usize, list: Option<Seq<Seq<u16>>>) -> Seq<
    (usize, JsValue),
> {
    match list {
        Some(names) => listed_members(h, o, names, names.len() as int),
        None => enumerable_members(h, o),
    }
}

/// What goes between the name of a property and its value.
pub open spec fn colon(unit: Seq<u16>) -> Seq<u16> {
    if unit.len() == 0 {
        seq![0x3au16]
    } else {
        seq![0x3au16, 0x20]
    }
}

/// The JSON text of a value inside the objects `seen`; `None` where it has none.
pub open spec fn json_value(
    h: HeapModel,
    v: JsValue,
    unit: Seq<u16>,
    seen: Seq<usize>,
    list: Option<Seq<Seq<u16>>>,
) -> Result<Option<Seq<u16>>, WriteErr>
    decreases h.objects.len() - seen.len(), 0int,
{
    match v {
        JsValue::Text(n) => Ok(Some(quoted(h.texts[n as int]))),
        JsValue::Smi(n) => Ok(Some(number_string(int_double(n as int)))),
        JsValue::Double(b) => Ok(
            Some(
                if is_finite(b) {
                    number_string(b)
                } else {
                    utf16_of("null"@)
                },
            ),
        ),
        JsValue::Bool(true) => Ok(Some(utf16_of("true"@))),
        JsValue::Bool(false) => Ok(Some(utf16_of("false"@))),
        JsValue::Null => Ok(Some(utf16_of("null"@))),
        JsValue::BigInt(_) => Err(WriteErr::BigInt),
        JsValue::Object(o) => {
            let m = h.objects[o as int];
            if m.kind == Kind::Function {
                Ok(None)
            } else if seen.contains(o) || seen.len() >= h.objects.len() {
                Err(WriteErr::Cyclic)
            } else if m.kind == Kind::Array {
                match json_elements(
                    h,
                    m.elements,
                    m.elements.len() as int,
                    unit,
                    seen.push(o),
                    list,
                ) {
                    Err(e) => Err(e),
                    Ok(t) => Ok(
                        Some(
                            if m.elements.len() == 0 {
                                seq![0x5bu16, 0x5d]
                            } else {
                                seq![0x5bu16] + t + indent(unit, seen.len()) + seq![0x5du16]
                            },
                        ),
                    ),
                }
            } else {
                let ms = members(h, o, list);
                match json_members(h, ms, ms.len() as int, unit, seen.push(o), list) {
                    Err(e) => Err(e),
                    Ok(t) => Ok(
                        Some(
                            if t.len() == 0 {
                                seq![0x7bu16, 0x7d]
                            } else {
                                seq![0x7bu16] + t + indent(unit, seen.len()) + seq![0x7du16]
                            },
                        ),
                    ),
                }
            }
        },
        _ => Ok(None),
    }
}

/// The first `k` elements of an array: holes, and what has no JSON text, are `null`.
pub open spec fn json_elements(
    h: HeapModel,
    s: Seq<JsValue>,
    k: int,
    unit: Seq<u16>,
    seen: Seq<usize>,
    list: Option<Seq<Seq<u16>>>,
) -> Result<Seq<u16>, WriteErr>
    decreases h.objects.len() - seen.len(), k,
{
    if k <= 0 {
        Ok(seq![])
    } else {
        match json_elements(h, s, k - 1, unit, seen, list) {
            Err(e) => Err(e),
            Ok(head) => match json_value(h, s[k - 1], unit, seen, list) {
                Err(e) => Err(e),
                Ok(t) => Ok(
                    (if k == 1 {
                        head
                    } else {
                        head + seq![0x2cu16]
                    }) + indent(unit, seen.len()) + (match t {
                        Some(text) => text,
                        None => utf16_of("null"@),
                    }),
                ),
            },
        }
    }
}

/// The first `k` properties of an object: those whose value has no JSON text are left
/// out.
pub open spec fn json_members(
    h: HeapModel,
    ms: Seq<(usize, JsValue)>,
    k: int,
    unit: Seq<u16>,
    seen: Seq<usize>,
    list: Option<Seq<Seq<u16>>>,
) -> Result<Seq<u16>, WriteErr>
    decreases h.objects.len() - seen.len(), k,
{
    if k <= 0 {
        Ok(seq![])
    } else {
        match json_members(h, ms, k - 1, unit, seen, list) {
            Err(e) => Err(e),
            Ok(head) => match json_value(h, ms[k - 1].1, unit, seen, list) {
                Err(e) => Err(e),
                Ok(None) => Ok(head),
                Ok(Some(text)) => Ok(
                    (if head.len() == 0 {
                        head
                    } else {
                        head + seq![0x2cu16]
                    }) + indent(unit, seen.len()) + quoted(h.texts[ms[k - 1].0 as int]) + colon(
                        unit,
                    ) + text,
                ),
            },
        }
    }
}

/// Numbers below `n` of which none occurs twice are at most `n`.
proof fn lemma_distinct_bounded(s: Seq<usize>, n: nat)
    requires
        s.no_duplicates(),
        forall|i: int| 0 <= i < s.len() ==> #[trigger] s[i] < n,
    ensures
        s.len() <= n,
    decreases n,
{
    if n > 0 {
        if exists|i: int| 0 <= i < s.len() && #[trigger] s[i] == n - 1 {
            let i = choose|i: int| 0 <= i < s.len() && #[trigger] s[i] == n - 1;
            let t = s.remove(i);
            assert forall|j: int| 0 <= j < t.len() implies #[trigger] t[j] < n - 1 by {
                if j < i {
                    assert(t[j] == s[j]);
                } else {
                    assert(t[j] == s[j + 1]);
                }
            }
            lemma_distinct_bounded(t, (n - 1) as nat);
        } else {
            lemma_distinct_bounded(s, (n - 1) as nat);
        }
    } else if s.len() > 0 {
        assert(s[0] < 0);
    }
}

/// Names and values of the enumerable properties of an object, in order.
pub fn enumerable_own_keys(heap: &Heap, obj: usize) -> (r: Vec<(usize, JsValue)>)
    requires
        heap.wf(),
        obj < heap@.objects.len(),
    ensures
        r@ == enumerable_members(heap@, obj),
        forall|i: int|
            0 <= i < r@.len() ==> (#[trigger] r@[i]).0 < heap@.texts.len() && heap@.valid(r@[i].1),
{
    let ids: Vec<usize> = crate::key_order::enumerable_names(heap, obj);
    let o: &JsObject = heap.object(obj);
    let ghost m = o@;
    let mut out: Vec<(usize, JsValue)> = Vec::new();
    let mut i: usize = 0;
    while i < ids.len()
        invariant
            heap.wf(),
            o.named.wf(),
            m == o@,
            heap@.valid_refs(m),
            crate::key_order::valid_ids(heap@, ids@),
            i <= ids@.len(),
            out@ == ids@.take(i as int).map_values(|id: usize| (id, member_value(m, id))),
            forall|k: int|
                0 <= k < out@.len() ==> (#[trigger] out@[k]).0 < heap@.texts.len() && heap@.valid(
                    out@[k].1,
                ),
        decreases ids@.len() - i,
    {
        let id: usize = ids[i];
        let v: JsValue = match o.named.get(PropKey::Text(id)) {
            Some(p) => {
                proof {
                    lemma_lookup_key(m.named.list, PropKey::Text(id));
                    assert(heap@.valid_prop(p));
                }
                match p.body {
                    PropBody::Data(v) => v,
                    PropBody::Accessor(_, _) => JsValue::Undefined,
                }
            },
            None => JsValue::Undefined,
        };
        out.push((id, v));
        proof {
            assert(out@ =~= ids@.take(i + 1).map_values(|id: usize| (id, member_value(m, id))));
        }
        i = i + 1;
    }
    proof {
        assert(ids@.take(i as int) =~= ids@);
    }
    out
}

/// Texts, seen from outside.
pub open spec fn list_views(list: Option<&Vec<Vec<u16>>>) -> Option<Seq<Seq<u16>>> {
    match list {
        Some(names) => Some(crate::text::views(names@)),
        None => None,
    }
}

/// Names and values of the properties of an object that are written.
fn written_members(heap: &Heap, obj: usize, list: Option<&Vec<Vec<u16>>>) -> (r: Vec<
    (usize, JsValue),
>)
    requires
        heap.wf(),
        obj < heap@.objects.len(),
    ensures
        r@ == members(heap@, obj, list_views(list)),
        forall|i: int|
            0 <= i < r@.len() ==> (#[trigger] r@[i]).0 < heap@.texts.len() && heap@.valid(r@[i].1),
{
    let names: &Vec<Vec<u16>> = match list {
        None => {
            return enumerable_own_keys(heap, obj);
        },
        Some(names) => names,
    };
    let ghost all = crate::text::views(names@);
    let mut out: Vec<(usize, JsValue)> = Vec::new();
    let mut i: usize = 0;
    while i < names.len()
        invariant
            heap.wf(),
            obj < heap@.objects.len(),
            all == crate::text::views(names@),
            i <= names@.len(),
            out@ == listed_members(heap@, obj, all, i as int),
            forall|k: int|
                0 <= k < out@.len() ==> (#[trigger] out@[k]).0 < heap@.texts.len() && heap@.valid(
                    out@[k].1,
                ),
        decreases names@.len() - i,
    {
        proof {
            assert(all[i as int] == names@[i as int]@);
        }
        match heap.find(names[i].as_slice()) {
            Some(id) => {
                let o: &JsObject = heap.object(obj);
                match o.named.get(PropKey::Text(id)) {
                    Some(p) => {
                        proof {
                            lemma_lookup_key(o@.named.list, PropKey::Text(id));
                            assert(heap@.valid_prop(p));
                        }
                        match p.body {
                            PropBody::Data(v) => {
                                if v != JsValue::Hole {
                                    out.push((id, v));
                                }
                            },
                            PropBody::Accessor(_, _) => {},
                        }
                    },
                    None => {},
                }
            },
            None => {},
        }
        i = i + 1;
    }
    out
}

/// Whether the objects around a value are in range and none occurs twice.
pub open spec fn valid_seen(h: HeapModel, seen: Seq<usize>) -> bool {
    &&& seen.no_duplicates()
    &&& forall|i: int| 0 <= i < seen.len() ==> #[trigger] seen[i] < h.objects.len()
}

/// Whether a result of writing is the expected one.
pub open spec fn wrote(
    r: Result<Option<Vec<u16>>, WriteErr>,
    expected: Result<Option<Seq<u16>>, WriteErr>,
) -> bool {
    match expected {
        Err(e) => r is Err && r->Err_0 == e,
        Ok(None) => r is Ok && r->Ok_0 is None,
        Ok(Some(t)) => r is Ok && r->Ok_0 is Some && r->Ok_0->0@ == t,
    }
}

/// Whether an object is among others.
fn is_seen(seen: &Vec<usize>, o: usize) -> (r: bool)
    ensures
        r == seen@.contains(o),
{
    let mut i: usize = 0;
    while i < seen.len()
        invariant
            i <= seen@.len(),
            forall|k: int| 0 <= k < i ==> #[trigger] seen@[k] != o,
        decreases seen@.len() - i,
    {
        if seen[i] == o {
            proof {
                assert(seen@[i as int] == o);
            }
            return true;
        }
        i = i + 1;
    }
    false
}

/// Writes a value; `None` where it has no JSON text (functions, symbols, `undefined`).
pub fn write_value(
    heap: &Heap,
    value: JsValue,
    unit: &[u16],
    seen: &mut Vec<usize>,
    list: Option<&Vec<Vec<u16>>>,
) -> (r: Result<Option<Vec<u16>>, WriteErr>)
    requires
        heap.wf(),
        heap@.valid(value),
        valid_seen(heap@, old(seen)@),
    ensures
        final(seen)@ == old(seen)@,
        wrote(r, json_value(heap@, value, unit@, old(seen)@, list_views(list))),
    decreases heap@.objects.len() - old(seen)@.len(), 0int,
{
    match value {
        JsValue::Text(n) => {
            let mut out: Vec<u16> = Vec::new();
            quote_units(heap.text(n).as_slice(), &mut out);
            proof {
                assert(out@ =~= quoted(heap@.texts[n as int]));
            }
            Ok(Some(out))
        },
        JsValue::Smi(n) => Ok(Some(number_to_string(from_i64(n as i64)))),
        JsValue::Double(b) => if finite(b) {
            Ok(Some(number_to_string(b)))
        } else {
            Ok(Some(utf16("null")))
        },
        JsValue::Bool(x) => if x {
            Ok(Some(utf16("true")))
        } else {
            Ok(Some(utf16("false")))
        },
        JsValue::Null => Ok(Some(utf16("null"))),
        JsValue::BigInt(_) => Err(WriteErr::BigInt),
        JsValue::Object(o) => {
            let kind: Kind = heap.object(o).kind;
            if kind == Kind::Function {
                return Ok(None);
            }
            if is_seen(seen, o) {
                return Err(WriteErr::Cyclic);
            }
            let ghost before = seen@;
            seen.push(o);
            proof {
                assert(seen@ == before.push(o));
                assert(valid_seen(heap@, seen@)) by {
                    assert forall|i: int, j: int|
                        0 <= i < seen@.len() && 0 <= j < seen@.len() && i != j implies seen@[i]
                        != seen@[j] by {
                        if i < before.len() {
                            assert(before.contains(before[i]));
                        }
                        if j < before.len() {
                            assert(before.contains(before[j]));
                        }
                    }
                }
                lemma_distinct_bounded(seen@, heap@.objects.len());
            }
            let result = if kind == Kind::Array {
                write_array(heap, o, unit, seen, list)
            } else {
                write_object(heap, o, unit, seen, list)
            };
            let _ = seen.pop();
            proof {
                assert(seen@ =~= before);
            }
            match result {
                Ok(t) => Ok(Some(t)),
                Err(e) => Err(e),
            }
        },
        _ => Ok(None),
    }
}

/// The JSON text of an array that lies inside all but the last of the objects `seen`.
pub open spec fn array_text(
    h: HeapModel,
    s: Seq<JsValue>,
    unit: Seq<u16>,
    seen: Seq<usize>,
    list: Option<Seq<Seq<u16>>>,
) -> Result<Seq<u16>, WriteErr> {
    match json_elements(h, s, s.len() as int, unit, seen, list) {
        Err(e) => Err(e),
        Ok(t) => Ok(
            if s.len() == 0 {
                seq![0x5bu16, 0x5d]
            } else {
                seq![0x5bu16] + t + indent(unit, (seen.len() - 1) as nat) + seq![0x5du16]
            },
        ),
    }
}

/// The JSON text of an object that lies inside all but the last of the objects `seen`.
pub open spec fn object_text(
    h: HeapModel,
    o: usize,
    unit: Seq<u16>,
    seen: Seq<usize>,
    list: Option<Seq<Seq<u16>>>,
) -> Result<Seq<u16>, WriteErr> {
    let ms = members(h, o, list);
    match json_members(h, ms, ms.len() as int, unit, seen, list) {
        Err(e) => Err(e),
        Ok(t) => Ok(
            if t.len() == 0 {
                seq![0x7bu16, 0x7d]
            } else {
                seq![0x7bu16] + t + indent(unit, (seen.len() - 1) as nat) + seq![0x7du16]
            },
        ),
    }
}

/// Writes an array.
fn write_array(
    heap: &Heap,
    arr: usize,
    unit: &[u16],
    seen: &mut Vec<usize>,
    list: Option<&Vec<Vec<u16>>>,
) -> (r: Result<Vec<u16>, WriteErr>)
    requires
        heap.wf(),
        arr < heap@.objects.len(),
        valid_seen(heap@, old(seen)@),
        old(seen)@.len() > 0,
    ensures
        final(seen)@ == old(seen)@,
        match array_text(
            heap@,
            heap@.objects[arr as int].elements,
            unit@,
            old(seen)@,
            list_views(list),
        ) {
            Err(e) => r is Err && r->Err_0 == e,
            Ok(t) => r is Ok && r->Ok_0@ == t,
        },
    decreases heap@.objects.len() - old(seen)@.len(), 1int,
{
    let o: &JsObject = heap.object(arr);
    let ghost s = o@.elements;
    let ghost names = list_views(list);
    let ghost around = seen@;
    let mut out: Vec<u16> = Vec::new();
    out.push(0x5b);
    if o.elements.len() == 0 {
        out.push(0x5d);
        proof {
            assert(out@ =~= seq![0x5bu16, 0x5d]);
        }
        return Ok(out);
    }
    let mut i: usize = 0;
    let ghost mut text = Seq::<u16>::empty();
    proof {
        assert(out@ =~= seq![0x5bu16] + text);
    }
    while i < o.elements.len()
        invariant
            heap.wf(),
            s == o@.elements,
            s == heap@.objects[arr as int].elements,
            heap@.valid_refs(o@),
            around == seen@,
            around == old(seen)@,
            around.len() > 0,
            names == list_views(list),
            valid_seen(heap@, around),
            i <= s.len(),
            s.len() > 0,
            json_elements(heap@, s, i as int, unit@, around, names) == Ok::<Seq<u16>, WriteErr>(text),
            out@ == seq![0x5bu16] + text,
        decreases s.len() - i,
    {
        if i > 0 {
            out.push(0x2c);
        }
        newline_indent(unit, seen.len(), &mut out);
        proof {
            assert(heap@.valid(s[i as int]));
            assert(json_elements(heap@, s, i + 1, unit@, around, names) is Err ==> array_text(
                heap@,
                s,
                unit@,
                around,
                names,
            ) == Err::<Seq<u16>, WriteErr>(
                json_elements(heap@, s, i + 1, unit@, around, names)->Err_0,
            )) by {
                lemma_elements_err(heap@, s, i + 1, s.len() as int, unit@, around, names);
            }
        }
        match write_value(heap, o.elements[i], unit, seen, list) {
            Err(e) => {
                return Err(e);
            },
            Ok(Some(t)) => {
                push_all(&mut out, t.as_slice());
            },
            Ok(None) => {
                push_all(&mut out, utf16("null").as_slice());
            },
        }
        proof {
            text = json_elements(heap@, s, i + 1, unit@, around, names)->Ok_0;
            assert(out@ =~= seq![0x5bu16] + text);
        }
        i = i + 1;
    }
    newline_indent(unit, seen.len() - 1, &mut out);
    out.push(0x5d);
    proof {
        assert(out@ =~= seq![0x5bu16] + text + indent(unit@, (around.len() - 1) as nat) + seq![
            0x5du16,
        ]);
    }
    Ok(out)
}

proof fn lemma_elements_err(
    h: HeapModel,
    s: Seq<JsValue>,
    k: int,
    n: int,
    unit: Seq<u16>,
    seen: Seq<usize>,
    list: Option<Seq<Seq<u16>>>,
)
    requires
        0 <= k <= n,
    ensures
        json_elements(h, s, k, unit, seen, list) is Err ==> json_elements(h, s, n, unit, seen, list)
            == json_elements(h, s, k, unit, seen, list),
    decreases n - k,
{
    if k < n {
        lemma_elements_err(h, s, k, n - 1, unit, seen, list);
    }
}

proof fn lemma_members_err(
    h: HeapModel,
    ms: Seq<(usize, JsValue)>,
    k: int,
    n: int,
    unit: Seq<u16>,
    seen: Seq<usize>,
    list: Option<Seq<Seq<u16>>>,
)
    requires
        0 <= k <= n,
    ensures
        json_members(h, ms, k, unit, seen, list) is Err ==> json_members(
            h,
            ms,
            n,
            unit,
            seen,
            list,
        ) == json_members(h, ms, k, unit, seen, list),
    decreases n - k,
{
    if k < n {
        lemma_members_err(h, ms, k, n - 1, unit, seen, list);
    }
}

/// Writes an object.
fn write_object(
    heap: &Heap,
    obj: usize,
    unit: &[u16],
    seen: &mut Vec<usize>,
    list: Option<&Vec<Vec<u16>>>,
) -> (r: Result<Vec<u16>, WriteErr>)
    requires
        heap.wf(),
        obj < heap@.objects.len(),
        valid_seen(heap@, old(seen)@),
        old(seen)@.len() > 0,
    ensures
        final(seen)@ == old(seen)@,
        match object_text(heap@, obj, unit@, old(seen)@, list_views(list)) {
            Err(e) => r is Err && r->Err_0 == e,
            Ok(t) => r is Ok && r->Ok_0@ == t,
        },
    decreases heap@.objects.len() - old(seen)@.len(), 1int,
{
    let entries: Vec<(usize, JsValue)> = written_members(heap, obj, list);
    let ghost ms = entries@;
    let ghost names = list_views(list);
    let ghost around = seen@;
    let mut out: Vec<u16> = Vec::new();
    out.push(0x7b);
    let mut i: usize = 0;
    let ghost mut text = Seq::<u16>::empty();
    proof {
        assert(out@ =~= seq![0x7bu16] + text);
    }
    while i < entries.len()
        invariant
            heap.wf(),
            obj < heap@.objects.len(),
            ms == entries@,
            names == list_views(list),
            ms == members(heap@, obj, names),
            around == seen@,
            around == old(seen)@,
            around.len() > 0,
            valid_seen(heap@, around),
            i <= ms.len(),
            forall|i: int|
                0 <= i < ms.len() ==> (#[trigger] ms[i]).0 < heap@.texts.len() && heap@.valid(
                    ms[i].1,
                ),
            json_members(heap@, ms, i as int, unit@, around, names) == Ok::<Seq<u16>, WriteErr>(
                text,
            ),
            out@ == seq![0x7bu16] + text,
        decreases ms.len() - i,
    {
        let (name, v) = entries[i];
        proof {
            assert(heap@.valid(ms[i as int].1));
            lemma_members_err(heap@, ms, i + 1, ms.len() as int, unit@, around, names);
        }
        match write_value(heap, v, unit, seen, list) {
            Err(e) => {
                return Err(e);
            },
            Ok(None) => {},
            Ok(Some(t)) => {
                if out.len() > 1 {
                    out.push(0x2c);
                }
                newline_indent(unit, seen.len(), &mut out);
                quote_units(heap.text(name).as_slice(), &mut out);
                out.push(0x3a);
                if unit.len() > 0 {
                    out.push(0x20);
                }
                push_all(&mut out, t.as_slice());
            },
        }
        proof {
            text = json_members(heap@, ms, i + 1, unit@, around, names)->Ok_0;
            assert(out@ =~= seq![0x7bu16] + text);
        }
        i = i + 1;
    }
    if out.len() > 1 {
        newline_indent(unit, seen.len() - 1, &mut out);
    }
    out.push(0x7d);
    proof {
        if text.len() == 0 {
            assert(out@ =~= seq![0x7bu16, 0x7d]);
        } else {
            assert(out@ =~= seq![0x7bu16] + text + indent(unit@, (around.len() - 1) as nat) + seq![
                0x7du16,
            ]);
        }
    }
    Ok(out)
}

/// The indent unit that the `space` argument asks for: up to ten units of a text, up to
/// ten spaces of a number, nothing of anything else.
pub open spec fn gap_of(h: HeapModel, space: JsValue) -> Seq<u16> {
    match space {
        JsValue::Text(n) => {
            let t = h.texts[n as int];
            well_formed(
                if t.len() > 10 {
                    t.take(10)
                } else {
                    t
                },
            )
        },
        _ => match as_number(space) {
            Some(b) => if is_nan(b) || below(b, int_double(1)) {
                seq![]
            } else {
                Seq::new(
                    if saturated(b) > 10 {
                        10
                    } else if saturated(b) < 0 {
                        0
                    } else {
                        saturated(b) as nat
                    },
                    |i: int| 0x20u16,
                )
            },
            None => seq![],
        },
    }
}

/// The indent unit that the `space` argument asks for.
fn gap(heap: &Heap, space: JsValue) -> (r: Vec<u16>)
    requires
        heap@.valid(space),
    ensures
        r@ == gap_of(heap@, space),
{
    let mut out: Vec<u16> = Vec::new();
    match space {
        JsValue::Text(n) => {
            let t: &Vec<u16> = heap.text(n);
            let len: usize = if t.len() > 10 {
                10
            } else {
                t.len()
            };
            let head: Vec<u16> = copy_range(t.as_slice(), 0, len);
            proof {
                assert(head@ =~= (if t@.len() > 10 {
                    t@.take(10)
                } else {
                    t@
                }));
            }
            return to_well_formed(head.as_slice());
        },
        _ => {},
    }
    match value_number(space) {
        Some(b) => {
            if nan(b) || flt(b, from_i64(1)) {
                return out;
            }
            let n: i64 = to_i64(b);
            let count: i64 = if n > 10 {
                10
            } else if n < 0 {
                0
            } else {
                n
            };
            let mut i: i64 = 0;
            while i < count
                invariant
                    0 <= i <= count,
                    out@ == Seq::new(i as nat, |i: int| 0x20u16),
                decreases count - i,
            {
                out.push(0x20);
                proof {
                    assert(out@ =~= Seq::new((i + 1) as nat, |i: int| 0x20u16));
                }
                i = i + 1;
            }
            proof {
                assert(out@ =~= gap_of(heap@, space));
            }
        },
        None => {},
    }
    out
}

/// How many elements an array claims to have: what its `length` says, else how many it
/// holds.
pub open spec fn claimed_length(h: HeapModel, o: usize) -> int {
    match shaped_data(h, o, utf16_of("length"@)) {
        Some(JsValue::Smi(n)) => if n < 0 {
            0
        } else {
            n as int
        },
        Some(JsValue::Double(b)) => if is_finite(b) && !below(b, int_double(0)) {
            if saturated(b) > u32::MAX {
                u32::MAX as int
            } else if saturated(b) < 0 {
                0
            } else {
                saturated(b)
            }
        } else {
            h.objects[o as int].elements.len() as int
        },
        _ => h.objects[o as int].elements.len() as int,
    }
}

/// How many elements an array claims to have.
fn array_length(heap: &Heap, obj: usize) -> (r: u64)
    requires
        heap.wf(),
        obj < heap@.objects.len(),
    ensures
        r as int == claimed_length(heap@, obj),
{
    match shaped_slot(heap, obj, utf16("length").as_slice()) {
        Some(JsValue::Smi(n)) => {
            return if n < 0 {
                0
            } else {
                n as u64
            };
        },
        Some(JsValue::Double(b)) => {
            if finite(b) && !flt(b, from_i64(0)) {
                let n: i64 = to_i64(b);
                return if n > 0xffff_ffff {
                    0xffff_ffff
                } else if n < 0 {
                    0
                } else {
                    n as u64
                };
            }
        },
        _ => {},
    }
    heap.object(obj).elements.len() as u64
}

/// The name that an element of a list of names picks.
pub open spec fn listed_name(h: HeapModel, v: JsValue) -> Option<Seq<u16>> {
    match v {
        JsValue::Text(n) => Some(well_formed(h.texts[n as int])),
        _ => match as_number(v) {
            Some(b) => Some(number_string(b)),
            None => None,
        },
    }
}

/// The names that the first `k` elements pick, each once.
pub open spec fn listed_names(h: HeapModel, s: Seq<JsValue>, k: int) -> Seq<Seq<u16>>
    decreases k,
{
    if k <= 0 {
        seq![]
    } else {
        let head = listed_names(h, s, k - 1);
        match listed_name(h, s[k - 1]) {
            Some(name) => if head.contains(name) {
                head
            } else {
                head.push(name)
            },
            None => head,
        }
    }
}

/// The names that a `replacer` allows: those that an array lists, else all.
pub open spec fn allowed_names(h: HeapModel, replacer: JsValue) -> Option<Seq<Seq<u16>>> {
    match replacer {
        JsValue::Object(o) => {
            let m = h.objects[o as int];
            if m.kind == Kind::Array {
                Some(
                    listed_names(
                        h,
                        m.elements,
                        if claimed_length(h, o) < m.elements.len() {
                            claimed_length(h, o)
                        } else {
                            m.elements.len() as int
                        },
                    ),
                )
            } else {
                None
            }
        },
        _ => None,
    }
}

/// Whether a text is among others.
fn has_name(list: &Vec<Vec<u16>>, name: &[u16]) -> (r: bool)
    ensures
        r == crate::text::views(list@).contains(name@),
{
    let ghost all = crate::text::views(list@);
    let mut i: usize = 0;
    while i < list.len()
        invariant
            all == crate::text::views(list@),
            i <= list@.len(),
            forall|k: int| 0 <= k < i ==> #[trigger] all[k] != name@,
        decreases list@.len() - i,
    {
        if same_units(list[i].as_slice(), name) {
            proof {
                assert(all[i as int] == name@);
            }
            return true;
        }
        proof {
            assert(all[i as int] == list@[i as int]@);
        }
        i = i + 1;
    }
    false
}

/// The names that a `replacer` allows.
fn property_list(heap: &Heap, replacer: JsValue) -> (r: Option<Vec<Vec<u16>>>)
    requires
        heap.wf(),
        heap@.valid(replacer),
    ensures
        match allowed_names(heap@, replacer) {
            Some(names) => r is Some && crate::text::views(r->0@) == names,
            None => r is None,
        },
{
    let obj: usize = match replacer {
        JsValue::Object(o) => o,
        _ => {
            return None;
        },
    };
    let o: &JsObject = heap.object(obj);
    if o.kind != Kind::Array {
        return None;
    }
    let claimed: u64 = array_length(heap, obj);
    let n: usize = if claimed < o.elements.len() as u64 {
        claimed as usize
    } else {
        o.elements.len()
    };
    let ghost s = o@.elements;
    let mut list: Vec<Vec<u16>> = Vec::new();
    let mut i: usize = 0;
    proof {
        assert(crate::text::views(list@) =~= seq![]);
    }
    while i < n
        invariant
            heap.wf(),
            heap@.valid_refs(o@),
            s == o@.elements,
            i <= n <= s.len(),
            crate::text::views(list@) == listed_names(heap@, s, i as int),
        decreases n - i,
    {
        let item: JsValue = o.elements[i];
        proof {
            assert(heap@.valid(s[i as int]));
        }
        let name: Option<Vec<u16>> = match item {
            JsValue::Text(t) => Some(to_well_formed(heap.text(t).as_slice())),
            _ => match value_number(item) {
                Some(b) => Some(number_to_string(b)),
                None => None,
            },
        };
        match name {
            Some(name) => {
                if !has_name(&list, name.as_slice()) {
                    let ghost before = list@;
                    list.push(name);
                    proof {
                        assert(crate::text::views(list@) =~= crate::text::views(before).push(name@));
                    }
                }
            },
            None => {},
        }
        i = i + 1;
    }
    Some(list)
}

/// `JSON.stringify(value, replacer, space)`: an array `replacer` lists the names of the
/// properties that are written; a function `replacer` and `toJSON` are not called.
pub fn json_stringify(ctx: &mut Ctx, _this: JsValue, args: &[JsValue]) -> (r: Result<
    JsValue,
    Throw,
>)
    requires
        old(ctx).wf(),
        valid_args(old(ctx).heap@, args@),
    ensures
        match json_value(
            old(ctx).heap@,
            arg_of(args@, 0),
            gap_of(old(ctx).heap@, arg_of(args@, 2)),
            seq![],
            allowed_names(old(ctx).heap@, arg_of(args@, 1)),
        ) {
            Ok(Some(t)) => gives_text(*old(ctx), *final(ctx), r, t),
            Ok(None) => gives_value(*old(ctx), *final(ctx), r, JsValue::Undefined),
            Err(WriteErr::Cyclic) => gives_error(
                *old(ctx),
                *final(ctx),
                r,
                "TypeError: Converting circular structure to JSON"@,
            ),
            Err(WriteErr::BigInt) => gives_error(
                *old(ctx),
                *final(ctx),
                r,
                "TypeError: Do not know how to serialize a BigInt"@,
            ),
        },
{
    let unit: Vec<u16> = gap(&ctx.heap, arg(args, 2));
    let list: Option<Vec<Vec<u16>>> = property_list(&ctx.heap, arg(args, 1));
    let mut seen: Vec<usize> = Vec::new();
    let names: Option<&Vec<Vec<u16>>> = match &list {
        Some(l) => Some(l),
        None => None,
    };
    proof {
        assert(seen@ =~= Seq::<usize>::empty());
    }
    match write_value(&ctx.heap, arg(args, 0), unit.as_slice(), &mut seen, names) {
        Ok(Some(t)) => ctx.text_value(t.as_slice()),
        Ok(None) => Ok(JsValue::Undefined),
        Err(WriteErr::Cyclic) => Err(error("TypeError: Converting circular structure to JSON")),
        Err(WriteErr::BigInt) => Err(error("TypeError: Do not know how to serialize a BigInt")),
    }
}

// ---------------------------------------------------------------------------
// Parse
// ---------------------------------------------------------------------------

/// The heap with a parsed property on an object: a key that is already there gets the
/// new value.
pub open spec fn with_member(h: HeapModel, o: usize, name: Seq<u16>, v: JsValue) -> HeapModel {
    let key = PropKey::Text(h.text_id(name));
    let m = h.objects[o as int];
    let named = if has_key(m.named.list, key) {
        m.named.updated(
            index_of_key(m.named.list, key),
            Prop { body: PropBody::Data(v), ..lookup(m.named.list, key)->0 },
        )
    } else {
        m.named.installed(Prop { key, attrs: all_attrs(), body: PropBody::Data(v) })
    };
    h.interned(name).with_object(o, ObjModel { named, ..m })
}

/// The heap with an element behind the others of an object.
pub open spec fn with_pushed(h: HeapModel, o: usize, v: JsValue) -> HeapModel {
    let m = h.objects[o as int];
    h.with_object(o, ObjModel { elements: m.elements.push(v), ..m })
}

/// Whether a word stands at `i`.
pub open spec fn word_at(s: Seq<u16>, i: int, word: Seq<u16>) -> bool {
    0 <= i && i + word.len() <= s.len() && s.subrange(i, i + word.len()) == word
}

/// A word at `i`, as a value.
pub open spec fn word_value(h: HeapModel, s: Seq<u16>, i: int, word: Seq<u16>, v: JsValue) -> Result<
    (HeapModel, JsValue, int),
    Seq<char>,
> {
    if word_at(s, i, word) {
        Ok((h, v, i + word.len()))
    } else {
        Err(at_position("Unexpected token at position "@, s, i))
    }
}

/// A number at `i`, as a value; a zero with a minus sign keeps it.
pub open spec fn number_literal(s: Seq<u16>, i: int) -> Result<(JsValue, int), Seq<char>> {
    match number_end(s, i) {
        None => Err("Invalid number"@),
        Some(end) => match text_double(s.subrange(i, end)) {
            None => Err("Invalid number"@),
            Some(b) => Ok(
                (
                    if magnitude(b) == 0 && s[i] == 0x2d {
                        JsValue::Double(SIGN)
                    } else {
                        number_value(b)
                    },
                    end,
                ),
            ),
        },
    }
}

/// Whether the unit at `i` is `c`.
pub open spec fn unit_at(s: Seq<u16>, i: int, c: u16) -> bool {
    0 <= i < s.len() && s[i] == c
}

/// A value at `i`: the heap with what it is made of, the value and the index behind it.
/// New objects and arrays get the prototypes `protos`.
pub open spec fn parsed_value(
    h: HeapModel,
    protos: (Option<usize>, Option<usize>),
    s: Seq<u16>,
    i: int,
) -> Result<(HeapModel, JsValue, int), Seq<char>>
    decreases s.len() - i, 3int,
{
    let a = json_space_end(s, i);
    if unit_at(s, a, 0x7b) && a >= i {
        let o = h.objects.len() as usize;
        let h1 = h.with_new(ObjModel { prototype: protos.0, ..plain_object(Kind::Ordinary) });
        let b = json_space_end(s, a + 1);
        if unit_at(s, b, 0x7d) {
            Ok((h1, JsValue::Object(o), b + 1))
        } else {
            parsed_members(h1, protos, o, s, a + 1)
        }
    } else if unit_at(s, a, 0x5b) && a >= i {
        let o = h.objects.len() as usize;
        let h1 = h.with_new(ObjModel { prototype: protos.1, ..plain_object(Kind::Array) });
        let b = json_space_end(s, a + 1);
        if unit_at(s, b, 0x5d) {
            Ok((h1, JsValue::Object(o), b + 1))
        } else {
            parsed_elements(h1, protos, o, s, a + 1)
        }
    } else if unit_at(s, a, 0x22) {
        match string_literal(s, a) {
            Err(e) => Err(e),
            Ok((t, b)) => Ok((h.interned(t), JsValue::Text(h.text_id(t)), b)),
        }
    } else if unit_at(s, a, 0x74) {
        word_value(h, s, a, utf16_of("true"@), JsValue::Bool(true))
    } else if unit_at(s, a, 0x66) {
        word_value(h, s, a, utf16_of("false"@), JsValue::Bool(false))
    } else if unit_at(s, a, 0x6e) {
        word_value(h, s, a, utf16_of("null"@), JsValue::Null)
    } else if 0 <= a < s.len() && (s[a] == 0x2d || 0x30 <= s[a] <= 0x39) {
        match number_literal(s, a) {
            Err(e) => Err(e),
            Ok((v, b)) => Ok((h, v, b)),
        }
    } else {
        Err(at_position("Unexpected token at position "@, s, a))
    }
}

/// The rest of an object, from the name of a property at `i` on.
pub open spec fn parsed_members(
    h: HeapModel,
    protos: (Option<usize>, Option<usize>),
    o: usize,
    s: Seq<u16>,
    i: int,
) -> Result<(HeapModel, JsValue, int), Seq<char>>
    decreases s.len() - i, 2int,
{
    match string_literal(s, json_space_end(s, i)) {
        Err(e) => Err(e),
        Ok((name, a)) => {
            let b = json_space_end(s, a);
            if !unit_at(s, b, 0x3a) || b < i {
                Err(at_position("Unexpected character at position "@, s, b))
            } else {
                match parsed_value(h, protos, s, b + 1) {
                    Err(e) => Err(e),
                    Ok((h1, v, c)) => {
                        let h2 = with_member(h1, o, name, v);
                        let d = json_space_end(s, c);
                        if unit_at(s, d, 0x2c) && d >= i {
                            parsed_members(h2, protos, o, s, d + 1)
                        } else if unit_at(s, d, 0x7d) {
                            Ok((h2, JsValue::Object(o), d + 1))
                        } else {
                            Err(at_position("Expected ',' or '}' at position "@, s, d))
                        }
                    },
                }
            }
        },
    }
}

/// The rest of an array, from a value at `i` on.
pub open spec fn parsed_elements(
    h: HeapModel,
    protos: (Option<usize>, Option<usize>),
    o: usize,
    s: Seq<u16>,
    i: int,
) -> Result<(HeapModel, JsValue, int), Seq<char>>
    decreases s.len() - i, 4int,
{
    match parsed_value(h, protos, s, i) {
        Err(e) => Err(e),
        Ok((h1, v, c)) => {
            let h2 = with_pushed(h1, o, v);
            let d = json_space_end(s, c);
            if unit_at(s, d, 0x2c) && d >= i {
                parsed_elements(h2, protos, o, s, d + 1)
            } else if unit_at(s, d, 0x5d) {
                Ok((h2, JsValue::Object(o), d + 1))
            } else {
                Err(at_position("Expected ',' or ']' at position "@, s, d))
            }
        },
    }
}

/// What a JSON text stands for: one value with nothing but white space around it.
pub open spec fn parsed_text(
    h: HeapModel,
    protos: (Option<usize>, Option<usize>),
    s: Seq<u16>,
) -> Result<(HeapModel, JsValue), Seq<char>> {
    match parsed_value(h, protos, s, 0) {
        Err(e) => Err(e),
        Ok((h1, v, a)) => if json_space_end(s, a) == s.len() {
            Ok((h1, v))
        } else {
            Err(at_position("Unexpected token at position "@, s, json_space_end(s, a)))
        },
    }
}

/// Whether reading gave what is expected.
pub open spec fn parsed(
    r: Result<JsValue, String>,
    h: HeapModel,
    pos: int,
    expected: Result<(HeapModel, JsValue, int), Seq<char>>,
) -> bool {
    match expected {
        Ok((h1, v, p)) => r == Ok::<JsValue, String>(v) && h == h1 && pos == p && h1.valid(v),
        Err(e) => r is Err && r->Err_0@ == e,
    }
}

/// Defines a parsed property on an object.
fn define_json_prop(heap: &mut Heap, obj: usize, name: &[u16], value: JsValue)
    requires
        old(heap).wf(),
        obj < old(heap)@.objects.len(),
        old(heap)@.valid(value),
        old(heap)@.objects[obj as int].kind == Kind::Ordinary,
        forall|i: int|
            0 <= i < old(heap)@.objects[obj as int].named.list.len() ==> (
            #[trigger] old(heap)@.objects[obj as int].named.list[i]).body is Data,
    ensures
        final(heap).wf(),
        final(heap)@ == with_member(old(heap)@, obj, name@, value),
        final(heap)@.objects[obj as int].kind == Kind::Ordinary,
        forall|i: int|
            0 <= i < final(heap)@.objects[obj as int].named.list.len() ==> (
            #[trigger] final(heap)@.objects[obj as int].named.list[i]).body is Data,
{
    let ghost m = heap@.objects[obj as int];
    let key: PropKey = PropKey::Text(heap.intern(name));
    let ghost h = heap@;
    let known: bool = heap.object(obj).named.get(key).is_some();
    let o = heap.object_mut(obj);
    let p: Prop = Prop { key, attrs: Attrs::all(), body: PropBody::Data(value) };
    proof {
        if known {
            lemma_lookup_key(m.named.list, key);
            assert(h.valid_prop(lookup(m.named.list, key)->0));
            lemma_prop_refs(
                h,
                m,
                index_of_key(m.named.list, key),
                Prop { body: PropBody::Data(value), ..lookup(m.named.list, key)->0 },
            );
        } else {
            lemma_prop_refs(h, m, 0, p);
        }
    }
    if known {
        o.named.store(key, value);
    } else {
        o.named.install(p);
    }
}

/// Appends an element to an array.
fn push_element(heap: &mut Heap, arr: usize, value: JsValue)
    requires
        old(heap).wf(),
        arr < old(heap)@.objects.len(),
        old(heap)@.valid(value),
    ensures
        final(heap).wf(),
        final(heap)@ == with_pushed(old(heap)@, arr, value),
{
    let ghost h = heap@;
    let o = heap.object_mut(arr);
    proof {
        let m = h.objects[arr as int];
        let e = m.elements.push(value);
        assert forall|i: int| 0 <= i < e.len() implies h.valid(#[trigger] e[i]) by {
            if i < m.elements.len() {
                assert(h.valid(m.elements[i]));
            }
        }
        assert(h.valid_refs(ObjModel { elements: e, ..m }));
    }
    o.elements.push(value);
}

proof fn lemma_extends(a: HeapModel, b: HeapModel, c: HeapModel, n: int, k: int)
    requires
        a.extends_to(b, n),
        b.extends_to(c, k),
        n <= k,
    ensures
        a.extends_to(c, n),
{
    assert forall|i: int| 0 <= i < n implies #[trigger] c.objects[i] == a.objects[i] by {
        assert(b.objects[i] == a.objects[i]);
    }
    assert(a.texts.is_prefix_of(c.texts));
}

impl<'p> Parser<'p> {
    /// Reads a word.
    pub fn literal(&mut self, word: &str, value: JsValue) -> (r: Result<JsValue, String>)
        requires
            old(self).wf(),
        ensures
            final(self).wf(),
            final(self).chars == old(self).chars,
            final(self).pos >= old(self).pos,
            word_at(old(self).chars@, old(self).pos as int, utf16_of(word@)) ==> r == Ok::<
                JsValue,
                String,
            >(value) && final(self).pos == old(self).pos + utf16_of(word@).len(),
            !word_at(old(self).chars@, old(self).pos as int, utf16_of(word@)) ==> r is Err
                && r->Err_0@ == at_position(
                "Unexpected token at position "@,
                old(self).chars@,
                old(self).pos as int,
            ),
    {
        let units: Vec<u16> = utf16(word);
        let n: usize = units.len();
        if self.chars.len() - self.pos >= n {
            let here: Vec<u16> = copy_range(self.chars, self.pos, self.pos + n);
            if same_units(here.as_slice(), units.as_slice()) {
                self.pos = self.pos + n;
                return Ok(value);
            }
        }
        Err(self.error_here("Unexpected token at position "))
    }

    /// Reads a number.
    pub fn number(&mut self) -> (r: Result<JsValue, String>)
        requires
            old(self).wf(),
            old(self).pos < old(self).chars@.len(),
        ensures
            final(self).wf(),
            final(self).chars == old(self).chars,
            final(self).pos >= old(self).pos,
            match number_literal(old(self).chars@, old(self).pos as int) {
                Ok((v, end)) => r == Ok::<JsValue, String>(v) && final(self).pos == end && end
                    > old(self).pos && !(v is Text || v is Object || v is Symbol || v is BigInt),
                Err(e) => r is Err && r->Err_0@ == e,
            },
    {
        let start: usize = self.pos;
        if !self.skip_number() {
            return Err("Invalid number".to_owned());
        }
        let text: Vec<u16> = copy_range(self.chars, start, self.pos);
        match parse_double(text.as_slice()) {
            None => Err("Invalid number".to_owned()),
            Some(b) => {
                if zero(b) && self.chars[start] == 0x2d {
                    Ok(JsValue::Double(SIGN))
                } else {
                    Ok(js_number(b))
                }
            },
        }
    }

    /// Reads a value.
    pub fn value(&mut self, heap: &mut Heap, protos: (Option<usize>, Option<usize>)) -> (r: Result<
        JsValue,
        String,
    >)
        requires
            old(self).wf(),
            old(heap).wf(),
            old(heap)@.valid_object(protos.0),
            old(heap)@.valid_object(protos.1),
        ensures
            final(self).wf(),
            final(self).chars == old(self).chars,
            final(heap).wf(),
            old(heap)@.extends_to(final(heap)@, old(heap)@.objects.len() as int),
            parsed(
                r,
                final(heap)@,
                final(self).pos as int,
                parsed_value(old(heap)@, protos, old(self).chars@, old(self).pos as int),
            ),
            r is Ok ==> final(self).pos > old(self).pos,
            final(self).pos >= old(self).pos,
        decreases old(self).chars@.len() - old(self).pos, 3int,
    {
        let ghost h = heap@;
        let ghost s = self.chars@;
        proof {
            assert(h.texts.is_prefix_of(h.texts));
            lemma_json_space_end(s, self.pos as int);
        }
        self.ws();
        let c: u16 = match self.peek() {
            None => {
                return Err(self.error_here("Unexpected token at position "));
            },
            Some(c) => c,
        };
        if c == 0x7b {
            return self.object(heap, protos);
        }
        if c == 0x5b {
            return self.array(heap, protos);
        }
        if c == 0x22 {
            return match self.string() {
                Err(e) => Err(e),
                Ok(t) => {
                    let n: usize = heap.intern(t.as_slice());
                    proof {
                        assert(h.texts.is_prefix_of(heap@.texts));
                    }
                    Ok(JsValue::Text(n))
                },
            };
        }
        proof {
            reveal_strlit("true");
            reveal_strlit("false");
            reveal_strlit("null");
            lemma_word_len("true"@);
            lemma_word_len("false"@);
            lemma_word_len("null"@);
        }
        if c == 0x74 {
            return self.literal("true", JsValue::Bool(true));
        }
        if c == 0x66 {
            return self.literal("false", JsValue::Bool(false));
        }
        if c == 0x6e {
            return self.literal("null", JsValue::Null);
        }
        if c == 0x2d || (0x30 <= c && c <= 0x39) {
            return self.number();
        }
        Err(self.error_here("Unexpected token at position "))
    }

    /// Reads an object, from its brace on.
    fn object(&mut self, heap: &mut Heap, protos: (Option<usize>, Option<usize>)) -> (r: Result<
        JsValue,
        String,
    >)
        requires
            old(self).wf(),
            old(heap).wf(),
            old(heap)@.valid_object(protos.0),
            old(heap)@.valid_object(protos.1),
            unit_at(old(self).chars@, old(self).pos as int, 0x7b),
        ensures
            final(self).wf(),
            final(self).chars == old(self).chars,
            final(heap).wf(),
            old(heap)@.extends_to(final(heap)@, old(heap)@.objects.len() as int),
            parsed(
                r,
                final(heap)@,
                final(self).pos as int,
                parsed_value(old(heap)@, protos, old(self).chars@, old(self).pos as int),
            ),
            r is Ok ==> final(self).pos > old(self).pos,
            final(self).pos >= old(self).pos,
        decreases old(self).chars@.len() - old(self).pos, 2int,
    {
        let ghost h = heap@;
        let ghost s = self.chars@;
        let ghost start = self.pos as int;
        let ghost n = h.objects.len() as int;
        proof {
            assert(json_space_end(s, start) == start);
            lemma_json_space_end(s, start + 1);
        }
        let len: usize = self.chars.len();
        self.pos = self.pos + 1;
        let mut fresh: JsObject = JsObject::plain(Kind::Ordinary);
        fresh.prototype = protos.0;
        proof {
            assert(fresh@ == ObjModel { prototype: protos.0, ..plain_object(Kind::Ordinary) });
        }
        let obj: usize = heap.allocate(fresh);
        let ghost h1 = heap@;
        let begin: usize = self.pos;
        proof {
            assert(h.texts.is_prefix_of(heap@.texts));
        }
        self.ws();
        if self.pos < self.chars.len() && self.chars[self.pos] == 0x7d {
            self.pos = self.pos + 1;
            return Ok(JsValue::Object(obj));
        }
        self.pos = begin;
        proof {
            assert(parsed_value(h, protos, s, start) == parsed_members(h1, protos, obj, s, start + 1));
        }
        loop
            invariant
                self.wf(),
                self.chars == old(self).chars,
                s == self.chars@,
                h == old(heap)@,
                len == s.len(),
                heap.wf(),
                start == old(self).pos,
                start < self.pos,
                n == h.objects.len(),
                obj == n,
                n < heap@.objects.len(),
                h.valid_object(protos.0),
                h.valid_object(protos.1),
                h.extends_to(heap@, n),
                heap@.objects[n].kind == Kind::Ordinary,
                forall|i: int|
                    0 <= i < heap@.objects[n].named.list.len() ==> (
                    #[trigger] heap@.objects[n].named.list[i]).body is Data,
                parsed_value(h, protos, s, start) == parsed_members(
                    heap@,
                    protos,
                    obj,
                    s,
                    self.pos as int,
                ),
            decreases s.len() - self.pos,
        {
            let ghost at = self.pos as int;
            let ghost h2 = heap@;
            proof {
                lemma_json_space_end(s, at);
            }
            self.ws();
            let name: Vec<u16> = match self.string() {
                Err(e) => {
                    return Err(e);
                },
                Ok(t) => t,
            };
            proof {
                lemma_json_space_end(s, self.pos as int);
            }
            self.ws();
            match self.expect(0x3a) {
                Err(e) => {
                    return Err(e);
                },
                Ok(_) => {},
            }
            let result = self.value(heap, protos);
            proof {
                lemma_extends(h, h2, heap@, n, h2.objects.len() as int);
                assert(heap@.objects[n] == h2.objects[n]);
            }
            let v: JsValue = match result {
                Err(e) => {
                    return Err(e);
                },
                Ok(v) => v,
            };
            let ghost h3 = heap@;
            define_json_prop(heap, obj, name.as_slice(), v);
            proof {
                assert(h3.extends_to(heap@, n)) by {
                    assert(h3.texts.is_prefix_of(heap@.texts));
                }
                lemma_extends(h, h3, heap@, n, n);
                lemma_json_space_end(s, self.pos as int);
            }
            self.ws();
            match self.peek() {
                Some(0x2c) => {
                    self.pos = self.pos + 1;
                },
                Some(0x7d) => {
                    self.pos = self.pos + 1;
                    return Ok(JsValue::Object(obj));
                },
                _ => {
                    return Err(self.error_here("Expected ',' or '}' at position "));
                },
            }
        }
    }

    /// Reads an array, from its bracket on.
    fn array(&mut self, heap: &mut Heap, protos: (Option<usize>, Option<usize>)) -> (r: Result<
        JsValue,
        String,
    >)
        requires
            old(self).wf(),
            old(heap).wf(),
            old(heap)@.valid_object(protos.0),
            old(heap)@.valid_object(protos.1),
            unit_at(old(self).chars@, old(self).pos as int, 0x5b),
        ensures
            final(self).wf(),
            final(self).chars == old(self).chars,
            final(heap).wf(),
            old(heap)@.extends_to(final(heap)@, old(heap)@.objects.len() as int),
            parsed(
                r,
                final(heap)@,
                final(self).pos as int,
                parsed_value(old(heap)@, protos, old(self).chars@, old(self).pos as int),
            ),
            r is Ok ==> final(self).pos > old(self).pos,
            final(self).pos >= old(self).pos,
        decreases old(self).chars@.len() - old(self).pos, 2int,
    {
        let ghost h = heap@;
        let ghost s = self.chars@;
        let ghost start = self.pos as int;
        let ghost n = h.objects.len() as int;
        proof {
            assert(json_space_end(s, start) == start);
            lemma_json_space_end(s, start + 1);
        }
        let len: usize = self.chars.len();
        self.pos = self.pos + 1;
        let mut fresh: JsObject = JsObject::plain(Kind::Array);
        fresh.prototype = protos.1;
        proof {
            assert(fresh@ == ObjModel { prototype: protos.1, ..plain_object(Kind::Array) });
        }
        let arr: usize = heap.allocate(fresh);
        let ghost h1 = heap@;
        let begin: usize = self.pos;
        proof {
            assert(h.texts.is_prefix_of(heap@.texts));
        }
        self.ws();
        if self.pos < self.chars.len() && self.chars[self.pos] == 0x5d {
            self.pos = self.pos + 1;
            return Ok(JsValue::Object(arr));
        }
        self.pos = begin;
        proof {
            assert(parsed_value(h, protos, s, start) == parsed_elements(h1, protos, arr, s, start + 1));
        }
        loop
            invariant
                self.wf(),
                self.chars == old(self).chars,
                s == self.chars@,
                h == old(heap)@,
                len == s.len(),
                heap.wf(),
                start == old(self).pos,
                start < self.pos,
                n == h.objects.len(),
                arr == n,
                n < heap@.objects.len(),
                h.valid_object(protos.0),
                h.valid_object(protos.1),
                h.extends_to(heap@, n),
                parsed_value(h, protos, s, start) == parsed_elements(
                    heap@,
                    protos,
                    arr,
                    s,
                    self.pos as int,
                ),
            decreases s.len() - self.pos,
        {
            let ghost h2 = heap@;
            let result = self.value(heap, protos);
            proof {
                lemma_extends(h, h2, heap@, n, h2.objects.len() as int);
            }
            let v: JsValue = match result {
                Err(e) => {
                    return Err(e);
                },
                Ok(v) => v,
            };
            let ghost h3 = heap@;
            push_element(heap, arr, v);
            proof {
                assert(h3.extends_to(heap@, n)) by {
                    assert(h3.texts.is_prefix_of(heap@.texts));
                }
                lemma_extends(h, h3, heap@, n, n);
                lemma_json_space_end(s, self.pos as int);
            }
            self.ws();
            match self.peek() {
                Some(0x2c) => {
                    self.pos = self.pos + 1;
                },
                Some(0x5d) => {
                    self.pos = self.pos + 1;
                    return Ok(JsValue::Object(arr));
                },
                _ => {
                    return Err(self.error_here("Expected ',' or ']' at position "));
                },
            }
        }
    }
}

proof fn lemma_word_len(w: Seq<char>)
    ensures
        utf16_of(w).len() >= w.len(),
    decreases w.len(),
{
    if w.len() > 0 {
        lemma_word_len(w.drop_last());
    }
}

/// The text that `JSON.parse` reads; `None` of a symbol, which has none.
pub open spec fn source_text(h: HeapModel, args: Seq<JsValue>) -> Option<Seq<u16>> {
    match arg_of(args, 0) {
        JsValue::Symbol(_) => None,
        v => match as_number(v) {
            Some(b) => Some(number_string(b)),
            None => Some(text_of(h, v)),
        },
    }
}

/// The prototypes of the objects and arrays of a realm.
pub open spec fn realm_protos(h: HeapModel, global: Option<usize>) -> (Option<usize>, Option<usize>) {
    (ctor_proto(h, global, 0), ctor_proto(h, global, 1))
}

/// `JSON.parse(text)`: the value that the text spells, or a `SyntaxError` that says
/// where it does not. A reviver is not called.
pub fn json_parse(ctx: &mut Ctx, _this: JsValue, args: &[JsValue]) -> (r: Result<JsValue, Throw>)
    requires
        old(ctx).wf(),
        valid_args(old(ctx).heap@, args@),
    ensures
        match source_text(old(ctx).heap@, args@) {
            None => gives_error(
                *old(ctx),
                *final(ctx),
                r,
                "TypeError: Cannot convert a Symbol value to a string"@,
            ),
            Some(s) => match parsed_text(
                old(ctx).heap@,
                realm_protos(old(ctx).heap@, old(ctx).global),
                s,
            ) {
                Ok((h, v)) => only_heap(*old(ctx), *final(ctx), h) && r == Ok::<JsValue, Throw>(v)
                    && h.valid(v),
                Err(e) => {
                    &&& r is Err
                    &&& is_error(r->Err_0, "SyntaxError: "@ + e)
                    &&& only_heap(*old(ctx), *final(ctx), final(ctx).heap@)
                    &&& old(ctx).heap@.extends_to(
                        final(ctx).heap@,
                        old(ctx).heap@.objects.len() as int,
                    )
                },
            },
        },
{
    let v: JsValue = arg(args, 0);
    let text: Vec<u16> = match v {
        JsValue::Symbol(_) => {
            return Err(error("TypeError: Cannot convert a Symbol value to a string"));
        },
        _ => match value_number(v) {
            Some(b) => number_to_string(b),
            None => ctx.to_string(v),
        },
    };
    let protos: (Option<usize>, Option<usize>) = (
        ctx.ctor_prototype(Intrinsic::ObjectCtor),
        ctx.ctor_prototype(Intrinsic::ArrayCtor),
    );
    let mut parser: Parser = Parser { chars: text.as_slice(), pos: 0 };
    let result = match parser.value(&mut ctx.heap, protos) {
        Err(e) => {
            return Err(syntax_error(e));
        },
        Ok(v) => v,
    };
    parser.ws();
    if parser.pos != parser.chars.len() {
        return Err(syntax_error(parser.error_here("Unexpected token at position ")));
    }
    Ok(result)
}

/// A `SyntaxError` with a message.
fn syntax_error(message: String) -> (r: Throw)
    ensures
        is_error(r, "SyntaxError: "@ + message@),
{
    let mut s: String = "SyntaxError: ".to_owned();
    s.append(message.as_str());
    Throw::Error(s)
}

} // verus!
