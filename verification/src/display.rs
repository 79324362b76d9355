//! Texts of values for a reader.
use vstd::prelude::*;

use crate::bigint::{bigint_text, bigint_units};
use crate::convert::{display, display_text};
use crate::heap::{Heap, HeapModel, JsObject, ObjModel};
use crate::iterator::{
    ITER_KIND_ARRAY_ENTRIES, ITER_KIND_ARRAY_KEYS, ITER_KIND_ARRAY_VALUES,
    ITER_KIND_MAP_ENTRIES, ITER_KIND_MAP_KEYS, ITER_KIND_MAP_VALUES, ITER_KIND_SET_VALUES,
};
use crate::promise::{STATE_FULFILLED, STATE_REJECTED};
use crate::properties::{PropBody, index_of_key, lookup};
use crate::text::{nat_text, push_nat, to_chars, to_well_formed, utf16, utf16_of, well_formed};
use crate::value::{JsValue, Kind, PropKey};

verus! {

/// How deep a value is shown.
pub const MAX_DEPTH: usize = 8;

// ---------------------------------------------------------------------------
// Properties
// ---------------------------------------------------------------------------

/// The value of an own data property.
pub open spec fn own_data(h: HeapModel, o: usize, name: Seq<char>) -> Option<JsValue> {
    let t = utf16_of(name);
    if h.has_text(t) {
        match lookup(h.objects[o as int].named.list, PropKey::Text(h.text_id(t))) {
            Some(p) => match p.body {
                PropBody::Data(v) => Some(v),
                _ => None,
            },
            None => None,
        }
    } else {
        None
    }
}

/// The text of an own data property that is a text.
pub open spec fn own_text(h: HeapModel, o: usize, name: Seq<char>) -> Option<Seq<u16>> {
    match own_data(h, o, name) {
        Some(JsValue::Text(n)) => Some(well_formed(h.texts[n as int])),
        _ => None,
    }
}

/// The first data property along a chain of up to `n` objects that is a text, or an object.
pub open spec fn chain_data(
    h: HeapModel,
    o: Option<usize>,
    name: Seq<char>,
    text: bool,
    n: nat,
) -> Option<JsValue>
    decreases n,
{
    match o {
        None => None,
        Some(k) => if n == 0 {
            None
        } else {
            match own_data(h, k, name) {
                Some(JsValue::Text(t)) if text => Some(JsValue::Text(t)),
                Some(JsValue::Object(t)) if !text => Some(JsValue::Object(t)),
                _ => chain_data(h, h.objects[k as int].prototype, name, text, (n - 1) as nat),
            }
        },
    }
}

/// The first data property along the chain of an object that is a text, or an object.
pub open spec fn inherited(h: HeapModel, o: usize, name: Seq<char>, text: bool) -> Option<JsValue> {
    chain_data(h, Some(o), name, text, h.objects.len())
}

/// The value of an own data property.
fn own_str_prop(heap: &Heap, o: usize, name: &str) -> (r: Option<JsValue>)
    requires
        heap.wf(),
        o < heap@.objects.len(),
    ensures
        r == own_data(heap@, o, name@),
        r matches Some(v) ==> heap@.valid(v),
{
    let t: Vec<u16> = utf16(name);
    match heap.find(t.as_slice()) {
        None => None,
        Some(id) => {
            let object = heap.object(o);
            match object.named.get(PropKey::Text(id)) {
                Some(p) => match p.body {
                    PropBody::Data(v) => {
                        proof {
                            let list = object@.named.list;
                            assert(heap@.valid_prop(list[index_of_key(list, PropKey::Text(id))]));
                        }
                        Some(v)
                    },
                    _ => None,
                },
                None => None,
            }
        },
    }
}

/// The text of an own data property that is a text.
fn own_text_prop(heap: &Heap, o: usize, name: &str) -> (r: Option<Vec<u16>>)
    requires
        heap.wf(),
        o < heap@.objects.len(),
    ensures
        match own_text(heap@, o, name@) {
            Some(t) => r matches Some(v) && v@ == t,
            None => r is None,
        },
{
    match own_str_prop(heap, o, name) {
        Some(JsValue::Text(n)) => Some(to_well_formed(heap.text(n).as_slice())),
        _ => None,
    }
}

/// The first data property along the chain of an object that is a text, or an object.
fn chain_prop(heap: &Heap, o: usize, name: &str, text: bool) -> (r: Option<JsValue>)
    requires
        heap.wf(),
        o < heap@.objects.len(),
    ensures
        r == inherited(heap@, o, name@, text),
        r matches Some(v) ==> heap@.valid(v),
{
    let mut cur: Option<usize> = Some(o);
    let mut left: usize = heap.object_count();
    while left > 0
        invariant
            heap.wf(),
            heap@.valid_object(cur),
            inherited(heap@, o, name@, text) == chain_data(heap@, cur, name@, text, left as nat),
        decreases left,
    {
        let k: usize = match cur {
            None => {
                return None;
            },
            Some(k) => k,
        };
        match own_str_prop(heap, k, name) {
            Some(JsValue::Text(t)) => {
                if text {
                    return Some(JsValue::Text(t));
                }
            },
            Some(JsValue::Object(t)) => {
                if !text {
                    return Some(JsValue::Object(t));
                }
            },
            _ => {},
        }
        cur = heap.object(k).prototype;
        left = left - 1;
    }
    None
}

// ---------------------------------------------------------------------------
// What is shown
// ---------------------------------------------------------------------------

/// A name and a message: the name alone where there is no message.
pub open spec fn headed(name: Seq<u16>, message: Seq<u16>) -> Seq<u16> {
    if message.len() == 0 {
        name
    } else {
        name + utf16_of(": "@) + message
    }
}

/// How an error object is shown.
pub open spec fn shown_error(h: HeapModel, o: usize) -> Seq<u16> {
    headed(
        match own_text(h, o, "name"@) {
            Some(t) => t,
            None => utf16_of("Error"@),
        },
        match own_text(h, o, "message"@) {
            Some(t) => t,
            None => seq![],
        },
    )
}

/// How a function is shown.
pub open spec fn shown_function(h: HeapModel, o: usize) -> Seq<u16> {
    match own_text(h, o, "name"@) {
        Some(t) => if t.len() == 0 {
            utf16_of("[Function (anonymous)]"@)
        } else {
            utf16_of("[Function: "@) + t + utf16_of("]"@)
        },
        None => utf16_of("[Function (anonymous)]"@),
    }
}

/// How an iterator is shown.
pub open spec fn shown_iterator(m: ObjModel) -> Seq<u16> {
    if m.elements.len() == 0 {
        utf16_of("[Iterator]"@)
    } else {
        match m.elements[0] {
            JsValue::Smi(k) => if k == ITER_KIND_ARRAY_VALUES || k == ITER_KIND_ARRAY_ENTRIES || k
                == ITER_KIND_ARRAY_KEYS {
                utf16_of("[Array Iterator]"@)
            } else if k == ITER_KIND_MAP_ENTRIES || k == ITER_KIND_MAP_KEYS || k
                == ITER_KIND_MAP_VALUES {
                utf16_of("[Map Iterator]"@)
            } else if k == ITER_KIND_SET_VALUES {
                utf16_of("[Set Iterator]"@)
            } else {
                utf16_of("[Iterator]"@)
            },
            _ => utf16_of("[Iterator]"@),
        }
    }
}

/// How a regular expression is shown.
pub open spec fn shown_regexp(h: HeapModel, m: ObjModel) -> Seq<u16> {
    seq![0x2fu16] + well_formed(h.texts[m.inner[0]->Text_0 as int]) + seq![0x2fu16] + well_formed(
        h.texts[m.inner[1]->Text_0 as int],
    )
}

/// How an object is shown of which no sort of its own is known: by its `message` and
/// `name`, else by the name of its constructor.
pub open spec fn shown_plain(h: HeapModel, o: usize) -> Seq<u16> {
    match (own_text(h, o, "message"@), own_text(h, o, "name"@)) {
        (Some(message), Some(name)) => headed(name, message),
        (Some(message), None) => if message.len() > 0 {
            message
        } else {
            shown_by_class(h, o)
        },
        (None, _) => shown_by_class(h, o),
    }
}

/// How an object is shown by the name of its constructor.
pub open spec fn shown_by_class(h: HeapModel, o: usize) -> Seq<u16> {
    match inherited(h, o, "constructor"@, false) {
        Some(JsValue::Object(c)) => match inherited(h, c, "name"@, true) {
            Some(JsValue::Text(n)) => if well_formed(h.texts[n as int]).len() > 0 {
                well_formed(h.texts[n as int])
            } else {
                utf16_of("[object Object]"@)
            },
            _ => utf16_of("[object Object]"@),
        },
        _ => utf16_of("[object Object]"@),
    }
}

/// How a value is shown at a depth.
pub open spec fn shown(h: HeapModel, v: JsValue, depth: nat) -> Seq<u16>
    decreases MAX_DEPTH + 2 - depth, 1nat,
{
    match v {
        JsValue::Text(n) => well_formed(h.texts[n as int]),
        JsValue::BigInt(n) => bigint_units(h.bigints[n as int]),
        JsValue::Symbol(_) => utf16_of("Symbol()"@),
        JsValue::Object(o) => shown_object(h, o, depth),
        _ => display(v),
    }
}

/// How an object is shown at a depth: collections down to [`MAX_DEPTH`].
pub open spec fn shown_object(h: HeapModel, o: usize, depth: nat) -> Seq<u16>
    decreases MAX_DEPTH + 2 - depth, 0nat,
{
    let m = h.objects[o as int];
    let n = m.elements.len();
    if m.kind == Kind::Error {
        shown_error(h, o)
    } else if m.kind == Kind::Array {
        if depth > MAX_DEPTH {
            seq![]
        } else {
            shown_list(h, m.elements, n, depth + 1, true, utf16_of(","@))
        }
    } else if m.kind == Kind::Function {
        shown_function(h, o)
    } else if m.kind == Kind::Generator {
        utf16_of("[Generator]"@)
    } else if m.kind == Kind::Iterator {
        shown_iterator(m)
    } else if depth <= MAX_DEPTH && m.kind == Kind::MapObject {
        utf16_of("Map("@) + nat_text(n / 2) + utf16_of(") {"@) + shown_pairs(
            h,
            m.elements,
            n / 2,
            depth + 1,
        ) + utf16_of("}"@)
    } else if depth <= MAX_DEPTH && m.kind == Kind::SetObject {
        utf16_of("Set("@) + nat_text(n) + utf16_of(") {"@) + shown_list(
            h,
            m.elements,
            n,
            depth + 1,
            false,
            utf16_of(", "@),
        ) + utf16_of("}"@)
    } else if depth <= MAX_DEPTH && m.kind == Kind::Promise {
        if m.inner.len() < 2 || !(m.inner[0] is Smi) {
            utf16_of("[object Object]"@)
        } else if m.inner[0] == JsValue::Smi(STATE_FULFILLED) {
            utf16_of("Promise { "@) + shown(h, m.inner[1], depth + 1) + utf16_of(" }"@)
        } else if m.inner[0] == JsValue::Smi(STATE_REJECTED) {
            utf16_of("Promise { <rejected> "@) + shown(h, m.inner[1], depth + 1) + utf16_of(" }"@)
        } else {
            utf16_of("Promise { <pending> }"@)
        }
    } else if depth <= MAX_DEPTH && m.kind == Kind::RegExp {
        shown_regexp(h, m)
    } else {
        shown_plain(h, o)
    }
}

/// How the first `n` values of a list are shown, with a text between them. In an array
/// `undefined`, `null` and holes are empty.
pub open spec fn shown_list(
    h: HeapModel,
    items: Seq<JsValue>,
    n: nat,
    depth: nat,
    array: bool,
    between: Seq<u16>,
) -> Seq<u16>
    decreases MAX_DEPTH + 2 - depth, n + 2,
{
    if n == 0 || depth > MAX_DEPTH + 1 {
        seq![]
    } else {
        let v = items[n - 1];
        let part = if array && (v == JsValue::Undefined || v == JsValue::Null || v
            == JsValue::Hole) {
            seq![]
        } else {
            shown(h, v, depth)
        };
        if n == 1 {
            part
        } else {
            shown_list(h, items, (n - 1) as nat, depth, array, between) + between + part
        }
    }
}

/// How the first `n` entries of a map are shown.
pub open spec fn shown_pairs(h: HeapModel, items: Seq<JsValue>, n: nat, depth: nat) -> Seq<u16>
    decreases MAX_DEPTH + 2 - depth, n + 2,
{
    if n == 0 || depth > MAX_DEPTH + 1 {
        seq![]
    } else {
        let part = shown(h, items[2 * n - 2], depth) + utf16_of(" => "@) + shown(
            h,
            items[2 * n - 1],
            depth,
        );
        if n == 1 {
            part
        } else {
            shown_pairs(h, items, (n - 1) as nat, depth) + utf16_of(", "@) + part
        }
    }
}

// ---------------------------------------------------------------------------
// Showing
// ---------------------------------------------------------------------------

/// Puts a text behind another.
fn push_text(out: &mut Vec<u16>, s: &str)
    ensures
        final(out)@ == old(out)@ + utf16_of(s@),
{
    let mut t: Vec<u16> = utf16(s);
    out.append(&mut t);
}

/// A name and a message.
fn head_text(name: Vec<u16>, message: Vec<u16>) -> (r: Vec<u16>)
    ensures
        r@ == headed(name@, message@),
{
    if message.len() == 0 {
        return name;
    }
    let mut out: Vec<u16> = name;
    let mut rest: Vec<u16> = message;
    push_text(&mut out, ": ");
    out.append(&mut rest);
    out
}

/// How an error object is shown.
fn error_text(heap: &Heap, o: usize) -> (r: Vec<u16>)
    requires
        heap.wf(),
        o < heap@.objects.len(),
    ensures
        r@ == shown_error(heap@, o),
{
    let name: Vec<u16> = match own_text_prop(heap, o, "name") {
        Some(t) => t,
        None => utf16("Error"),
    };
    let message: Vec<u16> = match own_text_prop(heap, o, "message") {
        Some(t) => t,
        None => {
            let none: Vec<u16> = Vec::new();
            proof {
                assert(none@ =~= seq![]);
            }
            none
        },
    };
    head_text(name, message)
}

/// How a function is shown.
fn function_text(heap: &Heap, o: usize) -> (r: Vec<u16>)
    requires
        heap.wf(),
        o < heap@.objects.len(),
    ensures
        r@ == shown_function(heap@, o),
{
    match own_text_prop(heap, o, "name") {
        Some(t) => {
            if t.len() == 0 {
                return utf16("[Function (anonymous)]");
            }
            let mut out: Vec<u16> = utf16("[Function: ");
            let mut name: Vec<u16> = t;
            out.append(&mut name);
            push_text(&mut out, "]");
            out
        },
        None => utf16("[Function (anonymous)]"),
    }
}

/// How an iterator is shown.
fn iterator_text(o: &JsObject) -> (r: Vec<u16>)
    ensures
        r@ == shown_iterator(o@),
{
    if o.elements.len() == 0 {
        return utf16("[Iterator]");
    }
    match o.elements[0] {
        JsValue::Smi(k) => if k == ITER_KIND_ARRAY_VALUES || k == ITER_KIND_ARRAY_ENTRIES || k
            == ITER_KIND_ARRAY_KEYS {
            utf16("[Array Iterator]")
        } else if k == ITER_KIND_MAP_ENTRIES || k == ITER_KIND_MAP_KEYS || k
            == ITER_KIND_MAP_VALUES {
            utf16("[Map Iterator]")
        } else if k == ITER_KIND_SET_VALUES {
            utf16("[Set Iterator]")
        } else {
            utf16("[Iterator]")
        },
        _ => utf16("[Iterator]"),
    }
}

/// How a regular expression is shown.
fn regexp_text(heap: &Heap, o: usize) -> (r: Vec<u16>)
    requires
        heap.wf(),
        o < heap@.objects.len(),
        heap@.objects[o as int].kind == Kind::RegExp,
    ensures
        r@ == shown_regexp(heap@, heap@.objects[o as int]),
{
    let m = heap.object(o);
    proof {
        assert(heap@.valid(m@.inner[0]));
        assert(heap@.valid(m@.inner[1]));
    }
    let mut out: Vec<u16> = Vec::new();
    out.push(0x2f);
    match m.inner.get(0) {
        JsValue::Text(n) => {
            let mut t: Vec<u16> = to_well_formed(heap.text(n).as_slice());
            out.append(&mut t);
        },
        _ => {},
    }
    out.push(0x2f);
    match m.inner.get(1) {
        JsValue::Text(n) => {
            let mut t: Vec<u16> = to_well_formed(heap.text(n).as_slice());
            out.append(&mut t);
        },
        _ => {},
    }
    proof {
        assert(out@ =~= shown_regexp(heap@, m@));
    }
    out
}

/// How an object is shown by the name of its constructor.
fn class_text(heap: &Heap, o: usize) -> (r: Vec<u16>)
    requires
        heap.wf(),
        o < heap@.objects.len(),
    ensures
        r@ == shown_by_class(heap@, o),
{
    match chain_prop(heap, o, "constructor", false) {
        Some(JsValue::Object(c)) => match chain_prop(heap, c, "name", true) {
            Some(JsValue::Text(n)) => {
                let t: Vec<u16> = to_well_formed(heap.text(n).as_slice());
                if t.len() > 0 {
                    return t;
                }
            },
            _ => {},
        },
        _ => {},
    }
    utf16("[object Object]")
}

/// How an object is shown of which no sort of its own is known.
fn plain_text(heap: &Heap, o: usize) -> (r: Vec<u16>)
    requires
        heap.wf(),
        o < heap@.objects.len(),
    ensures
        r@ == shown_plain(heap@, o),
{
    match own_text_prop(heap, o, "message") {
        Some(message) => match own_text_prop(heap, o, "name") {
            Some(name) => head_text(name, message),
            None => {
                if message.len() > 0 {
                    message
                } else {
                    class_text(heap, o)
                }
            },
        },
        None => class_text(heap, o),
    }
}

/// How a value is shown at a depth.
fn display_value(heap: &Heap, v: JsValue, depth: usize) -> (r: Vec<u16>)
    requires
        heap.wf(),
        heap@.valid(v),
        depth <= MAX_DEPTH + 1,
    ensures
        r@ == shown(heap@, v, depth as nat),
    decreases MAX_DEPTH + 2 - depth, 1nat,
{
    match v {
        JsValue::Text(n) => to_well_formed(heap.text(n).as_slice()),
        JsValue::BigInt(n) => bigint_text(heap.bigint(n)),
        JsValue::Symbol(_) => utf16("Symbol()"),
        JsValue::Object(o) => display_object(heap, o, depth),
        _ => display_text(v),
    }
}

/// How an object is shown at a depth.
fn display_object(heap: &Heap, o: usize, depth: usize) -> (r: Vec<u16>)
    requires
        heap.wf(),
        o < heap@.objects.len(),
        depth <= MAX_DEPTH + 1,
    ensures
        r@ == shown_object(heap@, o, depth as nat),
    decreases MAX_DEPTH + 2 - depth, 0nat,
{
    let m = heap.object(o);
    let n: usize = m.elements.len();
    match m.kind {
        Kind::Error => {
            return error_text(heap, o);
        },
        Kind::Array => {
            if depth > MAX_DEPTH {
                let none: Vec<u16> = Vec::new();
                proof {
                    assert(none@ =~= seq![]);
                }
                return none;
            }
            return list_text(heap, &m.elements, depth + 1, true, ",");
        },
        Kind::Function => {
            return function_text(heap, o);
        },
        Kind::Generator => {
            return utf16("[Generator]");
        },
        Kind::Iterator => {
            return iterator_text(m);
        },
        _ => {},
    }
    if depth <= MAX_DEPTH {
        match m.kind {
            Kind::MapObject => {
                let mut out: Vec<u16> = utf16("Map(");
                push_nat(&mut out, (n / 2) as u64);
                push_text(&mut out, ") {");
                let mut body: Vec<u16> = pairs_text(heap, &m.elements, depth + 1);
                out.append(&mut body);
                push_text(&mut out, "}");
                return out;
            },
            Kind::SetObject => {
                let mut out: Vec<u16> = utf16("Set(");
                push_nat(&mut out, n as u64);
                push_text(&mut out, ") {");
                let mut body: Vec<u16> = list_text(heap, &m.elements, depth + 1, false, ", ");
                out.append(&mut body);
                push_text(&mut out, "}");
                return out;
            },
            Kind::Promise => {
                return promise_text(heap, o, depth);
            },
            Kind::RegExp => {
                return regexp_text(heap, o);
            },
            _ => {},
        }
    }
    plain_text(heap, o)
}

/// How a promise is shown.
fn promise_text(heap: &Heap, o: usize, depth: usize) -> (r: Vec<u16>)
    requires
        heap.wf(),
        o < heap@.objects.len(),
        heap@.objects[o as int].kind == Kind::Promise,
        depth <= MAX_DEPTH,
    ensures
        r@ == shown_object(heap@, o, depth as nat),
    decreases MAX_DEPTH + 1 - depth, 2nat,
{
    let m = heap.object(o);
    if m.inner.len() < 2 {
        return utf16("[object Object]");
    }
    proof {
        assert(heap@.valid(m@.inner[1]));
    }
    let payload: JsValue = m.inner.get(1);
    match m.inner.get(0) {
        JsValue::Smi(state) => {
            if state == STATE_FULFILLED || state == STATE_REJECTED {
                let mut out: Vec<u16> = if state == STATE_FULFILLED {
                    utf16("Promise { ")
                } else {
                    utf16("Promise { <rejected> ")
                };
                let mut body: Vec<u16> = display_value(heap, payload, depth + 1);
                out.append(&mut body);
                push_text(&mut out, " }");
                out
            } else {
                utf16("Promise { <pending> }")
            }
        },
        _ => utf16("[object Object]"),
    }
}

/// How the values of a list are shown.
fn list_text(heap: &Heap, items: &Vec<JsValue>, depth: usize, array: bool, between: &str) -> (r: Vec<
    u16,
>)
    requires
        heap.wf(),
        forall|i: int| 0 <= i < items@.len() ==> heap@.valid(#[trigger] items@[i]),
        depth <= MAX_DEPTH + 1,
    ensures
        r@ == shown_list(
            heap@,
            items@,
            items@.len(),
            depth as nat,
            array,
            utf16_of(between@),
        ),
    decreases MAX_DEPTH + 2 - depth, 2nat,
{
    let mut out: Vec<u16> = Vec::new();
    let mut i: usize = 0;
    proof {
        assert(out@ =~= seq![]);
    }
    while i < items.len()
        invariant
            i <= items@.len(),
            heap.wf(),
            forall|k: int| 0 <= k < items@.len() ==> heap@.valid(#[trigger] items@[k]),
            depth <= MAX_DEPTH + 1,
            out@ == shown_list(
                heap@,
                items@,
                i as nat,
                depth as nat,
                array,
                utf16_of(between@),
            ),
        decreases items@.len() - i,
    {
        let ghost before = out@;
        let v: JsValue = items[i];
        if i > 0 {
            push_text(&mut out, between);
        }
        if !(array && (v == JsValue::Undefined || v == JsValue::Null || v == JsValue::Hole)) {
            let mut part: Vec<u16> = display_value(heap, v, depth);
            out.append(&mut part);
        }
        i = i + 1;
        proof {
            assert(out@ =~= shown_list(
                heap@,
                items@,
                i as nat,
                depth as nat,
                array,
                utf16_of(between@),
            ));
        }
    }
    out
}

/// How the entries of a map are shown.
fn pairs_text(heap: &Heap, items: &Vec<JsValue>, depth: usize) -> (r: Vec<u16>)
    requires
        heap.wf(),
        forall|i: int| 0 <= i < items@.len() ==> heap@.valid(#[trigger] items@[i]),
        depth <= MAX_DEPTH + 1,
    ensures
        r@ == shown_pairs(heap@, items@, items@.len() / 2, depth as nat),
    decreases MAX_DEPTH + 2 - depth, 2nat,
{
    let mut out: Vec<u16> = Vec::new();
    let len: usize = items.len();
    let n: usize = len / 2;
    let mut i: usize = 0;
    proof {
        assert(out@ =~= seq![]);
    }
    while i < n
        invariant
            i <= n,
            len == items@.len(),
            n == len / 2,
            heap.wf(),
            forall|k: int| 0 <= k < items@.len() ==> heap@.valid(#[trigger] items@[k]),
            depth <= MAX_DEPTH + 1,
            out@ == shown_pairs(heap@, items@, i as nat, depth as nat),
        decreases n - i,
    {
        if i > 0 {
            push_text(&mut out, ", ");
        }
        let mut k: Vec<u16> = display_value(heap, items[2 * i], depth);
        out.append(&mut k);
        push_text(&mut out, " => ");
        let mut v: Vec<u16> = display_value(heap, items[2 * i + 1], depth);
        out.append(&mut v);
        i = i + 1;
        proof {
            assert(out@ =~= shown_pairs(heap@, items@, i as nat, depth as nat));
        }
    }
    out
}

/// The text of a value for a reader.
pub fn to_display_string(heap: &Heap, v: JsValue) -> (r: String)
    requires
        heap.wf(),
        heap@.valid(v),
    ensures
        r@ == crate::text::chars_of(shown(heap@, v, 0)),
{
    let t: Vec<u16> = display_value(heap, v, 0);
    to_chars(t.as_slice())
}

} // verus!
