//! Error objects and the error built-ins.
use vstd::prelude::*;
use vstd::string::*;
use vstd::slice::{slice_subrange, slice_to_vec};

use crate::convert::{error, text_of};
use crate::ctx::{
    Ctx, arg, arg_of, gives_error, gives_value, has_named, intrinsic_names, intrinsic_of,
    is_kind, named_key, only_heap, valid_args, with_property,
};
use crate::descriptor::{Fault, is_fault};
use crate::heap::{HeapModel, JsObject, ObjModel, lemma_text_id, plain_object};
use crate::object_define::{ends_in, fetch, fetched};
use crate::object_describe::lemma_ascii_units;
use crate::record::{
    distinct_names, lemma_has_texts, lemma_with_texts, make_record, recorded, with_texts,
};
use crate::text::{same_units, utf16, utf16_of, well_formed};
use crate::value::{Attrs, JsValue, Kind, PropKey, Throw, builtin_attrs};

verus! {

// ---------------------------------------------------------------------------
// Intrinsics by name
// ---------------------------------------------------------------------------

/// The names of the intrinsics, in the order of their slots on the global object.
pub fn intrinsic_name(slot: usize) -> (r: &'static str)
    requires
        slot < 21,
    ensures
        r@ == intrinsic_names()[slot as int],
{
    match slot {
        0 => "Object",
        1 => "Array",
        2 => "String",
        3 => "Number",
        4 => "Boolean",
        5 => "Math",
        6 => "JSON",
        7 => "Error",
        8 => "TypeError",
        9 => "RangeError",
        10 => "ReferenceError",
        11 => "SyntaxError",
        12 => "Promise",
        13 => "Symbol",
        14 => "Map",
        15 => "Set",
        16 => "RegExp",
        17 => "eval",
        18 => "console",
        19 => "globalThis",
        _ => "Proxy",
    }
}

/// The slot at or after `from` whose intrinsic has the name.
pub open spec fn slot_from(name: Seq<char>, from: int) -> Option<int>
    decreases 21 - from,
{
    if from >= 21 {
        None
    } else if intrinsic_names()[from] == name {
        Some(from)
    } else {
        slot_from(name, from + 1)
    }
}

/// The slot of the global object that holds the intrinsic of a name.
pub fn intrinsic_slot(name: &str) -> (r: Option<usize>)
    ensures
        match slot_from(name@, 0) {
            Some(k) => r matches Some(i) && i == k && i < 21,
            None => r is None,
        },
{
    let wanted: Vec<u16> = utf16(name);
    let mut i: usize = 0;
    while i < 21
        invariant
            i <= 21,
            wanted@ == utf16_of(name@),
            slot_from(name@, 0) == slot_from(name@, i as int),
        decreases 21 - i,
    {
        let s: &'static str = intrinsic_name(i);
        let units: Vec<u16> = utf16(s);
        if same_units(units.as_slice(), wanted.as_slice()) {
            proof {
                crate::text::law_units_unique(s@, name@);
            }
            return Some(i);
        }
        i = i + 1;
    }
    None
}

impl Ctx {
    /// The intrinsic of the realm that has a name.
    pub fn intrinsic_named(&self, name: &str) -> (r: Option<JsValue>)
        requires
            self.wf(),
        ensures
            r == intrinsic_called(self.heap@, self.global, name@),
            r matches Some(v) ==> self.heap@.valid(v),
    {
        match (self.global, intrinsic_slot(name)) {
            (Some(g), Some(i)) => {
                let o = self.heap.object(g);
                if i < o.inner.len() {
                    proof {
                        assert(self.heap@.valid(o@.inner[i as int]));
                    }
                    Some(o.inner.get(i))
                } else {
                    None
                }
            },
            _ => None,
        }
    }
}

/// The intrinsic of a realm that has a name.
pub open spec fn intrinsic_called(h: HeapModel, global: Option<usize>, name: Seq<char>) -> Option<
    JsValue,
> {
    match slot_from(name, 0) {
        Some(k) => intrinsic_of(h, global, k),
        None => None,
    }
}

// ---------------------------------------------------------------------------
// Error objects
// ---------------------------------------------------------------------------

/// The constructor of a class of errors in a realm, where the realm has one.
pub open spec fn error_ctor(h: HeapModel, global: Option<usize>, class: Seq<char>) -> Option<usize> {
    match intrinsic_called(h, global, class) {
        Some(JsValue::Object(c)) => Some(c),
        _ => None,
    }
}

/// An error object before its properties: its prototype is that of the class.
pub open spec fn error_base(h: HeapModel, ctor: Option<usize>) -> ObjModel {
    ObjModel {
        prototype: match ctor {
            Some(c) => h.objects[c as int].prototype,
            None => None,
        },
        ..plain_object(Kind::Error)
    }
}

/// The heap with a new error object of a class: its `name` and `message`, and its
/// `constructor` where the realm has one for the class.
pub open spec fn with_error(
    h: HeapModel,
    global: Option<usize>,
    class: Seq<char>,
    message: Seq<u16>,
) -> HeapModel {
    let h1 = h.interned(utf16_of(class)).interned(message);
    let name = JsValue::Text(h1.text_id(utf16_of(class)));
    let text = JsValue::Text(h1.text_id(message));
    let ctor = error_ctor(h, global, class);
    match ctor {
        Some(c) => recorded(
            h1,
            error_base(h, ctor),
            seq!["name", "message", "constructor"],
            seq![name, text, JsValue::Object(c)],
            builtin_attrs(),
        ),
        None => recorded(
            h1,
            error_base(h, ctor),
            seq!["name", "message"],
            seq![name, text],
            builtin_attrs(),
        ),
    }
}

proof fn lemma_error_names()
    ensures
        utf16_of("name"@) != utf16_of("message"@),
        utf16_of("name"@) != utf16_of("constructor"@),
        utf16_of("message"@) != utf16_of("constructor"@),
        utf16_of("cause"@) != utf16_of("name"@),
        utf16_of("cause"@) != utf16_of("message"@),
        utf16_of("cause"@) != utf16_of("constructor"@),
{
    reveal_strlit("name");
    reveal_strlit("message");
    reveal_strlit("constructor");
    reveal_strlit("cause");
    lemma_ascii_units("name"@);
    lemma_ascii_units("message"@);
    lemma_ascii_units("constructor"@);
    lemma_ascii_units("cause"@);
}

/// Makes an error object of a class with a message.
pub fn error_object(ctx: &mut Ctx, class: &str, message: &[u16]) -> (r: usize)
    requires
        old(ctx).wf(),
    ensures
        only_heap(
            *old(ctx),
            *final(ctx),
            with_error(old(ctx).heap@, old(ctx).global, class@, message@),
        ),
        r == old(ctx).heap@.objects.len(),
        r < final(ctx).heap@.objects.len(),
        old(ctx).heap@.within(final(ctx).heap@),
        old(ctx).heap@.extends_to(final(ctx).heap@, old(ctx).heap@.objects.len() as int),
{
    let ghost h = ctx.heap@;
    let found: Option<JsValue> = ctx.intrinsic_named(class);
    let ctor: Option<usize> = match found {
        Some(JsValue::Object(c)) => Some(c),
        _ => None,
    };
    let n: usize = ctx.heap.intern_text(class);
    let ghost g = ctx.heap@;
    let m: usize = ctx.heap.intern(message);
    let ghost h1 = ctx.heap@;
    proof {
        assert(h.texts.is_prefix_of(g.texts));
        assert(g.texts.is_prefix_of(h1.texts));
        assert(h1.texts[n as int] == g.texts[n as int]);
        ctx.heap.lemma_wf();
        crate::heap::lemma_text_id(h1, n as int);
        crate::heap::lemma_text_id(h1, m as int);
        lemma_error_names();
    }
    let mut o: JsObject = JsObject::plain(Kind::Error);
    let mut names: Vec<&'static str> = Vec::new();
    let mut values: Vec<JsValue> = Vec::new();
    names.push("name");
    values.push(JsValue::Text(n));
    names.push("message");
    values.push(JsValue::Text(m));
    match ctor {
        Some(c) => {
            o.prototype = ctx.heap.object(c).prototype;
            names.push("constructor");
            values.push(JsValue::Object(c));
        },
        None => {},
    }
    proof {
        assert(o@ == error_base(h, ctor));
        assert(h1.valid_refs(o@));
        assert(distinct_names(names@));
        match ctor {
            Some(c) => {
                assert(names@ =~= seq!["name", "message", "constructor"]);
                assert(values@ =~= seq![JsValue::Text(n), JsValue::Text(m), JsValue::Object(c)]);
            },
            None => {
                assert(names@ =~= seq!["name", "message"]);
                assert(values@ =~= seq![JsValue::Text(n), JsValue::Text(m)]);
            },
        }
    }
    make_record(&mut ctx.heap, o, &names, &values, Attrs::new(true, false, true))
}

/// The message text of an error from the first argument of its constructor.
pub open spec fn message_text(h: HeapModel, v: JsValue) -> Seq<u16> {
    match v {
        JsValue::Undefined => seq![],
        JsValue::Text(n) => well_formed(h.texts[n as int]),
        _ => text_of(h, v),
    }
}

/// What an error constructor makes of its arguments: an error object, with the `cause`
/// of the options where they have one.
pub open spec fn created_error(
    h: HeapModel,
    global: Option<usize>,
    class: Seq<char>,
    args: Seq<JsValue>,
) -> (HeapModel, Result<JsValue, Fault>) {
    let h1 = with_error(h, global, class, message_text(h, arg_of(args, 0)));
    let e = h.objects.len() as usize;
    match arg_of(args, 1) {
        JsValue::Object(options) => {
            let h2 = h1.interned(utf16_of("cause"@));
            match fetched(h2, options, named_key(h2, "cause"@)) {
                (h3, Err(f)) => (h3, Err(f)),
                (h3, Ok(JsValue::Undefined)) => (h3, Ok(JsValue::Object(e))),
                (h3, Ok(v)) => (
                    with_property(h3, e, "cause"@, v, builtin_attrs()),
                    Ok(JsValue::Object(e)),
                ),
            }
        },
        _ => (h1, Ok(JsValue::Object(e))),
    }
}

/// A new error object has no `cause`.
proof fn lemma_no_cause(h: HeapModel, global: Option<usize>, class: Seq<char>, message: Seq<u16>)
    requires
        h.objects.len() <= usize::MAX,
        with_error(h, global, class, message).interned(utf16_of("cause"@)).distinct_texts(),
        with_error(h, global, class, message).interned(utf16_of("cause"@)).texts.len()
            <= usize::MAX,
    ensures
        !has_named(
            with_error(h, global, class, message).interned(utf16_of("cause"@)),
            h.objects.len() as usize,
            "cause"@,
        ),
{
    let h1 = with_error(h, global, class, message);
    let h2 = h1.interned(utf16_of("cause"@));
    let g = h.interned(utf16_of(class)).interned(message);
    let names = if error_ctor(h, global, class) is Some {
        seq!["name", "message", "constructor"]
    } else {
        seq!["name", "message"]
    };
    let ht = with_texts(g, names, names.len() as int);
    lemma_with_texts(g, names, names.len() as int);
    lemma_error_names();
    let list = h2.objects[h.objects.len() as int].named.list;
    assert(h1.texts == ht.texts);
    let c = utf16_of("cause"@);
    let id = h2.text_id(c);
    assert(h2.has_text(c)) by {
        if !h1.has_text(c) {
            assert(h2.texts[h1.texts.len() as int] == c);
        }
    }
    assert(h2.texts[id as int] == c);
    assert forall|i: int| 0 <= i < list.len() implies #[trigger] list[i].key != named_key(
        h2,
        "cause"@,
    ) by {
        lemma_has_texts(g, names, names.len() as int, i);
        let t = utf16_of(names[i]@);
        let k = ht.text_id(t);
        assert(ht.texts[k as int] == t);
        assert(h2.texts[k as int] == ht.texts[k as int]);
        assert(t != c);
    }
}

/// Makes an error object of a class from the arguments of its constructor.
fn error_create_named(ctx: &mut Ctx, class: &str, args: &[JsValue]) -> (r: Result<JsValue, Throw>)
    requires
        old(ctx).wf(),
        valid_args(old(ctx).heap@, args@),
    ensures
        ends_in(
            *old(ctx),
            *final(ctx),
            r,
            created_error(old(ctx).heap@, old(ctx).global, class@, args@),
        ),
{
    let ghost h = ctx.heap@;
    let message: JsValue = arg(args, 0);
    let text: Vec<u16> = match message {
        JsValue::Undefined => {
            let none: Vec<u16> = Vec::new();
            proof {
                assert(none@ =~= seq![]);
            }
            none
        },
        JsValue::Text(n) => ctx.string_text(n),
        _ => ctx.to_string(message),
    };
    let options: JsValue = arg(args, 1);
    let e: usize = error_object(ctx, class, text.as_slice());
    let ghost h1 = ctx.heap@;
    match options {
        JsValue::Object(opt) => {
            let id: usize = ctx.heap.intern_text("cause");
            let ghost h2 = ctx.heap@;
            let _ = ctx.heap.text_count();
            let _ = ctx.heap.object_count();
            proof {
                ctx.heap.lemma_wf();
                assert(h.valid(options));
                lemma_text_id(h2, id as int);
                lemma_no_cause(h, ctx.global, class@, text@);
            }
            match fetch(&mut ctx.heap, opt, PropKey::Text(id)) {
                Err(t) => {
                    return Err(t);
                },
                Ok(JsValue::Undefined) => {},
                Ok(v) => {
                    ctx.define_data_prop(e, "cause", v);
                },
            }
        },
        _ => {},
    }
    Ok(JsValue::Object(e))
}

/// `Error(message, options)`: an error object of the class `Error`.
pub fn error_create(ctx: &mut Ctx, _this: JsValue, args: &[JsValue]) -> (r: Result<JsValue, Throw>)
    requires
        old(ctx).wf(),
        valid_args(old(ctx).heap@, args@),
    ensures
        ends_in(
            *old(ctx),
            *final(ctx),
            r,
            created_error(old(ctx).heap@, old(ctx).global, "Error"@, args@),
        ),
{
    error_create_named(ctx, "Error", args)
}

/// `TypeError(message, options)`: an error object of the class `TypeError`.
pub fn type_error_create(ctx: &mut Ctx, _this: JsValue, args: &[JsValue]) -> (r: Result<JsValue, Throw>)
    requires
        old(ctx).wf(),
        valid_args(old(ctx).heap@, args@),
    ensures
        ends_in(
            *old(ctx),
            *final(ctx),
            r,
            created_error(old(ctx).heap@, old(ctx).global, "TypeError"@, args@),
        ),
{
    error_create_named(ctx, "TypeError", args)
}

/// `RangeError(message, options)`: an error object of the class `RangeError`.
pub fn range_error_create(ctx: &mut Ctx, _this: JsValue, args: &[JsValue]) -> (r: Result<JsValue, Throw>)
    requires
        old(ctx).wf(),
        valid_args(old(ctx).heap@, args@),
    ensures
        ends_in(
            *old(ctx),
            *final(ctx),
            r,
            created_error(old(ctx).heap@, old(ctx).global, "RangeError"@, args@),
        ),
{
    error_create_named(ctx, "RangeError", args)
}

/// `ReferenceError(message, options)`: an error object of the class `ReferenceError`.
pub fn reference_error_create(ctx: &mut Ctx, _this: JsValue, args: &[JsValue]) -> (r: Result<JsValue, Throw>)
    requires
        old(ctx).wf(),
        valid_args(old(ctx).heap@, args@),
    ensures
        ends_in(
            *old(ctx),
            *final(ctx),
            r,
            created_error(old(ctx).heap@, old(ctx).global, "ReferenceError"@, args@),
        ),
{
    error_create_named(ctx, "ReferenceError", args)
}

/// `SyntaxError(message, options)`: an error object of the class `SyntaxError`.
pub fn syntax_error_create(ctx: &mut Ctx, _this: JsValue, args: &[JsValue]) -> (r: Result<JsValue, Throw>)
    requires
        old(ctx).wf(),
        valid_args(old(ctx).heap@, args@),
    ensures
        ends_in(
            *old(ctx),
            *final(ctx),
            r,
            created_error(old(ctx).heap@, old(ctx).global, "SyntaxError"@, args@),
        ),
{
    error_create_named(ctx, "SyntaxError", args)
}

/// `EvalError(message, options)`: an error object of the class `EvalError`.
pub fn eval_error_create(ctx: &mut Ctx, _this: JsValue, args: &[JsValue]) -> (r: Result<JsValue, Throw>)
    requires
        old(ctx).wf(),
        valid_args(old(ctx).heap@, args@),
    ensures
        ends_in(
            *old(ctx),
            *final(ctx),
            r,
            created_error(old(ctx).heap@, old(ctx).global, "EvalError"@, args@),
        ),
{
    error_create_named(ctx, "EvalError", args)
}

/// `URIError(message, options)`: an error object of the class `URIError`.
pub fn uri_error_create(ctx: &mut Ctx, _this: JsValue, args: &[JsValue]) -> (r: Result<JsValue, Throw>)
    requires
        old(ctx).wf(),
        valid_args(old(ctx).heap@, args@),
    ensures
        ends_in(
            *old(ctx),
            *final(ctx),
            r,
            created_error(old(ctx).heap@, old(ctx).global, "URIError"@, args@),
        ),
{
    error_create_named(ctx, "URIError", args)
}

/// `Error.isError(value)`: whether the value is an error object of any class.
pub fn error_is_error(ctx: &mut Ctx, _this: JsValue, args: &[JsValue]) -> (r: Result<JsValue, Throw>)
    requires
        old(ctx).wf(),
        valid_args(old(ctx).heap@, args@),
    ensures
        gives_value(
            *old(ctx),
            *final(ctx),
            r,
            JsValue::Bool(is_kind(old(ctx).heap@, arg_of(args@, 0), Kind::Error)),
        ),
{
    let is: bool = match arg(args, 0) {
        JsValue::Object(o) => ctx.heap.object(o).kind == Kind::Error,
        _ => false,
    };
    Ok(JsValue::Bool(is))
}

/// The text of a property of an error, or a text in its place where it is undefined.
pub open spec fn error_part(h: HeapModel, o: usize, name: Seq<char>, fallback: Seq<char>) -> (
    HeapModel,
    Result<Seq<u16>, Fault>,
) {
    let h1 = h.interned(utf16_of(name));
    match fetched(h1, o, named_key(h1, name)) {
        (h2, Err(f)) => (h2, Err(f)),
        (h2, Ok(JsValue::Undefined)) => (h2, Ok(utf16_of(fallback))),
        (h2, Ok(v)) => (h2, Ok(text_of(h2, v))),
    }
}

/// A name and a message as one text: `name: message`, or one of them where the other is
/// empty.
pub open spec fn joined(name: Seq<u16>, message: Seq<u16>) -> Seq<u16> {
    if name.len() == 0 {
        message
    } else if message.len() == 0 {
        name
    } else {
        name + utf16_of(": "@) + message
    }
}

/// What `Error.prototype.toString` gives of an object.
pub open spec fn error_text(h: HeapModel, o: usize) -> (HeapModel, Result<JsValue, Fault>) {
    match error_part(h, o, "name"@, "Error"@) {
        (h1, Err(f)) => (h1, Err(f)),
        (h1, Ok(name)) => match error_part(h1, o, "message"@, ""@) {
            (h2, Err(f)) => (h2, Err(f)),
            (h2, Ok(message)) => {
                let t = joined(name, message);
                (h2.interned(t), Ok(JsValue::Text(h2.text_id(t))))
            },
        },
    }
}

/// Reads a property of an error as a text.
fn read_part(ctx: &mut Ctx, o: usize, name: &str, fallback: &str) -> (r: Result<Vec<u16>, Throw>)
    requires
        old(ctx).wf(),
        o < old(ctx).heap@.objects.len(),
    ensures
        ({
            let (h, x) = error_part(old(ctx).heap@, o, name@, fallback@);
            only_heap(*old(ctx), *final(ctx), h) && match x {
                Ok(t) => r matches Ok(v) && v@ == t,
                Err(f) => r is Err && is_fault(r->Err_0, f),
            }
        }),
        o < final(ctx).heap@.objects.len(),
{
    let ghost h = ctx.heap@;
    let id: usize = ctx.heap.intern_text(name);
    let _ = ctx.heap.text_count();
    proof {
        ctx.heap.lemma_wf();
        lemma_text_id(ctx.heap@, id as int);
    }
    match fetch(&mut ctx.heap, o, PropKey::Text(id)) {
        Err(t) => Err(t),
        Ok(JsValue::Undefined) => Ok(utf16(fallback)),
        Ok(v) => Ok(ctx.to_string(v)),
    }
}

/// `Error.prototype.toString()`: the `name` and the `message` as one text.
pub fn error_proto_to_string(ctx: &mut Ctx, this: JsValue, _args: &[JsValue]) -> (r: Result<
    JsValue,
    Throw,
>)
    requires
        old(ctx).wf(),
        old(ctx).heap@.valid(this),
    ensures
        match this {
            JsValue::Object(o) => ends_in(*old(ctx), *final(ctx), r, error_text(old(ctx).heap@, o)),
            _ => gives_error(
                *old(ctx),
                *final(ctx),
                r,
                "TypeError: Error.prototype.toString called on non-object"@,
            ),
        },
{
    let o: usize = match this {
        JsValue::Object(o) => o,
        _ => {
            return Err(error("TypeError: Error.prototype.toString called on non-object"));
        },
    };
    let name: Vec<u16> = match read_part(ctx, o, "name", "Error") {
        Ok(t) => t,
        Err(t) => {
            return Err(t);
        },
    };
    let message: Vec<u16> = match read_part(ctx, o, "message", "") {
        Ok(t) => t,
        Err(t) => {
            return Err(t);
        },
    };
    let text: Vec<u16> = if name.len() == 0 {
        message
    } else if message.len() == 0 {
        name
    } else {
        let mut t: Vec<u16> = name;
        let mut colon: Vec<u16> = utf16(": ");
        let mut rest: Vec<u16> = message;
        t.append(&mut colon);
        t.append(&mut rest);
        t
    };
    let id: usize = ctx.heap.intern(text.as_slice());
    Ok(JsValue::Text(id))
}

// ---------------------------------------------------------------------------
// Errors from texts
// ---------------------------------------------------------------------------

/// The classes that an error text can start with.
pub open spec fn error_classes() -> Seq<Seq<char>> {
    seq![
        "Error"@,
        "TypeError"@,
        "RangeError"@,
        "ReferenceError"@,
        "SyntaxError"@,
        "EvalError"@,
        "URIError"@,
        "InternalError"@,
    ]
}

/// A class of errors.
fn error_class(k: usize) -> (r: &'static str)
    requires
        k < 8,
    ensures
        r@ == error_classes()[k as int],
{
    match k {
        0 => "Error",
        1 => "TypeError",
        2 => "RangeError",
        3 => "ReferenceError",
        4 => "SyntaxError",
        5 => "EvalError",
        6 => "URIError",
        _ => "InternalError",
    }
}

/// The class and the message of an error text: the class that it starts with before
/// `: `, looked for from the given one on, or the class given for a text without one.
pub open spec fn split_error(text: Seq<u16>, class: Seq<char>, from: int) -> (Seq<char>, Seq<u16>)
    decreases 8 - from,
{
    if from >= 8 {
        (class, text)
    } else {
        let start = utf16_of(error_classes()[from]) + utf16_of(": "@);
        if start.is_prefix_of(text) {
            (error_classes()[from], text.skip(start.len() as int))
        } else {
            split_error(text, class, from + 1)
        }
    }
}

/// Splits an error text into its class and its message.
pub fn parse_error_text(text: &str, class: &'static str) -> (r: (&'static str, Vec<u16>))
    ensures
        (r.0@, r.1@) == split_error(utf16_of(text@), class@, 0),
{
    let units: Vec<u16> = utf16(text);
    let n: usize = units.len();
    let mut k: usize = 0;
    while k < 8
        invariant
            k <= 8,
            units@ == utf16_of(text@),
            n == units@.len(),
            split_error(units@, class@, 0) == split_error(units@, class@, k as int),
        decreases 8 - k,
    {
        let c: &'static str = error_class(k);
        let mut start: Vec<u16> = utf16(c);
        let mut colon: Vec<u16> = utf16(": ");
        start.append(&mut colon);
        let m: usize = start.len();
        if m <= n {
            let head: &[u16] = slice_subrange(units.as_slice(), 0, m);
            if same_units(head, start.as_slice()) {
                let rest: Vec<u16> = slice_to_vec(slice_subrange(units.as_slice(), m, n));
                proof {
                    assert(start@.is_prefix_of(units@));
                    assert(rest@ =~= units@.skip(m as int));
                }
                return (c, rest);
            }
            proof {
                if start@.is_prefix_of(units@) {
                    assert(head@ =~= start@);
                }
            }
        }
        k = k + 1;
    }
    (class, units)
}

/// Makes the value that a script sees thrown: a thrown value itself, or the error object
/// of an error text. A getter that has still to run gives nothing.
pub fn thrown_value(ctx: &mut Ctx, t: &Throw) -> (r: Option<JsValue>)
    requires
        old(ctx).wf(),
    ensures
        match *t {
            Throw::Value(v) => *final(ctx) == *old(ctx) && r == Some(v),
            Throw::Error(s) => {
                let (class, message) = split_error(utf16_of(s@), "Error"@, 0);
                &&& only_heap(
                    *old(ctx),
                    *final(ctx),
                    with_error(old(ctx).heap@, old(ctx).global, class, message),
                )
                &&& r == Some(JsValue::Object(old(ctx).heap@.objects.len() as usize))
            },
            Throw::HostGetter(_, _) => *final(ctx) == *old(ctx) && r is None,
        },
        old(ctx).heap@.within(final(ctx).heap@),
{
    match t {
        Throw::Value(v) => Some(*v),
        Throw::Error(s) => {
            let (class, message) = parse_error_text(s.as_str(), "Error");
            let o: usize = error_object(ctx, class, message.as_slice());
            Some(JsValue::Object(o))
        },
        Throw::HostGetter(_, _) => None,
    }
}

/// Makes the error object of a refusal of the front end: a syntax error, unless its text
/// names another class.
pub fn syntax_error_value(ctx: &mut Ctx, message: &str) -> (r: JsValue)
    requires
        old(ctx).wf(),
    ensures
        ({
            let (class, text) = split_error(utf16_of(message@), "SyntaxError"@, 0);
            only_heap(
                *old(ctx),
                *final(ctx),
                with_error(old(ctx).heap@, old(ctx).global, class, text),
            )
        }),
        r == JsValue::Object(old(ctx).heap@.objects.len() as usize),
        old(ctx).heap@.within(final(ctx).heap@),
{
    let (class, text) = parse_error_text(message, "SyntaxError");
    let o: usize = error_object(ctx, class, text.as_slice());
    JsValue::Object(o)
}

/// The units of a class of errors hold no colon, and no two classes have the same units.
proof fn lemma_class_units(k: int, j: int)
    requires
        0 <= k < 8,
        0 <= j < 8,
    ensures
        forall|i: int|
            0 <= i < utf16_of(error_classes()[k]).len() ==> #[trigger] utf16_of(
                error_classes()[k],
            )[i] != 58,
        j != k ==> utf16_of(error_classes()[j]) != utf16_of(error_classes()[k]),
{
    reveal_strlit("Error");
    reveal_strlit("TypeError");
    reveal_strlit("RangeError");
    reveal_strlit("ReferenceError");
    reveal_strlit("SyntaxError");
    reveal_strlit("EvalError");
    reveal_strlit("URIError");
    reveal_strlit("InternalError");
    lemma_ascii_units(error_classes()[k]);
    if j != k {
        if utf16_of(error_classes()[j]) == utf16_of(error_classes()[k]) {
            crate::text::law_units_unique(error_classes()[j], error_classes()[k]);
            assert(error_classes()[j].len() == error_classes()[k].len());
            assert(error_classes()[j][0] == error_classes()[k][0]);
        }
    }
}

/// Looking for the class of a text passes over the classes before its own.
proof fn lemma_split_from(k: int, message: Seq<u16>, class: Seq<char>, from: int)
    requires
        0 <= from <= k < 8,
    ensures
        split_error(utf16_of(error_classes()[k]) + utf16_of(": "@) + message, class, from) == (
            error_classes()[k],
            message,
        ),
    decreases k - from,
{
    let colon = utf16_of(": "@);
    let own = utf16_of(error_classes()[k]);
    let start = own + colon;
    let text = own + colon + message;
    assert(text =~= start + message);
    if from == k {
        assert(start.is_prefix_of(text));
        assert(text.skip(start.len() as int) =~= message);
    } else {
        reveal_strlit(": ");
        lemma_ascii_units(": "@);
        let other = utf16_of(error_classes()[from]);
        let before = other + colon;
        if before.is_prefix_of(text) {
            lemma_class_units(k, from);
            lemma_class_units(from, k);
            assert(before[other.len() as int] == 58);
            assert(text[other.len() as int] == before[other.len() as int]);
            assert(text[own.len() as int] == 58);
            if other.len() < own.len() {
                assert(text[other.len() as int] == own[other.len() as int]);
            } else if own.len() < other.len() {
                assert(before[own.len() as int] == other[own.len() as int]);
                assert(text[own.len() as int] == before[own.len() as int]);
            } else {
                assert forall|i: int| 0 <= i < own.len() implies own[i] == other[i] by {
                    assert(text[i] == own[i]);
                    assert(before[i] == other[i]);
                    assert(text[i] == before[i]);
                }
                assert(own =~= other);
            }
        }
        lemma_split_from(k, message, class, from + 1);
    }
}

/// A text that starts with a class of errors and a colon is split into that class and
/// the rest.
pub proof fn law_error_text_class(k: int, message: Seq<u16>, class: Seq<char>)
    requires
        0 <= k < 8,
    ensures
        split_error(utf16_of(error_classes()[k]) + utf16_of(": "@) + message, class, 0) == (
            error_classes()[k],
            message,
        ),
{
    lemma_split_from(k, message, class, 0);
}

} // verus!
