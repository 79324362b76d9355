//! The context in which built-in functions run.
use vstd::prelude::*;

use crate::convert::{error, error3, is_error, number_of, text_of, to_number, to_text};
use crate::heap::{Heap, HeapModel, JsObject, ObjModel, plain_object};
use crate::internal_methods::chain_ends;
use crate::job_queue::Job;
use crate::native::NativeId;
use crate::properties::{Prop, PropBody, has_key};
use crate::text::{to_well_formed, utf16_of, well_formed};
use crate::value::{Attrs, FunctionTarget, JsValue, Kind, PropKey, Throw, builtin_attrs};

verus! {

/// The context in which a built-in function runs: the heap, the realm's global object
/// and the jobs that the function leaves behind.
pub struct Ctx {
    /// The heap.
    pub heap: Heap,
    /// The global object of the realm.
    pub global: Option<usize>,
    /// Follow-up jobs, where they are collected.
    pub pending: Option<Vec<Job>>,
}

/// Whether all arguments are in range.
pub open spec fn valid_args(h: HeapModel, args: Seq<JsValue>) -> bool {
    forall|i: int| 0 <= i < args.len() ==> h.valid(#[trigger] args[i])
}

/// The argument at `i`, `undefined` where it is missing.
pub open spec fn arg_of(args: Seq<JsValue>, i: int) -> JsValue {
    if 0 <= i < args.len() {
        args[i]
    } else {
        JsValue::Undefined
    }
}

/// The argument at `i`, `undefined` where it is missing.
pub fn arg(args: &[JsValue], i: usize) -> (r: JsValue)
    ensures
        r == arg_of(args@, i as int),
{
    if i < args.len() {
        args[i]
    } else {
        JsValue::Undefined
    }
}

/// Whether a context differs from another in its heap only, which is now `h`.
pub open spec fn only_heap(before: Ctx, after: Ctx, h: HeapModel) -> bool {
    &&& after.heap@ == h
    &&& after.wf()
    &&& after.global == before.global
    &&& after.pending == before.pending
}

/// Whether a function returned a text.
pub open spec fn gives_text(
    before: Ctx,
    after: Ctx,
    r: Result<JsValue, Throw>,
    t: Seq<u16>,
) -> bool {
    &&& only_heap(before, after, before.heap@.interned(t))
    &&& r == Ok::<JsValue, Throw>(JsValue::Text(before.heap@.text_id(t)))
}

/// Whether a function left everything as it was and returned an error.
pub open spec fn gives_error(
    before: Ctx,
    after: Ctx,
    r: Result<JsValue, Throw>,
    text: Seq<char>,
) -> bool {
    after == before && r is Err && is_error(r->Err_0, text)
}

/// Whether a function left everything as it was and returned a value.
pub open spec fn gives_value(before: Ctx, after: Ctx, r: Result<JsValue, Throw>, v: JsValue) -> bool {
    after == before && r == Ok::<JsValue, Throw>(v)
}

/// Whether a value is an object of the given sort.
pub open spec fn is_kind(h: HeapModel, v: JsValue, kind: Kind) -> bool {
    v matches JsValue::Object(o) && h.objects[o as int].kind == kind
}

/// Name of a sort of object.
pub open spec fn kind_name(kind: Kind) -> Seq<char> {
    match kind {
        Kind::Ordinary => "Ordinary"@,
        Kind::Array => "Array"@,
        Kind::Arguments => "Arguments"@,
        Kind::Function => "Function"@,
        Kind::Error => "Error"@,
        Kind::Date => "Date"@,
        Kind::RegExp => "RegExp"@,
        Kind::MapObject => "Map"@,
        Kind::SetObject => "Set"@,
        Kind::Iterator => "Iterator"@,
        Kind::Generator => "Generator"@,
        Kind::Promise => "Promise"@,
        Kind::Proxy => "Proxy"@,
    }
}

/// Name of a sort of object.
fn kind_label(kind: Kind) -> (r: &'static str)
    ensures
        r@ == kind_name(kind),
{
    match kind {
        Kind::Ordinary => "Ordinary",
        Kind::Array => "Array",
        Kind::Arguments => "Arguments",
        Kind::Function => "Function",
        Kind::Error => "Error",
        Kind::Date => "Date",
        Kind::RegExp => "RegExp",
        Kind::MapObject => "Map",
        Kind::SetObject => "Set",
        Kind::Iterator => "Iterator",
        Kind::Generator => "Generator",
        Kind::Promise => "Promise",
        Kind::Proxy => "Proxy",
    }
}

/// The object that a receiver is, or the text of the error.
pub open spec fn receiver(h: HeapModel, v: JsValue, method: Seq<char>, kind: Option<Kind>) -> Result<
    usize,
    Seq<char>,
> {
    match v {
        JsValue::Object(o) => match kind {
            Some(k) => if h.objects[o as int].kind == k {
                Ok(o)
            } else {
                Err("TypeError: "@ + method + " called on non-"@ + kind_name(k))
            },
            None => Ok(o),
        },
        _ => Err("TypeError: "@ + method + " called on non-object"@),
    }
}

/// Names of the intrinsics in the slots of the global object.
pub open spec fn intrinsic_names() -> Seq<Seq<char>> {
    seq![
        "Object"@,
        "Array"@,
        "String"@,
        "Number"@,
        "Boolean"@,
        "Math"@,
        "JSON"@,
        "Error"@,
        "TypeError"@,
        "RangeError"@,
        "ReferenceError"@,
        "SyntaxError"@,
        "Promise"@,
        "Symbol"@,
        "Map"@,
        "Set"@,
        "RegExp"@,
        "eval"@,
        "console"@,
        "globalThis"@,
        "Proxy"@,
    ]
}

/// The intrinsics, by name.
#[derive(Clone, Copy, PartialEq, Eq, Structural, Debug)]
pub enum Intrinsic {
    /// `Object`.
    ObjectCtor,
    /// `Array`.
    ArrayCtor,
    /// `Error`.
    ErrorCtor,
    /// `TypeError`.
    TypeErrorCtor,
    /// `RangeError`.
    RangeErrorCtor,
    /// `ReferenceError`.
    ReferenceErrorCtor,
    /// `SyntaxError`.
    SyntaxErrorCtor,
}

/// The slot of the global object that holds an intrinsic.
pub open spec fn intrinsic_index(i: Intrinsic) -> int {
    match i {
        Intrinsic::ObjectCtor => 0,
        Intrinsic::ArrayCtor => 1,
        Intrinsic::ErrorCtor => 7,
        Intrinsic::TypeErrorCtor => 8,
        Intrinsic::RangeErrorCtor => 9,
        Intrinsic::ReferenceErrorCtor => 10,
        Intrinsic::SyntaxErrorCtor => 11,
    }
}

/// An intrinsic of a realm.
pub open spec fn intrinsic_of(h: HeapModel, global: Option<usize>, slot: int) -> Option<JsValue> {
    match global {
        None => None,
        Some(g) => if slot < h.objects[g as int].inner.len() {
            Some(h.objects[g as int].inner[slot])
        } else {
            None
        },
    }
}

/// The prototype that a constructor of the realm carries.
pub open spec fn ctor_proto(h: HeapModel, global: Option<usize>, slot: int) -> Option<usize> {
    match intrinsic_of(h, global, slot) {
        Some(JsValue::Object(c)) => h.objects[c as int].prototype,
        _ => None,
    }
}

/// An array of the realm with the given elements.
pub open spec fn array_object(h: HeapModel, global: Option<usize>, items: Seq<JsValue>) -> ObjModel {
    ObjModel {
        prototype: ctor_proto(h, global, 1),
        elements: items,
        ..plain_object(Kind::Array)
    }
}

// ---------------------------------------------------------------------------
// Installing properties
// ---------------------------------------------------------------------------

/// The key of a name in the heap that [`HeapModel::interned`] makes of it.
pub open spec fn named_key(h: HeapModel, name: Seq<char>) -> PropKey {
    PropKey::Text(h.text_id(utf16_of(name)))
}

/// The heap with a data property of a name on an object.
pub open spec fn with_property(h: HeapModel, o: usize, name: Seq<char>, v: JsValue, attrs: Attrs) -> HeapModel {
    let m = h.objects[o as int];
    h.interned(utf16_of(name)).with_object(
        o,
        ObjModel {
            named: m.named.installed(
                Prop { key: named_key(h, name), attrs, body: PropBody::Data(v) },
            ),
            ..m
        },
    )
}

/// Whether an object has a property of a name.
pub open spec fn has_named(h: HeapModel, o: usize, name: Seq<char>) -> bool {
    has_key(h.objects[o as int].named.list, named_key(h, name))
}

/// `ToPropertyKey`: texts and symbols are keys, of anything else its text is; with the
/// heap that holds the text.
pub open spec fn to_key(h: HeapModel, v: JsValue) -> (HeapModel, PropKey) {
    match v {
        JsValue::Text(n) => (h, PropKey::Text(n)),
        JsValue::Symbol(n) => (h, PropKey::Symbol(n)),
        _ => (h.interned(text_of(h, v)), PropKey::Text(h.text_id(text_of(h, v)))),
    }
}

/// Whether every prototype chain ends.
pub open spec fn all_chains_end(h: HeapModel) -> bool {
    forall|o: usize| o < h.objects.len() ==> #[trigger] chain_ends(h.objects, Some(o))
}

/// Attributes of the `length` and `name` of a built-in function.
pub open spec fn fixed_attrs() -> Attrs {
    Attrs { writable: false, enumerable: false, configurable: true }
}

/// A function object that runs a built-in.
pub open spec fn native_function(id: NativeId) -> ObjModel {
    ObjModel { callable: FunctionTarget::Native(id), ..plain_object(Kind::Function) }
}

impl Ctx {
    /// Whether the heap is well formed and the global object is in it.
    pub open spec fn wf(&self) -> bool {
        self.heap.wf() && self.heap@.valid_object(self.global)
    }

    /// A context around a heap.
    pub fn new(heap: Heap, global: Option<usize>, pending: Option<Vec<Job>>) -> (r: Ctx)
        ensures
            r.heap == heap,
            r.global == global,
            r.pending == pending,
    {
        Ctx { heap, global, pending }
    }

    /// The global object of the realm.
    pub fn global(&self) -> (r: Option<usize>)
        ensures
            r == self.global,
    {
        self.global
    }

    /// An intrinsic of the realm.
    pub fn intrinsic(&self, which: Intrinsic) -> (r: Option<JsValue>)
        requires
            self.wf(),
        ensures
            r == intrinsic_of(self.heap@, self.global, intrinsic_index(which)),
            r matches Some(v) ==> self.heap@.valid(v),
    {
        let slot: usize = match which {
            Intrinsic::ObjectCtor => 0,
            Intrinsic::ArrayCtor => 1,
            Intrinsic::ErrorCtor => 7,
            Intrinsic::TypeErrorCtor => 8,
            Intrinsic::RangeErrorCtor => 9,
            Intrinsic::ReferenceErrorCtor => 10,
            Intrinsic::SyntaxErrorCtor => 11,
        };
        match self.global {
            None => None,
            Some(g) => {
                let o: &JsObject = self.heap.object(g);
                if slot < o.inner.len() {
                    proof {
                        assert(self.heap@.valid(o@.inner[slot as int]));
                    }
                    Some(o.inner.get(slot))
                } else {
                    None
                }
            },
        }
    }

    /// The `Array` constructor.
    pub fn array_ctor_value(&self) -> (r: Option<JsValue>)
        requires
            self.wf(),
        ensures
            r == intrinsic_of(self.heap@, self.global, 1),
    {
        self.intrinsic(Intrinsic::ArrayCtor)
    }

    /// The prototype that a constructor of the realm carries.
    pub fn ctor_prototype(&self, which: Intrinsic) -> (r: Option<usize>)
        requires
            self.wf(),
        ensures
            r == ctor_proto(self.heap@, self.global, intrinsic_index(which)),
            self.heap@.valid_object(r),
    {
        match self.intrinsic(which) {
            Some(JsValue::Object(c)) => self.heap.object(c).prototype,
            _ => None,
        }
    }

    /// Puts an array of the realm into the heap.
    pub fn array_value(&mut self, items: Vec<JsValue>) -> (r: JsValue)
        requires
            old(self).wf(),
            valid_args(old(self).heap@, items@),
        ensures
            only_heap(
                *old(self),
                *final(self),
                old(self).heap@.with_new(array_object(old(self).heap@, old(self).global, items@)),
            ),
            r == JsValue::Object(old(self).heap@.objects.len() as usize),
            final(self).heap@.valid(r),
    {
        let mut o: JsObject = JsObject::plain(Kind::Array);
        o.prototype = self.ctor_prototype(Intrinsic::ArrayCtor);
        o.elements = items;
        proof {
            assert(o@ == array_object(self.heap@, self.global, items@));
        }
        JsValue::Object(self.alloc_obj(o))
    }

    /// Puts an object into the heap.
    pub fn alloc_obj(&mut self, o: JsObject) -> (r: usize)
        requires
            old(self).wf(),
            o.named.wf(),
            old(self).heap@.valid_refs(o@),
        ensures
            only_heap(*old(self), *final(self), old(self).heap@.with_new(o@)),
            r == old(self).heap@.objects.len(),
            r < final(self).heap@.objects.len(),
    {
        self.heap.allocate(o)
    }

    /// Takes over the jobs that getters have queued; they are dropped where none are
    /// collected.
    pub fn collect_jobs(&mut self)
        requires
            old(self).wf(),
        ensures
            final(self).wf(),
            final(self).heap@ == (HeapModel { sink: Seq::empty(), ..old(self).heap@ }),
            final(self).global == old(self).global,
            match old(self).pending {
                None => final(self).pending is None,
                Some(p) => final(self).pending matches Some(q) && q@ == p@ + old(self).heap@.sink,
            },
    {
        let mut jobs: Vec<Job> = self.heap.take_jobs();
        match self.pending.take() {
            Some(p) => {
                let mut pending: Vec<Job> = p;
                pending.append(&mut jobs);
                self.pending = Some(pending);
            },
            None => {},
        }
    }

    /// Enqueues a follow-up job; it is dropped where none are collected.
    pub fn enqueue_job(&mut self, job: Job)
        ensures
            final(self).heap == old(self).heap,
            final(self).global == old(self).global,
            match old(self).pending {
                None => final(self).pending is None,
                Some(p) => final(self).pending is Some && final(self).pending.unwrap()@ == p@.push(
                    job,
                ),
            },
    {
        match &mut self.pending {
            None => {},
            Some(p) => {
                p.push(job);
            },
        }
    }

    /// Fails on `undefined` and `null`.
    pub fn require_object_coercible(&mut self, v: JsValue) -> (r: Result<JsValue, Throw>)
        ensures
            *final(self) == *old(self),
            v == JsValue::Undefined || v == JsValue::Null ==> r is Err && is_error(
                r->Err_0,
                "TypeError: value is not object-coercible"@,
            ),
            v != JsValue::Undefined && v != JsValue::Null ==> r == Ok::<JsValue, Throw>(v),
    {
        if v == JsValue::Undefined || v == JsValue::Null {
            return Err(error("TypeError: value is not object-coercible"));
        }
        Ok(v)
    }

    /// Checked receiver object for `method`: a `TypeError` naming `method` where it is
    /// not an object, or not of `kind` where one is given.
    pub fn this_object(&self, v: JsValue, method: &str, kind: Option<Kind>) -> (r: Result<
        usize,
        Throw,
    >)
        requires
            self.wf(),
            self.heap@.valid(v),
        ensures
            match receiver(self.heap@, v, method@, kind) {
                Ok(o) => r == Ok::<usize, Throw>(o) && v == JsValue::Object(o) && o
                    < self.heap@.objects.len(),
                Err(text) => r is Err && is_error(r->Err_0, text),
            },
    {
        match v {
            JsValue::Object(o) => match kind {
                Some(k) => {
                    if self.heap.object(o).kind == k {
                        Ok(o)
                    } else {
                        let mut s: String = "TypeError: ".to_owned();
                        s.append(method);
                        s.append(" called on non-");
                        s.append(kind_label(k));
                        Err(Throw::Error(s))
                    }
                },
                None => Ok(o),
            },
            _ => Err(error3("TypeError: ", method, " called on non-object")),
        }
    }

    /// `ToNumber`.
    pub fn to_number(&self, v: JsValue) -> (r: u64)
        requires
            self.heap@.valid(v),
        ensures
            r == number_of(self.heap@, v),
    {
        to_number(&self.heap, v)
    }

    /// Text of a value.
    pub fn to_string(&self, v: JsValue) -> (r: Vec<u16>)
        requires
            self.wf(),
            self.heap@.valid(v),
        ensures
            r@ == text_of(self.heap@, v),
    {
        to_text(&self.heap, v)
    }

    /// Text with the number `n`, lone surrogates replaced.
    pub fn string_text(&self, n: usize) -> (r: Vec<u16>)
        requires
            n < self.heap@.texts.len(),
        ensures
            r@ == well_formed(self.heap@.texts[n as int]),
    {
        to_well_formed(self.heap.text(n).as_slice())
    }

    /// A text as a value.
    pub fn text_value(&mut self, t: &[u16]) -> (r: Result<JsValue, Throw>)
        requires
            old(self).wf(),
        ensures
            gives_text(*old(self), *final(self), r, t@),
            r->Ok_0 matches JsValue::Text(n) && n < final(self).heap@.texts.len() && final(self).heap@.texts[n as int] == t@,
    {
        let n: usize = self.heap.intern(t);
        Ok(JsValue::Text(n))
    }

    /// A Rust string as a value.
    pub fn str_value(&mut self, s: &str) -> (r: Result<JsValue, Throw>)
        requires
            old(self).wf(),
        ensures
            gives_text(*old(self), *final(self), r, utf16_of(s@)),
    {
        let n: usize = self.heap.intern_text(s);
        Ok(JsValue::Text(n))
    }

    /// `ToPropertyKey`.
    pub fn property_key(&mut self, v: JsValue) -> (r: PropKey)
        requires
            old(self).wf(),
            old(self).heap@.valid(v),
        ensures
            only_heap(*old(self), *final(self), to_key(old(self).heap@, v).0),
            r == to_key(old(self).heap@, v).1,
            final(self).heap@.valid_key(r),
            old(self).heap@.grows_to(final(self).heap@),
    {
        proof {
            assert(self.heap@.texts.is_prefix_of(self.heap@.texts));
        }
        match v {
            JsValue::Text(n) => PropKey::Text(n),
            JsValue::Symbol(n) => PropKey::Symbol(n),
            _ => {
                let t: Vec<u16> = self.to_string(v);
                PropKey::Text(self.heap.intern(t.as_slice()))
            },
        }
    }

    /// Installs a data property with the given attributes.
    pub fn define_data_prop_with_attrs(
        &mut self,
        obj: usize,
        name: &str,
        value: JsValue,
        attrs: Attrs,
    )
        requires
            old(self).wf(),
            obj < old(self).heap@.objects.len(),
            old(self).heap@.valid(value),
            !has_named(old(self).heap@, obj, name@),
        ensures
            only_heap(
                *old(self),
                *final(self),
                with_property(old(self).heap@, obj, name@, value, attrs),
            ),
    {
        let key: PropKey = PropKey::Text(self.heap.intern_text(name));
        let ghost h = self.heap@;
        let p: Prop = Prop { key, attrs, body: PropBody::Data(value) };
        let o = self.heap.object_mut(obj);
        proof {
            let m = h.objects[obj as int];
            let l = m.named.list.push(p);
            assert forall|k: int| 0 <= k < l.len() implies h.valid_prop(#[trigger] l[k]) by {
                if k < m.named.list.len() {
                    assert(h.valid_prop(m.named.list[k]));
                }
            }
            assert(h.valid_refs(ObjModel { named: m.named.installed(p), ..m }));
        }
        o.named.install(p);
    }

    /// Installs a data property with the attributes of built-ins.
    pub fn define_data_prop(&mut self, obj: usize, name: &str, value: JsValue)
        requires
            old(self).wf(),
            obj < old(self).heap@.objects.len(),
            old(self).heap@.valid(value),
            !has_named(old(self).heap@, obj, name@),
        ensures
            only_heap(
                *old(self),
                *final(self),
                with_property(old(self).heap@, obj, name@, value, builtin_attrs()),
            ),
    {
        self.define_data_prop_with_attrs(obj, name, value, Attrs::new(true, false, true));
    }

    /// Whether an object has a property of a name.
    pub fn has_own_name(&mut self, obj: usize, name: &str) -> (r: bool)
        requires
            old(self).wf(),
            obj < old(self).heap@.objects.len(),
        ensures
            only_heap(*old(self), *final(self), old(self).heap@.interned(utf16_of(name@))),
            r == has_named(old(self).heap@, obj, name@),
    {
        let key: PropKey = PropKey::Text(self.heap.intern_text(name));
        self.heap.object(obj).named.get(key).is_some()
    }
}

/// A built-in that calls back into the script: it runs in the interpreter alone.
pub fn callback_stub(ctx: &mut Ctx, _this: JsValue, _args: &[JsValue]) -> (r: Result<
    JsValue,
    Throw,
>)
    ensures
        gives_error(
            *old(ctx),
            *final(ctx),
            r,
            "TypeError: built-in method must be invoked through the interpreter"@,
        ),
{
    Err(error("TypeError: built-in method must be invoked through the interpreter"))
}

} // verus!
