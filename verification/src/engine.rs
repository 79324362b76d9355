//! The engine around the interpreter: its heap, its jobs and the outcome of a script.
//!
//! Compiling and running a script is the interpreter's work. What is decided before
//! and after it is here: which sources are refused, what a script's outcome means for
//! the caller, and which jobs are still to run.
use vstd::prelude::*;
use vstd::string::*;

use crate::convert::{int_value, smi_or_f64};
use crate::ctx::{Ctx, named_key, only_heap, valid_args};
use crate::display::{shown, to_display_string};
use crate::error::{EngineError, MAX_SOURCE_LEN, check_source};
use crate::heap::{Heap, HeapModel, JsObject, ObjModel, lemma_text_id, plain_object};
use crate::job_queue::{Job, JobQueue, accepted};
use crate::promise::{STATE_PENDING, make_pending_promise, with_promise};
use crate::properties::{Prop, PropBody, index_of_key, lookup};
use crate::text::{chars_of, same_units, to_chars, to_well_formed, utf16, utf16_of, well_formed};
use crate::value::{Attrs, FunctionTarget, JsValue, Kind, PropKey, all_attrs};

verus! {

/// The engine's state between scripts.
pub struct Engine {
    /// The heap, the global object and the jobs that built-ins have queued.
    pub ctx: Ctx,
    /// The queue of jobs.
    pub jobs: JobQueue,
    /// What the last script came to.
    pub completion: Option<JsValue>,
}

/// Whether a value is in the heap, where there is one.
pub open spec fn valid_option(h: HeapModel, v: Option<JsValue>) -> bool {
    match v {
        Some(v) => h.valid(v),
        None => true,
    }
}

/// Whether two engines differ in their heap alone.
pub open spec fn same_but_heap(before: Engine, after: Engine, h: HeapModel) -> bool {
    &&& only_heap(before.ctx, after.ctx, h)
    &&& after.jobs == before.jobs
    &&& after.completion == before.completion
    &&& after.wf()
}

/// The text of an error that is no thrown value.
pub open spec fn refusal_text(e: EngineError) -> Seq<char> {
    match e {
        EngineError::Host(m) => m@,
        EngineError::Compile(c) => c.message@,
        EngineError::Thrown(_) => seq![],
    }
}

impl Engine {
    /// Whether all that the engine refers to is in its heap.
    pub open spec fn wf(&self) -> bool {
        &&& self.ctx.wf()
        &&& self.ctx.pending is Some
        &&& valid_option(self.ctx.heap@, self.completion)
    }

    /// An engine with a heap and a global object, without jobs.
    pub fn new(heap: Heap, global: Option<usize>) -> (r: Engine)
        requires
            heap.wf(),
            heap@.valid_object(global),
        ensures
            r.wf(),
            r.ctx.heap@ == heap@,
            r.ctx.global == global,
            r.ctx.pending matches Some(p) && p@.len() == 0,
            r.jobs@.len() == 0,
            r.completion is None,
    {
        let pending: Vec<Job> = Vec::new();
        Engine {
            ctx: Ctx::new(heap, global, Some(pending)),
            jobs: JobQueue::new(),
            completion: None,
        }
    }

    /// What the last script came to, `undefined` before the first.
    pub fn last_completion(&self) -> (r: JsValue)
        ensures
            r == match self.completion {
                Some(v) => v,
                None => JsValue::Undefined,
            },
    {
        match self.completion {
            Some(v) => v,
            None => JsValue::Undefined,
        }
    }

    /// An error as a thrown value: a thrown value itself, else the text of the refusal.
    pub fn error_to_value(&mut self, e: EngineError) -> (r: JsValue)
        requires
            old(self).wf(),
        ensures
            match e {
                EngineError::Thrown(v) => same_but_heap(
                    *old(self),
                    *final(self),
                    old(self).ctx.heap@,
                ) && r == v,
                _ => same_but_heap(
                    *old(self),
                    *final(self),
                    old(self).ctx.heap@.interned(utf16_of(refusal_text(e))),
                ) && r == JsValue::Text(
                    old(self).ctx.heap@.text_id(utf16_of(refusal_text(e))),
                ),
            },
    {
        match e {
            EngineError::Thrown(v) => v,
            EngineError::Host(m) => JsValue::Text(self.ctx.heap.intern_text(m.as_str())),
            EngineError::Compile(c) => JsValue::Text(
                self.ctx.heap.intern_text(c.message.as_str()),
            ),
        }
    }

    /// Takes over how a script ended: the completion value of one that succeeded is kept,
    /// and a thrown value is an error.
    pub fn finish_eval(&mut self, outcome: Result<(), JsValue>, completion: Option<JsValue>) -> (r:
        Result<JsValue, EngineError>)
        requires
            old(self).wf(),
            valid_option(old(self).ctx.heap@, completion),
        ensures
            final(self).wf(),
            final(self).ctx == old(self).ctx,
            final(self).jobs == old(self).jobs,
            final(self).completion == if outcome is Ok {
                completion
            } else {
                old(self).completion
            },
            match outcome {
                Ok(_) => r == Ok::<JsValue, EngineError>(
                    match completion {
                        Some(v) => v,
                        None => JsValue::Undefined,
                    },
                ),
                Err(v) => r matches Err(EngineError::Thrown(t)) && t == v,
            },
    {
        match outcome {
            Ok(_) => {
                self.completion = completion;
                Ok(self.last_completion())
            },
            Err(v) => Err(EngineError::Thrown(v)),
        }
    }

    /// The error value of a source that is too long for a module or an indirect `eval`,
    /// `None` for any other.
    pub fn refuse_source(&mut self, source: &str) -> (r: Option<JsValue>)
        requires
            old(self).wf(),
        ensures
            if source.spec_bytes().len() <= MAX_SOURCE_LEN {
                same_but_heap(*old(self), *final(self), old(self).ctx.heap@) && r is None
            } else {
                let t = utf16_of("RangeError: source too large"@);
                same_but_heap(*old(self), *final(self), old(self).ctx.heap@.interned(t)) && r
                    == Some(JsValue::Text(old(self).ctx.heap@.text_id(t)))
            },
    {
        match check_source(source) {
            Ok(_) => None,
            Err(_) => Some(
                JsValue::Text(self.ctx.heap.intern_text("RangeError: source too large")),
            ),
        }
    }

    /// Queues a job; `false` where the queue is full.
    pub fn enqueue_job(&mut self, job: Job) -> (r: bool)
        ensures
            final(self).ctx == old(self).ctx,
            final(self).completion == old(self).completion,
            r == (old(self).jobs@.len() < crate::job_queue::MAX_QUEUE_LEN),
            final(self).jobs@ == if r {
                old(self).jobs@.push(job)
            } else {
                old(self).jobs@
            },
    {
        self.jobs.enqueue(job)
    }

    /// Moves the jobs that built-ins and getters have queued into the queue, as many as
    /// there is room for.
    pub fn adopt_pending(&mut self)
        requires
            old(self).wf(),
        ensures
            final(self).wf(),
            final(self).ctx.heap@ == (HeapModel { sink: Seq::empty(), ..old(self).ctx.heap@ }),
            final(self).ctx.global == old(self).ctx.global,
            final(self).ctx.pending matches Some(p) && p@.len() == 0,
            final(self).jobs@ == accepted(
                old(self).jobs@,
                old(self).ctx.pending.unwrap()@ + old(self).ctx.heap@.sink,
            ),
            final(self).completion == old(self).completion,
    {
        self.ctx.collect_jobs();
        match self.ctx.pending.take() {
            Some(p) => {
                let mut pending: Vec<Job> = p;
                self.jobs.accept(&mut pending);
                self.ctx.pending = Some(pending);
            },
            None => {},
        }
    }

    /// A promise that is not settled and has no prototype.
    pub fn new_pending_promise(&mut self) -> (r: usize)
        requires
            old(self).wf(),
        ensures
            same_but_heap(
                *old(self),
                *final(self),
                with_promise(old(self).ctx.heap@, None, STATE_PENDING, JsValue::Undefined),
            ),
            r == old(self).ctx.heap@.objects.len() + 1,
    {
        make_pending_promise(&mut self.ctx.heap, None)
    }
}

// ---------------------------------------------------------------------------
// Functions from texts
// ---------------------------------------------------------------------------

/// The source text of a function with the given parameters and body.
pub fn function_source(params: &str, body: &str) -> (r: String)
    ensures
        r@ == "function __f("@ + params@ + "){"@ + body@ + "}"@,
{
    let mut s: String = "function __f(".to_owned();
    s.append(params);
    s.append("){");
    s.append(body);
    s.append("}");
    s
}

/// The first `n` parameters that are texts, with commas between them.
pub open spec fn parameter_units(h: HeapModel, args: Seq<JsValue>, n: int) -> Option<Seq<u16>>
    decreases n,
{
    if n <= 0 {
        None
    } else {
        match args[n - 1] {
            JsValue::Text(t) => match parameter_units(h, args, n - 1) {
                Some(before) => Some(before + utf16_of(","@) + well_formed(h.texts[t as int])),
                None => Some(well_formed(h.texts[t as int])),
            },
            _ => parameter_units(h, args, n - 1),
        }
    }
}

/// The source text that the arguments of `Function` make: all but the last that are texts
/// are parameters, the last is the body.
pub open spec fn source_units(h: HeapModel, args: Seq<JsValue>) -> Seq<u16> {
    utf16_of("function __f("@) + match parameter_units(h, args, args.len() - 1) {
        Some(t) => t,
        None => seq![],
    } + utf16_of("){"@) + match args.last() {
        JsValue::Text(t) if args.len() > 0 => well_formed(h.texts[t as int]),
        _ => seq![],
    } + utf16_of("}"@)
}

/// The source text that the arguments of `Function` make.
pub fn construct_source(heap: &Heap, args: &[JsValue]) -> (r: String)
    requires
        heap.wf(),
        valid_args(heap@, args@),
    ensures
        r@ == chars_of(source_units(heap@, args@)),
{
    let n: usize = args.len();
    let mut out: Vec<u16> = utf16("function __f(");
    let ghost head = out@;
    let mut first: bool = true;
    let mut i: usize = 0;
    proof {
        assert(head + Seq::<u16>::empty() =~= head);
    }
    while i + 1 < n
        invariant
            n == args@.len(),
            i < n || i == 0,
            i <= n,
            n <= usize::MAX,
            heap.wf(),
            valid_args(heap@, args@),
            first == (parameter_units(heap@, args@, i as int) is None),
            out@ == head + match parameter_units(heap@, args@, i as int) {
                Some(t) => t,
                None => seq![],
            },
        decreases n - i,
    {
        let ghost before = parameter_units(heap@, args@, i as int);
        match args[i] {
            JsValue::Text(t) => {
                proof {
                    assert(heap@.valid(args@[i as int]));
                }
                if !first {
                    let mut comma: Vec<u16> = utf16(",");
                    out.append(&mut comma);
                }
                let mut text: Vec<u16> = to_well_formed(heap.text(t).as_slice());
                out.append(&mut text);
                first = false;
                proof {
                    let now = parameter_units(heap@, args@, i + 1);
                    assert(out@ =~= head + now.unwrap());
                }
            },
            _ => {},
        }
        i = i + 1;
    }
    let mut open: Vec<u16> = utf16("){");
    out.append(&mut open);
    if n > 0 {
        match args[n - 1] {
            JsValue::Text(t) => {
                proof {
                    assert(heap@.valid(args@[n - 1]));
                }
                let mut body: Vec<u16> = to_well_formed(heap.text(t).as_slice());
                out.append(&mut body);
            },
            _ => {},
        }
    }
    let mut close: Vec<u16> = utf16("}");
    out.append(&mut close);
    proof {
        assert(out@ =~= source_units(heap@, args@));
    }
    to_chars(out.as_slice())
}

/// The first function from `i` on that has a name.
pub open spec fn named_from(names: Seq<Option<String>>, name: Seq<char>, i: int) -> Option<int>
    decreases names.len() - i,
{
    if i < 0 || i >= names.len() {
        None
    } else if names[i] matches Some(s) && s@ == name {
        Some(i)
    } else {
        named_from(names, name, i + 1)
    }
}

/// The first function that has a name.
fn find_named(names: &Vec<Option<String>>, name: &str) -> (r: Option<usize>)
    ensures
        match named_from(names@, name@, 0) {
            Some(i) => r matches Some(k) && k == i && k < names@.len(),
            None => r is None,
        },
{
    let wanted: Vec<u16> = utf16(name);
    let mut i: usize = 0;
    while i < names.len()
        invariant
            i <= names@.len(),
            wanted@ == utf16_of(name@),
            named_from(names@, name@, 0) == named_from(names@, name@, i as int),
        decreases names@.len() - i,
    {
        match &names[i] {
            Some(s) => {
                let units: Vec<u16> = utf16(s.as_str());
                if same_units(units.as_slice(), wanted.as_slice()) {
                    proof {
                        crate::text::law_units_unique(s@, name@);
                    }
                    return Some(i);
                }
            },
            None => {},
        }
        i = i + 1;
    }
    None
}

/// Which function of a compiled program is the one that was asked for: the one named
/// `__f`, else the one named `<fn>:__f`, else the one after the first.
pub open spec fn closure_of(names: Seq<Option<String>>) -> int {
    match named_from(names, "__f"@, 0) {
        Some(i) => i,
        None => match named_from(names, "<fn>:__f"@, 0) {
            Some(i) => i,
            None => 1,
        },
    }
}

/// Which function of a compiled program is the one that was asked for.
pub fn closure_index(names: &Vec<Option<String>>) -> (r: u32)
    requires
        names@.len() <= u32::MAX,
    ensures
        r == closure_of(names@),
{
    match find_named(names, "__f") {
        Some(i) => i as u32,
        None => match find_named(names, "<fn>:__f") {
            Some(i) => i as u32,
            None => 1,
        },
    }
}

/// A function object of the given target.
pub open spec fn function_object(target: FunctionTarget) -> ObjModel {
    ObjModel { callable: target, ..plain_object(Kind::Function) }
}

/// The object of a compiled function: its first element is the number of the function.
pub open spec fn compiled_function(index: u32) -> ObjModel {
    ObjModel {
        elements: seq![int_value(index as int)],
        ..function_object(FunctionTarget::Bytecode(index))
    }
}

/// The heap with a function of the embedder as a property of the global object: the value
/// of a property of that name, which keeps its attributes where it is a data property, or
/// a new one.
pub open spec fn with_host(h: HeapModel, global: usize, name: Seq<char>, host: u32) -> HeapModel {
    let f = JsValue::Object(h.objects.len() as usize);
    let h1 = h.with_new(function_object(FunctionTarget::Host(host))).interned(utf16_of(name));
    let m = h1.objects[global as int];
    let key = named_key(h1, name);
    h1.with_object(
        global,
        ObjModel {
            named: match lookup(m.named.list, key) {
                Some(p) => m.named.updated(
                    index_of_key(m.named.list, key),
                    Prop {
                        key,
                        attrs: if p.body is Data {
                            p.attrs
                        } else {
                            all_attrs()
                        },
                        body: PropBody::Data(f),
                    },
                ),
                None => m.named.installed(
                    Prop { key, attrs: all_attrs(), body: PropBody::Data(f) },
                ),
            },
            ..m
        },
    )
}

/// What calling a global function by its name calls, or the text of the error.
pub open spec fn global_function(h: HeapModel, global: usize, name: Seq<char>) -> Result<
    usize,
    Seq<char>,
> {
    let m = h.objects[global as int];
    match lookup(m.named.list, named_key(h, name)) {
        Some(p) => match p.body {
            PropBody::Data(JsValue::Object(o)) => Ok(o),
            PropBody::Data(_) => Err("TypeError: "@ + name + " is not a function"@),
            PropBody::Accessor(_, _) => Err("ReferenceError: "@ + name + " is not defined"@),
        },
        None => Err("ReferenceError: "@ + name + " is not defined"@),
    }
}

impl Engine {
    /// Makes a function object for a compiled function.
    pub fn create_function(&mut self, index: u32) -> (r: JsValue)
        requires
            old(self).wf(),
        ensures
            same_but_heap(
                *old(self),
                *final(self),
                old(self).ctx.heap@.with_new(compiled_function(index)),
            ),
            r == JsValue::Object(old(self).ctx.heap@.objects.len() as usize),
    {
        let mut o: JsObject = JsObject::plain(Kind::Function);
        o.callable = FunctionTarget::Bytecode(index);
        o.elements.push(smi_or_f64(index as i64));
        proof {
            assert(o@.elements =~= compiled_function(index).elements);
            assert(o@ == compiled_function(index));
        }
        let f: usize = self.ctx.alloc_obj(o);
        JsValue::Object(f)
    }

    /// Makes a function of the embedder a property of the global object.
    pub fn create_host_function(&mut self, name: &str, host: u32)
        requires
            old(self).wf(),
            old(self).ctx.global is Some,
        ensures
            same_but_heap(
                *old(self),
                *final(self),
                with_host(old(self).ctx.heap@, old(self).ctx.global.unwrap(), name@, host),
            ),
    {
        let global: usize = match self.ctx.global {
            Some(g) => g,
            None => {
                return;
            },
        };
        let mut o: JsObject = JsObject::plain(Kind::Function);
        o.callable = FunctionTarget::Host(host);
        proof {
            assert(o@ == function_object(FunctionTarget::Host(host)));
        }
        let f: usize = self.ctx.heap.allocate(o);
        let id: usize = self.ctx.heap.intern_text(name);
        let ghost h1 = self.ctx.heap@;
        let key: PropKey = PropKey::Text(id);
        proof {
            self.ctx.heap.lemma_wf();
            lemma_text_id(h1, id as int);
        }
        let g = self.ctx.heap.object_mut(global);
        let ghost m = h1.objects[global as int];
        let body: PropBody = PropBody::Data(JsValue::Object(f));
        match g.named.get(key) {
            Some(p) => {
                let attrs: Attrs = match p.body {
                    PropBody::Data(_) => p.attrs,
                    PropBody::Accessor(_, _) => Attrs::all(),
                };
                proof {
                    let q = Prop { key, attrs, body };
                    let l = m.named.list.update(index_of_key(m.named.list, key), q);
                    assert forall|k: int| 0 <= k < l.len() implies h1.valid_prop(
                        #[trigger] l[k],
                    ) by {
                        if k != index_of_key(m.named.list, key) {
                            assert(h1.valid_prop(m.named.list[k]));
                        }
                    }
                    assert(h1.valid_refs(
                        ObjModel {
                            named: m.named.updated(index_of_key(m.named.list, key), q),
                            ..m
                        },
                    ));
                }
                g.named.replace(key, attrs, body);
            },
            None => {
                let p: Prop = Prop { key, attrs: Attrs::all(), body };
                proof {
                    let l = m.named.list.push(p);
                    assert forall|k: int| 0 <= k < l.len() implies h1.valid_prop(
                        #[trigger] l[k],
                    ) by {
                        if k < m.named.list.len() {
                            assert(h1.valid_prop(m.named.list[k]));
                        }
                    }
                    assert(h1.valid_refs(ObjModel { named: m.named.installed(p), ..m }));
                }
                g.named.install(p);
            },
        }
    }

    /// The function that a global name stands for, or an error text as a value.
    pub fn resolve_global(&mut self, name: &str) -> (r: Result<usize, JsValue>)
        requires
            old(self).wf(),
            old(self).ctx.global is Some,
        ensures
            ({
                let h = old(self).ctx.heap@.interned(utf16_of(name@));
                match global_function(h, old(self).ctx.global.unwrap(), name@) {
                    Ok(o) => same_but_heap(*old(self), *final(self), h) && r == Ok::<
                        usize,
                        JsValue,
                    >(o) && o < h.objects.len(),
                    Err(t) => same_but_heap(*old(self), *final(self), h.interned(utf16_of(t)))
                        && r == Err::<usize, JsValue>(JsValue::Text(h.text_id(utf16_of(t)))),
                }
            }),
    {
        let id: usize = self.ctx.heap.intern_text(name);
        let ghost h = self.ctx.heap@;
        proof {
            self.ctx.heap.lemma_wf();
            lemma_text_id(h, id as int);
        }
        let global: usize = match self.ctx.global {
            Some(g) => g,
            None => {
                return Ok(0);
            },
        };
        let o = self.ctx.heap.object(global);
        let mut text: String = "".to_owned();
        match o.named.get(PropKey::Text(id)) {
            Some(p) => {
                proof {
                    let l = o@.named.list;
                    assert(h.valid_prop(l[index_of_key(l, PropKey::Text(id))]));
                }
                match p.body {
                    PropBody::Data(JsValue::Object(f)) => {
                        return Ok(f);
                    },
                    PropBody::Data(_) => {
                        text = "TypeError: ".to_owned();
                        text.append(name);
                        text.append(" is not a function");
                    },
                    PropBody::Accessor(_, _) => {
                        text = "ReferenceError: ".to_owned();
                        text.append(name);
                        text.append(" is not defined");
                    },
                }
            },
            None => {
                text = "ReferenceError: ".to_owned();
                text.append(name);
                text.append(" is not defined");
            },
        }
        Err(JsValue::Text(self.ctx.heap.intern_text(text.as_str())))
    }

    /// A value of another heap as one of this: primitive values stay, texts are taken
    /// over, and what only the other heap holds is `undefined`.
    pub fn translate_value(&mut self, from: &Heap, v: JsValue) -> (r: JsValue)
        requires
            old(self).wf(),
            from.wf(),
            from@.valid(v),
        ensures
            match v {
                JsValue::Text(n) => {
                    let t = well_formed(from@.texts[n as int]);
                    same_but_heap(*old(self), *final(self), old(self).ctx.heap@.interned(t)) && r
                        == JsValue::Text(old(self).ctx.heap@.text_id(t))
                },
                JsValue::Object(_) | JsValue::Symbol(_) | JsValue::BigInt(_) => same_but_heap(
                    *old(self),
                    *final(self),
                    old(self).ctx.heap@,
                ) && r == JsValue::Undefined,
                _ => same_but_heap(*old(self), *final(self), old(self).ctx.heap@) && r == v,
            },
    {
        match v {
            JsValue::Text(n) => {
                let t: Vec<u16> = to_well_formed(from.text(n).as_slice());
                JsValue::Text(self.ctx.heap.intern(t.as_slice()))
            },
            JsValue::Object(_) | JsValue::Symbol(_) | JsValue::BigInt(_) => JsValue::Undefined,
            _ => v,
        }
    }

    /// The text of a value for a reader.
    pub fn to_display_string(&self, v: JsValue) -> (r: String)
        requires
            self.wf(),
            self.ctx.heap@.valid(v),
        ensures
            r@ == chars_of(shown(self.ctx.heap@, v, 0)),
    {
        to_display_string(&self.ctx.heap, v)
    }
}

} // verus!
