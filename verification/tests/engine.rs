use v12_engine::bigint::bigint_text;
use v12_engine::ctx::Ctx;
use v12_engine::engine::{closure_index, construct_source, function_source, Engine};
use v12_engine::error::{check_source, CompileError, EngineError};
use v12_engine::heap::{BigInt, Heap, JsObject};
use v12_engine::internal_methods::dispatch_get;
use v12_engine::iterator::{
    array_iterator, array_iterator_entries, array_iterator_keys, iterator_next, map_iterator,
    set_iterator,
};
use v12_engine::jit_tier::{jit_flag_is_on, JitTier};
use v12_engine::job_queue::{Action, Checkpoint, Event, Job, JobQueue, MAX_QUEUE_LEN};
use v12_engine::map::{map_construct, map_set, set_add, set_construct};
use v12_engine::object::object_get_prototype_of;
use v12_engine::object_define::object_proto_define_getter;
use v12_engine::properties::PropBody;
use v12_engine::value::{FunctionTarget, JsValue, Kind, PropKey, Throw};

fn ctx() -> Ctx {
    Ctx::new(Heap::new(), None, None)
}

fn engine() -> Engine {
    let mut heap = Heap::new();
    let global = heap.allocate(JsObject::plain(Kind::Ordinary));
    Engine::new(heap, Some(global))
}

/// Runs a checkpoint whose jobs do nothing, and says how many ran.
fn run_jobs(engine: &mut Engine, mut ran: impl FnMut(Job)) -> usize {
    engine.adopt_pending();
    let mut point = Checkpoint::new();
    let mut event = Event::Begin;
    loop {
        let pending = engine.ctx.pending.as_mut().unwrap();
        match point.step(event, &mut engine.jobs, pending) {
            Action::Run(job) => {
                ran(job);
                event = Event::JobDone;
            }
            Action::ResumeAwait => {
                event = Event::NothingToResume { deadline_exceeded: false, awaiting: false };
            }
            Action::Finish(count) => return count,
        }
    }
}

fn get(c: &mut Ctx, o: usize, name: &str) -> JsValue {
    let key = PropKey::Text(c.heap.intern_text(name));
    dispatch_get(&mut c.heap, o, key, JsValue::Object(o)).unwrap()
}

fn object(v: JsValue) -> usize {
    match v {
        JsValue::Object(o) => o,
        other => panic!("no object: {:?}", other),
    }
}

fn text(c: &Ctx, v: JsValue) -> String {
    match v {
        JsValue::Text(n) => String::from_utf16_lossy(c.heap.text(n)),
        JsValue::Smi(n) => format!("{n}"),
        other => panic!("no text: {:?}", other),
    }
}

/// The values that an iterator gives until it is done.
fn each(c: &mut Ctx, it: JsValue) -> Vec<JsValue> {
    let mut out = Vec::new();
    loop {
        let r = object(iterator_next(c, it, &[]).unwrap());
        if get(c, r, "done") == JsValue::Bool(true) {
            return out;
        }
        out.push(get(c, r, "value"));
    }
}

fn array(c: &mut Ctx, items: Vec<JsValue>) -> JsValue {
    c.array_value(items)
}

#[test]
fn jit_flag_decision_table() {
    // Unset is off; only a non-empty value other than `0` turns the tier on.
    assert!(!jit_flag_is_on(None));
    assert!(!jit_flag_is_on(Some("")));
    assert!(!jit_flag_is_on(Some("0")));
    assert!(jit_flag_is_on(Some("1")));
    assert!(jit_flag_is_on(Some("on")));
}

#[test]
fn functions_are_compiled_once() {
    let mut tier = JitTier::new(2);
    assert!(tier.on_tier_up(1));
    tier.record(1, true);
    assert!(tier.is_compiled(1));
    assert!(!tier.on_tier_up(1));
    assert!(!tier.is_compiled(0));
    assert!(!tier.on_tier_up(7));
}

#[test]
fn display_includes_kind_label() {
    let host = EngineError::Host("file not found".into());
    assert!(host.to_display_string().contains("file not found"));
    let compile = EngineError::Compile(CompileError {
        message: "unexpected token".into(),
        span: Some((0, 1)),
    });
    let s = compile.to_display_string();
    assert!(s.contains("compile error"));
    assert!(s.contains("unexpected token"));
    let thrown = EngineError::Thrown(JsValue::Undefined);
    let s = thrown.to_display_string();
    assert!(s.contains("script threw"));
}

#[test]
fn kind_label_is_stable() {
    assert_eq!(EngineError::Host(String::new()).kind_label(), "host");
    assert_eq!(EngineError::Thrown(JsValue::Undefined).kind_label(), "thrown");
    assert_eq!(
        EngineError::Compile(CompileError { message: String::new(), span: None }).kind_label(),
        "compile"
    );
}

#[test]
fn from_compile_error() {
    let ce = CompileError { message: "x".into(), span: None };
    let e: EngineError = ce.into();
    assert!(matches!(e, EngineError::Compile(_)));
}

#[test]
fn eval_handles_large_source_limit() {
    let mut engine = engine();
    let big = "a".repeat(1_000_001);
    let err = check_source(&big).unwrap_err();
    let err = engine.error_to_value(err);
    assert!(matches!(err, JsValue::Text(_)));
    assert!(check_source(&"a".repeat(1_000_000)).is_ok());
    assert!(matches!(engine.refuse_source(&big), Some(JsValue::Text(_))));
    assert_eq!(engine.refuse_source("1"), None);
}

#[test]
fn run_jobs_drains_explicitly() {
    let mut engine = engine();
    engine.enqueue_job(Job::Call(0));
    engine.enqueue_job(Job::Call(0));
    assert_eq!(run_jobs(&mut engine, |_| {}), 2);
    assert_eq!(run_jobs(&mut engine, |_| {}), 0);
}

#[test]
fn job_queue_enqueues_and_drains_after_eval() {
    let mut engine = engine();
    let mut counter = 0;
    engine.enqueue_job(Job::Call(0));
    assert!(engine.finish_eval(Ok(()), None).is_ok());
    run_jobs(&mut engine, |_| counter += 1);
    assert_eq!(counter, 1);
}

#[test]
fn a_full_queue_takes_no_job() {
    let mut q = JobQueue::new();
    for _ in 0..MAX_QUEUE_LEN {
        assert!(q.enqueue(Job::Call(0)));
    }
    assert!(!q.enqueue(Job::Call(0)));
    assert_eq!(q.len(), MAX_QUEUE_LEN);
    q.clear();
    assert!(q.is_empty());
}

#[test]
fn completions_and_thrown_values() {
    let mut engine = engine();
    assert_eq!(engine.last_completion(), JsValue::Undefined);
    let r = engine.finish_eval(Ok(()), Some(JsValue::Smi(2)));
    assert!(matches!(r, Ok(JsValue::Smi(2))));
    assert_eq!(engine.last_completion(), JsValue::Smi(2));
    let r = engine.finish_eval(Err(JsValue::Smi(7)), None);
    assert!(matches!(r, Err(EngineError::Thrown(JsValue::Smi(7)))));
    // Only a script that succeeds leaves a completion value.
    assert_eq!(engine.last_completion(), JsValue::Smi(2));
}

#[test]
fn function_constructor_creates_function_object() {
    let mut engine = engine();
    assert_eq!(function_source("a", "return a+1;"), "function __f(a){return a+1;}");
    let names = vec![None, Some("g".to_string()), Some("__f".to_string())];
    let func = engine.create_function(closure_index(&names));
    let o = object(func);
    assert_eq!(engine.ctx.heap.object(o).kind, Kind::Function);
    assert_eq!(engine.ctx.heap.object(o).callable, FunctionTarget::Bytecode(2));
    assert_eq!(closure_index(&vec![None, None, Some("<fn>:__f".to_string())]), 2);
    assert_eq!(closure_index(&vec![None]), 1);
}

#[test]
fn function_sources_from_arguments() {
    let mut h = Heap::new();
    let a = JsValue::Text(h.intern_text("a"));
    let b = JsValue::Text(h.intern_text("b"));
    let body = JsValue::Text(h.intern_text("return a"));
    assert_eq!(construct_source(&h, &[a, JsValue::Null, b, body]), "function __f(a,b){return a}");
    assert_eq!(construct_source(&h, &[]), "function __f(){}");
}

#[test]
fn host_functions_are_globals() {
    let mut engine = engine();
    engine.create_host_function("print", 3);
    let f = engine.resolve_global("print").unwrap();
    assert_eq!(engine.ctx.heap.object(f).callable, FunctionTarget::Host(3));
    engine.create_host_function("print", 4);
    let f = engine.resolve_global("print").unwrap();
    assert_eq!(engine.ctx.heap.object(f).callable, FunctionTarget::Host(4));
    let e = engine.resolve_global("missing").unwrap_err();
    assert_eq!(text(&engine.ctx, e), "ReferenceError: missing is not defined");
}

#[test]
fn object_get_prototype_of_via_global_and_native_registry() {
    let mut c = ctx();
    let proto = c.heap.allocate(JsObject::plain(Kind::Ordinary));
    let mut o = JsObject::plain(Kind::Ordinary);
    o.prototype = Some(proto);
    let child = c.heap.allocate(o);
    let res = object_get_prototype_of(&mut c, JsValue::Undefined, &[JsValue::Object(child)]);
    assert_eq!(res.unwrap(), JsValue::Object(proto));
    let lone = c.heap.allocate(JsObject::plain(Kind::Ordinary));
    let res2 = object_get_prototype_of(&mut c, JsValue::Undefined, &[JsValue::Object(lone)]);
    assert_eq!(res2.unwrap(), JsValue::Null);
}

#[test]
fn accessor_getter_and_setter_via_internal_methods() {
    let mut c = ctx();
    let name = JsValue::Text(c.heap.intern_text("accProp"));
    let mut f = JsObject::plain(Kind::Function);
    f.callable = FunctionTarget::Bytecode(9);
    let getter = c.heap.allocate(f);
    let o = c.heap.allocate(JsObject::plain(Kind::Ordinary));
    object_proto_define_getter(&mut c, JsValue::Object(o), &[name, JsValue::Object(getter)])
        .unwrap();
    let key = PropKey::Text(c.heap.intern_text("accProp"));
    let p = c.heap.object(o).named.get(key).expect("accessor");
    assert_eq!(p.body, PropBody::Accessor(Some(getter), None));
    // A property under another name is still a data property.
    c.define_data_prop(o, "other", JsValue::Smi(1));
    let other = PropKey::Text(c.heap.intern_text("other"));
    let p = c.heap.object(o).named.get(other).unwrap();
    assert!(matches!(p.body, PropBody::Data(_)));
}

#[test]
fn for_of_over_array_binding_and_break() {
    let mut c = ctx();
    let arr = array(&mut c, vec![JsValue::Smi(10), JsValue::Smi(20), JsValue::Smi(30)]);
    let it = array_iterator(&mut c, arr, &[]).unwrap();
    let r = object(iterator_next(&mut c, it, &[]).unwrap());
    assert_eq!(get(&mut c, r, "value"), JsValue::Smi(10));
}

#[test]
fn for_of_over_set_and_map() {
    let mut c = ctx();
    // A set gives its values in the order of their insertion.
    let s = set_construct(&mut c, JsValue::Undefined, &[]).unwrap();
    for n in [1, 2, 3] {
        set_add(&mut c, s, &[JsValue::Smi(n)]).unwrap();
    }
    let it = set_iterator(&mut c, s, &[]).unwrap();
    let sum: i32 = each(&mut c, it)
        .into_iter()
        .map(|v| match v {
            JsValue::Smi(n) => n,
            _ => 0,
        })
        .sum();
    assert_eq!(sum, 6);
    // A map gives pairs of key and value.
    let m = map_construct(&mut c, JsValue::Undefined, &[]).unwrap();
    let (a, b) = (JsValue::Text(c.heap.intern_text("a")), JsValue::Text(c.heap.intern_text("b")));
    map_set(&mut c, m, &[a, JsValue::Smi(1)]).unwrap();
    map_set(&mut c, m, &[b, JsValue::Smi(2)]).unwrap();
    let it = map_iterator(&mut c, m, &[]).unwrap();
    let mut out = String::new();
    for pair in each(&mut c, it) {
        for v in c.heap.object(object(pair)).elements.clone() {
            out.push_str(&text(&c, v));
        }
    }
    assert_eq!(out, "a1b2");
}

#[test]
fn array_entries_and_keys_iterators() {
    let mut c = ctx();
    let (a, b) = (JsValue::Text(c.heap.intern_text("a")), JsValue::Text(c.heap.intern_text("b")));
    let arr = array(&mut c, vec![a, b]);
    let it = array_iterator_entries(&mut c, arr, &[]).unwrap();
    let mut out = String::new();
    for pair in each(&mut c, it) {
        for v in c.heap.object(object(pair)).elements.clone() {
            out.push_str(&text(&c, v));
        }
    }
    assert_eq!(out, "0a1b");
    let it = array_iterator_keys(&mut c, arr, &[]).unwrap();
    let keys: String = each(&mut c, it).into_iter().map(|v| text(&c, v)).collect();
    assert_eq!(keys, "01");
}

#[test]
fn values_are_shown_to_a_reader() {
    let mut engine = engine();
    let h = &mut engine.ctx.heap;
    let s = JsValue::Text(h.intern_text("hi"));
    let big = JsValue::BigInt(h.new_bigint(BigInt { sign: true, magnitude_le: vec![0, 1] }));
    let mut o = JsObject::plain(Kind::Array);
    o.elements = vec![JsValue::Smi(1), JsValue::Hole, s, JsValue::Null];
    let arr = JsValue::Object(h.allocate(o));
    let mut m = JsObject::plain(Kind::MapObject);
    m.elements = vec![s, arr];
    let map = JsValue::Object(h.allocate(m));
    let mut st = JsObject::plain(Kind::SetObject);
    st.elements = vec![JsValue::Smi(1), JsValue::Smi(2)];
    let set = JsValue::Object(h.allocate(st));
    let plain = JsValue::Object(h.allocate(JsObject::plain(Kind::Ordinary)));
    let f = JsValue::Object(h.allocate(JsObject::plain(Kind::Function)));
    let p = JsValue::Object(engine.new_pending_promise());
    for (v, t) in [
        (s, "hi"),
        (big, "-256n"),
        (arr, "1,,hi,"),
        (map, "Map(1) {hi => 1,,hi,}"),
        (set, "Set(2) {1, 2}"),
        (plain, "[object Object]"),
        (f, "[Function (anonymous)]"),
        (p, "Promise { <pending> }"),
        (JsValue::Double(0.5f64.to_bits()), "0.5"),
        (JsValue::Undefined, "undefined"),
        (JsValue::Bool(true), "true"),
    ] {
        assert_eq!(engine.to_display_string(v), t);
    }
    // A map that holds itself is shown to a depth.
    let mut m = JsObject::plain(Kind::MapObject);
    m.elements = vec![JsValue::Smi(1), JsValue::Smi(1)];
    let o = engine.ctx.heap.allocate(m);
    engine.ctx.heap.object_mut(o).elements[1] = JsValue::Object(o);
    let t = engine.to_display_string(JsValue::Object(o));
    assert!(t.starts_with("Map(1) {1 => Map(1) {1 => "));
    assert!(t.contains("[object Object]"));
}

#[test]
fn big_integers_in_decimal() {
    for (sign, bytes, t) in [
        (false, vec![], "0n"),
        (true, vec![0, 0], "0n"),
        (false, vec![255], "255n"),
        (true, vec![0x15, 0xcd, 0x5b, 0x07], "-123456789n"),
        (false, vec![0, 0, 0, 0, 0, 0, 0, 0, 1], "18446744073709551616n"),
    ] {
        let b = BigInt { sign, magnitude_le: bytes };
        assert_eq!(String::from_utf16_lossy(&bigint_text(&b)), t);
    }
}

#[test]
fn values_of_another_heap() {
    let mut engine = engine();
    let mut other = Heap::new();
    let s = JsValue::Text(other.intern_text("far"));
    let o = JsValue::Object(other.allocate(JsObject::plain(Kind::Ordinary)));
    let v = engine.translate_value(&other, s);
    assert_eq!(text(&engine.ctx, v), "far");
    assert_eq!(engine.translate_value(&other, o), JsValue::Undefined);
    assert_eq!(engine.translate_value(&other, JsValue::Smi(3)), JsValue::Smi(3));
}

#[test]
fn receivers_are_checked() {
    let mut c = ctx();
    let o = JsValue::Object(c.heap.allocate(JsObject::plain(Kind::Ordinary)));
    match iterator_next(&mut c, o, &[]) {
        Err(Throw::Error(s)) => assert_eq!(s, "TypeError: iterator.next called on non-Iterator"),
        other => panic!("{:?}", other),
    }
    match array_iterator(&mut c, JsValue::Smi(1), &[]) {
        Err(Throw::Error(s)) => assert_eq!(s, "TypeError: value is not iterable"),
        other => panic!("{:?}", other),
    }
}
