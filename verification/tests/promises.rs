use v12_engine::ctx::Ctx;
use v12_engine::heap::{Heap, JsObject};
use v12_engine::job_queue::Job;
use v12_engine::native::NativeId;
use v12_engine::promise::{
    call_settler, capability_settle, finish_job, job_call, make_capability, make_pending_promise,
    module_import, promise_catch, promise_construct, promise_reject, promise_resolve,
    promise_then, queue_microtask, settle, settle_async_completion, JobCall, STATE_FULFILLED,
    STATE_PENDING, STATE_REJECTED,
};
use v12_engine::value::{FunctionTarget, JsValue, Kind, Throw};

const U: JsValue = JsValue::Undefined;

fn ctx() -> Ctx {
    Ctx::new(Heap::new(), None, Some(Vec::new()))
}

fn object(v: JsValue) -> usize {
    match v {
        JsValue::Object(o) => o,
        other => panic!("no object: {:?}", other),
    }
}

fn state(h: &Heap, v: JsValue) -> (JsValue, JsValue) {
    let o = h.object(object(v));
    (o.inner.get(0), o.inner.get(1))
}

fn failure(r: Result<JsValue, Throw>) -> String {
    match r {
        Err(Throw::Error(s)) => s,
        other => panic!("no error: {:?}", other),
    }
}

fn function(h: &mut Heap) -> JsValue {
    JsValue::Object(h.allocate(JsObject::plain(Kind::Function)))
}

#[test]
fn resolving_and_rejecting() {
    let mut c = ctx();
    let p = promise_resolve(&mut c, U, &[JsValue::Smi(1)]).unwrap();
    assert_eq!(state(&c.heap, p), (JsValue::Smi(STATE_FULFILLED), JsValue::Smi(1)));
    assert_eq!(promise_resolve(&mut c, U, &[p]).unwrap(), p);
    let p = promise_reject(&mut c, U, &[JsValue::Smi(2)]).unwrap();
    assert_eq!(state(&c.heap, p), (JsValue::Smi(STATE_REJECTED), JsValue::Smi(2)));
    assert_eq!(
        failure(promise_then(&mut c, U, &[])),
        "TypeError: Promise.prototype.then requires a promise"
    );
    assert_eq!(
        failure(queue_microtask(&mut c, U, &[])),
        "TypeError: queueMicrotask requires a function"
    );
}

#[test]
fn a_settled_promise_queues_its_reaction() {
    let mut c = ctx();
    let f = function(&mut c.heap);
    let p = promise_resolve(&mut c, U, &[JsValue::Smi(1)]).unwrap();
    let d = promise_then(&mut c, p, &[f]).unwrap();
    let mut pending = c.pending.take().unwrap();
    assert_eq!(pending.len(), 1);
    let job = pending.remove(0);
    assert_eq!(job_call(&c.heap, job), JobCall::Handler(object(f), JsValue::Smi(1)));
    finish_job(&mut c.heap, &mut pending, job, JsValue::Smi(9), false);
    assert_eq!(state(&c.heap, d), (JsValue::Smi(STATE_FULFILLED), JsValue::Smi(9)));
}

#[test]
fn a_rejection_passes_handlers_that_are_missing() {
    let mut c = ctx();
    let p = promise_reject(&mut c, U, &[JsValue::Smi(3)]).unwrap();
    let d = promise_then(&mut c, p, &[]).unwrap();
    let job = c.pending.take().unwrap()[0];
    assert_eq!(job_call(&c.heap, job), JobCall::Outcome(JsValue::Smi(3), true));
    let mut pending = Vec::new();
    finish_job(&mut c.heap, &mut pending, job, JsValue::Smi(3), true);
    assert_eq!(state(&c.heap, d), (JsValue::Smi(STATE_REJECTED), JsValue::Smi(3)));
}

#[test]
fn reactions_run_in_the_order_they_were_added() {
    let mut c = ctx();
    let p = JsValue::Object(make_pending_promise(&mut c.heap, None));
    let (f, g) = (function(&mut c.heap), function(&mut c.heap));
    promise_then(&mut c, p, &[f]).unwrap();
    promise_catch(&mut c, p, &[g]).unwrap();
    assert!(c.pending.as_ref().unwrap().is_empty());
    let mut pending = Vec::new();
    settle(&mut c.heap, &mut pending, object(p), STATE_FULFILLED, JsValue::Smi(5));
    assert_eq!(pending.len(), 2);
    assert_eq!(job_call(&c.heap, pending[0]), JobCall::Handler(object(f), JsValue::Smi(5)));
    assert_eq!(job_call(&c.heap, pending[1]), JobCall::Outcome(JsValue::Smi(5), false));
    let mut again = Vec::new();
    settle(&mut c.heap, &mut again, object(p), STATE_FULFILLED, JsValue::Smi(5));
    assert!(again.is_empty());
}

#[test]
fn the_first_settlement_wins() {
    let mut h = Heap::new();
    let p = make_pending_promise(&mut h, None);
    let (resolve, reject) = make_capability(&mut h, p);
    assert!(call_settler(&mut h, resolve, &[JsValue::Smi(1)]).is_some());
    assert!(call_settler(&mut h, reject, &[JsValue::Smi(2)]).unwrap().is_empty());
    let v = JsValue::Object(p);
    assert_eq!(state(&h, v), (JsValue::Smi(STATE_FULFILLED), JsValue::Smi(1)));
    let other = h.allocate(JsObject::plain(Kind::Function));
    assert!(call_settler(&mut h, other, &[]).is_none());
}

#[test]
fn a_promise_is_adopted() {
    let mut c = ctx();
    let inner = promise_reject(&mut c, U, &[JsValue::Smi(4)]).unwrap();
    let h = &mut c.heap;
    let p = make_pending_promise(h, None);
    let (a, b) = make_capability(h, p);
    capability_settle(h, p, JsValue::Object(a), JsValue::Object(b), inner, false);
    assert_eq!(state(h, JsValue::Object(p)), (JsValue::Smi(STATE_REJECTED), JsValue::Smi(4)));
    let waiting = make_pending_promise(h, None);
    let q = make_pending_promise(h, None);
    let jobs = settle_async_completion(h, q, JsValue::Object(waiting), false);
    assert!(jobs.is_empty());
    assert_eq!(state(h, JsValue::Object(q)).0, JsValue::Smi(STATE_PENDING));
    let mut pending = Vec::new();
    settle(h, &mut pending, waiting, STATE_FULFILLED, JsValue::Smi(6));
    assert_eq!(pending.len(), 1);
    let JobCall::Handler(f, v) = job_call(h, pending[0]) else { panic!("no handler") };
    call_settler(h, f, &[v]).unwrap();
    assert_eq!(state(h, JsValue::Object(q)), (JsValue::Smi(STATE_FULFILLED), JsValue::Smi(6)));
}

#[test]
fn executors_run_as_jobs() {
    let mut c = ctx();
    let f = function(&mut c.heap);
    assert_eq!(
        failure(promise_construct(&mut c, U, &[JsValue::Smi(1)])),
        "TypeError: Promise executor must be a function"
    );
    assert_eq!(
        failure(promise_construct(&mut c, U, &[f])),
        "TypeError: Promise constructor requires 'new'"
    );
    let mut ctor = JsObject::plain(Kind::Function);
    ctor.callable = FunctionTarget::Native(NativeId::PromiseConstruct);
    let ctor = JsValue::Object(c.heap.allocate(ctor));
    let p = promise_construct(&mut c, ctor, &[f]).unwrap();
    assert_eq!(state(&c.heap, p).0, JsValue::Smi(STATE_PENDING));
    let mut pending = c.pending.take().unwrap();
    let job = pending.remove(0);
    assert!(matches!(job, Job::Executor { .. }));
    assert!(matches!(job_call(&c.heap, job), JobCall::Executor(_, _, _)));
    finish_job(&mut c.heap, &mut pending, job, JsValue::Smi(8), true);
    assert_eq!(state(&c.heap, p), (JsValue::Smi(STATE_REJECTED), JsValue::Smi(8)));
}

#[test]
fn microtasks_are_calls() {
    let mut c = ctx();
    let f = function(&mut c.heap);
    queue_microtask(&mut c, U, &[f]).unwrap();
    let job = c.pending.take().unwrap()[0];
    assert_eq!(job, Job::Call(object(f)));
    assert_eq!(job_call(&c.heap, job), JobCall::Plain(object(f)));
}

#[test]
fn imports_without_a_loader_are_rejected() {
    let mut c = ctx();
    let p = module_import(&mut c, U, &[]).unwrap();
    let (s, reason) = state(&c.heap, p);
    assert_eq!(s, JsValue::Smi(STATE_REJECTED));
    assert_eq!(c.heap.object(object(reason)).kind, Kind::Error);
}
