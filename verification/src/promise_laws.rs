//! What promises promise: which handler runs, with which value, and what becomes of the
//! promise that a handler settles.
use vstd::prelude::*;

use crate::array::bare_array;
use crate::heap::{HeapModel, lemma_closed_with};
use crate::job_queue::Job;
use crate::promise::{
    JobCall, STATE_FULFILLED, STATE_PENDING, STATE_REJECTED, async_completed, call_of,
    capability_settled, caught, chained, constructed, job_finished, law_added_reaction_runs,
    microtask, pending_model, promise_model, promise_object, promise_value, reactions_of,
    record_jobs, record_object, rejected, resolved, settled_model, settlement, settler_called,
    with_capability, with_promise,
};
use crate::value::{JsValue, Kind};

verus! {

/// Whether an object is a promise that is settled in a state with a value.
pub open spec fn settled_as(h: HeapModel, promise: usize, state: i32, value: JsValue) -> bool {
    let m = h.objects[promise as int];
    &&& promise_model(m)
    &&& m.inner[0] == JsValue::Smi(state)
    &&& m.inner[1] == value
}

/// Whether a value is a function.
pub open spec fn is_function(h: HeapModel, v: JsValue) -> bool {
    v matches JsValue::Object(f) && h.objects[f as int].kind == Kind::Function
}

/// `then` on a settled promise queues one job: the handler for its state gets its value,
/// and settles the new promise that `then` gives, which is not settled yet.
pub proof fn law_then_of_settled(h: HeapModel, p: usize, f: JsValue, g: JsValue, v: JsValue)
    requires
        p < h.objects.len(),
        h.objects.len() + 1 < usize::MAX,
    ensures
        settled_as(h, p, STATE_FULFILLED, v) ==> ({
            let r = chained(h, JsValue::Object(p), f, g);
            &&& r.2 matches Ok(JsValue::Object(d)) && d >= h.objects.len() && pending_model(
                r.0.objects[d as int],
            ) && r.1 == seq![Job::Reaction { handler: f, payload: v, derived: d, rejecting: false }]
        }),
        settled_as(h, p, STATE_REJECTED, v) ==> ({
            let r = chained(h, JsValue::Object(p), f, g);
            &&& r.2 matches Ok(JsValue::Object(d)) && d >= h.objects.len() && pending_model(
                r.0.objects[d as int],
            ) && r.1 == seq![Job::Reaction { handler: g, payload: v, derived: d, rejecting: true }]
        }),
{
}

/// A handler that was added before a promise was settled and one that is added afterwards
/// get the same job; those of handlers that were added before come first.
pub proof fn law_then_before_or_after(
    h: HeapModel,
    p: usize,
    f: JsValue,
    g: JsValue,
    state: i32,
    v: JsValue,
)
    requires
        h.closed(),
        h.objects.len() + 3 < usize::MAX,
        p < h.objects.len(),
        pending_model(h.objects[p as int]),
        reactions_of(h.objects[p as int]) is Some,
        reactions_of(h.objects[p as int]) != Some(p),
        state == STATE_FULFILLED || state == STATE_REJECTED,
        h.valid(v),
    ensures
        ({
            let this = JsValue::Object(p);
            let early = chained(h, this, f, g);
            let (h1, before) = settlement(h, p, state, v);
            let late = chained(h1, this, f, g);
            let jobs = settlement(early.0, p, state, v).1;
            &&& early.1.len() == 0
            &&& late.1.len() == 1
            &&& jobs.len() > 0
            &&& jobs.last() == late.1[0]
            &&& early.2 == late.2
            &&& late.1[0] == Job::Reaction {
                handler: if state == STATE_FULFILLED {
                    f
                } else {
                    g
                },
                payload: v,
                derived: (h.objects.len() + 1) as usize,
                rejecting: state == STATE_REJECTED,
            }
        }),
{
    let this = JsValue::Object(p);
    let m = h.objects[p as int];
    let n = h.objects.len() as usize;
    let h0 = with_promise(h, m.prototype, STATE_PENDING, JsValue::Undefined);
    assert(h0.closed()) by {
        let a = bare_array(seq![]);
        let q = promise_object(m.prototype, STATE_PENDING, JsValue::Undefined, n);
        assert(h.valid_refs(m));
        assert(h0.valid_refs(a));
        assert(h0.valid_refs(q));
        assert(h0.objects[n as int] == a);
        assert(h0.objects[n + 1] == q);
        lemma_closed_with(h, h0);
    }
    assert(h0.objects[p as int] == m);
    law_added_reaction_runs(h0, p, f, g, (n + 1) as usize, state, v);
    let h1 = settlement(h, p, state, v).0;
    let list = reactions_of(m).unwrap();
    let m1 = settled_model(m, state, v);
    assert(m1.inner[2] == m.inner[2]);
    assert(h.valid_refs(m));
    assert(h.valid(m.inner[2]));
    assert(h1.objects[p as int] == m1);
    assert(h1.objects.len() == h.objects.len());
}

/// `Promise.reject(v).catch(g)` runs `g` with `v` where it is a function, else hands the
/// rejection on.
pub proof fn law_reject_catch(h: HeapModel, this: JsValue, v: JsValue, g: JsValue)
    requires
        h.objects.len() + 3 < usize::MAX,
        h.valid(g),
    ensures
        ({
            let p = rejected(h, this, v);
            let r = caught(p.0, p.2->Ok_0, g);
            &&& p.1.len() == 0
            &&& r.1.len() == 1
            &&& call_of(r.0, r.1[0]) == if is_function(h, g) {
                JobCall::Handler(g->Object_0, v)
            } else {
                JobCall::Outcome(v, true)
            }
        }),
{
    let p = rejected(h, this, v);
    let r = caught(p.0, p.2->Ok_0, g);
    if g is Object {
        assert(r.0.objects[g->Object_0 as int] == h.objects[g->Object_0 as int]);
    }
}

/// `Promise.reject(v).then(f, g)` runs `g` with `v`, and never `f`.
pub proof fn law_reject_then(h: HeapModel, this: JsValue, v: JsValue, f: JsValue, g: JsValue)
    requires
        h.objects.len() + 3 < usize::MAX,
        h.valid(g),
    ensures
        ({
            let p = rejected(h, this, v);
            let r = chained(p.0, p.2->Ok_0, f, g);
            &&& r.1.len() == 1
            &&& call_of(r.0, r.1[0]) == if is_function(h, g) {
                JobCall::Handler(g->Object_0, v)
            } else {
                JobCall::Outcome(v, true)
            }
        }),
{
    let p = rejected(h, this, v);
    let r = chained(p.0, p.2->Ok_0, f, g);
    if g is Object {
        assert(r.0.objects[g->Object_0 as int] == h.objects[g->Object_0 as int]);
    }
}

/// `Promise.resolve(v).then(f, g)` runs `f` with `v`, and never `g`; where `f` is no
/// function the value is handed on.
pub proof fn law_resolve_then(h: HeapModel, this: JsValue, v: JsValue, f: JsValue, g: JsValue)
    requires
        h.objects.len() + 3 < usize::MAX,
        h.valid(f),
        !promise_value(h, v),
    ensures
        ({
            let p = resolved(h, this, v);
            let r = chained(p.0, p.2->Ok_0, f, g);
            &&& p.1.len() == 0
            &&& r.1.len() == 1
            &&& call_of(r.0, r.1[0]) == if is_function(h, f) {
                JobCall::Handler(f->Object_0, v)
            } else {
                JobCall::Outcome(v, false)
            }
        }),
{
    let p = resolved(h, this, v);
    let r = chained(p.0, p.2->Ok_0, f, g);
    if f is Object {
        assert(r.0.objects[f->Object_0 as int] == h.objects[f->Object_0 as int]);
    }
}

/// `Promise.resolve(v).catch(g)` runs nothing and hands the value on.
pub proof fn law_resolve_catch(h: HeapModel, this: JsValue, v: JsValue, g: JsValue)
    requires
        h.objects.len() + 3 < usize::MAX,
        !promise_value(h, v),
    ensures
        ({
            let p = resolved(h, this, v);
            let r = caught(p.0, p.2->Ok_0, g);
            r.1.len() == 1 && call_of(r.0, r.1[0]) == JobCall::Outcome(v, false)
        }),
{
}

/// `Promise.resolve` gives a promise back as it is, and of another value a new promise
/// that is fulfilled with it; `Promise.reject` gives a new promise that is rejected with
/// its argument, even where that is a promise.
pub proof fn law_resolve_and_reject(h: HeapModel, this: JsValue, v: JsValue)
    requires
        h.objects.len() + 1 < usize::MAX,
    ensures
        promise_value(h, v) ==> resolved(h, this, v).0 == h && resolved(h, this, v).2 == Ok::<
            JsValue,
            crate::descriptor::Fault,
        >(v),
        !promise_value(h, v) ==> (resolved(h, this, v).2 matches Ok(JsValue::Object(p)) && p
            >= h.objects.len() && settled_as(resolved(h, this, v).0, p, STATE_FULFILLED, v)),
        rejected(h, this, v).2 matches Ok(JsValue::Object(p)) && p >= h.objects.len()
            && settled_as(rejected(h, this, v).0, p, STATE_REJECTED, v),
        resolved(h, this, v).1.len() == 0,
        rejected(h, this, v).1.len() == 0,
{
}

proof fn lemma_settlement(h: HeapModel, p: usize, state: i32, v: JsValue)
    requires
        h.closed(),
        p < h.objects.len(),
        promise_model(h.objects[p as int]),
        STATE_PENDING <= state <= STATE_REJECTED,
    ensures
        settled_as(settlement(h, p, state, v).0, p, state, v),
        settlement(h, p, state, v).0.objects.len() == h.objects.len(),
        forall|q: int|
            0 <= q < h.objects.len() && q != p ==> #[trigger] settlement(h, p, state, v).0.objects[q].inner
                == h.objects[q].inner,
{
    let m = h.objects[p as int];
    let m1 = settled_model(m, state, v);
    assert(m1.inner[2] == m.inner[2]);
    assert(h.valid_refs(m));
    assert(h.valid(m.inner[2]));
}

/// What a handler gives fulfils the promise that `then` gave, and what it throws rejects
/// it; no other promise is settled.
pub proof fn law_handler_outcome(
    h: HeapModel,
    pending: Seq<Job>,
    handler: JsValue,
    payload: JsValue,
    derived: usize,
    rejecting: bool,
    value: JsValue,
    thrown: bool,
)
    requires
        h.closed(),
        derived < h.objects.len(),
        promise_model(h.objects[derived as int]),
    ensures
        ({
            let job = Job::Reaction { handler, payload, derived, rejecting };
            let (h1, after) = job_finished(h, pending, job, value, thrown);
            &&& settled_as(
                h1,
                derived,
                if thrown {
                    STATE_REJECTED
                } else {
                    STATE_FULFILLED
                },
                value,
            )
            &&& pending.is_prefix_of(after)
            &&& forall|q: int|
                0 <= q < h.objects.len() && q != derived ==> #[trigger] h1.objects[q].inner
                    == h.objects[q].inner
        }),
{
    lemma_settlement(
        h,
        derived,
        if thrown {
            STATE_REJECTED
        } else {
            STATE_FULFILLED
        },
        value,
    );
}

/// A rejection that no handler takes goes on to the next promise: it is rejected with the
/// same reason.
pub proof fn law_unhandled_rejection(h: HeapModel, p: usize, f: JsValue, v: JsValue)
    requires
        h.closed(),
        p < h.objects.len(),
        h.objects.len() + 3 < usize::MAX,
        settled_as(h, p, STATE_REJECTED, v),
    ensures
        ({
            let r = chained(h, JsValue::Object(p), f, JsValue::Undefined);
            let d = r.2->Ok_0->Object_0;
            &&& call_of(r.0, r.1[0]) == JobCall::Outcome(v, true)
            &&& settled_as(job_finished(r.0, seq![], r.1[0], v, true).0, d, STATE_REJECTED, v)
        }),
{
    let r = chained(h, JsValue::Object(p), f, JsValue::Undefined);
    let m = h.objects[p as int];
    let n = h.objects.len() as usize;
    let a = bare_array(seq![]);
    let q = promise_object(m.prototype, STATE_PENDING, JsValue::Undefined, n);
    assert(h.valid_refs(m));
    assert(r.0.valid_refs(a));
    assert(r.0.valid_refs(q));
    assert(r.0.objects[n as int] == a);
    assert(r.0.objects[n + 1] == q);
    lemma_closed_with(h, r.0);
    lemma_settlement(r.0, (n + 1) as usize, STATE_REJECTED, v);
}

/// A promise that is resolved with a settled promise takes over its state and its value.
pub proof fn law_adopt_settled(
    h: HeapModel,
    p: usize,
    resolve: JsValue,
    reject: JsValue,
    q: usize,
    state: i32,
    v: JsValue,
)
    requires
        h.closed(),
        p < h.objects.len(),
        q < h.objects.len(),
        pending_model(h.objects[p as int]),
        state == STATE_FULFILLED || state == STATE_REJECTED,
        settled_as(h, q, state, v),
    ensures
        ({
            let h1 = capability_settled(h, p, resolve, reject, JsValue::Object(q), false).0;
            settled_as(h1, p, state, v)
        }),
{
    lemma_settlement(h, p, state, v);
}

/// A promise that is rejected is rejected with the reason as it is, even where that is a
/// promise; one that is resolved with another value is fulfilled with it.
pub proof fn law_settled_through_capability(
    h: HeapModel,
    p: usize,
    resolve: JsValue,
    reject: JsValue,
    v: JsValue,
)
    requires
        h.closed(),
        p < h.objects.len(),
        pending_model(h.objects[p as int]),
    ensures
        settled_as(
            capability_settled(h, p, resolve, reject, v, true).0,
            p,
            STATE_REJECTED,
            v,
        ),
        !promise_value(h, v) ==> settled_as(
            capability_settled(h, p, resolve, reject, v, false).0,
            p,
            STATE_FULFILLED,
            v,
        ),
{
    lemma_settlement(h, p, STATE_REJECTED, v);
    lemma_settlement(h, p, STATE_FULFILLED, v);
}

proof fn lemma_new_promise_closed(h: HeapModel, proto: Option<usize>)
    requires
        h.closed(),
        h.valid_object(proto),
        h.objects.len() + 5 < usize::MAX,
    ensures
        with_capability(
            with_promise(h, proto, STATE_PENDING, JsValue::Undefined),
            (h.objects.len() + 1) as usize,
        ).closed(),
{
    let n = h.objects.len() as usize;
    let h1 = with_promise(h, proto, STATE_PENDING, JsValue::Undefined);
    let a = bare_array(seq![]);
    let q = promise_object(proto, STATE_PENDING, JsValue::Undefined, n);
    let h2 = with_capability(h1, (n + 1) as usize);
    let x = (n + 2) as usize;
    let y = (n + 3) as usize;
    let s1 = crate::promise::settler((n + 1) as usize, x, y, false);
    let s2 = crate::promise::settler((n + 1) as usize, x, y, true);
    assert(h2.valid_refs(a));
    assert(h2.valid_refs(q));
    assert(h2.valid_refs(s1));
    assert(h2.valid_refs(s2));
    assert(h2.objects[n as int] == a);
    assert(h2.objects[n + 1] == q);
    assert(h2.objects[n + 2] == s1);
    assert(h2.objects[n + 3] == s2);
    lemma_closed_with(h, h2);
}

/// `new Promise(executor)` gives a promise that is not settled and queues the executor
/// with two functions: the first, called with a value that is no promise, fulfils the
/// promise with it, and the second rejects it.
pub proof fn law_constructed(h: HeapModel, this: JsValue, executor: JsValue, v: JsValue)
    requires
        h.closed(),
        h.valid(this),
        h.objects.len() + 5 < usize::MAX,
        constructed(h, this, executor).2 is Ok,
    ensures
        ({
            let r = constructed(h, this, executor);
            let p = r.2->Ok_0->Object_0;
            &&& r.2->Ok_0 is Object
            &&& p >= h.objects.len()
            &&& pending_model(r.0.objects[p as int])
            &&& r.1.len() == 1
            &&& call_of(r.0, r.1[0]) matches JobCall::Executor(
                f,
                JsValue::Object(a),
                JsValue::Object(b),
            ) && JsValue::Object(f) == executor && (!promise_value(r.0, v) ==> settler_called(
                r.0,
                a,
                v,
            ) is Some && settled_as(
                settler_called(r.0, a, v).unwrap().0,
                p,
                STATE_FULFILLED,
                v,
            )) && settler_called(r.0, b, v) is Some && settled_as(
                settler_called(r.0, b, v).unwrap().0,
                p,
                STATE_REJECTED,
                v,
            )
        }),
{
    let r = constructed(h, this, executor);
    let p = r.2->Ok_0->Object_0;
    let c = this->Object_0;
    assert(h.valid_refs(h.objects[c as int]));
    lemma_new_promise_closed(h, h.objects[c as int].prototype);
    let n = h.objects.len() as usize;
    law_settled_through_capability(
        r.0,
        p,
        JsValue::Object((n + 2) as usize),
        JsValue::Object((n + 3) as usize),
        v,
    );
}

/// What an executor throws rejects its promise where nothing has settled it; what it
/// gives settles nothing.
pub proof fn law_executor_outcome(
    h: HeapModel,
    pending: Seq<Job>,
    executor: usize,
    promise: usize,
    resolve: JsValue,
    reject: JsValue,
    value: JsValue,
)
    requires
        h.closed(),
        promise < h.objects.len(),
        promise_model(h.objects[promise as int]),
    ensures
        ({
            let job = Job::Executor { executor, promise, resolve, reject };
            &&& job_finished(h, pending, job, value, false) == (h, pending)
            &&& pending_model(h.objects[promise as int]) ==> settled_as(
                job_finished(h, pending, job, value, true).0,
                promise,
                STATE_REJECTED,
                value,
            )
            &&& !pending_model(h.objects[promise as int]) ==> job_finished(
                h,
                pending,
                job,
                value,
                true,
            ) == (h, pending)
        }),
{
    if pending_model(h.objects[promise as int]) {
        law_settled_through_capability(h, promise, resolve, reject, value);
    } else {
        assert(pending + Seq::<Job>::empty() =~= pending);
    }
}

/// An async function that gives a value that is no promise fulfils its promise with it,
/// and one that throws rejects it; a promise that is settled already stays as it is.
pub proof fn law_async_outcome(h: HeapModel, p: usize, v: JsValue)
    requires
        h.closed(),
        p < h.objects.len(),
        h.objects.len() + 3 < usize::MAX,
        h.valid(v),
    ensures
        pending_model(h.objects[p as int]) ==> settled_as(
            async_completed(h, p, v, true).0,
            p,
            STATE_REJECTED,
            v,
        ),
        pending_model(h.objects[p as int]) && !promise_value(h, v) ==> settled_as(
            async_completed(h, p, v, false).0,
            p,
            STATE_FULFILLED,
            v,
        ),
        !pending_model(h.objects[p as int]) ==> async_completed(h, p, v, true).0 == h
            && async_completed(h, p, v, false).0 == h && async_completed(h, p, v, true).1.len() == 0
            && async_completed(h, p, v, false).1.len() == 0,
{
    let n = h.objects.len() as usize;
    let h1 = with_capability(h, p);
    let s1 = crate::promise::settler(p, n, (n + 1) as usize, false);
    let s2 = crate::promise::settler(p, n, (n + 1) as usize, true);
    assert(h1.valid_refs(s1));
    assert(h1.valid_refs(s2));
    assert(h1.objects[n as int] == s1);
    assert(h1.objects[n + 1] == s2);
    lemma_closed_with(h, h1);
    assert(h1.objects[p as int] == h.objects[p as int]);
    assert(promise_value(h1, v) == promise_value(h, v));
    if pending_model(h.objects[p as int]) {
        law_settled_through_capability(
            h1,
            p,
            JsValue::Object(n),
            JsValue::Object((n + 1) as usize),
            v,
        );
    }
}

/// `queueMicrotask(f)` queues one job, which calls `f`; what the call comes to settles
/// nothing.
pub proof fn law_microtask(h: HeapModel, f: usize, pending: Seq<Job>, value: JsValue, thrown: bool)
    ensures
        ({
            let r = microtask(h, JsValue::Object(f));
            &&& r.0 == h
            &&& r.1.len() == 1
            &&& call_of(h, r.1[0]) == JobCall::Plain(f)
            &&& job_finished(h, pending, r.1[0], value, thrown) == (h, pending)
        }),
        forall|v: JsValue| !(v is Object) ==> (#[trigger] microtask(h, v)).2 is Err,
{
}

/// Reactions run in the order in which `then` was called: settling queues the job of the
/// first call before that of the second.
pub proof fn law_then_order(
    h: HeapModel,
    p: usize,
    f1: JsValue,
    g1: JsValue,
    f2: JsValue,
    g2: JsValue,
    state: i32,
    v: JsValue,
)
    requires
        h.closed(),
        h.objects.len() + 8 < usize::MAX,
        p < h.objects.len(),
        pending_model(h.objects[p as int]),
        reactions_of(h.objects[p as int]) matches Some(list) && list != p
            && h.objects[list as int].elements.len() == 0,
        state == STATE_FULFILLED || state == STATE_REJECTED,
    ensures
        ({
            let this = JsValue::Object(p);
            let a = chained(h, this, f1, g1);
            let b = chained(a.0, this, f2, g2);
            let jobs = settlement(b.0, p, state, v).1;
            &&& jobs.len() == 2
            &&& jobs[0] == Job::Reaction {
                handler: if state == STATE_FULFILLED {
                    f1
                } else {
                    g1
                },
                payload: v,
                derived: a.2->Ok_0->Object_0,
                rejecting: state == STATE_REJECTED,
            }
            &&& jobs[1] == Job::Reaction {
                handler: if state == STATE_FULFILLED {
                    f2
                } else {
                    g2
                },
                payload: v,
                derived: b.2->Ok_0->Object_0,
                rejecting: state == STATE_REJECTED,
            }
        }),
{
    let this = JsValue::Object(p);
    let m = h.objects[p as int];
    let list = reactions_of(m).unwrap();
    assert(h.valid_refs(m));
    assert(h.valid(m.inner[2]));
    let a = chained(h, this, f1, g1);
    let b = chained(a.0, this, f2, g2);
    let n = h.objects.len() as usize;
    assert(a.0.objects[p as int] == m);
    assert(a.0.objects.len() == n + 3);
    assert(b.0.objects[p as int] == m);
    assert(b.0.objects[list as int].elements =~= seq![
        JsValue::Object((n + 2) as usize),
        JsValue::Object((n + 5) as usize),
    ]);
    let m1 = settled_model(m, state, v);
    assert(m1.inner[2] == m.inner[2]);
    let h1 = b.0.with_object(p, m1);
    assert(h1.objects[n + 2] == record_object(f1, g1, (n + 1) as usize));
    assert(h1.objects[n + 5] == record_object(f2, g2, (n + 4) as usize));
    reveal_with_fuel(record_jobs, 3);
}

/// Promises that `then`, `resolve` and `reject` make have the prototype of the promise or
/// of the constructor that they are called on.
pub proof fn law_promise_prototypes(h: HeapModel, this: JsValue, c: usize, v: JsValue)
    requires
        h.objects.len() + 4 < usize::MAX,
        h.closed(),
        h.valid(this),
    ensures
        promise_value(h, this) ==> ({
            let r = chained(h, this, v, v);
            let d = r.2->Ok_0->Object_0;
            r.0.objects[d as int].prototype == h.objects[this->Object_0 as int].prototype
        }),
        !promise_value(h, v) ==> ({
            let r = resolved(h, JsValue::Object(c), v);
            r.0.objects[r.2->Ok_0->Object_0 as int].prototype == h.objects[c as int].prototype
        }),
        ({
            let r = rejected(h, JsValue::Object(c), v);
            r.0.objects[r.2->Ok_0->Object_0 as int].prototype == h.objects[c as int].prototype
        }),
{
    if promise_value(h, this) {
        let p = this->Object_0;
        let m = h.objects[p as int];
        assert(h.valid_refs(m));
        let r = chained(h, this, v, v);
        let n = h.objects.len() as int;
        assert(h.valid(m.inner[2]));
        assert(r.0.objects[n + 1].prototype == m.prototype);
    }
}

/// A reaction that `then` added is queued, whichever way the promise is settled: by a
/// function that settles it, by the end of an async function, or by the outcome of a
/// handler.
pub proof fn law_reaction_queued(
    h: HeapModel,
    p: usize,
    f: JsValue,
    g: JsValue,
    a: JsValue,
    b: JsValue,
    v: JsValue,
    rejecting: bool,
)
    requires
        h.closed(),
        h.objects.len() + 8 < usize::MAX,
        p < h.objects.len(),
        pending_model(h.objects[p as int]),
        reactions_of(h.objects[p as int]) matches Some(list) && list != p
            && h.objects[list as int].elements.len() == 0,
        h.valid(v),
        !promise_value(h, v),
    ensures
        ({
            let early = chained(h, JsValue::Object(p), f, g);
            let job = Job::Reaction {
                handler: if rejecting {
                    g
                } else {
                    f
                },
                payload: v,
                derived: early.2->Ok_0->Object_0,
                rejecting,
            };
            let outcome = Job::Reaction { handler: a, payload: b, derived: p, rejecting: false };
            &&& capability_settled(early.0, p, a, b, v, rejecting).1 == seq![job]
            &&& async_completed(early.0, p, v, rejecting).1 == seq![job]
            &&& job_finished(early.0, seq![], outcome, v, rejecting).1 == seq![job]
        }),
{
    let m = h.objects[p as int];
    let list = reactions_of(m).unwrap();
    assert(h.valid_refs(m));
    assert(h.valid(m.inner[2]));
    let n = h.objects.len() as usize;
    let early = chained(h, JsValue::Object(p), f, g);
    let h1 = early.0;
    assert(h1.objects[p as int] == m);
    assert(h1.objects[list as int].elements =~= seq![JsValue::Object((n + 2) as usize)]);
    let record = record_object(f, g, (n + 1) as usize);
    assert(h1.objects[n + 2] == record);
    let state = if rejecting {
        STATE_REJECTED
    } else {
        STATE_FULFILLED
    };
    let job = Job::Reaction {
        handler: if rejecting {
            g
        } else {
            f
        },
        payload: v,
        derived: (n + 1) as usize,
        rejecting,
    };
    if v is Object {
        let x = v->Object_0 as int;
        assert(h1.objects[x].inner == h.objects[x].inner && h1.objects[x].kind
            == h.objects[x].kind);
    }
    let h2 = with_capability(h1, p);
    assert(h2.objects[p as int] == m);
    assert(h2.objects[list as int] == h1.objects[list as int]);
    assert(h2.objects[n + 2] == record);
    if v is Object {
        let x = v->Object_0 as int;
        assert(h2.objects[x] == h1.objects[x]);
    }
    assert(!promise_value(h1, v) && !promise_value(h2, v));
    lemma_one_record(h1, p, list, (n + 2) as usize, state, v);
    lemma_one_record(h2, p, list, (n + 2) as usize, state, v);
    assert(seq![job].take(1) =~= seq![job]);
    assert(Seq::<Job>::empty() + seq![job] =~= seq![job]);
}

/// Settling a promise with one record queues the job of that record.
proof fn lemma_one_record(
    h: HeapModel,
    p: usize,
    list: usize,
    record: usize,
    state: i32,
    v: JsValue,
)
    requires
        p < h.objects.len(),
        list < h.objects.len(),
        record < h.objects.len(),
        record != p,
        list != p,
        promise_model(h.objects[p as int]),
        reactions_of(h.objects[p as int]) == Some(list),
        h.objects[list as int].elements == seq![JsValue::Object(record)],
        h.objects[record as int].inner.len() == 3,
        h.objects[record as int].inner[2] is Object,
    ensures
        settlement(h, p, state, v).1 == seq![
            Job::Reaction {
                handler: if state == STATE_FULFILLED {
                    h.objects[record as int].inner[0]
                } else {
                    h.objects[record as int].inner[1]
                },
                payload: v,
                derived: h.objects[record as int].inner[2]->Object_0,
                rejecting: state != STATE_FULFILLED,
            },
        ],
{
    let m = h.objects[p as int];
    let m1 = settled_model(m, state, v);
    assert(m1.inner[2] == m.inner[2]);
    let h1 = h.with_object(p, m1);
    assert(h1.objects[list as int] == h.objects[list as int]);
    assert(h1.objects[record as int] == h.objects[record as int]);
    reveal_with_fuel(record_jobs, 2);
    assert(settlement(h, p, state, v).1.len() == 1);
}

} // verus!
