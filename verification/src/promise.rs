//! Promises: their states, their reactions and the jobs that settle them.
//!
//! A promise holds its state, its result and a list of reaction records in its
//! internal slots. A reaction record holds a handler for fulfilment, one for
//! rejection, and the promise that its outcome settles.
use vstd::prelude::*;

use crate::array::bare_array;
use crate::array_like::{replace_elements, with_elements};
use crate::convert::error;
use crate::ctx::{Ctx, arg, arg_of, is_kind, only_heap, valid_args};
use crate::descriptor::{Fault, is_fault};
use crate::error_object::{error_object, with_error};
use crate::heap::{Heap, HeapModel, JsObject, ObjModel, lemma_closed_with, plain_object};
use crate::job_queue::{Job, MAX_QUEUE_LEN, accepted, enqueue_follow_up, room};
use crate::native::NativeId;
use crate::object::snapshot_elements;
use crate::text::{utf16, utf16_of};
use crate::value::{FunctionTarget, JsValue, Kind, Throw};

verus! {

/// The state of a promise that is not settled.
pub const STATE_PENDING: i32 = 0;

/// The state of a fulfilled promise.
pub const STATE_FULFILLED: i32 = 1;

/// The state of a rejected promise.
pub const STATE_REJECTED: i32 = 2;

// ---------------------------------------------------------------------------
// Promises
// ---------------------------------------------------------------------------

/// Whether an object is a promise.
pub open spec fn promise_model(m: ObjModel) -> bool {
    &&& m.kind == Kind::Promise
    &&& m.inner.len() == 3
    &&& m.inner[0] matches JsValue::Smi(s) && STATE_PENDING <= s <= STATE_REJECTED
}

/// Whether a value is a promise.
pub open spec fn promise_value(h: HeapModel, v: JsValue) -> bool {
    v matches JsValue::Object(o) && promise_model(h.objects[o as int])
}

/// Whether an object is a promise that is not settled.
pub open spec fn pending_model(m: ObjModel) -> bool {
    promise_model(m) && m.inner[0] == JsValue::Smi(STATE_PENDING)
}

/// A promise with its state and its result.
pub open spec fn promise_object(
    prototype: Option<usize>,
    state: i32,
    payload: JsValue,
    reactions: usize,
) -> ObjModel {
    ObjModel {
        prototype,
        inner: seq![JsValue::Smi(state), payload, JsValue::Object(reactions)],
        ..plain_object(Kind::Promise)
    }
}

/// The heap with a new promise, after the list of its reactions.
pub open spec fn with_promise(
    h: HeapModel,
    prototype: Option<usize>,
    state: i32,
    payload: JsValue,
) -> HeapModel {
    h.with_new(bare_array(seq![])).with_new(
        promise_object(prototype, state, payload, h.objects.len() as usize),
    )
}

/// Whether a value is a promise.
fn is_promise(heap: &Heap, v: JsValue) -> (r: bool)
    requires
        heap.wf(),
        heap@.valid(v),
    ensures
        r == promise_value(heap@, v),
{
    match v {
        JsValue::Object(n) => {
            let o = heap.object(n);
            if o.kind != Kind::Promise || o.inner.len() != 3 {
                return false;
            }
            match o.inner.get(0) {
                JsValue::Smi(s) => STATE_PENDING <= s && s <= STATE_REJECTED,
                _ => false,
            }
        },
        _ => false,
    }
}

/// Whether an object is a promise that is not settled.
fn is_pending(heap: &Heap, promise: usize) -> (r: bool)
    requires
        heap.wf(),
        promise < heap@.objects.len(),
    ensures
        r == pending_model(heap@.objects[promise as int]),
{
    is_promise(heap, JsValue::Object(promise)) && heap.object(promise).inner.get(0)
        == JsValue::Smi(STATE_PENDING)
}

/// Makes a promise.
fn create_promise(heap: &mut Heap, prototype: Option<usize>, state: i32, payload: JsValue) -> (r:
    usize)
    requires
        old(heap).wf(),
        old(heap)@.valid_object(prototype),
        old(heap)@.valid(payload),
    ensures
        final(heap).wf(),
        final(heap)@ == with_promise(old(heap)@, prototype, state, payload),
        r == old(heap)@.objects.len() + 1,
        r < final(heap)@.objects.len(),
        old(heap)@.extends_to(final(heap)@, old(heap)@.objects.len() as int),
        old(heap)@.within(final(heap)@),
{
    let list: JsObject = JsObject::plain(Kind::Array);
    proof {
        assert(list@ == bare_array(seq![]));
    }
    let reactions: usize = heap.allocate(list);
    let mut p: JsObject = JsObject::plain(Kind::Promise);
    p.prototype = prototype;
    p.inner.push(JsValue::Smi(state));
    p.inner.push(payload);
    p.inner.push(JsValue::Object(reactions));
    proof {
        assert(p@.inner =~= promise_object(prototype, state, payload, reactions).inner);
        assert(p@ == promise_object(prototype, state, payload, reactions));
        assert(heap@.valid_refs(p@));
    }
    heap.allocate(p)
}

/// Whether a function ended in the expected heap and result, and queued these jobs.
pub open spec fn ends_with_jobs(
    before: Ctx,
    after: Ctx,
    r: Result<JsValue, Throw>,
    expected: (HeapModel, Seq<Job>, Result<JsValue, Fault>),
) -> bool {
    &&& after.heap@ == expected.0
    &&& after.wf()
    &&& after.global == before.global
    &&& match before.pending {
        None => after.pending is None,
        Some(p) => after.pending is Some && after.pending.unwrap()@ == p@ + expected.1,
    }
    &&& match expected.2 {
        Ok(v) => r == Ok::<JsValue, Throw>(v),
        Err(f) => r is Err && is_fault(r->Err_0, f),
    }
}

/// The prototype that a constructor gives its promises.
pub open spec fn promise_prototype(h: HeapModel, this: JsValue) -> Option<usize> {
    match this {
        JsValue::Object(c) => h.objects[c as int].prototype,
        _ => None,
    }
}

/// The prototype that a constructor gives its promises.
fn prototype_of(heap: &Heap, this: JsValue) -> (r: Option<usize>)
    requires
        heap.wf(),
        heap@.valid(this),
    ensures
        r == promise_prototype(heap@, this),
        heap@.valid_object(r),
{
    match this {
        JsValue::Object(c) => heap.object(c).prototype,
        _ => None,
    }
}

/// What `Promise.resolve` gives: a promise itself, or a promise fulfilled with a value.
pub open spec fn resolved(h: HeapModel, this: JsValue, v: JsValue) -> (
    HeapModel,
    Seq<Job>,
    Result<JsValue, Fault>,
) {
    if promise_value(h, v) {
        (h, seq![], Ok(v))
    } else {
        (
            with_promise(h, promise_prototype(h, this), STATE_FULFILLED, v),
            seq![],
            Ok(JsValue::Object((h.objects.len() + 1) as usize)),
        )
    }
}

/// `Promise.resolve(value)`.
pub fn promise_resolve(ctx: &mut Ctx, this: JsValue, args: &[JsValue]) -> (r: Result<JsValue, Throw>)
    requires
        old(ctx).wf(),
        old(ctx).heap@.valid(this),
        valid_args(old(ctx).heap@, args@),
    ensures
        ends_with_jobs(
            *old(ctx),
            *final(ctx),
            r,
            resolved(old(ctx).heap@, this, arg_of(args@, 0)),
        ),
{
    proof {
        if ctx.pending is Some {
            let p = ctx.pending.unwrap()@;
            assert(p + Seq::<Job>::empty() =~= p);
        }
    }
    let v: JsValue = arg(args, 0);
    if is_promise(&ctx.heap, v) {
        return Ok(v);
    }
    let prototype: Option<usize> = prototype_of(&ctx.heap, this);
    let p: usize = create_promise(&mut ctx.heap, prototype, STATE_FULFILLED, v);
    Ok(JsValue::Object(p))
}

/// What `Promise.reject` gives.
pub open spec fn rejected(h: HeapModel, this: JsValue, reason: JsValue) -> (
    HeapModel,
    Seq<Job>,
    Result<JsValue, Fault>,
) {
    (
        with_promise(h, promise_prototype(h, this), STATE_REJECTED, reason),
        seq![],
        Ok(JsValue::Object((h.objects.len() + 1) as usize)),
    )
}

/// `Promise.reject(reason)`: a rejected promise, whatever the reason is.
pub fn promise_reject(ctx: &mut Ctx, this: JsValue, args: &[JsValue]) -> (r: Result<JsValue, Throw>)
    requires
        old(ctx).wf(),
        old(ctx).heap@.valid(this),
        valid_args(old(ctx).heap@, args@),
    ensures
        ends_with_jobs(
            *old(ctx),
            *final(ctx),
            r,
            rejected(old(ctx).heap@, this, arg_of(args@, 0)),
        ),
{
    proof {
        if ctx.pending is Some {
            let p = ctx.pending.unwrap()@;
            assert(p + Seq::<Job>::empty() =~= p);
        }
    }
    let v: JsValue = arg(args, 0);
    let prototype: Option<usize> = prototype_of(&ctx.heap, this);
    let p: usize = create_promise(&mut ctx.heap, prototype, STATE_REJECTED, v);
    Ok(JsValue::Object(p))
}

/// A rejected promise without a prototype.
pub fn make_rejected_promise(heap: &mut Heap, reason: JsValue) -> (r: JsValue)
    requires
        old(heap).wf(),
        old(heap)@.valid(reason),
    ensures
        final(heap).wf(),
        final(heap)@ == with_promise(old(heap)@, None, STATE_REJECTED, reason),
        r == JsValue::Object((old(heap)@.objects.len() + 1) as usize),
        old(heap)@.within(final(heap)@),
{
    let p: usize = create_promise(heap, None, STATE_REJECTED, reason);
    JsValue::Object(p)
}

/// A promise that is not settled.
pub fn make_pending_promise(heap: &mut Heap, prototype: Option<usize>) -> (r: usize)
    requires
        old(heap).wf(),
        old(heap)@.valid_object(prototype),
    ensures
        final(heap).wf(),
        final(heap)@ == with_promise(old(heap)@, prototype, STATE_PENDING, JsValue::Undefined),
        r == old(heap)@.objects.len() + 1,
        old(heap)@.within(final(heap)@),
{
    create_promise(heap, prototype, STATE_PENDING, JsValue::Undefined)
}

/// `import()` where there is no module loader: a promise rejected with a type error.
pub fn module_import(ctx: &mut Ctx, _this: JsValue, _args: &[JsValue]) -> (r: Result<
    JsValue,
    Throw,
>)
    requires
        old(ctx).wf(),
    ensures
        ({
            let h = old(ctx).heap@;
            let h1 = with_error(
                h,
                old(ctx).global,
                "TypeError"@,
                utf16_of("dynamic import: no module loader in this context"@),
            );
            ends_with_jobs(
                *old(ctx),
                *final(ctx),
                r,
                (
                    with_promise(
                        h1,
                        None,
                        STATE_REJECTED,
                        JsValue::Object(h.objects.len() as usize),
                    ),
                    seq![],
                    Ok(JsValue::Object((h1.objects.len() + 1) as usize)),
                ),
            )
        }),
{
    proof {
        if ctx.pending is Some {
            let p = ctx.pending.unwrap()@;
            assert(p + Seq::<Job>::empty() =~= p);
        }
    }
    let message: Vec<u16> = utf16("dynamic import: no module loader in this context");
    let e: usize = error_object(ctx, "TypeError", message.as_slice());
    let p: JsValue = make_rejected_promise(&mut ctx.heap, JsValue::Object(e));
    Ok(p)
}

/// An import of a module that is evaluated from its source: an empty namespace, whatever
/// is imported.
pub fn module_namespace(ctx: &mut Ctx) -> (r: JsValue)
    requires
        old(ctx).wf(),
    ensures
        only_heap(
            *old(ctx),
            *final(ctx),
            old(ctx).heap@.with_new(plain_object(Kind::Ordinary)),
        ),
        r == JsValue::Object(old(ctx).heap@.objects.len() as usize),
{
    let n: usize = ctx.heap.allocate(JsObject::plain(Kind::Ordinary));
    JsValue::Object(n)
}

// ---------------------------------------------------------------------------
// Settling
// ---------------------------------------------------------------------------

/// The list of reactions of a promise.
pub open spec fn reactions_of(m: ObjModel) -> Option<usize> {
    if m.inner.len() < 3 {
        None
    } else {
        match m.inner[2] {
            JsValue::Object(list) => Some(list),
            _ => None,
        }
    }
}

/// A reaction record.
pub open spec fn record_object(fulfil: JsValue, reject: JsValue, derived: usize) -> ObjModel {
    ObjModel {
        inner: seq![fulfil, reject, JsValue::Object(derived)],
        ..plain_object(Kind::Ordinary)
    }
}

/// The job of a reaction record for a settlement, `None` for what is no record.
pub open spec fn record_job(h: HeapModel, record: JsValue, state: i32, value: JsValue) -> Option<
    Job,
> {
    match record {
        JsValue::Object(o) => {
            let m = h.objects[o as int];
            if m.inner.len() < 3 {
                None
            } else {
                match m.inner[2] {
                    JsValue::Object(derived) => Some(
                        Job::Reaction {
                            handler: if state == STATE_FULFILLED {
                                m.inner[0]
                            } else {
                                m.inner[1]
                            },
                            payload: value,
                            derived,
                            rejecting: state != STATE_FULFILLED,
                        },
                    ),
                    _ => None,
                }
            }
        },
        _ => None,
    }
}

/// The jobs of the first `n` records, in their order.
pub open spec fn record_jobs(
    h: HeapModel,
    records: Seq<JsValue>,
    state: i32,
    value: JsValue,
    n: int,
) -> Seq<Job>
    decreases n,
{
    if n <= 0 {
        seq![]
    } else {
        let before = record_jobs(h, records, state, value, n - 1);
        match record_job(h, records[n - 1], state, value) {
            Some(job) => before.push(job),
            None => before,
        }
    }
}

/// A promise with another state and result.
pub open spec fn settled_model(m: ObjModel, state: i32, value: JsValue) -> ObjModel {
    ObjModel { inner: m.inner.update(0, JsValue::Smi(state)).update(1, value), ..m }
}

/// The heap with a promise settled and its reactions taken, and their jobs.
pub open spec fn settlement(h: HeapModel, promise: usize, state: i32, value: JsValue) -> (
    HeapModel,
    Seq<Job>,
) {
    let h1 = h.with_object(promise, settled_model(h.objects[promise as int], state, value));
    match reactions_of(h1.objects[promise as int]) {
        None => (h1, seq![]),
        Some(list) => {
            let records = h1.objects[list as int].elements;
            (
                with_elements(h1, list, seq![]),
                record_jobs(h1, records, state, value, records.len() as int),
            )
        },
    }
}

/// Whether all that a job refers to is in the heap.
pub open spec fn valid_job(h: HeapModel, job: Job) -> bool {
    match job {
        Job::Call(f) => f < h.objects.len(),
        Job::Reaction { handler, payload, derived, .. } => h.valid(handler) && h.valid(payload)
            && derived < h.objects.len(),
        Job::Executor { executor, promise, resolve, reject } => executor < h.objects.len()
            && promise < h.objects.len() && h.valid(resolve) && h.valid(reject),
    }
}

/// Whether all that jobs refer to is in the heap.
pub open spec fn valid_jobs(h: HeapModel, jobs: Seq<Job>) -> bool {
    forall|i: int| 0 <= i < jobs.len() ==> valid_job(h, #[trigger] jobs[i])
}

/// The job of a reaction record for a settlement.
fn reaction_job(heap: &Heap, record: JsValue, state: i32, value: JsValue) -> (r: Option<Job>)
    requires
        heap.wf(),
        heap@.valid(record),
        heap@.valid(value),
    ensures
        r == record_job(heap@, record, state, value),
        r matches Some(job) ==> valid_job(heap@, job),
{
    let o: usize = match record {
        JsValue::Object(o) => o,
        _ => {
            return None;
        },
    };
    let m = heap.object(o);
    if m.inner.len() < 3 {
        return None;
    }
    proof {
        assert(heap@.valid(m@.inner[0]));
        assert(heap@.valid(m@.inner[1]));
        assert(heap@.valid(m@.inner[2]));
    }
    match m.inner.get(2) {
        JsValue::Object(derived) => {
            let handler: JsValue = if state == STATE_FULFILLED {
                m.inner.get(0)
            } else {
                m.inner.get(1)
            };
            Some(
                Job::Reaction {
                    handler,
                    payload: value,
                    derived,
                    rejecting: state != STATE_FULFILLED,
                },
            )
        },
        _ => None,
    }
}

/// Takes the reactions of a promise and gives a job for each.
fn drain_reaction_jobs(heap: &mut Heap, promise: usize, state: i32, value: JsValue) -> (r: Vec<Job>)
    requires
        old(heap).wf(),
        promise < old(heap)@.objects.len(),
        old(heap)@.valid(value),
    ensures
        final(heap).wf(),
        match reactions_of(old(heap)@.objects[promise as int]) {
            None => final(heap)@ == old(heap)@ && r@.len() == 0,
            Some(list) => {
                let records = old(heap)@.objects[list as int].elements;
                &&& final(heap)@ == with_elements(old(heap)@, list, seq![])
                &&& r@ == record_jobs(old(heap)@, records, state, value, records.len() as int)
            },
        },
        valid_jobs(final(heap)@, r@),
        old(heap)@.within(final(heap)@),
        final(heap)@.within(old(heap)@),
{
    let mut jobs: Vec<Job> = Vec::new();
    let o = heap.object(promise);
    if o.inner.len() < 3 {
        return jobs;
    }
    proof {
        assert(heap@.valid(o@.inner[2]));
    }
    let list: usize = match o.inner.get(2) {
        JsValue::Object(list) => list,
        _ => {
            return jobs;
        },
    };
    let records: Vec<JsValue> = snapshot_elements(heap, list);
    let mut i: usize = 0;
    while i < records.len()
        invariant
            i <= records@.len(),
            heap.wf(),
            heap@.valid(value),
            valid_args(heap@, records@),
            jobs@ == record_jobs(heap@, records@, state, value, i as int),
            valid_jobs(heap@, jobs@),
        decreases records@.len() - i,
    {
        match reaction_job(heap, records[i], state, value) {
            Some(job) => {
                jobs.push(job);
            },
            None => {},
        }
        i = i + 1;
    }
    let none: Vec<JsValue> = Vec::new();
    proof {
        assert(none@ =~= seq![]);
    }
    replace_elements(heap, list, none);
    jobs
}

/// Sets the state and the result of a promise, and takes its reactions as jobs.
fn settle_now(heap: &mut Heap, promise: usize, state: i32, value: JsValue) -> (r: Vec<Job>)
    requires
        old(heap).wf(),
        promise < old(heap)@.objects.len(),
        promise_model(old(heap)@.objects[promise as int]),
        old(heap)@.valid(value),
    ensures
        final(heap).wf(),
        (final(heap)@, r@) == settlement(old(heap)@, promise, state, value),
        valid_jobs(final(heap)@, r@),
        old(heap)@.within(final(heap)@),
{
    let ghost h = heap@;
    let o = heap.object_mut(promise);
    proof {
        let m = settled_model(h.objects[promise as int], state, value);
        assert forall|i: int| 0 <= i < m.inner.len() implies h.valid(#[trigger] m.inner[i]) by {
            if i >= 2 {
                assert(m.inner[i] == h.objects[promise as int].inner[i]);
            }
        }
        assert(h.valid_refs(m));
    }
    o.inner.set(0, JsValue::Smi(state));
    o.inner.set(1, value);
    let jobs: Vec<Job> = drain_reaction_jobs(heap, promise, state, value);
    proof {
        if reactions_of(
            h.with_object(promise, settled_model(h.objects[promise as int], state, value)).objects[promise as int],
        ) is None {
            assert(jobs@ =~= seq![]);
        }
    }
    jobs
}

/// Settles a promise from a job: its reactions join the follow-ups of the checkpoint, as
/// many as there is room for. What is no promise stays as it is.
pub fn settle(
    heap: &mut Heap,
    pending: &mut Vec<Job>,
    promise: usize,
    state: i32,
    value: JsValue,
)
    requires
        old(heap).wf(),
        promise < old(heap)@.objects.len(),
        old(heap)@.valid(value),
    ensures
        final(heap).wf(),
        if promise_model(old(heap)@.objects[promise as int]) {
            let (h1, jobs) = settlement(old(heap)@, promise, state, value);
            final(heap)@ == h1 && final(pending)@ == accepted(old(pending)@, jobs)
        } else {
            final(heap)@ == old(heap)@ && final(pending)@ == old(pending)@
        },
        old(heap)@.within(final(heap)@),
{
    if !is_promise(heap, JsValue::Object(promise)) {
        return;
    }
    let jobs: Vec<Job> = settle_now(heap, promise, state, value);
    let ghost start = pending@;
    let mut i: usize = 0;
    proof {
        assert(start + jobs@.take(0) =~= start);
    }
    while i < jobs.len()
        invariant
            i <= jobs@.len(),
            pending@ == start + jobs@.take(room(start.len(), i as nat) as int),
        decreases jobs@.len() - i,
    {
        let ghost before = pending@;
        let _ = enqueue_follow_up(pending, jobs[i]);
        proof {
            if before.len() < MAX_QUEUE_LEN {
                assert(room(start.len(), i as nat) == i);
                assert(start + jobs@.take(i + 1) =~= before.push(jobs@[i as int]));
            }
        }
        i = i + 1;
    }
}

// ---------------------------------------------------------------------------
// Capabilities
// ---------------------------------------------------------------------------

/// The heap after one more record on a promise's list of reactions.
pub open spec fn with_reaction(h: HeapModel, promise: usize, record: ObjModel) -> HeapModel {
    let h1 = h.with_new(record);
    match reactions_of(h.objects[promise as int]) {
        Some(list) => with_elements(
            h1,
            list,
            h1.objects[list as int].elements.push(JsValue::Object(h.objects.len() as usize)),
        ),
        None => h1,
    }
}

/// What settling a promise through a capability does: the heap after it and the jobs.
/// The first settlement wins; a promise as value is adopted, and its outcome is taken
/// over where it is settled already.
pub open spec fn capability_settled(
    h: HeapModel,
    promise: usize,
    resolve: JsValue,
    reject: JsValue,
    value: JsValue,
    rejecting: bool,
) -> (HeapModel, Seq<Job>) {
    if !pending_model(h.objects[promise as int]) {
        (h, seq![])
    } else if !rejecting && promise_value(h, value) {
        let v = h.objects[value->Object_0 as int];
        if v.inner[0] != JsValue::Smi(STATE_PENDING) {
            settlement(
                h,
                promise,
                if v.inner[0] == JsValue::Smi(STATE_FULFILLED) {
                    STATE_FULFILLED
                } else {
                    STATE_REJECTED
                },
                v.inner[1],
            )
        } else {
            let h1 = with_promise(
                h,
                h.objects[promise as int].prototype,
                STATE_PENDING,
                JsValue::Undefined,
            );
            (
                with_reaction(
                    h1,
                    value->Object_0,
                    record_object(resolve, reject, (h.objects.len() + 1) as usize),
                ),
                seq![],
            )
        }
    } else {
        settlement(
            h,
            promise,
            if rejecting {
                STATE_REJECTED
            } else {
                STATE_FULFILLED
            },
            value,
        )
    }
}

/// Puts a new record on a promise's list of reactions.
fn add_reaction(heap: &mut Heap, promise: usize, fulfil: JsValue, reject: JsValue, derived: usize)
    requires
        old(heap).wf(),
        promise < old(heap)@.objects.len(),
        old(heap)@.valid(fulfil),
        old(heap)@.valid(reject),
        derived < old(heap)@.objects.len(),
    ensures
        final(heap).wf(),
        final(heap)@ == with_reaction(old(heap)@, promise, record_object(fulfil, reject, derived)),
        old(heap)@.within(final(heap)@),
{
    let ghost h = heap@;
    let mut o: JsObject = JsObject::plain(Kind::Ordinary);
    o.inner.push(fulfil);
    o.inner.push(reject);
    o.inner.push(JsValue::Object(derived));
    proof {
        assert(o@.inner =~= record_object(fulfil, reject, derived).inner);
        assert(o@ == record_object(fulfil, reject, derived));
        assert(h.valid_refs(o@));
    }
    let record: usize = heap.allocate(o);
    let p = heap.object(promise);
    proof {
        assert(heap@.objects[promise as int] == h.objects[promise as int]);
    }
    if p.inner.len() < 3 {
        return;
    }
    proof {
        assert(heap@.valid(p@.inner[2]));
    }
    match p.inner.get(2) {
        JsValue::Object(list) => {
            let mut records: Vec<JsValue> = snapshot_elements(heap, list);
            records.push(JsValue::Object(record));
            replace_elements(heap, list, records);
        },
        _ => {},
    }
}

/// Settling a promise with a value that is no promise changes slots and elements alone.
pub proof fn lemma_settled_keeps(
    h: HeapModel,
    promise: usize,
    resolve: JsValue,
    reject: JsValue,
    value: JsValue,
    rejecting: bool,
)
    requires
        h.closed(),
        promise < h.objects.len(),
        !promise_value(h, value),
    ensures
        h.keeps(capability_settled(h, promise, resolve, reject, value, rejecting).0),
{
    let m = h.objects[promise as int];
    assert(h.valid_refs(m));
    if pending_model(m) {
        assert(h.valid(m.inner[2]));
    }
}

/// Resolves or rejects a promise through a capability, and gives the jobs that follow.
pub fn capability_settle(
    heap: &mut Heap,
    promise: usize,
    resolve: JsValue,
    reject: JsValue,
    value: JsValue,
    rejecting: bool,
) -> (r: Vec<Job>)
    requires
        old(heap).wf(),
        promise < old(heap)@.objects.len(),
        old(heap)@.valid(resolve),
        old(heap)@.valid(reject),
        old(heap)@.valid(value),
    ensures
        final(heap).wf(),
        (final(heap)@, r@) == capability_settled(
            old(heap)@,
            promise,
            resolve,
            reject,
            value,
            rejecting,
        ),
        valid_jobs(final(heap)@, r@),
        old(heap)@.within(final(heap)@),
{
    let none: Vec<Job> = Vec::new();
    proof {
        assert(none@ =~= seq![]);
    }
    if !is_pending(heap, promise) {
        return none;
    }
    if !rejecting && is_promise(heap, value) {
        let adopted: usize = match value {
            JsValue::Object(o) => o,
            _ => {
                return none;
            },
        };
        let v = heap.object(adopted);
        let state: JsValue = v.inner.get(0);
        let payload: JsValue = v.inner.get(1);
        proof {
            assert(heap@.valid(v@.inner[1]));
        }
        if state != JsValue::Smi(STATE_PENDING) {
            let outcome: i32 = if state == JsValue::Smi(STATE_FULFILLED) {
                STATE_FULFILLED
            } else {
                STATE_REJECTED
            };
            return settle_now(heap, promise, outcome, payload);
        }
        let prototype: Option<usize> = heap.object(promise).prototype;
        let derived: usize = create_promise(heap, prototype, STATE_PENDING, JsValue::Undefined);
        add_reaction(heap, adopted, resolve, reject, derived);
        return none;
    }
    let state: i32 = if rejecting {
        STATE_REJECTED
    } else {
        STATE_FULFILLED
    };
    settle_now(heap, promise, state, value)
}

/// A function that settles a promise.
pub open spec fn settler(promise: usize, resolve: usize, reject: usize, rejecting: bool) -> ObjModel {
    ObjModel {
        callable: FunctionTarget::Settle { promise, resolve, reject, rejecting },
        ..plain_object(Kind::Function)
    }
}

/// The heap with the two functions that settle a promise.
pub open spec fn with_capability(h: HeapModel, promise: usize) -> HeapModel {
    let a = h.objects.len() as usize;
    let b = (h.objects.len() + 1) as usize;
    h.with_new(settler(promise, a, b, false)).with_new(settler(promise, a, b, true))
}

/// Makes the two functions that settle a promise: one resolves it, one rejects it.
pub fn make_capability(heap: &mut Heap, promise: usize) -> (r: (usize, usize))
    requires
        old(heap).wf(),
        promise < old(heap)@.objects.len(),
    ensures
        final(heap).wf(),
        final(heap)@ == with_capability(old(heap)@, promise),
        r.0 == old(heap)@.objects.len(),
        r.1 == old(heap)@.objects.len() + 1,
        r.1 < final(heap)@.objects.len(),
        old(heap)@.within(final(heap)@),
{
    let ghost h = heap@;
    let resolve: usize = heap.allocate(JsObject::plain(Kind::Function));
    let reject: usize = heap.allocate(JsObject::plain(Kind::Function));
    let ghost h2 = heap@;
    proof {
        assert(h2.valid_refs(settler(promise, resolve, reject, false)));
        assert(h2.valid_refs(settler(promise, resolve, reject, true)));
    }
    let o = heap.object_mut(resolve);
    o.callable = FunctionTarget::Settle { promise, resolve, reject, rejecting: false };
    let ghost h3 = heap@;
    proof {
        assert(h3.objects[resolve as int] == settler(promise, resolve, reject, false));
        assert(h3.valid_refs(settler(promise, resolve, reject, true)));
    }
    let o = heap.object_mut(reject);
    o.callable = FunctionTarget::Settle { promise, resolve, reject, rejecting: true };
    proof {
        assert(heap@.objects =~= with_capability(h, promise).objects);
    }
    (resolve, reject)
}

/// What settling the promise of an async function that came to its end does: the heap
/// after it and the jobs.
pub open spec fn async_completed(h: HeapModel, promise: usize, value: JsValue, rejecting: bool) -> (
    HeapModel,
    Seq<Job>,
) {
    if pending_model(h.objects[promise as int]) {
        capability_settled(
            with_capability(h, promise),
            promise,
            JsValue::Object(h.objects.len() as usize),
            JsValue::Object((h.objects.len() + 1) as usize),
            value,
            rejecting,
        )
    } else {
        (h, seq![])
    }
}

/// Settles the promise of an async function that came to its end; the first settlement
/// wins. Gives the jobs that follow.
pub fn settle_async_completion(
    heap: &mut Heap,
    promise: usize,
    value: JsValue,
    rejecting: bool,
) -> (r: Vec<Job>)
    requires
        old(heap).wf(),
        promise < old(heap)@.objects.len(),
        old(heap)@.valid(value),
    ensures
        final(heap).wf(),
        (final(heap)@, r@) == async_completed(old(heap)@, promise, value, rejecting),
        valid_jobs(final(heap)@, r@),
        old(heap)@.within(final(heap)@),
{
    if !is_pending(heap, promise) {
        let none: Vec<Job> = Vec::new();
        proof {
            assert(none@ =~= seq![]);
        }
        return none;
    }
    let (resolve, reject) = make_capability(heap, promise);
    capability_settle(
        heap,
        promise,
        JsValue::Object(resolve),
        JsValue::Object(reject),
        value,
        rejecting,
    )
}

// ---------------------------------------------------------------------------
// The built-ins that queue jobs
// ---------------------------------------------------------------------------

/// What `then` does: a promise that is not settled gets a reaction record, a settled one
/// queues the job of its reaction; either settles a new promise.
pub open spec fn chained(h: HeapModel, this: JsValue, fulfil: JsValue, reject: JsValue) -> (
    HeapModel,
    Seq<Job>,
    Result<JsValue, Fault>,
) {
    if !promise_value(h, this) {
        (h, seq![], Err(Fault::Text("TypeError: Promise.prototype.then requires a promise"@)))
    } else {
        let p = this->Object_0;
        let m = h.objects[p as int];
        let derived = (h.objects.len() + 1) as usize;
        let h1 = with_promise(h, m.prototype, STATE_PENDING, JsValue::Undefined);
        if m.inner[0] == JsValue::Smi(STATE_PENDING) {
            (
                with_reaction(h1, p, record_object(fulfil, reject, derived)),
                seq![],
                Ok(JsValue::Object(derived)),
            )
        } else {
            let rejecting = m.inner[0] != JsValue::Smi(STATE_FULFILLED);
            (
                h1,
                seq![
                    Job::Reaction {
                        handler: if rejecting {
                            reject
                        } else {
                            fulfil
                        },
                        payload: m.inner[1],
                        derived,
                        rejecting,
                    },
                ],
                Ok(JsValue::Object(derived)),
            )
        }
    }
}

/// Chains a promise with two handlers.
fn chain(ctx: &mut Ctx, this: JsValue, fulfil: JsValue, reject: JsValue) -> (r: Result<
    JsValue,
    Throw,
>)
    requires
        old(ctx).wf(),
        old(ctx).heap@.valid(this),
        old(ctx).heap@.valid(fulfil),
        old(ctx).heap@.valid(reject),
    ensures
        ends_with_jobs(
            *old(ctx),
            *final(ctx),
            r,
            chained(old(ctx).heap@, this, fulfil, reject),
        ),
{
    let ghost start = ctx.pending;
    proof {
        if start is Some {
            let p = start.unwrap()@;
            assert(p + Seq::<Job>::empty() =~= p);
        }
    }
    if !is_promise(&ctx.heap, this) {
        return Err(error("TypeError: Promise.prototype.then requires a promise"));
    }
    let p: usize = match this {
        JsValue::Object(p) => p,
        _ => {
            return Err(error("TypeError: Promise.prototype.then requires a promise"));
        },
    };
    let o = ctx.heap.object(p);
    let prototype: Option<usize> = o.prototype;
    let state: JsValue = o.inner.get(0);
    let payload: JsValue = o.inner.get(1);
    let derived: usize = create_promise(
        &mut ctx.heap,
        prototype,
        STATE_PENDING,
        JsValue::Undefined,
    );
    if state == JsValue::Smi(STATE_PENDING) {
        add_reaction(&mut ctx.heap, p, fulfil, reject, derived);
    } else {
        let rejecting: bool = state != JsValue::Smi(STATE_FULFILLED);
        let handler: JsValue = if rejecting {
            reject
        } else {
            fulfil
        };
        let job: Job = Job::Reaction { handler, payload, derived, rejecting };
        ctx.enqueue_job(job);
        proof {
            if start is Some {
                assert(start.unwrap()@.push(job) =~= start.unwrap()@ + seq![job]);
            }
        }
    }
    Ok(JsValue::Object(derived))
}

/// `Promise.prototype.then(fulfil, reject)`.
pub fn promise_then(ctx: &mut Ctx, this: JsValue, args: &[JsValue]) -> (r: Result<JsValue, Throw>)
    requires
        old(ctx).wf(),
        old(ctx).heap@.valid(this),
        valid_args(old(ctx).heap@, args@),
    ensures
        ends_with_jobs(
            *old(ctx),
            *final(ctx),
            r,
            chained(old(ctx).heap@, this, arg_of(args@, 0), arg_of(args@, 1)),
        ),
{
    chain(ctx, this, arg(args, 0), arg(args, 1))
}

/// What `catch` does.
pub open spec fn caught(h: HeapModel, this: JsValue, reject: JsValue) -> (
    HeapModel,
    Seq<Job>,
    Result<JsValue, Fault>,
) {
    chained(h, this, JsValue::Undefined, reject)
}

/// `Promise.prototype.catch(reject)`: `then` without a handler for fulfilment.
pub fn promise_catch(ctx: &mut Ctx, this: JsValue, args: &[JsValue]) -> (r: Result<JsValue, Throw>)
    requires
        old(ctx).wf(),
        old(ctx).heap@.valid(this),
        valid_args(old(ctx).heap@, args@),
    ensures
        ends_with_jobs(
            *old(ctx),
            *final(ctx),
            r,
            caught(old(ctx).heap@, this, arg_of(args@, 0)),
        ),
{
    chain(ctx, this, JsValue::Undefined, arg(args, 0))
}

/// What `queueMicrotask` does.
pub open spec fn microtask(h: HeapModel, callback: JsValue) -> (
    HeapModel,
    Seq<Job>,
    Result<JsValue, Fault>,
) {
    match callback {
        JsValue::Object(f) => (h, seq![Job::Call(f)], Ok(JsValue::Undefined)),
        _ => (h, seq![], Err(Fault::Text("TypeError: queueMicrotask requires a function"@))),
    }
}

/// `queueMicrotask(callback)`: queues a call of the callback without arguments.
pub fn queue_microtask(ctx: &mut Ctx, _this: JsValue, args: &[JsValue]) -> (r: Result<
    JsValue,
    Throw,
>)
    requires
        old(ctx).wf(),
        valid_args(old(ctx).heap@, args@),
    ensures
        ends_with_jobs(
            *old(ctx),
            *final(ctx),
            r,
            microtask(old(ctx).heap@, arg_of(args@, 0)),
        ),
{
    let ghost start = ctx.pending;
    proof {
        if start is Some {
            let p = start.unwrap()@;
            assert(p + Seq::<Job>::empty() =~= p);
        }
    }
    match arg(args, 0) {
        JsValue::Object(f) => {
            ctx.enqueue_job(Job::Call(f));
            proof {
                if start is Some {
                    assert(start.unwrap()@.push(Job::Call(f)) =~= start.unwrap()@ + seq![
                        Job::Call(f),
                    ]);
                }
            }
            Ok(JsValue::Undefined)
        },
        _ => Err(error("TypeError: queueMicrotask requires a function")),
    }
}

/// What `new Promise(executor)` does: the executor is queued with the two functions that
/// settle the promise.
pub open spec fn constructed(h: HeapModel, this: JsValue, executor: JsValue) -> (
    HeapModel,
    Seq<Job>,
    Result<JsValue, Fault>,
) {
    if !is_kind(h, executor, Kind::Function) {
        (h, seq![], Err(Fault::Text("TypeError: Promise executor must be a function"@)))
    } else if !(this matches JsValue::Object(c) && h.objects[c as int].callable
        == FunctionTarget::Native(NativeId::PromiseConstruct)) {
        (h, seq![], Err(Fault::Text("TypeError: Promise constructor requires 'new'"@)))
    } else {
        let n = h.objects.len();
        let p = (n + 1) as usize;
        let h1 = with_promise(
            h,
            promise_prototype(h, this),
            STATE_PENDING,
            JsValue::Undefined,
        );
        (
            with_capability(h1, p),
            seq![
                Job::Executor {
                    executor: executor->Object_0,
                    promise: p,
                    resolve: JsValue::Object((n + 2) as usize),
                    reject: JsValue::Object((n + 3) as usize),
                },
            ],
            Ok(JsValue::Object(p)),
        )
    }
}

/// `new Promise(executor)`: the executor runs at the next checkpoint.
pub fn promise_construct(ctx: &mut Ctx, this: JsValue, args: &[JsValue]) -> (r: Result<
    JsValue,
    Throw,
>)
    requires
        old(ctx).wf(),
        old(ctx).heap@.valid(this),
        valid_args(old(ctx).heap@, args@),
    ensures
        ends_with_jobs(
            *old(ctx),
            *final(ctx),
            r,
            constructed(old(ctx).heap@, this, arg_of(args@, 0)),
        ),
{
    let ghost start = ctx.pending;
    proof {
        if start is Some {
            let p = start.unwrap()@;
            assert(p + Seq::<Job>::empty() =~= p);
        }
    }
    let executor: usize = match arg(args, 0) {
        JsValue::Object(f) => {
            if ctx.heap.object(f).kind != Kind::Function {
                return Err(error("TypeError: Promise executor must be a function"));
            }
            f
        },
        _ => {
            return Err(error("TypeError: Promise executor must be a function"));
        },
    };
    let constructs: bool = match this {
        JsValue::Object(c) => ctx.heap.object(c).callable == FunctionTarget::Native(
            NativeId::PromiseConstruct,
        ),
        _ => false,
    };
    if !constructs {
        return Err(error("TypeError: Promise constructor requires 'new'"));
    }
    let prototype: Option<usize> = prototype_of(&ctx.heap, this);
    let p: usize = create_promise(
        &mut ctx.heap,
        prototype,
        STATE_PENDING,
        JsValue::Undefined,
    );
    let (resolve, reject) = make_capability(&mut ctx.heap, p);
    let job: Job = Job::Executor {
        executor,
        promise: p,
        resolve: JsValue::Object(resolve),
        reject: JsValue::Object(reject),
    };
    ctx.enqueue_job(job);
    proof {
        if start is Some {
            assert(start.unwrap()@.push(job) =~= start.unwrap()@ + seq![job]);
        }
    }
    Ok(JsValue::Object(p))
}

// ---------------------------------------------------------------------------
// Running jobs
// ---------------------------------------------------------------------------

/// What has to be called before a job can be finished.
#[derive(Clone, Copy, PartialEq, Eq, Structural, Debug)]
pub enum JobCall {
    /// A function without arguments.
    Plain(usize),
    /// A handler with the payload.
    Handler(usize, JsValue),
    /// An executor with the functions that settle its promise.
    Executor(usize, JsValue, JsValue),
    /// Nothing: this is the outcome, and whether it is a rejection.
    Outcome(JsValue, bool),
}

/// Whether all that a job refers to is in the heap.
pub fn job_is_valid(heap: &Heap, job: Job) -> (r: bool)
    requires
        heap.wf(),
    ensures
        r == valid_job(heap@, job),
{
    match job {
        Job::Call(f) => heap.is_valid(JsValue::Object(f)),
        Job::Reaction { handler, payload, derived, rejecting: _ } => heap.is_valid(handler)
            && heap.is_valid(payload) && heap.is_valid(JsValue::Object(derived)),
        Job::Executor { executor, promise, resolve, reject } => heap.is_valid(
            JsValue::Object(executor),
        ) && heap.is_valid(JsValue::Object(promise)) && heap.is_valid(resolve) && heap.is_valid(
            reject,
        ),
    }
}

/// What a job calls: a handler that is no function is passed over, and the payload is the
/// outcome.
pub open spec fn call_of(h: HeapModel, job: Job) -> JobCall {
    match job {
        Job::Call(f) => JobCall::Plain(f),
        Job::Executor { executor, promise, resolve, reject } => JobCall::Executor(
            executor,
            resolve,
            reject,
        ),
        Job::Reaction { handler, payload, derived, rejecting } => if is_kind(
            h,
            handler,
            Kind::Function,
        ) {
            JobCall::Handler(handler->Object_0, payload)
        } else {
            JobCall::Outcome(payload, rejecting)
        },
    }
}

/// What a job calls.
pub fn job_call(heap: &Heap, job: Job) -> (r: JobCall)
    requires
        heap.wf(),
        valid_job(heap@, job),
    ensures
        r == call_of(heap@, job),
{
    match job {
        Job::Call(f) => JobCall::Plain(f),
        Job::Executor { executor, promise: _, resolve, reject } => JobCall::Executor(
            executor,
            resolve,
            reject,
        ),
        Job::Reaction { handler, payload, derived: _, rejecting } => {
            match handler {
                JsValue::Object(f) => {
                    if heap.object(f).kind == Kind::Function {
                        return JobCall::Handler(f, payload);
                    }
                },
                _ => {},
            }
            JobCall::Outcome(payload, rejecting)
        },
    }
}

/// The heap and the follow-ups after a job whose call had the given outcome: what a
/// microtask throws is dropped, the outcome of a handler settles its promise, and what an
/// executor throws rejects its promise.
pub open spec fn job_finished(
    h: HeapModel,
    pending: Seq<Job>,
    job: Job,
    value: JsValue,
    thrown: bool,
) -> (HeapModel, Seq<Job>) {
    match job {
        Job::Call(_) => (h, pending),
        Job::Reaction { handler, payload, derived, rejecting } => if promise_model(
            h.objects[derived as int],
        ) {
            let (h1, jobs) = settlement(
                h,
                derived,
                if thrown {
                    STATE_REJECTED
                } else {
                    STATE_FULFILLED
                },
                value,
            );
            (h1, accepted(pending, jobs))
        } else {
            (h, pending)
        },
        Job::Executor { executor, promise, resolve, reject } => if thrown {
            let (h1, jobs) = capability_settled(h, promise, resolve, reject, value, true);
            (h1, pending + jobs)
        } else {
            (h, pending)
        },
    }
}

/// Finishes a job whose call had the given outcome.
pub fn finish_job(
    heap: &mut Heap,
    pending: &mut Vec<Job>,
    job: Job,
    value: JsValue,
    thrown: bool,
)
    requires
        old(heap).wf(),
        valid_job(old(heap)@, job),
        old(heap)@.valid(value),
    ensures
        final(heap).wf(),
        (final(heap)@, final(pending)@) == job_finished(
            old(heap)@,
            old(pending)@,
            job,
            value,
            thrown,
        ),
        old(heap)@.within(final(heap)@),
{
    match job {
        Job::Call(_) => {},
        Job::Reaction { handler: _, payload: _, derived, rejecting: _ } => {
            let state: i32 = if thrown {
                STATE_REJECTED
            } else {
                STATE_FULFILLED
            };
            settle(heap, pending, derived, state, value);
        },
        Job::Executor { executor: _, promise, resolve, reject } => {
            if thrown {
                let mut jobs: Vec<Job> = capability_settle(
                    heap,
                    promise,
                    resolve,
                    reject,
                    value,
                    true,
                );
                pending.append(&mut jobs);
            }
        },
    }
}

/// What calling a function that settles a promise does: the heap after it and the jobs;
/// nothing for other functions.
pub open spec fn settler_called(h: HeapModel, function: usize, value: JsValue) -> Option<
    (HeapModel, Seq<Job>),
> {
    match h.objects[function as int].callable {
        FunctionTarget::Settle { promise, resolve, reject, rejecting } => Some(
            capability_settled(
                h,
                promise,
                JsValue::Object(resolve),
                JsValue::Object(reject),
                value,
                rejecting,
            ),
        ),
        _ => None,
    }
}

/// Runs a function that settles a promise with its first argument; other functions give
/// nothing. Gives the jobs that follow.
pub fn call_settler(heap: &mut Heap, function: usize, args: &[JsValue]) -> (r: Option<Vec<Job>>)
    requires
        old(heap).wf(),
        function < old(heap)@.objects.len(),
        valid_args(old(heap)@, args@),
    ensures
        final(heap).wf(),
        match settler_called(old(heap)@, function, arg_of(args@, 0)) {
            Some((h1, jobs)) => r is Some && final(heap)@ == h1 && r.unwrap()@ == jobs,
            None => r is None && final(heap)@ == old(heap)@,
        },
        old(heap)@.within(final(heap)@),
{
    match heap.object(function).callable {
        FunctionTarget::Settle { promise, resolve, reject, rejecting } => Some(
            capability_settle(
                heap,
                promise,
                JsValue::Object(resolve),
                JsValue::Object(reject),
                arg(args, 0),
                rejecting,
            ),
        ),
        _ => None,
    }
}

// ---------------------------------------------------------------------------
// Laws
// ---------------------------------------------------------------------------

/// The first settlement wins: a promise that a capability settled with a value that is
/// no promise has that value as its result, and every later settlement of it through a
/// capability changes nothing and queues nothing.
pub proof fn law_first_settlement_wins(
    h: HeapModel,
    promise: usize,
    resolve: JsValue,
    reject: JsValue,
    value: JsValue,
    rejecting: bool,
    later: JsValue,
    rejecting_later: bool,
)
    requires
        h.closed(),
        promise < h.objects.len(),
        pending_model(h.objects[promise as int]),
        rejecting || !promise_value(h, value),
    ensures
        ({
            let h1 = capability_settled(h, promise, resolve, reject, value, rejecting).0;
            let m = h1.objects[promise as int];
            &&& promise_model(m)
            &&& m.inner[0] == JsValue::Smi(
                if rejecting {
                    STATE_REJECTED
                } else {
                    STATE_FULFILLED
                },
            )
            &&& m.inner[1] == value
            &&& capability_settled(h1, promise, resolve, reject, later, rejecting_later) == (
                h1,
                Seq::<Job>::empty(),
            )
        }),
{
    let state = if rejecting {
        STATE_REJECTED
    } else {
        STATE_FULFILLED
    };
    let m = settled_model(h.objects[promise as int], state, value);
    let h1 = h.with_object(promise, m);
    assert(h1.objects[promise as int] == m);
    assert(m.inner[2] == h.objects[promise as int].inner[2]);
    assert(h.valid_refs(h.objects[promise as int]));
    assert(h.valid(m.inner[2]));
}

/// Reactions run in the order in which they were added: one more record gives one more
/// job, behind those of the records before it.
pub proof fn law_reactions_in_order(
    h: HeapModel,
    records: Seq<JsValue>,
    record: JsValue,
    state: i32,
    value: JsValue,
)
    requires
        record_job(h, record, state, value) is Some,
    ensures
        record_jobs(h, records.push(record), state, value, records.len() as int + 1)
            == record_jobs(h, records, state, value, records.len() as int).push(
            record_job(h, record, state, value).unwrap(),
        ),
{
    lemma_jobs_of_prefix(h, records, record, state, value, records.len() as int);
}

proof fn lemma_jobs_of_prefix(
    h: HeapModel,
    records: Seq<JsValue>,
    record: JsValue,
    state: i32,
    value: JsValue,
    n: int,
)
    requires
        0 <= n <= records.len(),
    ensures
        record_jobs(h, records.push(record), state, value, n) == record_jobs(
            h,
            records,
            state,
            value,
            n,
        ),
    decreases n,
{
    if n > 0 {
        lemma_jobs_of_prefix(h, records, record, state, value, n - 1);
        assert(records.push(record)[n - 1] == records[n - 1]);
    }
}

/// Settling a promise leaves it without reactions, so none runs twice.
pub proof fn law_reactions_once(h: HeapModel, promise: usize, state: i32, value: JsValue)
    requires
        h.closed(),
        promise < h.objects.len(),
        promise_model(h.objects[promise as int]),
    ensures
        ({
            let h1 = settlement(h, promise, state, value).0;
            match reactions_of(h1.objects[promise as int]) {
                Some(list) => h1.objects[list as int].elements.len() == 0,
                None => true,
            }
        }),
{
    let m = h.objects[promise as int];
    let m1 = settled_model(m, state, value);
    assert(m1.inner[2] == m.inner[2]);
    assert(h.valid_refs(m));
    assert(h.valid(m.inner[2]));
}

/// A reaction that was added to a promise runs when the promise is settled: settling it
/// queues the job of that reaction behind those of the reactions before it.
pub proof fn law_added_reaction_runs(
    h: HeapModel,
    promise: usize,
    fulfil: JsValue,
    reject: JsValue,
    derived: usize,
    state: i32,
    value: JsValue,
)
    requires
        h.closed(),
        h.objects.len() < usize::MAX,
        promise < h.objects.len(),
        promise_model(h.objects[promise as int]),
        reactions_of(h.objects[promise as int]) is Some,
        reactions_of(h.objects[promise as int]) != Some(promise),
    ensures
        ({
            let h1 = with_reaction(h, promise, record_object(fulfil, reject, derived));
            let jobs = settlement(h1, promise, state, value).1;
            jobs.len() > 0 && jobs.last() == Job::Reaction {
                handler: if state == STATE_FULFILLED {
                    fulfil
                } else {
                    reject
                },
                payload: value,
                derived,
                rejecting: state != STATE_FULFILLED,
            }
        }),
{
    let m = h.objects[promise as int];
    let list = reactions_of(m).unwrap();
    assert(h.valid_refs(m));
    assert(h.valid(m.inner[2]));
    let record = record_object(fulfil, reject, derived);
    let h1 = with_reaction(h, promise, record);
    let n = h.objects.len() as usize;
    assert(h1.objects[n as int] == record);
    assert(h1.objects[promise as int] == m);
    let m1 = settled_model(m, state, value);
    assert(m1.inner[2] == m.inner[2]);
    let h2 = h1.with_object(promise, m1);
    let records = h2.objects[list as int].elements;
    assert(records.last() == JsValue::Object(n));
    assert(h2.objects[n as int] == record);
    assert(record.inner[0] == fulfil && record.inner[1] == reject && record.inner[2]
        == JsValue::Object(derived));
}

/// A promise that another adopts hands its outcome on: once it is settled, the last job
/// that is queued gives its result to the function that resolves, or rejects, the one that
/// adopted it.
pub proof fn law_adopted_outcome(
    h: HeapModel,
    promise: usize,
    resolve: JsValue,
    reject: JsValue,
    adopted: usize,
    state: i32,
    value: JsValue,
)
    requires
        h.closed(),
        h.objects.len() + 2 < usize::MAX,
        promise < h.objects.len(),
        adopted < h.objects.len(),
        pending_model(h.objects[promise as int]),
        pending_model(h.objects[adopted as int]),
        reactions_of(h.objects[adopted as int]) is Some,
        reactions_of(h.objects[adopted as int]) != Some(adopted),
    ensures
        ({
            let h1 = capability_settled(
                h,
                promise,
                resolve,
                reject,
                JsValue::Object(adopted),
                false,
            ).0;
            let jobs = settlement(h1, adopted, state, value).1;
            &&& pending_model(h1.objects[promise as int])
            &&& jobs.len() > 0
            &&& jobs.last() matches Job::Reaction { handler, payload, rejecting, .. } && handler == (
            if state == STATE_FULFILLED {
                resolve
            } else {
                reject
            }) && payload == value && rejecting == (state != STATE_FULFILLED)
        }),
{
    let proto = h.objects[promise as int].prototype;
    let h0 = with_promise(h, proto, STATE_PENDING, JsValue::Undefined);
    let derived = (h.objects.len() + 1) as usize;
    assert(h0.objects[adopted as int] == h.objects[adopted as int]);
    assert(h0.closed()) by {
        let a = bare_array(seq![]);
        let n = h.objects.len() as usize;
        let p = promise_object(proto, STATE_PENDING, JsValue::Undefined, n);
        assert(h.valid_refs(h.objects[promise as int]));
        assert(h0.valid_refs(a));
        assert(h0.valid_refs(p));
        assert(h0.objects[n as int] == a);
        assert(h0.objects[n + 1] == p);
        lemma_closed_with(h, h0);
    }
    law_added_reaction_runs(h0, adopted, resolve, reject, derived, state, value);
    let h1 = with_reaction(h0, adopted, record_object(resolve, reject, derived));
    let list = reactions_of(h.objects[adopted as int]).unwrap();
    assert(h0.objects[promise as int] == h.objects[promise as int]);
    assert(h1.objects[promise as int].inner == h0.objects[promise as int].inner);
    assert(h1.objects[promise as int].kind == h0.objects[promise as int].kind);
}

} // verus!
