//! Microtask job queue.
//!
//! Promise reactions and queued microtasks run at checkpoints. The queue decides
//! which job runs next and when a checkpoint is over; the embedder runs the jobs.
use std::collections::VecDeque;

use vstd::prelude::*;

use crate::value::JsValue;

verus! {

/// Maximum number of queued microtasks: no job is accepted beyond it.
pub const MAX_QUEUE_LEN: usize = 10_000;

/// A microtask.
#[derive(Clone, Copy, PartialEq, Eq, Structural, Debug)]
pub enum Job {
    /// Call a function object without arguments; what it throws is dropped.
    Call(usize),
    /// Settle the promise `derived` with what `handler` makes of `payload`.
    Reaction {
        /// The handler, which need not be a function.
        handler: JsValue,
        /// The payload that the handler gets.
        payload: JsValue,
        /// The promise to settle.
        derived: usize,
        /// Whether the payload is a rejection.
        rejecting: bool,
    },
    /// Call the executor of a promise with the functions that settle it.
    Executor {
        /// The executor.
        executor: usize,
        /// The promise.
        promise: usize,
        /// The function that resolves it.
        resolve: JsValue,
        /// The function that rejects it.
        reject: JsValue,
    },
}

/// Ordered queue of pending microtasks.
pub struct JobQueue {
    jobs: VecDeque<Job>,
}

impl View for JobQueue {
    type V = Seq<Job>;

    closed spec fn view(&self) -> Seq<Job> {
        self.jobs@
    }
}

/// How many of `n` more jobs a queue of `len` accepts.
pub open spec fn room(len: nat, n: nat) -> nat {
    if len >= MAX_QUEUE_LEN {
        0
    } else if len + n <= MAX_QUEUE_LEN {
        n
    } else {
        (MAX_QUEUE_LEN - len) as nat
    }
}

/// The queue after it was offered `more`: what there is no room for is lost.
pub open spec fn accepted(queue: Seq<Job>, more: Seq<Job>) -> Seq<Job> {
    queue + more.take(room(queue.len(), more.len()) as int)
}

impl JobQueue {
    /// Creates an empty queue.
    pub fn new() -> (r: JobQueue)
        ensures
            r@ == Seq::<Job>::empty(),
    {
        JobQueue { jobs: VecDeque::new() }
    }

    /// Number of pending jobs.
    pub fn len(&self) -> (r: usize)
        ensures
            r == self@.len(),
    {
        self.jobs.len()
    }

    /// True when no jobs are pending.
    pub fn is_empty(&self) -> (r: bool)
        ensures
            r == (self@.len() == 0),
    {
        self.jobs.len() == 0
    }

    /// Enqueues a microtask. Returns `false` when the queue is full.
    pub fn enqueue(&mut self, job: Job) -> (r: bool)
        ensures
            r == (old(self)@.len() < MAX_QUEUE_LEN),
            final(self)@ == if r {
                old(self)@.push(job)
            } else {
                old(self)@
            },
    {
        if self.jobs.len() >= MAX_QUEUE_LEN {
            return false;
        }
        self.jobs.push_back(job);
        true
    }

    /// Clears all pending jobs without running them.
    pub fn clear(&mut self)
        ensures
            final(self)@ == Seq::<Job>::empty(),
    {
        self.jobs.clear();
    }

    /// Offers the pending follow-ups to the queue, which takes as many as it has
    /// room for.
    pub fn accept(&mut self, pending: &mut Vec<Job>)
        ensures
            final(self)@ == accepted(old(self)@, old(pending)@),
            final(pending)@ == Seq::<Job>::empty(),
    {
        let ghost start = self@;
        let ghost more = pending@;
        let mut i: usize = 0;
        proof {
            assert(start + more.take(0) =~= start);
        }
        while i < pending.len()
            invariant
                i <= pending@.len(),
                pending@ == more,
                self@ == start + more.take(room(start.len(), i as nat) as int),
            decreases pending@.len() - i,
        {
            let ghost before = self@;
            let ghost k = room(start.len(), i as nat) as int;
            let _ = self.enqueue(pending[i]);
            proof {
                if before.len() < MAX_QUEUE_LEN {
                    assert(k == i);
                    assert(start + more.take(i + 1) =~= before.push(more[i as int]));
                }
            }
            i = i + 1;
        }
        pending.clear();
    }

    /// Puts all follow-ups behind the queue, whatever its length.
    pub fn adopt(&mut self, pending: &mut Vec<Job>)
        ensures
            final(self)@ == old(self)@ + old(pending)@,
            final(pending)@ == Seq::<Job>::empty(),
    {
        let ghost start = self@;
        let ghost more = pending@;
        let mut i: usize = 0;
        proof {
            assert(start + more.take(0) =~= start);
        }
        while i < pending.len()
            invariant
                i <= pending@.len(),
                pending@ == more,
                self@ == start + more.take(i as int),
            decreases pending@.len() - i,
        {
            let ghost before = self@;
            self.jobs.push_back(pending[i]);
            proof {
                assert(start + more.take(i + 1) =~= before.push(more[i as int]));
            }
            i = i + 1;
        }
        proof {
            assert(more.take(more.len() as int) =~= more);
        }
        pending.clear();
    }

    /// The next job of a drain that has run `executed` jobs: follow-ups join the queue
    /// first, and past twice the queue's limit the drain ends.
    pub fn next_job(&mut self, pending: &mut Vec<Job>, executed: usize) -> (r: Option<Job>)
        ensures
            executed > 2 * MAX_QUEUE_LEN ==> r is None && final(self)@ == old(self)@ && final(pending)@ == old(pending)@,
            executed <= 2 * MAX_QUEUE_LEN ==> {
                let all = old(self)@ + old(pending)@;
                &&& final(pending)@ == Seq::<Job>::empty()
                &&& all.len() == 0 ==> r is None && final(self)@ == all
                &&& all.len() > 0 ==> r == Some(all[0]) && final(self)@ == all.subrange(
                    1,
                    all.len() as int,
                )
            },
    {
        if executed > 2 * MAX_QUEUE_LEN {
            return None;
        }
        self.adopt(pending);
        self.jobs.pop_front()
    }
}

/// Queues a follow-up microtask; `false` when there are too many.
pub fn enqueue_follow_up(pending: &mut Vec<Job>, job: Job) -> (r: bool)
    ensures
        r == (old(pending)@.len() < MAX_QUEUE_LEN),
        final(pending)@ == if r {
            old(pending)@.push(job)
        } else {
            old(pending)@
        },
{
    if pending.len() >= MAX_QUEUE_LEN {
        return false;
    }
    pending.push(job);
    true
}

/// What the embedder does next in a checkpoint.
#[derive(Clone, Copy, PartialEq, Eq, Structural, Debug)]
pub enum Action {
    /// Run a job.
    Run(Job),
    /// Resume one suspended async function.
    ResumeAwait,
    /// Stop: this many jobs and resumptions were run.
    Finish(usize),
}

/// What happened since the last action.
#[derive(Clone, Copy, PartialEq, Eq, Structural, Debug)]
pub enum Event {
    /// The checkpoint begins.
    Begin,
    /// A job ran to its end.
    JobDone,
    /// An async function was resumed.
    Resumed,
    /// There was none to resume; the embedder's deadline may have passed, and some may
    /// still be waiting.
    NothingToResume {
        /// Whether the deadline has passed.
        deadline_exceeded: bool,
        /// Whether async functions are waiting.
        awaiting: bool,
    },
}

/// A checkpoint in progress: host jobs, their follow-ups and async resumptions alternate
/// until none is left.
#[derive(Clone, Copy, PartialEq, Eq, Structural, Debug)]
pub struct Checkpoint {
    /// Jobs and resumptions so far.
    pub count: usize,
    /// Jobs of the drain in progress.
    pub drained: usize,
}

/// The action and the state of a drain with `queue` and `pending`.
pub open spec fn drain_step(c: Checkpoint, queue: Seq<Job>, pending: Seq<Job>) -> (
    Checkpoint,
    Action,
    Seq<Job>,
    Seq<Job>,
) {
    if c.drained > 2 * MAX_QUEUE_LEN {
        (c, Action::ResumeAwait, queue, pending)
    } else {
        let all = queue + pending;
        if all.len() == 0 {
            (c, Action::ResumeAwait, all, seq![])
        } else {
            (
                Checkpoint { count: (c.count + 1) as usize, drained: (c.drained + 1) as usize },
                Action::Run(all[0]),
                all.subrange(1, all.len() as int),
                seq![],
            )
        }
    }
}

/// What a checkpoint does on an event: the new state, the action, the queue and the
/// follow-ups that are left.
pub open spec fn checkpoint_step(
    c: Checkpoint,
    event: Event,
    queue: Seq<Job>,
    pending: Seq<Job>,
) -> (Checkpoint, Action, Seq<Job>, Seq<Job>) {
    match event {
        Event::JobDone => drain_step(c, queue, pending),
        Event::Resumed => (
            Checkpoint { count: (c.count + 1) as usize, ..c },
            Action::ResumeAwait,
            queue,
            pending,
        ),
        Event::Begin => drain_step(
            Checkpoint { drained: 0, ..c },
            accepted(queue, pending),
            seq![],
        ),
        Event::NothingToResume { deadline_exceeded, awaiting } => if deadline_exceeded || (
        queue.len() == 0 && pending.len() == 0 && !awaiting) {
            (c, Action::Finish(c.count), queue, pending)
        } else {
            drain_step(Checkpoint { drained: 0, ..c }, accepted(queue, pending), seq![])
        },
    }
}

impl Checkpoint {
    /// A checkpoint that has not begun.
    pub fn new() -> (r: Checkpoint)
        ensures
            r == (Checkpoint { count: 0, drained: 0 }),
    {
        Checkpoint { count: 0, drained: 0 }
    }

    /// Takes the next job of the drain, or turns to the async functions.
    fn drain(&mut self, queue: &mut JobQueue, pending: &mut Vec<Job>) -> (r: Action)
        requires
            old(self).count < usize::MAX,
        ensures
            (*final(self), r, final(queue)@, final(pending)@) == drain_step(
                *old(self),
                old(queue)@,
                old(pending)@,
            ),
    {
        match queue.next_job(pending, self.drained) {
            None => Action::ResumeAwait,
            Some(job) => {
                self.count = self.count + 1;
                self.drained = self.drained + 1;
                Action::Run(job)
            },
        }
    }

    /// Decides what comes next.
    pub fn step(&mut self, event: Event, queue: &mut JobQueue, pending: &mut Vec<Job>) -> (r:
        Action)
        requires
            old(self).count < usize::MAX,
        ensures
            (*final(self), r, final(queue)@, final(pending)@) == checkpoint_step(
                *old(self),
                event,
                old(queue)@,
                old(pending)@,
            ),
    {
        match event {
            Event::JobDone => self.drain(queue, pending),
            Event::Resumed => {
                self.count = self.count + 1;
                Action::ResumeAwait
            },
            Event::Begin => {
                queue.accept(pending);
                self.drained = 0;
                self.drain(queue, pending)
            },
            Event::NothingToResume { deadline_exceeded, awaiting } => {
                if deadline_exceeded || (queue.is_empty() && pending.len() == 0 && !awaiting) {
                    Action::Finish(self.count)
                } else {
                    queue.accept(pending);
                    self.drained = 0;
                    self.drain(queue, pending)
                }
            },
        }
    }
}

/// Jobs leave a drain in the order in which they came: the queue first, then its
/// follow-ups, and nothing is lost.
pub proof fn law_drain_order(c: Checkpoint, queue: Seq<Job>, pending: Seq<Job>)
    requires
        c.drained <= 2 * MAX_QUEUE_LEN,
        queue.len() + pending.len() > 0,
    ensures
        drain_step(c, queue, pending).1 matches Action::Run(job) && seq![job] + drain_step(
            c,
            queue,
            pending,
        ).2 == queue + pending,
{
    let all = queue + pending;
    assert(seq![all[0]] + all.subrange(1, all.len() as int) =~= all);
}

/// Offering follow-ups never makes a queue longer than its limit, unless it was so
/// before, and keeps what was queued in front.
pub proof fn law_accepted_bound(queue: Seq<Job>, more: Seq<Job>)
    ensures
        queue.is_prefix_of(accepted(queue, more)),
        accepted(queue, more).len() <= MAX_QUEUE_LEN || accepted(queue, more) == queue,
{
    if queue.len() >= MAX_QUEUE_LEN {
        assert(accepted(queue, more) =~= queue);
    }
}

/// A checkpoint only finishes when the deadline has passed or nothing is left: no job
/// is queued, no follow-up is pending and no async function waits.
pub proof fn law_finish(c: Checkpoint, event: Event, queue: Seq<Job>, pending: Seq<Job>)
    requires
        checkpoint_step(c, event, queue, pending).1 is Finish,
    ensures
        event matches Event::NothingToResume { deadline_exceeded, awaiting } && (deadline_exceeded
            || (queue.len() == 0 && pending.len() == 0 && !awaiting)),
{
}

/// A queue with room takes all follow-ups behind what it holds, and one without takes the
/// first of them.
pub proof fn law_accepted_in_order(queue: Seq<Job>, more: Seq<Job>)
    ensures
        queue.len() + more.len() <= MAX_QUEUE_LEN ==> accepted(queue, more) == queue + more,
        accepted(queue, more).is_prefix_of(queue + more),
        queue.len() <= MAX_QUEUE_LEN && queue.len() + more.len() > MAX_QUEUE_LEN ==> accepted(
            queue,
            more,
        ).len() == MAX_QUEUE_LEN,
{
    if queue.len() + more.len() <= MAX_QUEUE_LEN && queue.len() < MAX_QUEUE_LEN {
        assert(more.take(more.len() as int) =~= more);
    }
    if queue.len() >= MAX_QUEUE_LEN {
        assert(accepted(queue, more) =~= queue);
        if queue.len() + more.len() <= MAX_QUEUE_LEN {
            assert(queue + more =~= queue);
        }
    }
}

/// A checkpoint runs every job, each once and in the order in which they came: when it
/// begins and whenever a job is done it runs the first job that is left, and turns to the
/// async functions exactly where none is left.
pub proof fn law_checkpoint_order(c: Checkpoint, event: Event, queue: Seq<Job>, pending: Seq<Job>)
    requires
        queue.len() + pending.len() <= MAX_QUEUE_LEN,
        c.count < usize::MAX,
        event == Event::Begin || (event == Event::JobDone && c.drained <= 2 * MAX_QUEUE_LEN),
    ensures
        ({
            let (c1, action, left, more) = checkpoint_step(c, event, queue, pending);
            let all = queue + pending;
            &&& more.len() == 0
            &&& all.len() == 0 ==> action == Action::ResumeAwait && left.len() == 0 && c1.count
                == c.count
            &&& all.len() > 0 ==> action == Action::Run(all[0]) && left == all.drop_first()
                && c1.count == c.count + 1
        }),
{
    law_accepted_in_order(queue, pending);
    let all = queue + pending;
    assert(all + Seq::<Job>::empty() =~= all);
    if all.len() > 0 {
        assert(all.subrange(1, all.len() as int) =~= all.drop_first());
    }
}

/// A checkpoint in which async functions were resumed counts each and goes on resuming;
/// where none is left to resume it runs the jobs that have come, until all is done.
pub proof fn law_checkpoint_resumes(
    c: Checkpoint,
    awaiting: bool,
    queue: Seq<Job>,
    pending: Seq<Job>,
)
    requires
        queue.len() + pending.len() <= MAX_QUEUE_LEN,
        c.count < usize::MAX,
    ensures
        checkpoint_step(c, Event::Resumed, queue, pending) == (
            Checkpoint { count: (c.count + 1) as usize, ..c },
            Action::ResumeAwait,
            queue,
            pending,
        ),
        ({
            let event = Event::NothingToResume { deadline_exceeded: false, awaiting };
            let r = checkpoint_step(c, event, queue, pending);
            let all = queue + pending;
            &&& all.len() == 0 && !awaiting ==> r.1 == Action::Finish(c.count)
            &&& all.len() > 0 ==> r.1 == Action::Run(all[0]) && r.2 == all.drop_first()
        }),
{
    law_accepted_in_order(queue, pending);
    let all = queue + pending;
    assert(all + Seq::<Job>::empty() =~= all);
    if all.len() > 0 {
        assert(all.subrange(1, all.len() as int) =~= all.drop_first());
    }
}

} // verus!
