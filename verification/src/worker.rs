//! The worker pool: a bounded queue of tool-invocation tasks with one
//! single-use reply ticket per submission. Submissions are refused once the
//! pool is shut down and wait when the queue is at capacity (backpressure);
//! workers take tasks in arrival order, and every result reaches exactly the
//! submission it answers. The embedding program runs the worker loops as
//! concurrent tasks; this state machine is what those loops step.

use vstd::prelude::*;
use crate::context::ExecutionContext;
use crate::errors::AgenticFlowError;
use crate::json::JsonValue;
use crate::planner::PlanStep;
use crate::tool_registry::{ToolDispatch, ToolRegistry};

verus! {

/// One queued invocation: a plan step paired with its reply ticket.
#[derive(Debug)]
pub struct WorkerTask {
    pub ticket: u64,
    pub step: PlanStep,
}

/// What a submission attempt did: enqueued under a fresh ticket, or handed
/// back because the queue is at capacity or the pool is shut down.
#[derive(Debug)]
pub enum SubmitOutcome {
    Enqueued(u64),
    Full(PlanStep),
    Closed(PlanStep),
}

/// How waiting on a submitted task stands.
#[derive(Debug)]
pub enum CollectOutcome {
    Ready(Result<JsonValue, AgenticFlowError>),
    Pending,
    Gone,
}

/// The archive `ar` holds the pair `p`: the answer `p.1` was delivered under
/// ticket `p.0` at some point of the pool's history.
pub open spec fn pair_archived(
    ar: Seq<(u64, Result<JsonValue, AgenticFlowError>)>,
    p: (u64, Result<JsonValue, AgenticFlowError>),
) -> bool {
    exists|j: int| 0 <= j < ar.len() && ar[j] == p
}

/// The pool of plan-step invocations: an `Active` pool accepts submissions up
/// to its queue capacity; `shutdown` closes the submission side, after which
/// workers drain what is queued and every new submission is refused.
pub struct AgenticTaskPool {
    queue: Vec<WorkerTask>,
    capacity: usize,
    worker_count: usize,
    open: bool,
    next_ticket: u64,
    taken: Vec<u64>,
    delivered: Vec<(u64, Result<JsonValue, AgenticFlowError>)>,
    lost: Vec<u64>,
    archive: Ghost<Seq<(u64, Result<JsonValue, AgenticFlowError>)>>,
}

impl AgenticTaskPool {
    /// The queued tasks, in arrival order.
    pub closed spec fn queued(&self) -> Seq<WorkerTask> {
        self.queue@
    }

    pub closed spec fn capacity_spec(&self) -> usize {
        self.capacity
    }

    pub closed spec fn worker_count_spec(&self) -> usize {
        self.worker_count
    }

    /// Whether the submission side is still open.
    pub closed spec fn is_open(&self) -> bool {
        self.open
    }

    /// How many tickets were ever minted.
    pub closed spec fn minted(&self) -> u64 {
        self.next_ticket
    }

    /// The tickets taken by workers and not yet answered.
    pub closed spec fn taken_seq(&self) -> Seq<u64> {
        self.taken@
    }

    /// The results delivered and not yet collected.
    pub closed spec fn delivered_seq(&self) -> Seq<(u64, Result<JsonValue, AgenticFlowError>)> {
        self.delivered@
    }

    /// The tickets whose worker dropped the reply without answering.
    pub closed spec fn lost_seq(&self) -> Seq<u64> {
        self.lost@
    }

    /// Every answer ever delivered, with its ticket, in delivery order; the
    /// archive only grows, so it survives collection and is the run-level
    /// record that results are correlated against.
    pub closed spec fn archive(&self) -> Seq<(u64, Result<JsonValue, AgenticFlowError>)> {
        self.archive@
    }

    /// Whether a ticket is queued.
    pub open spec fn queued_has(&self, t: u64) -> bool {
        exists|i: int| 0 <= i < self.queued().len() && (#[trigger] self.queued()[i]).ticket == t
    }

    /// Whether a result is delivered on a ticket.
    pub open spec fn delivered_has(&self, t: u64) -> bool {
        exists|i: int|
            0 <= i < self.delivered_seq().len() && (#[trigger] self.delivered_seq()[i]).0 == t
    }

    /// Well-formed: the queue never exceeds its capacity, every ticket is
    /// below the mint counter, and no ticket sits in two places at once.
    pub closed spec fn wf(&self) -> bool {
        let q = self.queue@;
        let k = self.taken@;
        let d = self.delivered@;
        let l = self.lost@;
        let ar = self.archive@;
        &&& (forall|i: int| 0 <= i < ar.len() ==> (#[trigger] ar[i]).0 < self.next_ticket)
        &&& (forall|i: int, j: int| 0 <= i < j < ar.len() ==> (#[trigger] ar[i]).0 != (#[trigger] ar[j]).0)
        &&& (forall|i: int, j: int|
            0 <= i < q.len() && 0 <= j < ar.len() ==> (#[trigger] q[i]).ticket != (#[trigger] ar[j]).0)
        &&& (forall|i: int, j: int|
            0 <= i < k.len() && 0 <= j < ar.len() ==> (#[trigger] k[i]) != (#[trigger] ar[j]).0)
        &&& (forall|i: int| 0 <= i < d.len() ==> #[trigger] pair_archived(ar, d[i]))
        &&& q.len() <= self.capacity
        &&& self.capacity >= 1
        &&& (forall|i: int| 0 <= i < q.len() ==> (#[trigger] q[i]).ticket < self.next_ticket)
        &&& (forall|i: int| 0 <= i < k.len() ==> (#[trigger] k[i]) < self.next_ticket)
        &&& (forall|i: int| 0 <= i < d.len() ==> (#[trigger] d[i]).0 < self.next_ticket)
        &&& (forall|i: int| 0 <= i < l.len() ==> (#[trigger] l[i]) < self.next_ticket)
        &&& (forall|i: int, j: int|
            0 <= i < j < q.len() ==> (#[trigger] q[i]).ticket != (#[trigger] q[j]).ticket)
        &&& (forall|i: int, j: int| 0 <= i < j < k.len() ==> (#[trigger] k[i]) != (#[trigger] k[j]))
        &&& (forall|i: int, j: int| 0 <= i < j < d.len() ==> (#[trigger] d[i]).0 != (#[trigger] d[j]).0)
        &&& (forall|i: int, j: int| 0 <= i < j < l.len() ==> (#[trigger] l[i]) != (#[trigger] l[j]))
        &&& (forall|i: int, j: int|
            0 <= i < q.len() && 0 <= j < k.len() ==> (#[trigger] q[i]).ticket != (#[trigger] k[j]))
        &&& (forall|i: int, j: int|
            0 <= i < q.len() && 0 <= j < d.len() ==> (#[trigger] q[i]).ticket != (#[trigger] d[j]).0)
        &&& (forall|i: int, j: int|
            0 <= i < q.len() && 0 <= j < l.len() ==> (#[trigger] q[i]).ticket != (#[trigger] l[j]))
        &&& (forall|i: int, j: int|
            0 <= i < k.len() && 0 <= j < d.len() ==> (#[trigger] k[i]) != (#[trigger] d[j]).0)
        &&& (forall|i: int, j: int|
            0 <= i < k.len() && 0 <= j < l.len() ==> (#[trigger] k[i]) != (#[trigger] l[j]))
        &&& (forall|i: int, j: int|
            0 <= i < d.len() && 0 <= j < l.len() ==> (#[trigger] d[i]).0 != (#[trigger] l[j]))
    }

    /// A fresh pool with the default queue capacity.
    pub fn new(worker_count: usize) -> (r: Self)
        ensures
            r.wf(),
            r.is_open(),
            r.worker_count_spec() == worker_count,
            r.capacity_spec() == 100,
            r.queued() == Seq::<WorkerTask>::empty(),
            r.minted() == 0,
            r.taken_seq() == Seq::<u64>::empty(),
            r.delivered_seq() == Seq::<(u64, Result<JsonValue, AgenticFlowError>)>::empty(),
            r.lost_seq() == Seq::<u64>::empty(),
            r.archive() == Seq::<(u64, Result<JsonValue, AgenticFlowError>)>::empty(),
    {
        Self::new_with_capacity(worker_count, 100)
    }

    /// A fresh pool; the queue holds at least one task.
    pub fn new_with_capacity(worker_count: usize, capacity: usize) -> (r: Self)
        requires
            capacity >= 1,
        ensures
            r.wf(),
            r.is_open(),
            r.worker_count_spec() == worker_count,
            r.capacity_spec() == capacity,
            r.queued() == Seq::<WorkerTask>::empty(),
            r.minted() == 0,
            r.taken_seq() == Seq::<u64>::empty(),
            r.delivered_seq() == Seq::<(u64, Result<JsonValue, AgenticFlowError>)>::empty(),
            r.lost_seq() == Seq::<u64>::empty(),
            r.archive() == Seq::<(u64, Result<JsonValue, AgenticFlowError>)>::empty(),
    {
        AgenticTaskPool {
            queue: Vec::new(),
            capacity,
            worker_count,
            open: true,
            next_ticket: 0,
            taken: Vec::new(),
            delivered: Vec::new(),
            lost: Vec::new(),
            archive: Ghost(Seq::empty()),
        }
    }

    pub fn worker_count(&self) -> (r: usize)
        ensures
            r == self.worker_count_spec(),
    {
        self.worker_count
    }

    pub fn capacity(&self) -> (r: usize)
        ensures
            r == self.capacity_spec(),
    {
        self.capacity
    }

    /// Whether the pool still accepts submissions.
    pub fn is_active(&self) -> (r: bool)
        ensures
            r == self.is_open(),
    {
        self.open
    }

    /// Closes the submission side; workers drain what is queued, and every
    /// later submission is refused. Shutting down twice is harmless.
    pub fn shutdown(&mut self)
        requires
            old(self).wf(),
        ensures
            final(self).wf(),
            !final(self).is_open(),
            final(self).queued() == old(self).queued(),
            final(self).minted() == old(self).minted(),
            final(self).taken_seq() == old(self).taken_seq(),
            final(self).delivered_seq() == old(self).delivered_seq(),
            final(self).lost_seq() == old(self).lost_seq(),
            final(self).archive() == old(self).archive(),
            final(self).capacity_spec() == old(self).capacity_spec(),
            final(self).worker_count_spec() == old(self).worker_count_spec(),
    {
        self.open = false;
    }

    /// Offers one step to the pool: refused once the pool is shut down, made
    /// to wait while the queue is at capacity (backpressure), and otherwise
    /// enqueued under a fresh single-use reply ticket.
    pub fn submit(&mut self, step: PlanStep) -> (r: SubmitOutcome)
        requires
            old(self).wf(),
            old(self).minted() < u64::MAX,
        ensures
            final(self).wf(),
            final(self).is_open() == old(self).is_open(),
            final(self).capacity_spec() == old(self).capacity_spec(),
            final(self).worker_count_spec() == old(self).worker_count_spec(),
            final(self).taken_seq() == old(self).taken_seq(),
            final(self).delivered_seq() == old(self).delivered_seq(),
            final(self).lost_seq() == old(self).lost_seq(),
            final(self).archive() == old(self).archive(),
            !old(self).is_open() ==> (r matches SubmitOutcome::Closed(s) && s == step) && *final(self) == *old(self),
            old(self).is_open() && old(self).queued().len() == old(self).capacity_spec() ==> (
            r matches SubmitOutcome::Full(s) && s == step) && *final(self) == *old(self),
            old(self).is_open() && old(self).queued().len() < old(self).capacity_spec() ==> (
            r matches SubmitOutcome::Enqueued(t) && t == old(self).minted() && final(self).minted()
                == old(self).minted() + 1 && final(self).queued() == old(self).queued().push(
                WorkerTask { ticket: t, step },
            )),
    {
        if !self.open {
            return SubmitOutcome::Closed(step);
        }
        if self.queue.len() >= self.capacity {
            return SubmitOutcome::Full(step);
        }
        let t = self.next_ticket;
        self.next_ticket = t + 1;
        self.queue.push(WorkerTask { ticket: t, step });
        SubmitOutcome::Enqueued(t)
    }

    /// A worker takes the oldest queued task; its ticket is then outstanding
    /// until the worker answers or is lost.
    pub fn take_task(&mut self) -> (r: Option<WorkerTask>)
        requires
            old(self).wf(),
        ensures
            final(self).wf(),
            final(self).is_open() == old(self).is_open(),
            final(self).capacity_spec() == old(self).capacity_spec(),
            final(self).worker_count_spec() == old(self).worker_count_spec(),
            final(self).minted() == old(self).minted(),
            final(self).delivered_seq() == old(self).delivered_seq(),
            final(self).lost_seq() == old(self).lost_seq(),
            final(self).archive() == old(self).archive(),
            match r {
                Some(task) => old(self).queued().len() > 0 && task == old(self).queued()[0]
                    && final(self).queued() == old(self).queued().skip(1) && final(self).taken_seq() == old(self).taken_seq().push(task.ticket),
                None => old(self).queued().len() == 0 && *final(self) == *old(self),
            },
    {
        if self.queue.len() == 0 {
            return None;
        }
        let ghost q0 = self.queue@;
        let ghost k0 = self.taken@;
        let task = self.queue.remove(0);
        self.taken.push(task.ticket);
        proof {
            assert(self.queue@ =~= q0.skip(1));
            assert forall|a: int|
                0 <= a < self.taken@.len() implies ((a < k0.len() ==> (#[trigger] self.taken@[a])
                    == k0[a]) && (a == k0.len() ==> self.taken@[a] == q0[0].ticket)) by {
                assert(self.taken@ == k0.push(q0[0].ticket));
            }
        }
        Some(task)
    }

    /// A worker answers the ticket it took; the result is then ready for the
    /// submitter. Answering a ticket that is not outstanding does nothing.
    pub fn complete(&mut self, ticket: u64, result: Result<JsonValue, AgenticFlowError>) -> (r:
        bool)
        requires
            old(self).wf(),
        ensures
            final(self).wf(),
            final(self).is_open() == old(self).is_open(),
            final(self).capacity_spec() == old(self).capacity_spec(),
            final(self).worker_count_spec() == old(self).worker_count_spec(),
            final(self).minted() == old(self).minted(),
            final(self).queued() == old(self).queued(),
            final(self).lost_seq() == old(self).lost_seq(),
            r == old(self).taken_seq().contains(ticket),
            r ==> final(self).archive() == old(self).archive().push((ticket, result)),
            !r ==> final(self).archive() == old(self).archive(),
            r ==> final(self).delivered_seq() == old(self).delivered_seq().push((ticket, result))
                && exists|i: int|
                0 <= i < old(self).taken_seq().len() && old(self).taken_seq()[i] == ticket && final(self).taken_seq() == old(self).taken_seq().remove(i),
            !r ==> *final(self) == *old(self),
    {
        match self.find_taken(ticket) {
            Some(idx) => {
                let ghost k0 = self.taken@;
                let ghost d0 = self.delivered@;
                let ghost ar0 = self.archive@;
                self.taken.remove(idx);
                self.delivered.push((ticket, result));
                proof {
                    self.archive = Ghost(ar0.push((ticket, result)));
                    assert(k0.contains(ticket));
                    assert(k0[idx as int] == ticket);
                    assert(self.taken@ == k0.remove(idx as int));
                    assert forall|a: int|
                        0 <= a < self.archive@.len() implies ((a < ar0.len() ==> (
                        #[trigger] self.archive@[a]) == ar0[a]) && (a == ar0.len()
                            ==> self.archive@[a] == (ticket, result))) by {
                        assert(self.archive@ == ar0.push((ticket, result)));
                    }
                    assert forall|i: int|
                        0 <= i < self.delivered@.len() implies #[trigger] pair_archived(
                        self.archive@,
                        self.delivered@[i],
                    ) by {
                        if i < d0.len() {
                            assert(self.delivered@[i] == d0[i]);
                            assert(pair_archived(ar0, d0[i]));
                            let j = choose|j: int| 0 <= j < ar0.len() && ar0[j] == d0[i];
                            assert(self.archive@[j] == self.delivered@[i]);
                        } else {
                            assert(self.archive@[ar0.len() as int] == self.delivered@[i]);
                        }
                    }
                    assert forall|a: int|
                        0 <= a < self.taken@.len() implies ((a < idx ==> (
                        #[trigger] self.taken@[a]) == k0[a]) && (a >= idx ==> self.taken@[a]
                            == k0[a + 1])) by {
                        assert(self.taken@ == k0.remove(idx as int));
                    }
                    assert forall|b: int|
                        0 <= b < self.delivered@.len() implies ((b < d0.len() ==> (
                        #[trigger] self.delivered@[b]) == d0[b]) && (b == d0.len()
                            ==> self.delivered@[b] == (ticket, result))) by {
                        assert(self.delivered@ == d0.push((ticket, result)));
                    }
                }
                true
            },
            None => false,
        }
    }

    /// A worker was lost with the ticket it took: the reply will never come,
    /// and the submitter must observe a failure, not wait forever.
    pub fn abandon(&mut self, ticket: u64) -> (r: bool)
        requires
            old(self).wf(),
        ensures
            final(self).wf(),
            final(self).is_open() == old(self).is_open(),
            final(self).capacity_spec() == old(self).capacity_spec(),
            final(self).worker_count_spec() == old(self).worker_count_spec(),
            final(self).minted() == old(self).minted(),
            final(self).queued() == old(self).queued(),
            final(self).delivered_seq() == old(self).delivered_seq(),
            final(self).archive() == old(self).archive(),
            r == old(self).taken_seq().contains(ticket),
            r ==> final(self).lost_seq() == old(self).lost_seq().push(ticket),
            !r ==> *final(self) == *old(self),
    {
        match self.find_taken(ticket) {
            Some(idx) => {
                let ghost k0 = self.taken@;
                let ghost l0 = self.lost@;
                self.taken.remove(idx);
                self.lost.push(ticket);
                proof {
                    assert(k0.contains(ticket));
                    assert(k0[idx as int] == ticket);
                    assert(self.taken@ == k0.remove(idx as int));
                    assert forall|a: int|
                        0 <= a < self.taken@.len() implies ((a < idx ==> (
                        #[trigger] self.taken@[a]) == k0[a]) && (a >= idx ==> self.taken@[a]
                            == k0[a + 1])) by {
                        assert(self.taken@ == k0.remove(idx as int));
                    }
                    assert forall|b: int|
                        0 <= b < self.lost@.len() implies ((b < l0.len() ==> (
                        #[trigger] self.lost@[b]) == l0[b]) && (b == l0.len() ==> self.lost@[b]
                            == ticket)) by {
                        assert(self.lost@ == l0.push(ticket));
                    }
                }
                true
            },
            None => false,
        }
    }

    /// A delivered result was collected, exactly once.
    pub open spec fn result_collected(
        pre: AgenticTaskPool,
        post: AgenticTaskPool,
        ticket: u64,
        result: Result<JsonValue, AgenticFlowError>,
    ) -> bool {
        exists|i: int|
            0 <= i < pre.delivered_seq().len() && pre.delivered_seq()[i] == (ticket, result)
                && post.delivered_seq() == pre.delivered_seq().remove(i)
    }

    /// Looks after a submission's ticket: a delivered result is handed out
    /// (once); a ticket still queued or taken is worth waiting for; any other
    /// ticket is gone — its worker was lost, or it was already collected.
    pub fn try_collect(&mut self, ticket: u64) -> (r: CollectOutcome)
        requires
            old(self).wf(),
        ensures
            final(self).wf(),
            final(self).is_open() == old(self).is_open(),
            final(self).capacity_spec() == old(self).capacity_spec(),
            final(self).worker_count_spec() == old(self).worker_count_spec(),
            final(self).minted() == old(self).minted(),
            final(self).queued() == old(self).queued(),
            final(self).taken_seq() == old(self).taken_seq(),
            final(self).lost_seq() == old(self).lost_seq(),
            final(self).archive() == old(self).archive(),
            r is Ready <==> old(self).delivered_has(ticket),
            r matches CollectOutcome::Ready(result) ==> Self::result_collected(
                *old(self),
                *final(self),
                ticket,
                result,
            ),
            !(r is Ready) ==> *final(self) == *old(self),
            r is Pending <==> !old(self).delivered_has(ticket) && (old(self).queued_has(ticket)
                || old(self).taken_seq().contains(ticket)),
    {
        match self.find_delivered(ticket) {
            Some(idx) => {
                let ghost d0 = self.delivered@;
                let entry = self.delivered.remove(idx);
                proof {
                    assert(old(self).delivered_has(ticket));
                    assert(d0[idx as int] == (ticket, entry.1));
                    assert(self.delivered@ =~= d0.remove(idx as int));
                    assert forall|i: int|
                        0 <= i < self.delivered@.len() implies #[trigger] pair_archived(
                        self.archive@,
                        self.delivered@[i],
                    ) by {
                        if i < idx {
                            assert(self.delivered@[i] == d0[i]);
                            assert(pair_archived(self.archive@, d0[i]));
                        } else {
                            assert(self.delivered@[i] == d0[i + 1]);
                            assert(pair_archived(self.archive@, d0[i + 1]));
                        }
                    }
                    assert forall|a: int, b: int|
                        0 <= a < self.delivered@.len() && 0 <= b < self.lost@.len() implies (
                        #[trigger] self.delivered@[a]).0 != (#[trigger] self.lost@[b]) by {
                        if a < idx {
                            assert(self.delivered@[a] == d0[a]);
                        } else {
                            assert(self.delivered@[a] == d0[a + 1]);
                        }
                    }
                    assert forall|a: int, b: int|
                        0 <= a < self.delivered@.len() && 0 <= b < self.taken@.len() implies (
                        #[trigger] self.delivered@[a]).0 != (#[trigger] self.taken@[b]) by {
                        if a < idx {
                            assert(self.delivered@[a] == d0[a]);
                        } else {
                            assert(self.delivered@[a] == d0[a + 1]);
                        }
                    }
                    assert forall|a: int, b: int|
                        0 <= a < self.queue@.len() && 0 <= b < self.delivered@.len() implies (
                        #[trigger] self.queue@[a]).ticket != (#[trigger] self.delivered@[b]).0 by {
                        if b < idx {
                            assert(self.delivered@[b] == d0[b]);
                        } else {
                            assert(self.delivered@[b] == d0[b + 1]);
                        }
                    }
                    assert forall|a: int, b: int|
                        0 <= a < b < self.delivered@.len() implies (#[trigger] self.delivered@[a]).0
                        != (#[trigger] self.delivered@[b]).0 by {
                        if a < idx {
                            assert(self.delivered@[a] == d0[a]);
                        } else {
                            assert(self.delivered@[a] == d0[a + 1]);
                        }
                        if b < idx {
                            assert(self.delivered@[b] == d0[b]);
                        } else {
                            assert(self.delivered@[b] == d0[b + 1]);
                        }
                    }
                }
                CollectOutcome::Ready(entry.1)
            },
            None => {
                if self.queue_carries(ticket) || self.taken_carries(ticket) {
                    CollectOutcome::Pending
                } else {
                    CollectOutcome::Gone
                }
            },
        }
    }

    fn find_delivered(&self, ticket: u64) -> (r: Option<usize>)
        ensures
            match r {
                Some(i) => i < self.delivered_seq().len() && self.delivered_seq()[i as int].0
                    == ticket,
                None => !self.delivered_has(ticket),
            },
    {
        let mut idx: usize = 0;
        while idx < self.delivered.len()
            invariant
                idx <= self.delivered@.len(),
                forall|i: int| 0 <= i < idx ==> (#[trigger] self.delivered@[i]).0 != ticket,
            decreases self.delivered@.len() - idx,
        {
            if self.delivered[idx].0 == ticket {
                return Some(idx);
            }
            idx += 1;
        }
        None
    }

    fn queue_carries(&self, ticket: u64) -> (r: bool)
        ensures
            r == self.queued_has(ticket),
    {
        let mut idx: usize = 0;
        while idx < self.queue.len()
            invariant
                idx <= self.queue@.len(),
                forall|i: int| 0 <= i < idx ==> (#[trigger] self.queue@[i]).ticket != ticket,
            decreases self.queue@.len() - idx,
        {
            if self.queue[idx].ticket == ticket {
                return true;
            }
            idx += 1;
        }
        false
    }

    fn find_taken(&self, ticket: u64) -> (r: Option<usize>)
        ensures
            match r {
                Some(i) => i < self.taken_seq().len() && self.taken_seq()[i as int] == ticket
                    && self.taken_seq().contains(ticket),
                None => !self.taken_seq().contains(ticket),
            },
    {
        let mut idx: usize = 0;
        while idx < self.taken.len()
            invariant
                idx <= self.taken@.len(),
                forall|i: int| 0 <= i < idx ==> (#[trigger] self.taken@[i]) != ticket,
            decreases self.taken@.len() - idx,
        {
            if self.taken[idx] == ticket {
                return Some(idx);
            }
            idx += 1;
        }
        None
    }

    /// One worker turn: takes the oldest queued task, runs it — a local
    /// handler in process; a step served remotely, or unknown, completes with
    /// its failure — and answers the task's ticket.
    fn worker_cycle(&mut self, registry: &ToolRegistry)
        requires
            old(self).wf(),
            registry.wf(),
            old(self).queued().len() > 0,
        ensures
            final(self).wf(),
            final(self).is_open() == old(self).is_open(),
            final(self).capacity_spec() == old(self).capacity_spec(),
            final(self).worker_count_spec() == old(self).worker_count_spec(),
            final(self).minted() == old(self).minted(),
            final(self).queued() == old(self).queued().skip(1),
            final(self).taken_seq() == old(self).taken_seq(),
            final(self).lost_seq() == old(self).lost_seq(),
            exists|res: Result<JsonValue, AgenticFlowError>|
                #![auto]
                final(self).delivered_seq() == old(self).delivered_seq().push(
                    (old(self).queued()[0].ticket, res),
                ) && final(self).archive() == old(self).archive().push(
                    (old(self).queued()[0].ticket, res),
                ) && (res is Ok ==> registry.local_map().contains_key(
                    old(self).queued()[0].step.tool_name@,
                )),
    {
        let ghost k_before = self.taken@;
        let task = match self.take_task() {
            Some(task) => task,
            None => {
                proof {
                    assert(false);
                }
                return ;
            },
        };
        let ticket = task.ticket;
        let mut context = ExecutionContext::new();
        let result = match registry.execute_tool(
            task.step.tool_name.as_str(),
            task.step.params,
            &mut context,
        ) {
            ToolDispatch::Local(res) => res,
            ToolDispatch::Remote { tool_name, .. } => {
                let mut msg = "no live connection to run remotely served tool '".to_owned();
                msg.append(tool_name.as_str());
                msg.append("'");
                Err(AgenticFlowError::ToolError(msg))
            },
            ToolDispatch::NotFound(e) => Err(e),
        };
        let ghost gresult = result;
        let delivered = self.complete(ticket, result);
        proof {
            assert(k_before.push(ticket)[k_before.len() as int] == ticket);
            assert(k_before.push(ticket).contains(ticket));
            assert(delivered);
            let k1 = k_before.push(ticket);
            let i = choose|i: int|
                0 <= i < k1.len() && k1[i] == ticket && self.taken@ == k1.remove(i);
            assert forall|j: int| 0 <= j < k_before.len() implies k_before[j] != ticket by {
                assert(old(self).queued()[0].ticket == ticket);
            }
            assert(i == k_before.len());
            assert(self.taken@ =~= k_before);
            assert(final(self).delivered_seq() == old(self).delivered_seq().push(
                (old(self).queued()[0].ticket, gresult),
            ));
            assert(final(self).archive() == old(self).archive().push(
                (old(self).queued()[0].ticket, gresult),
            ));
        }
    }

    /// Runs a list of plan steps through the pool and collects one result per
    /// step, in submission order — never completion order. Submission waits
    /// when the queue is at capacity; the whole run is refused once the pool
    /// is shut down; and the first failed step's error is the run's error,
    /// without discarding its siblings' work.
    pub fn execute_parallel(&mut self, registry: &ToolRegistry, steps: Vec<PlanStep>) -> (r:
        Result<Vec<JsonValue>, AgenticFlowError>)
        requires
            old(self).wf(),
            registry.wf(),
            old(self).minted() + steps@.len() <= u64::MAX,
        ensures
            final(self).wf(),
            final(self).is_open() == old(self).is_open(),
            final(self).capacity_spec() == old(self).capacity_spec(),
            final(self).worker_count_spec() == old(self).worker_count_spec(),
            !old(self).is_open() ==> r is Err && r->Err_0 is ExecutionError
                && r->Err_0->ExecutionError_0@ == "Task pool is shut down"@,
            old(self).is_open() && steps@.len() == 0 ==> r is Ok,
            old(self).is_open() ==> (r matches Ok(results) ==> results@.len() == steps@.len()
                && (forall|i: int|
                0 <= i < steps@.len() ==> registry.local_map().contains_key(
                    #[trigger] steps@[i].tool_name@,
                )) && slots_collected(
                final(self).archive(),
                old(self).minted(),
                results@,
                steps@.len() as int,
            )),
            old(self).is_open() ==> (r matches Err(e) ==> run_failed(
                final(self).archive(),
                old(self).minted(),
                e,
                steps@.len() as int,
            )),
    {
        if !self.is_active() {
            return Err(AgenticFlowError::ExecutionError("Task pool is shut down".to_owned()));
        }
        let ghost orig_steps = steps@;
        let ghost names = Seq::new(steps@.len(), |i: int| steps@[i].tool_name@);
        let total: usize = steps.len();
        let mut rest = steps;
        let mut tickets: Vec<u64> = Vec::new();
        let mut done: usize = 0;
        while done < total
            invariant
                self.wf(),
                registry.wf(),
                self.is_open(),
                old(self).is_open(),
                self.capacity_spec() == old(self).capacity_spec(),
                self.worker_count_spec() == old(self).worker_count_spec(),
                done <= total,
                done + rest@.len() == total,
                total == orig_steps.len(),
                names.len() == total,
                forall|i: int| 0 <= i < total ==> names[i] == orig_steps[i].tool_name@,
                rest@ =~= orig_steps.skip(done as int),
                tickets@.len() == done,
                self.minted() + rest@.len() <= u64::MAX,
                forall|i: int, j: int|
                    0 <= i < j < tickets@.len() ==> (#[trigger] tickets@[i]) != (
                    #[trigger] tickets@[j]),
                forall|i: int|
                    0 <= i < tickets@.len() ==> self.queued_has(#[trigger] tickets@[i])
                        || self.delivered_has(tickets@[i]),
                forall|i: int| 0 <= i < tickets@.len() ==> (#[trigger] tickets@[i]) < self.minted(),
                self.minted() == old(self).minted() + done,
                forall|i: int|
                    0 <= i < done ==> (#[trigger] tickets@[i]) == (old(self).minted() + i) as u64,
                forall|i: int|
                    0 <= i < done ==> ticket_tracks(*self, *registry, #[trigger] tickets@[i], names[i]),
            decreases total - done,
        {
            proof {
                assert(rest@[0] == orig_steps[done as int]);
            }
            let step = rest.remove(0);
            let ghost gstep = step;
            let ghost pool_before = *self;
            let ghost mut pool_after_wait = *self;
            let outcome = self.submit(step);
            let ticket = match outcome {
                SubmitOutcome::Enqueued(t) => t,
                SubmitOutcome::Full(s) => {
                    self.worker_cycle(registry);
                    proof {
                        lemma_ticket_tracking_after_cycle(pool_before, *self, tickets@);
                        assert forall|i: int|
                            0 <= i < done implies ticket_tracks(
                            *self,
                            *registry,
                            #[trigger] tickets@[i],
                            names[i],
                        ) by {
                            lemma_tracks_after_cycle(
                                pool_before,
                                *self,
                                *registry,
                                tickets@[i],
                                names[i],
                            );
                        }
                        pool_after_wait = *self;
                    }
                    match self.submit(s) {
                        SubmitOutcome::Enqueued(t) => t,
                        _ => {
                            proof {
                                assert(false);
                            }
                            return Err(
                                AgenticFlowError::ExecutionError("Task pool is shut down".to_owned()),
                            );
                        },
                    }
                },
                SubmitOutcome::Closed(_) => {
                    proof {
                        assert(false);
                    }
                    return Err(
                        AgenticFlowError::ExecutionError("Task pool is shut down".to_owned()),
                    );
                },
            };
            proof {
                lemma_ticket_tracking_after_push(pool_after_wait, *self, tickets@);
                assert(self.queued()[self.queued().len() - 1].ticket == ticket);
                assert(self.queued_has(ticket));
                let new_task = WorkerTask { ticket, step: gstep };
                assert(self.queued() == pool_after_wait.queued().push(new_task));
                assert forall|i: int|
                    0 <= i < done implies ticket_tracks(
                    *self,
                    *registry,
                    #[trigger] tickets@[i],
                    names[i],
                ) by {
                    lemma_tracks_after_push(
                        pool_after_wait,
                        *self,
                        *registry,
                        new_task,
                        tickets@[i],
                        names[i],
                    );
                }
                assert(ticket_tracks(*self, *registry, ticket, names[done as int])) by {
                    assert forall|j: int|
                        0 <= j < self.queued().len() && (#[trigger] self.queued()[j]).ticket
                            == ticket implies self.queued()[j].step.tool_name@
                            == names[done as int] by {
                        if j < pool_after_wait.queued().len() {
                            assert(self.queued()[j] == pool_after_wait.queued()[j]);
                            assert(self.queued()[j].ticket < pool_after_wait.minted());
                            assert(false);
                        } else {
                            assert(self.queued()[j] == new_task);
                        }
                    }
                }
            }
            tickets.push(ticket);
            done += 1;
        }
        while self.pending_tasks() > 0
            invariant
                self.wf(),
                registry.wf(),
                self.is_open(),
                old(self).is_open(),
                self.capacity_spec() == old(self).capacity_spec(),
                self.worker_count_spec() == old(self).worker_count_spec(),
                tickets@.len() == total,
                total == orig_steps.len(),
                names.len() == total,
                forall|i: int| 0 <= i < total ==> names[i] == orig_steps[i].tool_name@,
                forall|i: int, j: int|
                    0 <= i < j < tickets@.len() ==> (#[trigger] tickets@[i]) != (
                    #[trigger] tickets@[j]),
                forall|i: int|
                    0 <= i < total ==> (#[trigger] tickets@[i]) == (old(self).minted() + i) as u64,
                forall|i: int|
                    0 <= i < tickets@.len() ==> self.queued_has(#[trigger] tickets@[i])
                        || self.delivered_has(tickets@[i]),
                forall|i: int|
                    0 <= i < total ==> ticket_tracks(*self, *registry, #[trigger] tickets@[i], names[i]),
            decreases self.queued().len(),
        {
            let ghost pool_before = *self;
            self.worker_cycle(registry);
            proof {
                lemma_ticket_tracking_after_cycle(pool_before, *self, tickets@);
                assert forall|i: int|
                    0 <= i < total implies ticket_tracks(
                    *self,
                    *registry,
                    #[trigger] tickets@[i],
                    names[i],
                ) by {
                    lemma_tracks_after_cycle(pool_before, *self, *registry, tickets@[i], names[i]);
                }
            }
        }
        proof {
            assert forall|i: int|
                0 <= i < tickets@.len() implies self.delivered_has(#[trigger] tickets@[i]) by {
                assert(!self.queued_has(tickets@[i]));
            }
        }
        let ghost ar_fin = self.archive();
        let ghost base: u64 = old(self).minted();
        let mut results: Vec<JsonValue> = Vec::new();
        let mut collected: usize = 0;
        let mut failure: Option<AgenticFlowError> = None;
        while collected < total && failure.is_none()
            invariant
                self.wf(),
                self.is_open(),
                old(self).is_open(),
                self.capacity_spec() == old(self).capacity_spec(),
                self.worker_count_spec() == old(self).worker_count_spec(),
                registry.wf(),
                collected <= total,
                tickets@.len() == total,
                total == orig_steps.len(),
                names.len() == total,
                base == old(self).minted(),
                self.archive() == ar_fin,
                forall|i: int| 0 <= i < total ==> names[i] == orig_steps[i].tool_name@,
                forall|i: int, j: int|
                    0 <= i < j < tickets@.len() ==> (#[trigger] tickets@[i]) != (
                    #[trigger] tickets@[j]),
                forall|i: int|
                    0 <= i < total ==> (#[trigger] tickets@[i]) == (base + i) as u64,
                failure is None ==> ({
                    &&& results@.len() == collected
                    &&& (forall|i: int|
                        collected <= i < tickets@.len() ==> self.delivered_has(
                            #[trigger] tickets@[i],
                        ))
                    &&& (forall|i: int|
                        collected <= i < total ==> ticket_tracks(
                            *self,
                            *registry,
                            #[trigger] tickets@[i],
                            names[i],
                        ))
                    &&& (forall|i: int|
                        0 <= i < collected ==> registry.local_map().contains_key(
                            #[trigger] names[i],
                        ))
                    &&& (forall|i: int|
                        0 <= i < collected ==> #[trigger] slot_delivered(
                            ar_fin,
                            base,
                            i,
                            Ok(results@[i]),
                        ))
                }),
                failure matches Some(e) ==> run_failed(ar_fin, base, e, total as int),
            decreases total - collected,
        {
            let ticket = tickets[collected];
            let ghost pool_before = *self;
            match self.try_collect(ticket) {
                CollectOutcome::Ready(Ok(value)) => {
                    proof {
                        let ghost gvalue = value;
                        let i0 = choose|i0: int|
                            0 <= i0 < pool_before.delivered_seq().len()
                                && pool_before.delivered_seq()[i0] == (
                            ticket,
                            Ok::<JsonValue, AgenticFlowError>(gvalue),
                        ) && self.delivered_seq() == pool_before.delivered_seq().remove(i0);
                        assert(pool_before.delivered_seq()[i0].1 is Ok);
                        assert(registry.local_map().contains_key(names[collected as int]));
                        assert(pair_archived(ar_fin, (ticket, Ok(gvalue))));
                        assert(slot_delivered(ar_fin, base, collected as int, Ok(gvalue)));
                        assert forall|k: int|
                            collected + 1 <= k < tickets@.len() implies self.delivered_has(
                            #[trigger] tickets@[k],
                        ) by {
                            let j = choose|j: int|
                                0 <= j < pool_before.delivered_seq().len() && (
                                #[trigger] pool_before.delivered_seq()[j]).0 == tickets@[k];
                            assert(j != i0);
                            if j < i0 {
                                assert(self.delivered_seq()[j]
                                    == pool_before.delivered_seq()[j]);
                            } else {
                                assert(self.delivered_seq()[j - 1]
                                    == pool_before.delivered_seq()[j]);
                            }
                        }
                        assert forall|k: int|
                            collected + 1 <= k < total implies ticket_tracks(
                            *self,
                            *registry,
                            #[trigger] tickets@[k],
                            names[k],
                        ) by {
                            lemma_tracks_after_remove(
                                pool_before,
                                *self,
                                *registry,
                                i0,
                                tickets@[k],
                                names[k],
                            );
                        }
                    }
                    results.push(value);
                    collected += 1;
                },
                CollectOutcome::Ready(Err(e)) => {
                    proof {
                        let ghost gerr = e;
                        let i0 = choose|i0: int|
                            0 <= i0 < pool_before.delivered_seq().len()
                                && pool_before.delivered_seq()[i0] == (
                            ticket,
                            Err::<JsonValue, AgenticFlowError>(gerr),
                        ) && self.delivered_seq() == pool_before.delivered_seq().remove(i0);
                        assert(pair_archived(ar_fin, (ticket, Err(gerr))));
                        assert(slot_delivered(ar_fin, base, collected as int, Err(gerr)));
                        assert forall|i: int|
                            0 <= i < collected implies #[trigger] slot_succeeded(
                            ar_fin,
                            base,
                            i,
                        ) by {
                            assert(slot_delivered(ar_fin, base, i, Ok(results@[i])));
                        }
                        assert(slot_failed_first(ar_fin, base, gerr, collected as int, total as int));
                        assert(run_failed(ar_fin, base, gerr, total as int));
                    }
                    failure = Some(e);
                    collected += 1;
                },
                _ => {
                    proof {
                        assert(false);
                    }
                    failure = Some(
                        AgenticFlowError::ExecutionError("Worker disconnected".to_owned()),
                    );
                    collected += 1;
                },
            }
        }
        match failure {
            Some(e) => Err(e),
            None => {
                proof {
                    assert forall|i: int|
                        0 <= i < orig_steps.len() implies registry.local_map().contains_key(
                        #[trigger] orig_steps[i].tool_name@,
                    ) by {
                        assert(registry.local_map().contains_key(names[i]));
                    }
                    assert(slots_collected(ar_fin, base, results@, total as int));
                }
                Ok(results)
            },
        }
    }

    /// How many tasks wait in the queue.
    pub fn pending_tasks(&self) -> (r: usize)
        ensures
            r == self.queued().len(),
    {
        self.queue.len()
    }

    /// Runs one plan step through the pool and hands back its correlated
    /// result — the value delivered under this submission's own ticket, never
    /// another submission's; refused once the pool is shut down.
    pub fn execute_step(&mut self, registry: &ToolRegistry, step: PlanStep) -> (r: Result<
        JsonValue,
        AgenticFlowError,
    >)
        requires
            old(self).wf(),
            registry.wf(),
            old(self).minted() + 1 <= u64::MAX,
        ensures
            final(self).wf(),
            final(self).is_open() == old(self).is_open(),
            final(self).capacity_spec() == old(self).capacity_spec(),
            final(self).worker_count_spec() == old(self).worker_count_spec(),
            !old(self).is_open() ==> r is Err && r->Err_0 is ExecutionError
                && r->Err_0->ExecutionError_0@ == "Task pool is shut down"@,
            r is Ok ==> registry.local_map().contains_key(step.tool_name@),
            old(self).is_open() ==> (r matches Ok(v) ==> slot_delivered(
                final(self).archive(),
                old(self).minted(),
                0,
                Ok(v),
            )),
            old(self).is_open() ==> (r matches Err(e) ==> run_failed(
                final(self).archive(),
                old(self).minted(),
                e,
                1,
            )),
    {
        let mut steps: Vec<PlanStep> = Vec::new();
        let ghost gstep = step;
        steps.push(step);
        proof {
            assert(steps@ =~= seq![gstep]);
        }
        match self.execute_parallel(registry, steps) {
            Ok(mut results) => {
                proof {
                    assert(seq![gstep][0] == gstep);
                    assert(registry.local_map().contains_key(seq![gstep][0].tool_name@));
                }
                let ghost pre_remove = results@;
                let value = results.remove(0);
                proof {
                    assert(pre_remove =~= seq![value]);
                    if old(self).is_open() {
                        assert(slot_delivered(
                            final(self).archive(),
                            old(self).minted(),
                            0,
                            Ok(pre_remove[0]),
                        ));
                    }
                }
                Ok(value)
            },
            Err(e) => Err(e),
        }
    }

    fn taken_carries(&self, ticket: u64) -> (r: bool)
        ensures
            r == self.taken_seq().contains(ticket),
    {
        let mut idx: usize = 0;
        while idx < self.taken.len()
            invariant
                idx <= self.taken@.len(),
                forall|i: int| 0 <= i < idx ==> (#[trigger] self.taken@[i]) != ticket,
            decreases self.taken@.len() - idx,
        {
            if self.taken[idx] == ticket {
                return true;
            }
            idx += 1;
        }
        false
    }
}

/// Slot `i` of a run whose first ticket is `base` had the answer `v`
/// delivered under its own ticket, `base + i`, as the archive records.
pub open spec fn slot_delivered(
    ar: Seq<(u64, Result<JsonValue, AgenticFlowError>)>,
    base: u64,
    i: int,
    v: Result<JsonValue, AgenticFlowError>,
) -> bool {
    pair_archived(ar, ((base + i) as u64, v))
}

/// A slot-correlated success: slot `i`'s ticket is the `i`-th minted by the
/// run, and the pool's archive records exactly `Ok(results[i])` delivered
/// under that ticket — each result answers its own submission, in submission
/// order, whatever order the work finished in.
pub open spec fn slots_collected(
    ar: Seq<(u64, Result<JsonValue, AgenticFlowError>)>,
    base: u64,
    results: Seq<JsonValue>,
    n: int,
) -> bool {
    forall|i: int| 0 <= i < n ==> #[trigger] slot_delivered(ar, base, i, Ok(results[i]))
}

/// The archive records some success delivered under slot `i`'s own ticket.
pub open spec fn slot_succeeded(
    ar: Seq<(u64, Result<JsonValue, AgenticFlowError>)>,
    base: u64,
    i: int,
) -> bool {
    exists|v: JsonValue| slot_delivered(ar, base, i, Ok(v))
}

/// The archive records the error `e` delivered under slot `k`'s own ticket,
/// with a success delivered under every earlier slot's ticket.
pub open spec fn slot_failed_first(
    ar: Seq<(u64, Result<JsonValue, AgenticFlowError>)>,
    base: u64,
    e: AgenticFlowError,
    k: int,
    n: int,
) -> bool {
    &&& 0 <= k < n
    &&& slot_delivered(ar, base, k, Err(e))
    &&& forall|i: int| 0 <= i < k ==> #[trigger] slot_succeeded(ar, base, i)
}

/// A slot-correlated failure: the run's error is the one the archive records
/// under the failing slot's own ticket, and every earlier slot's ticket
/// carried a success — a failure stays in its slot and does not discard its
/// elders' work.
pub open spec fn run_failed(
    ar: Seq<(u64, Result<JsonValue, AgenticFlowError>)>,
    base: u64,
    e: AgenticFlowError,
    n: int,
) -> bool {
    exists|k: int| #[trigger] slot_failed_first(ar, base, e, k, n)
}

/// Every appearance of the ticket in the pool answers the named step: a task
/// queued under the ticket carries the name, and a success delivered under
/// the ticket means the name is a locally registered tool.
pub open spec fn ticket_tracks(
    pool: AgenticTaskPool,
    reg: ToolRegistry,
    t: u64,
    name: Seq<char>,
) -> bool {
    &&& (forall|j: int|
        0 <= j < pool.queued().len() && (#[trigger] pool.queued()[j]).ticket == t
            ==> pool.queued()[j].step.tool_name@ == name)
    &&& (forall|j: int|
        0 <= j < pool.delivered_seq().len() && (#[trigger] pool.delivered_seq()[j]).0 == t
            && pool.delivered_seq()[j].1 is Ok ==> reg.local_map().contains_key(name))
}

proof fn lemma_tracks_after_cycle(
    pre: AgenticTaskPool,
    post: AgenticTaskPool,
    reg: ToolRegistry,
    t: u64,
    name: Seq<char>,
)
    requires
        pre.queued().len() > 0,
        post.queued() == pre.queued().skip(1),
        exists|res: Result<JsonValue, AgenticFlowError>|
            #![auto]
            post.delivered_seq() == pre.delivered_seq().push((pre.queued()[0].ticket, res)) && (res
                is Ok ==> reg.local_map().contains_key(pre.queued()[0].step.tool_name@)),
        ticket_tracks(pre, reg, t, name),
    ensures
        ticket_tracks(post, reg, t, name),
{
    let res = choose|res: Result<JsonValue, AgenticFlowError>|
        #![auto]
        post.delivered_seq() == pre.delivered_seq().push((pre.queued()[0].ticket, res)) && (res
            is Ok ==> reg.local_map().contains_key(pre.queued()[0].step.tool_name@));
    assert forall|j: int|
        0 <= j < post.queued().len() && (#[trigger] post.queued()[j]).ticket == t implies
        post.queued()[j].step.tool_name@ == name by {
        assert(post.queued()[j] == pre.queued()[j + 1]);
    }
    assert forall|j: int|
        0 <= j < post.delivered_seq().len() && (#[trigger] post.delivered_seq()[j]).0 == t
            && post.delivered_seq()[j].1 is Ok implies reg.local_map().contains_key(name) by {
        if j < pre.delivered_seq().len() {
            assert(post.delivered_seq()[j] == pre.delivered_seq()[j]);
        } else {
            assert(post.delivered_seq()[j] == (pre.queued()[0].ticket, res));
            assert(pre.queued()[0].ticket == t);
            assert(pre.queued()[0].step.tool_name@ == name);
        }
    }
}

proof fn lemma_tracks_after_push(
    pre: AgenticTaskPool,
    post: AgenticTaskPool,
    reg: ToolRegistry,
    task: WorkerTask,
    t: u64,
    name: Seq<char>,
)
    requires
        post.queued() == pre.queued().push(task),
        post.delivered_seq() == pre.delivered_seq(),
        task.ticket != t,
        ticket_tracks(pre, reg, t, name),
    ensures
        ticket_tracks(post, reg, t, name),
{
    assert forall|j: int|
        0 <= j < post.queued().len() && (#[trigger] post.queued()[j]).ticket == t implies
        post.queued()[j].step.tool_name@ == name by {
        assert(j < pre.queued().len());
        assert(post.queued()[j] == pre.queued()[j]);
    }
}

proof fn lemma_tracks_after_remove(
    pre: AgenticTaskPool,
    post: AgenticTaskPool,
    reg: ToolRegistry,
    i: int,
    t: u64,
    name: Seq<char>,
)
    requires
        0 <= i < pre.delivered_seq().len(),
        post.delivered_seq() == pre.delivered_seq().remove(i),
        post.queued() == pre.queued(),
        ticket_tracks(pre, reg, t, name),
    ensures
        ticket_tracks(post, reg, t, name),
{
    assert forall|j: int|
        0 <= j < post.delivered_seq().len() && (#[trigger] post.delivered_seq()[j]).0 == t
            && post.delivered_seq()[j].1 is Ok implies reg.local_map().contains_key(name) by {
        if j < i {
            assert(post.delivered_seq()[j] == pre.delivered_seq()[j]);
        } else {
            assert(post.delivered_seq()[j] == pre.delivered_seq()[j + 1]);
        }
    }
}

/// After one worker turn, every ticket that was queued or delivered is still
/// queued or delivered: the turn moves the queue's head to the delivered
/// ledger and touches nothing else.
proof fn lemma_ticket_tracking_after_cycle(
    pre: AgenticTaskPool,
    post: AgenticTaskPool,
    tickets: Seq<u64>,
)
    requires
        pre.queued().len() > 0,
        post.queued() == pre.queued().skip(1),
        exists|res: Result<JsonValue, AgenticFlowError>|
            #![auto]
            post.delivered_seq() == pre.delivered_seq().push((pre.queued()[0].ticket, res)),
        forall|i: int|
            0 <= i < tickets.len() ==> pre.queued_has(#[trigger] tickets[i]) || pre.delivered_has(
                tickets[i],
            ),
    ensures
        forall|i: int|
            0 <= i < tickets.len() ==> post.queued_has(#[trigger] tickets[i]) || post.delivered_has(
                tickets[i],
            ),
{
    let res = choose|res: Result<JsonValue, AgenticFlowError>|
        #![auto]
        post.delivered_seq() == pre.delivered_seq().push((pre.queued()[0].ticket, res));
    assert forall|i: int|
        0 <= i < tickets.len() implies post.queued_has(#[trigger] tickets[i]) || post.delivered_has(
        tickets[i],
    ) by {
        if pre.queued_has(tickets[i]) {
            let j = choose|j: int|
                0 <= j < pre.queued().len() && (#[trigger] pre.queued()[j]).ticket == tickets[i];
            if j == 0 {
                assert(post.delivered_seq()[post.delivered_seq().len() - 1].0 == tickets[i]);
            } else {
                assert(post.queued()[j - 1] == pre.queued()[j]);
            }
        } else {
            let j = choose|j: int|
                0 <= j < pre.delivered_seq().len() && (#[trigger] pre.delivered_seq()[j]).0
                    == tickets[i];
            assert(post.delivered_seq()[j] == pre.delivered_seq()[j]);
        }
    }
}

/// Enqueueing a fresh task keeps every tracked ticket queued or delivered.
proof fn lemma_ticket_tracking_after_push(
    pre: AgenticTaskPool,
    post: AgenticTaskPool,
    tickets: Seq<u64>,
)
    requires
        exists|task: WorkerTask| #![auto] post.queued() == pre.queued().push(task),
        post.delivered_seq() == pre.delivered_seq(),
        forall|i: int|
            0 <= i < tickets.len() ==> pre.queued_has(#[trigger] tickets[i]) || pre.delivered_has(
                tickets[i],
            ),
    ensures
        forall|i: int|
            0 <= i < tickets.len() ==> post.queued_has(#[trigger] tickets[i]) || post.delivered_has(
                tickets[i],
            ),
{
    let task = choose|task: WorkerTask| #![auto] post.queued() == pre.queued().push(task);
    assert forall|i: int|
        0 <= i < tickets.len() implies post.queued_has(#[trigger] tickets[i]) || post.delivered_has(
        tickets[i],
    ) by {
        if pre.queued_has(tickets[i]) {
            let j = choose|j: int|
                0 <= j < pre.queued().len() && (#[trigger] pre.queued()[j]).ticket == tickets[i];
            assert(post.queued()[j] == pre.queued()[j]);
        }
    }
}

/// What offering a task to a generic pool did.
#[derive(Debug)]
pub enum QueueOutcome<T> {
    Accepted,
    Full(T),
    Closed(T),
}

/// A generic bounded task queue with the same lifecycle as the plan-step
/// pool: accepts while open and below capacity, hands tasks to workers in
/// arrival order, and refuses everything once shut down. What a worker does
/// with a task is the embedding program's business.
pub struct TaskPool<T> {
    queue: Vec<T>,
    capacity: usize,
    worker_count: usize,
    open: bool,
}

impl<T> TaskPool<T> {
    /// The queued tasks, in arrival order.
    pub closed spec fn queued(&self) -> Seq<T> {
        self.queue@
    }

    pub closed spec fn capacity_spec(&self) -> usize {
        self.capacity
    }

    pub closed spec fn worker_count_spec(&self) -> usize {
        self.worker_count
    }

    /// Whether the submission side is still open.
    pub closed spec fn is_open(&self) -> bool {
        self.open
    }

    pub open spec fn wf(&self) -> bool {
        self.queued().len() <= self.capacity_spec() && self.capacity_spec() >= 1
    }

    /// A fresh pool with the default queue capacity.
    pub fn new(worker_count: usize) -> (r: Self)
        ensures
            r.wf(),
            r.is_open(),
            r.worker_count_spec() == worker_count,
            r.capacity_spec() == 100,
            r.queued() == Seq::<T>::empty(),
    {
        TaskPool { queue: Vec::new(), capacity: 100, worker_count, open: true }
    }

    /// Offers one task: refused once the pool is shut down, made to wait
    /// while the queue is at capacity, and otherwise enqueued.
    pub fn execute(&mut self, task: T) -> (r: QueueOutcome<T>)
        requires
            old(self).wf(),
        ensures
            final(self).wf(),
            final(self).is_open() == old(self).is_open(),
            final(self).capacity_spec() == old(self).capacity_spec(),
            final(self).worker_count_spec() == old(self).worker_count_spec(),
            !old(self).is_open() ==> (r matches QueueOutcome::Closed(t) && t == task) && final(self).queued() == old(self).queued(),
            old(self).is_open() && old(self).queued().len() == old(self).capacity_spec() ==> (
            r matches QueueOutcome::Full(t) && t == task) && final(self).queued() == old(
                self,
            ).queued(),
            old(self).is_open() && old(self).queued().len() < old(self).capacity_spec() ==> r
                is Accepted && final(self).queued() == old(self).queued().push(task),
    {
        if !self.open {
            return QueueOutcome::Closed(task);
        }
        if self.queue.len() >= self.capacity {
            return QueueOutcome::Full(task);
        }
        self.queue.push(task);
        QueueOutcome::Accepted
    }

    /// A worker takes the oldest queued task.
    pub fn take_task(&mut self) -> (r: Option<T>)
        requires
            old(self).wf(),
        ensures
            final(self).wf(),
            final(self).is_open() == old(self).is_open(),
            final(self).capacity_spec() == old(self).capacity_spec(),
            final(self).worker_count_spec() == old(self).worker_count_spec(),
            match r {
                Some(task) => old(self).queued().len() > 0 && task == old(self).queued()[0]
                    && final(self).queued() == old(self).queued().skip(1),
                None => old(self).queued().len() == 0 && final(self).queued() == old(
                    self,
                ).queued(),
            },
    {
        if self.queue.len() == 0 {
            return None;
        }
        let ghost q0 = self.queue@;
        let task = self.queue.remove(0);
        proof {
            assert(self.queue@ =~= q0.skip(1));
        }
        Some(task)
    }

    pub fn worker_count(&self) -> (r: usize)
        ensures
            r == self.worker_count_spec(),
    {
        self.worker_count
    }

    pub fn capacity(&self) -> (r: usize)
        ensures
            r == self.capacity_spec(),
    {
        self.capacity
    }

    /// Closes the submission side; what is queued may still be taken.
    pub fn shutdown(&mut self)
        requires
            old(self).wf(),
        ensures
            final(self).wf(),
            !final(self).is_open(),
            final(self).queued() == old(self).queued(),
            final(self).capacity_spec() == old(self).capacity_spec(),
            final(self).worker_count_spec() == old(self).worker_count_spec(),
    {
        self.open = false;
    }
}

} // verus!
