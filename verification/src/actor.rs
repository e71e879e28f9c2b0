//! The actor runtime: each actor owns a private, ordered inbox and processes
//! its messages strictly in arrival order; a correlated call carries a
//! single-use reply ticket that is answered exactly once or visibly
//! abandoned, never left hanging. A processed `Shutdown` stops the actor for
//! good: nothing enqueued behind it is ever dispatched, and later sends fail.
//! The embedding program runs each actor's loop on its own concurrent task;
//! the mailbox here is that loop's state machine, stepped one event at a time.

use vstd::prelude::*;
use crate::errors::AgenticFlowError;
use crate::json::JsonValue;

verus! {

/// Relies on `uuid::Uuid::new_v4` (and `Uuid::as_u128`): a random version-4
/// UUID as a number. Nothing is promised of the value.
#[verifier::external_body]
fn fresh_uuid_value() -> u128 {
    uuid::Uuid::new_v4().as_u128()
}

/// A token minted at actor creation, used only for lookup.
#[derive(Debug, Clone, Copy, PartialEq, Eq, Hash, Structural)]
pub struct ActorId {
    pub value: u128,
}

impl ActorId {
    pub fn new() -> Self {
        ActorId { value: fresh_uuid_value() }
    }
}

/// What can be asked of an actor.
#[derive(Debug)]
pub enum Message {
    ExecuteTool { tool_name: String, params: JsonValue },
    HealthCheck,
    Shutdown,
}

/// What an actor answers on a reply ticket.
#[derive(Debug)]
pub enum Reply {
    ToolResult(Result<JsonValue, AgenticFlowError>),
    Health(bool),
}

/// One inbox entry: the message, and the reply ticket when the sender awaits
/// an answer.
#[derive(Debug)]
pub struct Envelope {
    pub ticket: Option<u64>,
    pub body: Message,
}

#[derive(Debug, Clone, Copy, PartialEq, Eq, Structural)]
pub enum ActorPhase {
    Running,
    Stopped,
}

/// An actor's behavior. Implementations come from the embedding program; the
/// runtime promises nothing about what a handler computes, only how its
/// messages and replies are routed.
pub trait Actor {
    fn handle_message(&mut self, message: Message) -> (r: Result<Option<Reply>, AgenticFlowError>);

    fn initialize(&mut self) -> (r: Result<(), AgenticFlowError>);

    fn shutdown(&mut self) -> (r: Result<(), AgenticFlowError>);
}

/// Whether some entry of the queue carries the ticket.
pub open spec fn queue_has_ticket(q: Seq<Envelope>, t: u64) -> bool {
    exists|i: int| 0 <= i < q.len() && (#[trigger] q[i]).ticket == Some(t)
}

/// Whether a reply was delivered on the ticket.
pub open spec fn delivered_has(d: Seq<(u64, Reply)>, t: u64) -> bool {
    exists|i: int| 0 <= i < d.len() && (#[trigger] d[i]).0 == t
}

/// The reply archive holds the pair `p`: the reply `p.1` was delivered on
/// ticket `p.0` at some point of the mailbox's history.
pub open spec fn reply_archived(ar: Seq<(u64, Reply)>, p: (u64, Reply)) -> bool {
    exists|j: int| 0 <= j < ar.len() && ar[j] == p
}

/// The reply archive holds some reply on the ticket.
pub open spec fn ticket_archived(ar: Seq<(u64, Reply)>, t: u64) -> bool {
    exists|j: int| 0 <= j < ar.len() && (#[trigger] ar[j]).0 == t
}

/// The messages an actor dispatches to its behavior when it drains this
/// queue: everything up to, and not including, the first `Shutdown`.
pub open spec fn dispatched_bodies(q: Seq<Envelope>) -> Seq<Message>
    decreases q.len(),
{
    if q.len() == 0 {
        Seq::empty()
    } else if q[0].body is Shutdown {
        Seq::empty()
    } else {
        seq![q[0].body] + dispatched_bodies(q.skip(1))
    }
}

/// Whether the queue holds a `Shutdown` anywhere.
pub open spec fn has_shutdown(q: Seq<Envelope>) -> bool {
    exists|i: int| 0 <= i < q.len() && (#[trigger] q[i]).body is Shutdown
}

/// Law: a `Shutdown` is terminal. Whatever stands behind one in an inbox is
/// never dispatched: the dispatch trace ends before the `Shutdown`'s
/// position, so a message enqueued after it cannot reach the behavior.
pub proof fn lemma_shutdown_is_terminal(q: Seq<Envelope>, i: int)
    requires
        0 <= i < q.len(),
        q[i].body is Shutdown,
    ensures
        dispatched_bodies(q).len() <= i,
    decreases i,
{
    if q[0].body is Shutdown {
    } else {
        assert(i != 0);
        assert(q.skip(1)[i - 1] == q[i]);
        lemma_shutdown_is_terminal(q.skip(1), i - 1);
    }
}

/// What one processing step did.
#[derive(Debug, PartialEq, Eq, Structural)]
pub enum ProcessOutcome {
    AlreadyStopped,
    Idle,
    ShutDown,
    Handled,
}

/// How waiting on a reply ticket stands.
#[derive(Debug)]
pub enum ReplyWait {
    Ready(Reply),
    Waiting,
    Failed,
}

/// An actor's inbox and reply ledger. Messages leave in arrival order; every
/// ticket ends as exactly one delivered reply or as abandoned.
pub struct Mailbox {
    queue: Vec<Envelope>,
    phase: ActorPhase,
    next_ticket: u64,
    delivered: Vec<(u64, Reply)>,
    abandoned: Vec<u64>,
    archive: Ghost<Seq<(u64, Reply)>>,
}

impl Mailbox {
    pub closed spec fn phase(&self) -> ActorPhase {
        self.phase
    }

    /// The messages waiting, in arrival order.
    pub closed spec fn pending(&self) -> Seq<Envelope> {
        self.queue@
    }

    /// How many tickets were ever minted.
    pub closed spec fn minted(&self) -> u64 {
        self.next_ticket
    }

    /// The replies delivered and not yet taken, oldest first.
    pub closed spec fn delivered_seq(&self) -> Seq<(u64, Reply)> {
        self.delivered@
    }

    /// The tickets whose envelope was dropped without a reply.
    pub closed spec fn abandoned_seq(&self) -> Seq<u64> {
        self.abandoned@
    }

    /// Every reply ever delivered, with its ticket, in delivery order; the
    /// archive only grows, so it survives `take_reply` and is the record a
    /// call's answer is correlated against.
    pub closed spec fn archive(&self) -> Seq<(u64, Reply)> {
        self.archive@
    }

    /// Well-formed: every ticket is below the mint counter, no ticket appears
    /// twice anywhere, and a stopped mailbox holds no pending messages.
    pub closed spec fn wf(&self) -> bool {
        let q = self.queue@;
        let d = self.delivered@;
        let a = self.abandoned@;
        let ar = self.archive@;
        &&& (forall|i: int| 0 <= i < ar.len() ==> (#[trigger] ar[i]).0 < self.next_ticket)
        &&& (forall|i: int, j: int|
            0 <= i < j < ar.len() ==> (#[trigger] ar[i]).0 != (#[trigger] ar[j]).0)
        &&& (forall|i: int, j: int|
            0 <= i < q.len() && 0 <= j < ar.len() && (#[trigger] q[i]).ticket is Some
                ==> q[i].ticket->0 != (#[trigger] ar[j]).0)
        &&& (forall|i: int| 0 <= i < d.len() ==> #[trigger] reply_archived(ar, d[i]))
        &&& (forall|i: int|
            0 <= i < q.len() ==> ((#[trigger] q[i]).ticket is Some ==> q[i].ticket->0
                < self.next_ticket))
        &&& (forall|i: int| 0 <= i < d.len() ==> (#[trigger] d[i]).0 < self.next_ticket)
        &&& (forall|i: int| 0 <= i < a.len() ==> (#[trigger] a[i]) < self.next_ticket)
        &&& (forall|i: int, j: int|
            0 <= i < j < q.len() && (#[trigger] q[i]).ticket is Some && (#[trigger] q[j]).ticket
                is Some ==> q[i].ticket->0 != q[j].ticket->0)
        &&& (forall|i: int, j: int| 0 <= i < j < d.len() ==> (#[trigger] d[i]).0 != (#[trigger] d[j]).0)
        &&& (forall|i: int, j: int| 0 <= i < j < a.len() ==> (#[trigger] a[i]) != (#[trigger] a[j]))
        &&& (forall|i: int, j: int|
            0 <= i < q.len() && 0 <= j < d.len() && (#[trigger] q[i]).ticket is Some
                ==> q[i].ticket->0 != (#[trigger] d[j]).0)
        &&& (forall|i: int, j: int|
            0 <= i < q.len() && 0 <= j < a.len() && (#[trigger] q[i]).ticket is Some
                ==> q[i].ticket->0 != (#[trigger] a[j]))
        &&& (forall|i: int, j: int|
            0 <= i < d.len() && 0 <= j < a.len() ==> (#[trigger] d[i]).0 != (#[trigger] a[j]))
        &&& (self.phase is Stopped ==> q.len() == 0)
    }

    pub fn new() -> (r: Self)
        ensures
            r.wf(),
            r.phase() is Running,
            r.pending() == Seq::<Envelope>::empty(),
            r.minted() == 0,
            r.delivered_seq() == Seq::<(u64, Reply)>::empty(),
            r.abandoned_seq() == Seq::<u64>::empty(),
            r.archive() == Seq::<(u64, Reply)>::empty(),
    {
        Mailbox {
            queue: Vec::new(),
            phase: ActorPhase::Running,
            next_ticket: 0,
            delivered: Vec::new(),
            abandoned: Vec::new(),
            archive: Ghost(Seq::empty()),
        }
    }

    /// Stops the mailbox before any message is processed; the loop of an
    /// actor whose initialization failed never drains its inbox.
    pub(crate) fn mark_stopped(&mut self)
        requires
            old(self).wf(),
            old(self).pending().len() == 0,
        ensures
            final(self).wf(),
            final(self).phase() is Stopped,
            final(self).pending() == old(self).pending(),
            final(self).minted() == old(self).minted(),
            final(self).delivered_seq() == old(self).delivered_seq(),
            final(self).abandoned_seq() == old(self).abandoned_seq(),
            final(self).archive() == old(self).archive(),
    {
        self.phase = ActorPhase::Stopped;
    }

    /// Whether the actor's loop is still draining this inbox.
    pub fn is_running(&self) -> (r: bool)
        ensures
            r == (self.phase() is Running),
    {
        match self.phase {
            ActorPhase::Running => true,
            ActorPhase::Stopped => false,
        }
    }

    /// How many messages wait in the inbox.
    pub fn pending_len(&self) -> (r: usize)
        ensures
            r == self.pending().len(),
    {
        self.queue.len()
    }

    /// Fire-and-forget enqueue: succeeds exactly while the actor's loop is
    /// alive, and fails once the inbox is gone.
    pub fn send(&mut self, body: Message) -> (r: Result<(), AgenticFlowError>)
        requires
            old(self).wf(),
        ensures
            final(self).wf(),
            final(self).phase() == old(self).phase(),
            final(self).minted() == old(self).minted(),
            final(self).delivered_seq() == old(self).delivered_seq(),
            final(self).abandoned_seq() == old(self).abandoned_seq(),
            final(self).archive() == old(self).archive(),
            old(self).phase() is Stopped ==> r is Err && r->Err_0 is NetworkError
                && r->Err_0->NetworkError_0@ == "Failed to send message"@ && final(self).pending()
                == old(self).pending(),
            old(self).phase() is Running ==> r is Ok && final(self).pending() == old(
                self,
            ).pending().push(Envelope { ticket: None, body }),
    {
        match self.phase {
            ActorPhase::Stopped => Err(
                AgenticFlowError::NetworkError("Failed to send message".to_owned()),
            ),
            ActorPhase::Running => {
                self.queue.push(Envelope { ticket: None, body });
                Ok(())
            },
        }
    }

    /// Enqueues a message that awaits an answer, minting a fresh single-use
    /// reply ticket for it; fails once the inbox is gone.
    pub fn call_open(&mut self, body: Message) -> (r: Result<u64, AgenticFlowError>)
        requires
            old(self).wf(),
            old(self).minted() < u64::MAX,
        ensures
            final(self).wf(),
            final(self).phase() == old(self).phase(),
            final(self).delivered_seq() == old(self).delivered_seq(),
            final(self).abandoned_seq() == old(self).abandoned_seq(),
            final(self).archive() == old(self).archive(),
            old(self).phase() is Stopped ==> r is Err && r->Err_0 is NetworkError
                && r->Err_0->NetworkError_0@ == "Failed to send message"@ && final(self).pending()
                == old(self).pending() && final(self).minted() == old(self).minted(),
            old(self).phase() is Running ==> (r matches Ok(t) && t == old(self).minted()
                && final(self).minted() == old(self).minted() + 1 && final(self).pending() == old(
                self,
            ).pending().push(Envelope { ticket: Some(t), body })),
    {
        match self.phase {
            ActorPhase::Stopped => Err(
                AgenticFlowError::NetworkError("Failed to send message".to_owned()),
            ),
            ActorPhase::Running => {
                let t = self.next_ticket;
                self.next_ticket = t + 1;
                self.queue.push(Envelope { ticket: Some(t), body });
                Ok(t)
            },
        }
    }

    /// What processing a `Shutdown` leaves behind: the loop is stopped for
    /// good, nothing else is ever dispatched, the inbox is dropped, and every
    /// ticket that was still enqueued is visibly abandoned.
    pub open spec fn shutdown_step(pre: Mailbox, post: Mailbox) -> bool {
        &&& post.phase() is Stopped
        &&& post.pending().len() == 0
        &&& post.delivered_seq() == pre.delivered_seq()
        &&& post.archive() == pre.archive()
        &&& forall|t: u64|
            post.abandoned_seq().contains(t) <==> pre.abandoned_seq().contains(t)
                || queue_has_ticket(pre.pending(), t)
    }

    /// What dispatching one ordinary message leaves behind: the loop stays
    /// alive, the rest of the inbox is untouched, and the message's ticket —
    /// if it carried one — ends as exactly one delivered reply or as
    /// abandoned, never both and never neither.
    pub open spec fn handled_step(pre: Mailbox, post: Mailbox) -> bool {
        &&& post.phase() is Running
        &&& post.pending() == pre.pending().skip(1)
        &&& (match pre.pending()[0].ticket {
            None => post.delivered_seq() == pre.delivered_seq() && post.abandoned_seq()
                == pre.abandoned_seq() && post.archive() == pre.archive(),
            Some(t) => (exists|rep: Reply|
                post.delivered_seq() == pre.delivered_seq().push((t, rep)) && post.archive()
                    == pre.archive().push((t, rep)) && post.abandoned_seq()
                    == pre.abandoned_seq()) || (post.delivered_seq() == pre.delivered_seq()
                && post.archive() == pre.archive() && post.abandoned_seq()
                == pre.abandoned_seq().push(t)),
        })
    }

    /// Processes the oldest message, if any: a `Shutdown` calls the
    /// behavior's shutdown and stops the loop for good, abandoning every
    /// ticket still enqueued; any other message is dispatched to the
    /// behavior, whose answer is delivered on the message's ticket, or whose
    /// failure or silence abandons that ticket. A handler error does not stop
    /// the loop, and a stopped mailbox processes nothing.
    pub fn process_one(&mut self, behavior: &mut Box<dyn Actor>) -> (r: ProcessOutcome)
        requires
            old(self).wf(),
        ensures
            final(self).wf(),
            final(self).minted() == old(self).minted(),
            old(self).phase() is Stopped ==> r == ProcessOutcome::AlreadyStopped && *final(self)
                == *old(self),
            old(self).phase() is Running && old(self).pending().len() == 0 ==> r
                == ProcessOutcome::Idle && *final(self) == *old(self),
            old(self).phase() is Running && old(self).pending().len() > 0 && old(
                self,
            ).pending()[0].body is Shutdown ==> r == ProcessOutcome::ShutDown && Self::shutdown_step(
                *old(self),
                *final(self),
            ),
            old(self).phase() is Running && old(self).pending().len() > 0 && !(old(
                self,
            ).pending()[0].body is Shutdown) ==> r == ProcessOutcome::Handled && Self::handled_step(
                *old(self),
                *final(self),
            ),
    {
        match self.phase {
            ActorPhase::Stopped => {
                return ProcessOutcome::AlreadyStopped;
            },
            ActorPhase::Running => {},
        }
        if self.queue.len() == 0 {
            return ProcessOutcome::Idle;
        }
        let ghost q0 = self.queue@;
        let env = self.queue.remove(0);
        let Envelope { ticket, body } = env;
        match body {
            Message::Shutdown => {
                let _ = behavior.shutdown();
                self.phase = ActorPhase::Stopped;
                if let Some(t) = ticket {
                    self.abandoned.push(t);
                }
                proof {
                    assert(self.queue@ =~= q0.skip(1));
                }
                let ghost rest0 = self.queue@;
                let ghost a0 = self.abandoned@;
                proof {
                    match ticket {
                        Some(t) => {
                            assert(a0 =~= old(self).abandoned@.push(t));
                        },
                        None => {
                            assert(a0 =~= old(self).abandoned@);
                        },
                    }
                }
                let total = self.queue.len();
                let mut idx: usize = 0;
                while idx < total
                    invariant
                        idx <= total,
                        total == rest0.len(),
                        self.queue@ == rest0,
                        self.phase is Stopped,
                        self.next_ticket == old(self).next_ticket,
                        self.delivered@ == old(self).delivered@,
                        self.archive@ == old(self).archive@,
                        forall|i: int|
                            0 <= i < rest0.len() ==> ((#[trigger] rest0[i]).ticket is Some
                                ==> rest0[i].ticket->0 < self.next_ticket),
                        forall|i: int, j: int|
                            0 <= i < j < rest0.len() && (#[trigger] rest0[i]).ticket is Some && (
                            #[trigger] rest0[j]).ticket is Some ==> rest0[i].ticket->0
                                != rest0[j].ticket->0,
                        forall|j: int|
                            0 <= j < self.abandoned@.len() ==> (#[trigger] self.abandoned@[j])
                                < self.next_ticket,
                        forall|j1: int, j2: int|
                            0 <= j1 < j2 < self.abandoned@.len() ==> (
                            #[trigger] self.abandoned@[j1]) != (#[trigger] self.abandoned@[j2]),
                        forall|i: int, j: int|
                            0 <= i < self.delivered@.len() && 0 <= j < self.abandoned@.len() ==> (
                            #[trigger] self.delivered@[i]).0 != (#[trigger] self.abandoned@[j]),
                        forall|i: int, j: int|
                            0 <= i < rest0.len() && 0 <= j < self.delivered@.len() && (
                            #[trigger] rest0[i]).ticket is Some ==> rest0[i].ticket->0 != (
                            #[trigger] self.delivered@[j]).0,
                        forall|i: int, j: int|
                            idx <= i < rest0.len() && 0 <= j < self.abandoned@.len() && (
                            #[trigger] rest0[i]).ticket is Some ==> rest0[i].ticket->0 != (
                            #[trigger] self.abandoned@[j]),
                        self.abandoned@.len() >= a0.len(),
                        forall|j: int| 0 <= j < a0.len() ==> self.abandoned@[j] == a0[j],
                        forall|i: int|
                            0 <= i < idx ==> ((#[trigger] rest0[i]).ticket is Some
                                ==> self.abandoned@.contains(rest0[i].ticket->0)),
                        forall|t: u64|
                            self.abandoned@.contains(t) ==> a0.contains(t) || exists|i: int|
                                0 <= i < idx && (#[trigger] rest0[i]).ticket == Some(t),
                    decreases total - idx,
                {
                    let t_opt = self.queue[idx].ticket;
                    let ghost ab_prev = self.abandoned@;
                    if let Some(t) = t_opt {
                        self.abandoned.push(t);
                        proof {
                            assert(rest0[idx as int].ticket == Some(t));
                            assert(self.abandoned@[ab_prev.len() as int] == t);
                        }
                    }
                    proof {
                        assert forall|i: int|
                            0 <= i < idx + 1 && (#[trigger] rest0[i]).ticket is Some implies
                            self.abandoned@.contains(rest0[i].ticket->0) by {
                            if i < idx {
                                let j = choose|j: int|
                                    0 <= j < ab_prev.len() && ab_prev[j] == rest0[i].ticket->0;
                                assert(self.abandoned@[j] == rest0[i].ticket->0);
                            } else {
                                assert(self.abandoned@[self.abandoned@.len() - 1]
                                    == rest0[i].ticket->0);
                            }
                        }
                        assert forall|t: u64| self.abandoned@.contains(t) implies a0.contains(t)
                            || exists|i: int|
                            0 <= i < idx + 1 && (#[trigger] rest0[i]).ticket == Some(t) by {
                            let j = choose|j: int|
                                0 <= j < self.abandoned@.len() && self.abandoned@[j] == t;
                            if j < ab_prev.len() {
                                assert(ab_prev[j] == t);
                                assert(ab_prev.contains(t));
                            } else {
                                assert(rest0[idx as int].ticket == Some(t));
                            }
                        }
                    }
                    idx += 1;
                }
                self.queue = Vec::new();
                proof {
                    let a1 = self.abandoned@;
                    let oldab = old(self).abandoned@;
                    assert forall|t: u64| a1.contains(t) implies oldab.contains(t)
                        || queue_has_ticket(q0, t) by {
                        if !oldab.contains(t) {
                            if a0.contains(t) {
                                let i = choose|i: int| 0 <= i < a0.len() && a0[i] == t;
                                assert(i == oldab.len());
                                assert(q0[0].ticket == Some(t));
                            } else {
                                let j = choose|j: int|
                                    0 <= j < rest0.len() && (#[trigger] rest0[j]).ticket == Some(
                                        t,
                                    );
                                assert(q0[j + 1] == rest0[j]);
                                assert(q0[j + 1].ticket == Some(t));
                            }
                        }
                    }
                    assert forall|t: u64| queue_has_ticket(q0, t) implies a1.contains(t) by {
                        let i = choose|i: int|
                            0 <= i < q0.len() && (#[trigger] q0[i]).ticket == Some(t);
                        if i == 0 {
                            assert(a0[a0.len() - 1] == t);
                            assert(a1[a0.len() - 1] == t);
                        } else {
                            assert(rest0[i - 1].ticket == Some(t));
                        }
                    }
                    assert forall|t: u64| oldab.contains(t) implies a1.contains(t) by {
                        let i = choose|i: int| 0 <= i < oldab.len() && oldab[i] == t;
                        assert(a0[i] == t);
                        assert(a1[i] == t);
                    }
                }
                ProcessOutcome::ShutDown
            },
            body => {
                let outcome = behavior.handle_message(body);
                proof {
                    assert(self.queue@ =~= q0.skip(1));
                }
                match ticket {
                    Some(t) => {
                        match outcome {
                            Ok(Some(rep)) => {
                                let ghost ar0 = self.archive@;
                                let ghost d0 = self.delivered@;
                                let ghost grep = rep;
                                self.delivered.push((t, rep));
                                proof {
                                    self.archive = Ghost(ar0.push((t, grep)));
                                    assert forall|a: int|
                                        0 <= a < self.archive@.len() implies ((a < ar0.len() ==> (
                                        #[trigger] self.archive@[a]) == ar0[a]) && (a == ar0.len()
                                            ==> self.archive@[a] == (t, grep))) by {
                                        assert(self.archive@ == ar0.push((t, grep)));
                                    }
                                    assert forall|i: int|
                                        0 <= i < self.delivered@.len() implies
                                        #[trigger] reply_archived(
                                        self.archive@,
                                        self.delivered@[i],
                                    ) by {
                                        if i < d0.len() {
                                            assert(self.delivered@[i] == d0[i]);
                                            assert(reply_archived(ar0, d0[i]));
                                            let j = choose|j: int|
                                                0 <= j < ar0.len() && ar0[j] == d0[i];
                                            assert(self.archive@[j] == self.delivered@[i]);
                                        } else {
                                            assert(self.archive@[ar0.len() as int]
                                                == self.delivered@[i]);
                                        }
                                    }
                                }
                            },
                            _ => {
                                self.abandoned.push(t);
                            },
                        }
                    },
                    None => {},
                }
                ProcessOutcome::Handled
            },
        }
    }

    /// Looks after a reply ticket: the delivered answer is handed out (once),
    /// a ticket still enqueued is worth waiting for, and any other ticket —
    /// abandoned, never minted, already taken, or enqueued behind a processed
    /// `Shutdown` — has failed and will never be answered.
    fn find_delivered(&self, ticket: u64) -> (r: Option<usize>)
        ensures
            match r {
                Some(i) => i < self.delivered_seq().len() && self.delivered_seq()[i as int].0
                    == ticket,
                None => !delivered_has(self.delivered_seq(), ticket),
            },
    {
        let mut idx: usize = 0;
        while idx < self.delivered.len()
            invariant
                idx <= self.delivered@.len(),
                forall|i: int| 0 <= i < idx ==> (#[trigger] self.delivered@[i]).0 != ticket,
            decreases self.delivered@.len() - idx,
        {
            if self.delivered[idx].0 == ticket {
                return Some(idx);
            }
            idx += 1;
        }
        None
    }

    fn queue_carries(&self, ticket: u64) -> (r: bool)
        ensures
            r == queue_has_ticket(self.pending(), ticket),
    {
        let mut jdx: usize = 0;
        while jdx < self.queue.len()
            invariant
                jdx <= self.queue@.len(),
                forall|i: int| 0 <= i < jdx ==> (#[trigger] self.queue@[i]).ticket != Some(ticket),
            decreases self.queue@.len() - jdx,
        {
            let has = match self.queue[jdx].ticket {
                Some(t) => t == ticket,
                None => false,
            };
            if has {
                return true;
            }
            jdx += 1;
        }
        false
    }

    /// A delivered reply was taken off the ledger, exactly once.
    pub open spec fn reply_taken(pre: Mailbox, post: Mailbox, ticket: u64, rep: Reply) -> bool {
        exists|i: int|
            0 <= i < pre.delivered_seq().len() && pre.delivered_seq()[i] == (ticket, rep)
                && post.delivered_seq() == pre.delivered_seq().remove(i)
    }

    /// Looks after a reply ticket: the delivered answer is handed out (once),
    /// a ticket still enqueued is worth waiting for, and any other ticket —
    /// abandoned, never minted, already taken, or enqueued behind a processed
    /// `Shutdown` — has failed and will never be answered.
    pub fn take_reply(&mut self, ticket: u64) -> (r: ReplyWait)
        requires
            old(self).wf(),
        ensures
            final(self).wf(),
            final(self).phase() == old(self).phase(),
            final(self).pending() == old(self).pending(),
            final(self).minted() == old(self).minted(),
            final(self).abandoned_seq() == old(self).abandoned_seq(),
            final(self).archive() == old(self).archive(),
            r is Ready <==> delivered_has(old(self).delivered_seq(), ticket),
            r matches ReplyWait::Ready(rep) ==> Self::reply_taken(
                *old(self),
                *final(self),
                ticket,
                rep,
            ),
            !(r is Ready) ==> final(self).delivered_seq() == old(self).delivered_seq(),
            r is Waiting <==> !delivered_has(old(self).delivered_seq(), ticket)
                && queue_has_ticket(old(self).pending(), ticket),
    {
        match self.find_delivered(ticket) {
            Some(idx) => {
                let ghost d0 = self.delivered@;
                let entry = self.delivered.remove(idx);
                proof {
                    assert(delivered_has(d0, ticket));
                    assert(d0[idx as int] == (ticket, entry.1));
                    assert(self.delivered@ =~= d0.remove(idx as int));
                    assert forall|a: int, b: int|
                        0 <= a < self.delivered@.len() && 0 <= b < self.abandoned@.len() implies (
                        #[trigger] self.delivered@[a]).0 != (#[trigger] self.abandoned@[b]) by {
                        if a < idx {
                            assert(self.delivered@[a] == d0[a]);
                        } else {
                            assert(self.delivered@[a] == d0[a + 1]);
                        }
                    }
                }
                ReplyWait::Ready(entry.1)
            },
            None => {
                if self.queue_carries(ticket) {
                    ReplyWait::Waiting
                } else {
                    ReplyWait::Failed
                }
            },
        }
    }

    /// Drains the inbox: processes messages in arrival order until it is
    /// empty or a `Shutdown` stopped the loop. The trace of dispatched
    /// messages is exactly the pending prefix up to the first `Shutdown`.
    pub fn run_until_idle(&mut self, behavior: &mut Box<dyn Actor>) -> (trace: Ghost<Seq<Message>>)
        requires
            old(self).wf(),
        ensures
            final(self).wf(),
            final(self).minted() == old(self).minted(),
            final(self).pending().len() == 0 || final(self).phase() is Stopped,
            old(self).phase() is Stopped ==> *final(self) == *old(self) && trace@
                == Seq::<Message>::empty(),
            old(self).phase() is Running ==> trace@ == dispatched_bodies(old(self).pending())
                && final(self).pending().len() == 0 && (final(self).phase() is Stopped
                <==> has_shutdown(old(self).pending())),
            final(self).delivered_seq().len() >= old(self).delivered_seq().len(),
            forall|j: int|
                0 <= j < old(self).delivered_seq().len() ==> final(self).delivered_seq()[j] == old(
                    self,
                ).delivered_seq()[j],
            forall|t: u64|
                #![auto]
                queue_has_ticket(old(self).pending(), t) ==> delivered_has(
                    final(self).delivered_seq(),
                    t,
                ) || final(self).abandoned_seq().contains(t),
            forall|t: u64|
                #![auto]
                ticket_archived(final(self).archive(), t) ==> ticket_archived(
                    old(self).archive(),
                    t,
                ) || delivered_has(final(self).delivered_seq(), t),
    {
        let ghost orig = self.pending();
        let ghost mut trace: Seq<Message> = Seq::empty();
        if !self.is_running() {
            return Ghost(trace);
        }
        proof {
            assert(orig.skip(0) =~= orig);
        }
        let ghost mut seen_shutdown: bool = false;
        while self.is_running() && self.pending_len() > 0
            invariant
                self.wf(),
                self.minted() == old(self).minted(),
                self.delivered_seq().len() >= old(self).delivered_seq().len(),
                forall|j: int|
                    0 <= j < old(self).delivered_seq().len() ==> self.delivered_seq()[j] == old(
                        self,
                    ).delivered_seq()[j],
                forall|t: u64|
                    #![auto]
                    queue_has_ticket(orig, t) ==> queue_has_ticket(self.pending(), t)
                        || delivered_has(self.delivered_seq(), t)
                        || self.abandoned_seq().contains(t),
                forall|t: u64|
                    #![auto]
                    ticket_archived(self.archive(), t) ==> ticket_archived(old(self).archive(), t)
                        || delivered_has(self.delivered_seq(), t),
                self.phase() is Running ==> !seen_shutdown && trace + dispatched_bodies(
                    self.pending(),
                ) == dispatched_bodies(orig) && (has_shutdown(orig) <==> has_shutdown(
                    self.pending(),
                )),
                self.phase() is Stopped ==> seen_shutdown && trace == dispatched_bodies(orig)
                    && has_shutdown(orig),
            decreases self.pending().len(),
        {
            let ghost pre = self.pending();
            let ghost pre_mb = *self;
            let outcome = self.process_one(behavior);
            proof {
                assert forall|t: u64|
                    #![auto]
                    queue_has_ticket(orig, t) implies queue_has_ticket(self.pending(), t)
                        || delivered_has(self.delivered_seq(), t)
                        || self.abandoned_seq().contains(t) by {
                    if queue_has_ticket(pre, t) {
                        let j = choose|j: int|
                            0 <= j < pre.len() && (#[trigger] pre[j]).ticket == Some(t);
                        if pre[0].body is Shutdown {
                            assert(self.abandoned_seq().contains(t));
                        } else {
                            if j == 0 {
                                assert(pre[0].ticket == Some(t));
                                if exists|rep: Reply|
                                    self.delivered_seq() == pre_mb.delivered_seq().push(
                                        (t, rep),
                                    ) && self.archive() == pre_mb.archive().push((t, rep))
                                        && self.abandoned_seq() == pre_mb.abandoned_seq() {
                                    let rep = choose|rep: Reply|
                                        self.delivered_seq() == pre_mb.delivered_seq().push(
                                            (t, rep),
                                        ) && self.archive() == pre_mb.archive().push((t, rep))
                                            && self.abandoned_seq() == pre_mb.abandoned_seq();
                                    assert(self.delivered_seq()[pre_mb.delivered_seq().len() as int]
                                        == (t, rep));
                                } else {
                                    assert(self.abandoned_seq() == pre_mb.abandoned_seq().push(t));
                                    assert(self.abandoned_seq()[pre_mb.abandoned_seq().len() as int]
                                        == t);
                                }
                            } else {
                                assert(self.pending()[j - 1] == pre[j]);
                            }
                        }
                    } else if delivered_has(pre_mb.delivered_seq(), t) {
                        let j = choose|j: int|
                            0 <= j < pre_mb.delivered_seq().len() && (
                            #[trigger] pre_mb.delivered_seq()[j]).0 == t;
                        assert(self.delivered_seq()[j] == pre_mb.delivered_seq()[j]);
                    } else {
                        assert(pre_mb.abandoned_seq().contains(t));
                        if pre[0].body is Shutdown {
                        } else {
                            let j = choose|j: int|
                                0 <= j < pre_mb.abandoned_seq().len()
                                    && pre_mb.abandoned_seq()[j] == t;
                            assert(self.abandoned_seq()[j] == t);
                        }
                    }
                }
                assert forall|t: u64|
                    #![auto]
                    ticket_archived(self.archive(), t) implies ticket_archived(
                    old(self).archive(),
                    t,
                ) || delivered_has(self.delivered_seq(), t) by {
                    let j = choose|j: int|
                        0 <= j < self.archive().len() && (#[trigger] self.archive()[j]).0 == t;
                    if j < pre_mb.archive().len() {
                        assert(pre_mb.archive()[j].0 == t);
                        assert(ticket_archived(pre_mb.archive(), t));
                        if delivered_has(pre_mb.delivered_seq(), t) {
                            let i = choose|i: int|
                                0 <= i < pre_mb.delivered_seq().len() && (
                                #[trigger] pre_mb.delivered_seq()[i]).0 == t;
                            assert(self.delivered_seq()[i] == pre_mb.delivered_seq()[i]);
                        }
                    } else {
                        assert(self.delivered_seq()[self.delivered_seq().len() - 1].0 == t);
                    }
                }
                if pre[0].body is Shutdown {
                    assert(outcome == ProcessOutcome::ShutDown);
                    assert(dispatched_bodies(pre) =~= Seq::<Message>::empty());
                    seen_shutdown = true;
                    assert(pre[0].body is Shutdown);
                } else {
                    assert(outcome == ProcessOutcome::Handled);
                    assert(dispatched_bodies(pre) == seq![pre[0].body] + dispatched_bodies(
                        pre.skip(1),
                    ));
                    trace = trace + seq![pre[0].body];
                    assert(trace + dispatched_bodies(self.pending()) =~= dispatched_bodies(orig));
                    if has_shutdown(pre) {
                        let i = choose|i: int|
                            0 <= i < pre.len() && (#[trigger] pre[i]).body is Shutdown;
                        assert(pre.skip(1)[i - 1] == pre[i]);
                    }
                    if has_shutdown(pre.skip(1)) {
                        let i = choose|i: int|
                            0 <= i < pre.skip(1).len() && (#[trigger] pre.skip(1)[i]).body
                                is Shutdown;
                        assert(pre[i + 1] == pre.skip(1)[i]);
                    }
                }
            }
        }
        proof {
            if self.phase() is Running {
                assert(dispatched_bodies(self.pending()) =~= Seq::<Message>::empty());
                assert(trace =~= dispatched_bodies(orig));
                if has_shutdown(orig) {
                    assert(has_shutdown(self.pending()));
                    let i = choose|i: int|
                        0 <= i < self.pending().len() && (#[trigger] self.pending()[i]).body
                            is Shutdown;
                    assert(false);
                }
            }
        }
        Ghost(trace)
    }

    /// A canned correlated call: asks for a health answer on a fresh ticket,
    /// drains the inbox, and reads the reply. The answer is `Ok(b)` exactly
    /// when the drain delivered `Health(b)` on this call's own ticket, as the
    /// reply archive records; once the actor has shut down, the call fails —
    /// the inbox is abandoned.
    pub fn health_check(&mut self, behavior: &mut Box<dyn Actor>) -> (r: Result<
        bool,
        AgenticFlowError,
    >)
        requires
            old(self).wf(),
            old(self).minted() < u64::MAX,
        ensures
            final(self).wf(),
            old(self).phase() is Stopped ==> r is Err && final(self).phase() == old(self).phase()
                && final(self).pending() == old(self).pending() && final(self).minted() == old(
                self,
            ).minted() && final(self).delivered_seq() == old(self).delivered_seq() && final(self).abandoned_seq() == old(self).abandoned_seq() && final(self).archive() == old(
                self,
            ).archive(),
            old(self).phase() is Running ==> final(self).pending().len() == 0 && final(self).minted() == old(self).minted() + 1,
            r matches Ok(b) ==> reply_archived(
                final(self).archive(),
                (old(self).minted(), Reply::Health(b)),
            ),
            old(self).phase() is Running && r is Err ==> (forall|b: bool|
                !reply_archived(final(self).archive(), (old(self).minted(), Reply::Health(b)))),
    {
        let ghost t = old(self).minted();
        let ticket = match self.call_open(Message::HealthCheck) {
            Ok(ticket) => ticket,
            Err(e) => {
                return Err(e);
            },
        };
        let ghost opened = *self;
        let _ = self.run_until_idle(behavior);
        let ghost drained = *self;
        match self.take_reply(ticket) {
            ReplyWait::Ready(Reply::Health(b)) => {
                proof {
                    let i = choose|i: int|
                        0 <= i < drained.delivered_seq().len() && drained.delivered_seq()[i] == (
                        t,
                        Reply::Health(b),
                    ) && self.delivered_seq() == drained.delivered_seq().remove(i);
                    assert(reply_archived(drained.archive(), drained.delivered_seq()[i]));
                }
                Ok(b)
            },
            ReplyWait::Ready(rep) => {
                proof {
                    assert(!(rep is Health));
                    let i = choose|i: int|
                        0 <= i < drained.delivered_seq().len() && drained.delivered_seq()[i] == (
                        t,
                        rep,
                    ) && self.delivered_seq() == drained.delivered_seq().remove(i);
                    assert(reply_archived(drained.archive(), (t, rep)));
                    assert forall|b: bool|
                        !reply_archived(self.archive(), (t, Reply::Health(b))) by {
                        if reply_archived(self.archive(), (t, Reply::Health(b))) {
                            let j1 = choose|j1: int|
                                0 <= j1 < self.archive().len() && self.archive()[j1] == (
                                t,
                                Reply::Health(b),
                            );
                            let j2 = choose|j2: int|
                                0 <= j2 < self.archive().len() && self.archive()[j2] == (t, rep);
                            assert(j1 == j2);
                            assert(false);
                        }
                    }
                }
                Err(AgenticFlowError::NetworkError("Failed to receive response".to_owned()))
            },
            _ => {
                proof {
                    assert(!delivered_has(drained.delivered_seq(), t));
                    assert forall|b: bool|
                        !reply_archived(self.archive(), (t, Reply::Health(b))) by {
                        if reply_archived(self.archive(), (t, Reply::Health(b))) {
                            let j = choose|j: int|
                                0 <= j < self.archive().len() && self.archive()[j] == (
                                t,
                                Reply::Health(b),
                            );
                            assert(self.archive()[j].0 == t);
                            assert(ticket_archived(drained.archive(), t));
                            if ticket_archived(opened.archive(), t) {
                                let j2 = choose|j2: int|
                                    0 <= j2 < opened.archive().len() && (
                                    #[trigger] opened.archive()[j2]).0 == t;
                                assert(false);
                            } else {
                                assert(delivered_has(drained.delivered_seq(), t));
                                assert(false);
                            }
                        }
                    }
                }
                Err(AgenticFlowError::NetworkError("Failed to receive response".to_owned()))
            },
        }
    }
}

/// One spawned actor: its identity, its inbox, and its behavior. The
/// embedding program gives each task's loop its own concurrent task; here the
/// caller steps the loop through the mailbox.
pub struct ActorTask {
    pub id: ActorId,
    pub mailbox: Mailbox,
    pub behavior: Box<dyn Actor>,
}

/// The process-wide registry of spawned actors. Identities are minted from a
/// per-system counter, so that every registered actor's identity is unique by
/// contract; `ActorId::new` stays for identities minted outside a system.
pub struct ActorSystem {
    actors: Vec<ActorTask>,
    next_serial: u128,
}

impl ActorSystem {
    /// The spawned actors, oldest first.
    pub closed spec fn actors_seq(&self) -> Seq<ActorTask> {
        self.actors@
    }

    /// How many identities were ever minted.
    pub closed spec fn serial(&self) -> u128 {
        self.next_serial
    }

    /// Every registered identity is below the mint counter.
    pub closed spec fn ids_minted(&self) -> bool {
        forall|i: int|
            0 <= i < self.actors@.len() ==> (#[trigger] self.actors@[i]).id.value
                < self.next_serial
    }

    /// Well-formed: every mailbox is well-formed and no two registered actors
    /// share an identity.
    pub open spec fn wf(&self) -> bool {
        &&& forall|i: int|
            0 <= i < self.actors_seq().len() ==> (#[trigger] self.actors_seq()[i]).mailbox.wf()
        &&& forall|i: int, j: int|
            0 <= i < j < self.actors_seq().len() ==> (#[trigger] self.actors_seq()[i]).id != (
            #[trigger] self.actors_seq()[j]).id
        &&& self.ids_minted()
    }

    pub fn new() -> (r: Self)
        ensures
            r.wf(),
            r.actors_seq() == Seq::<ActorTask>::empty(),
            r.serial() == 0,
    {
        let r = ActorSystem { actors: Vec::new(), next_serial: 0 };
        proof {
            assert(r.actors_seq() =~= Seq::<ActorTask>::empty());
        }
        r
    }

    /// Mints a fresh identity — one no registered actor carries — initializes
    /// the behavior, and registers the actor. An actor whose initialization
    /// failed is registered with a stopped mailbox: sends to it fail, and it
    /// never processes a message.
    pub fn spawn_actor(&mut self, behavior: Box<dyn Actor>) -> (r: ActorId)
        requires
            old(self).wf(),
            old(self).serial() < u128::MAX,
        ensures
            final(self).wf(),
            final(self).serial() == old(self).serial() + 1,
            final(self).actors_seq().len() == old(self).actors_seq().len() + 1,
            forall|i: int|
                0 <= i < old(self).actors_seq().len() ==> final(self).actors_seq()[i] == old(
                    self,
                ).actors_seq()[i],
            forall|i: int|
                0 <= i < old(self).actors_seq().len() ==> (#[trigger] old(self).actors_seq()[i]).id
                    != r,
            final(self).actors_seq().last().id == r,
            final(self).actors_seq().last().mailbox.pending() == Seq::<Envelope>::empty(),
            final(self).actors_seq().last().mailbox.minted() == 0,
            final(self).actors_seq().last().mailbox.delivered_seq() == Seq::<(
                u64,
                Reply,
            )>::empty(),
            final(self).actors_seq().last().mailbox.abandoned_seq() == Seq::<u64>::empty(),
    {
        let ghost a_before = self.actors@;
        let id = ActorId { value: self.next_serial };
        self.next_serial = self.next_serial + 1;
        let mut behavior = behavior;
        let init = behavior.initialize();
        let mut mailbox = Mailbox::new();
        if init.is_err() {
            mailbox.mark_stopped();
        }
        let task = ActorTask { id, mailbox, behavior };
        let ghost gtask = task;
        self.actors.push(task);
        proof {
            lemma_task_push(a_before, gtask);
        }
        id
    }

    /// The position of the actor with this identity, if any is registered.
    pub fn find_actor(&self, id: ActorId) -> (r: Option<usize>)
        ensures
            match r {
                Some(i) => i < self.actors_seq().len() && self.actors_seq()[i as int].id == id,
                None => forall|i: int|
                    0 <= i < self.actors_seq().len() ==> (#[trigger] self.actors_seq()[i]).id
                        != id,
            },
    {
        let mut idx: usize = 0;
        while idx < self.actors.len()
            invariant
                idx <= self.actors@.len(),
                forall|i: int| 0 <= i < idx ==> (#[trigger] self.actors@[i]).id != id,
            decreases self.actors@.len() - idx,
        {
            if self.actors[idx].id.value == id.value {
                return Some(idx);
            }
            idx += 1;
        }
        None
    }

    /// The registered actor with this identity, if any.
    pub fn get_actor(&self, id: ActorId) -> (r: Option<&ActorTask>)
        ensures
            match r {
                Some(t) => t.id == id && exists|i: int|
                    0 <= i < self.actors_seq().len() && self.actors_seq()[i] == *t,
                None => forall|i: int|
                    0 <= i < self.actors_seq().len() ==> (#[trigger] self.actors_seq()[i]).id
                        != id,
            },
    {
        match self.find_actor(id) {
            Some(i) => Some(&self.actors[i]),
            None => None,
        }
    }

    /// Mutable access to the actor at a position, for stepping its loop.
    pub fn actor_at(&mut self, i: usize) -> (r: &mut ActorTask)
        requires
            i < old(self).actors_seq().len(),
        ensures
            *r == old(self).actors_seq()[i as int],
            final(self).actors_seq() == old(self).actors_seq().update(i as int, *final(r)),
    {
        &mut self.actors[i]
    }

    /// Sends `Shutdown` to every registered actor, drains each inbox until
    /// its loop has stopped, and clears the registry.
    pub fn shutdown_all(&mut self) -> (r: Result<(), AgenticFlowError>)
        requires
            old(self).wf(),
        ensures
            final(self).wf(),
            r is Ok,
            final(self).actors_seq() == Seq::<ActorTask>::empty(),
    {
        let total = self.actors.len();
        let mut idx: usize = 0;
        while idx < total
            invariant
                idx <= total,
                total == self.actors@.len(),
                forall|i: int|
                    0 <= i < self.actors@.len() ==> (#[trigger] self.actors@[i]).mailbox.wf(),
            decreases total - idx,
        {
            let task = &mut self.actors[idx];
            let _ = task.mailbox.send(Message::Shutdown);
            let _ = task.mailbox.run_until_idle(&mut task.behavior);
            idx += 1;
        }
        self.actors = Vec::new();
        proof {
            assert(final(self).actors_seq() =~= Seq::<ActorTask>::empty());
        }
        Ok(())
    }
}

/// The coordinating component's wiring: which actors stand for the connection
/// manager, the registry, the executor and the planner.
pub struct CoordinatorActor {
    pub mcp_manager: ActorId,
    pub tool_registry: ActorId,
    pub executor_handle: Option<ActorId>,
    pub planner_handle: Option<ActorId>,
}

impl CoordinatorActor {
    pub fn new(mcp_manager: ActorId, tool_registry: ActorId) -> (r: Self)
        ensures
            r.mcp_manager == mcp_manager,
            r.tool_registry == tool_registry,
            r.executor_handle is None,
            r.planner_handle is None,
    {
        CoordinatorActor { mcp_manager, tool_registry, executor_handle: None, planner_handle: None }
    }

    pub fn set_executor(&mut self, executor: ActorId)
        ensures
            *final(self) == (CoordinatorActor { executor_handle: Some(executor), ..*old(self) }),
    {
        self.executor_handle = Some(executor);
    }

    pub fn set_planner(&mut self, planner: ActorId)
        ensures
            *final(self) == (CoordinatorActor { planner_handle: Some(planner), ..*old(self) }),
    {
        self.planner_handle = Some(planner);
    }
}

proof fn lemma_task_push(s: Seq<ActorTask>, t: ActorTask)
    ensures
        s.push(t).len() == s.len() + 1,
        s.push(t).last() == t,
        forall|i: int| 0 <= i < s.len() ==> s.push(t)[i] == s[i],
{
}

} // verus!
