//! The writer of an index: a bounded queue of operations, the producers that
//! wait for room in it, and the worker that drains it in waves.

use crate::document::{Document, Term};
use vstd::prelude::*;

verus! {

/// Number of operations a writer's queue admits before producers must wait.
pub const WRITER_QUEUE_CAPACITY: usize = 20;

/// An operation on the index, applied by the writer in the order of arrival.
#[derive(Debug)]
pub enum WriterOp {
    /// Publishes every change made so far to readers.
    Commit,
    /// Discards every change made since the last commit.
    Rollback,
    /// Adds a document, replacing the one with the same primary key.
    AddDocument(Document),
    /// Deletes the documents a term selects.
    DeleteTerm(Term),
    /// Deletes every document.
    DeleteAll,
    /// Stops the writer.
    Shutdown,
}

/// One call on the engine's index writer.
#[derive(Debug)]
pub enum EngineCall {
    Commit,
    Rollback,
    DeleteAll,
    Delete(Term),
    Add(Document),
}

/// What the worker does with a message.
#[derive(Debug)]
pub enum Handling {
    /// The worker stops.
    Stop,
    /// The worker makes these calls, in order, and goes on.
    Apply(Vec<EngineCall>),
}

/// The calls that carry out `op` on the engine, or `None` for the operation
/// that stops the worker.  A document replaces its predecessor: whatever is
/// stored under its primary key is deleted before it is added.
pub open spec fn calls_for(op: WriterOp) -> Option<Seq<EngineCall>> {
    match op {
        WriterOp::Shutdown => None,
        WriterOp::Commit => Some(seq![EngineCall::Commit]),
        WriterOp::Rollback => Some(seq![EngineCall::Rollback]),
        WriterOp::DeleteAll => Some(seq![EngineCall::DeleteAll]),
        WriterOp::DeleteTerm(term) => Some(seq![EngineCall::Delete(term)]),
        WriterOp::AddDocument(doc) => Some(
            seq![EngineCall::Delete(Term::PrimaryKey(doc.id)), EngineCall::Add(doc)],
        ),
    }
}

impl WriterOp {
    /// The name under which the operation is reported.
    pub fn label(&self) -> (name: &'static str)
        ensures
            name@ == match *self {
                WriterOp::Commit => "COMMIT"@,
                WriterOp::Rollback => "ROLLBACK"@,
                WriterOp::AddDocument(_) => "ADD-DOCUMENT"@,
                WriterOp::DeleteTerm(_) => "DELETE-TERM"@,
                WriterOp::DeleteAll => "DELETE-ALL"@,
                WriterOp::Shutdown => "SHUTDOWN"@,
            },
    {
        match self {
            WriterOp::Commit => "COMMIT",
            WriterOp::Rollback => "ROLLBACK",
            WriterOp::AddDocument(_) => "ADD-DOCUMENT",
            WriterOp::DeleteTerm(_) => "DELETE-TERM",
            WriterOp::DeleteAll => "DELETE-ALL",
            WriterOp::Shutdown => "SHUTDOWN",
        }
    }
}

/// Where a writer is in its life.
#[derive(Clone, Copy, Debug, PartialEq, Eq, Structural)]
pub enum Lifecycle {
    /// Operations are accepted and applied.
    Running,
    /// The writer has been told to stop and is releasing its waiters.
    Draining,
    /// The writer is gone.
    Exited,
}

/// The state of a writer as its contracts see it.
pub struct MailboxState<W> {
    pub lifecycle: Lifecycle,
    /// Whether a producer still holds the writer.
    pub connected: bool,
    /// The operations that wait to be applied, oldest first.
    pub queue: Seq<WriterOp>,
    /// The producers that wait for room, in the order they arrived.
    pub waiters: Seq<W>,
}

/// The position of the first `Shutdown` in `queue`, or its length where there is none.
pub open spec fn first_shutdown(queue: Seq<WriterOp>) -> int
    decreases queue.len(),
{
    if queue.len() == 0 {
        0
    } else if queue[0] is Shutdown {
        0
    } else {
        1 + first_shutdown(queue.drop_first())
    }
}

/// `first_shutdown` is the least position that holds a `Shutdown`.
pub proof fn lemma_first_shutdown(queue: Seq<WriterOp>)
    ensures
        0 <= first_shutdown(queue) <= queue.len(),
        forall|i: int| 0 <= i < first_shutdown(queue) ==> !(#[trigger] queue[i] is Shutdown),
        first_shutdown(queue) < queue.len() ==> queue[first_shutdown(queue)] is Shutdown,
    decreases queue.len(),
{
    if queue.len() > 0 && !(queue[0] is Shutdown) {
        let rest = queue.drop_first();
        lemma_first_shutdown(rest);
        assert forall|i: int| 0 <= i < first_shutdown(queue) implies !(#[trigger] queue[i]
            is Shutdown) by {
            if i > 0 {
                assert(queue[i] == rest[i - 1]);
            }
        }
        if first_shutdown(queue) < queue.len() {
            assert(queue[first_shutdown(queue)] == rest[first_shutdown(rest)]);
        }
    }
}

/// A position that holds the first `Shutdown` is `first_shutdown`.
pub proof fn lemma_first_shutdown_at(queue: Seq<WriterOp>, k: int)
    requires
        0 <= k <= queue.len(),
        forall|i: int| 0 <= i < k ==> !(#[trigger] queue[i] is Shutdown),
        k < queue.len() ==> queue[k] is Shutdown,
    ensures
        first_shutdown(queue) == k,
{
    lemma_first_shutdown(queue);
    let f = first_shutdown(queue);
    if f < k {
        assert(!(queue[f] is Shutdown));
    } else if k < f {
        assert(!(queue[k] is Shutdown));
    }
}

/// What became of an operation a producer offered.
#[derive(Debug)]
pub enum SendOutcome<W> {
    /// The operation is queued.  The producer's waiter was not needed.
    Sent(W),
    /// The queue is full.  The waiter is registered and will be woken once
    /// the worker has made room; the producer then offers the operation again.
    Parked(WriterOp),
    /// The writer has shut down and takes no more operations.
    Closed(WriterOp, W),
}

/// What became of a list of documents a producer offered.
#[derive(Debug)]
pub enum ManyOutcome<W> {
    /// Every document is queued.  The producer's waiter was not needed.
    Sent(W),
    /// The queue is full.  The waiter is registered; these documents are
    /// still to be offered.
    Parked(Vec<Document>),
    /// The writer has shut down and takes no more operations.
    Closed(Vec<Document>, W),
}

/// The operations that add `documents`, in order.
pub open spec fn additions(documents: Seq<Document>) -> Seq<WriterOp> {
    Seq::new(documents.len(), |i: int| WriterOp::AddDocument(documents[i]))
}

/// The messages of one wave.
#[derive(Debug)]
pub struct Batch {
    /// The operations to apply, oldest first.
    pub ops: Vec<WriterOp>,
    /// Whether the worker stops after this wave.
    pub shutdown: bool,
}

/// The worker side of a writer: the operations that wait to be applied and
/// the producers that wait for room.
pub struct IndexWriterWorker<W> {
    lifecycle: Lifecycle,
    connected: bool,
    queue: Vec<WriterOp>,
    waiters: Vec<W>,
}

/// Whether a writer state obeys the rules of the queue: it never holds more
/// than its capacity, it is empty once the writer stops accepting, and no
/// producer waits on a writer that is gone.
pub open spec fn state_ok<W>(state: MailboxState<W>) -> bool {
    &&& state.queue.len() <= WRITER_QUEUE_CAPACITY
    &&& state.lifecycle != Lifecycle::Running ==> state.queue.len() == 0
    &&& state.lifecycle == Lifecycle::Exited ==> state.waiters.len() == 0
}

/// The state after a producer offers `op` with `waiter` at hand.
pub open spec fn after_send<W>(state: MailboxState<W>, op: WriterOp, waiter: W) -> MailboxState<W> {
    if state.lifecycle != Lifecycle::Running || !state.connected {
        state
    } else if state.queue.len() < WRITER_QUEUE_CAPACITY {
        MailboxState { queue: state.queue.push(op), ..state }
    } else {
        MailboxState { waiters: state.waiters.push(waiter), ..state }
    }
}

/// Whether a wave that starts in `state` is the writer's last.
pub open spec fn wave_stops<W>(state: MailboxState<W>) -> bool {
    state.lifecycle != Lifecycle::Running || first_shutdown(state.queue) < state.queue.len()
        || !state.connected
}

/// The operations a wave that starts in `state` hands to the engine.
pub open spec fn wave_ops<W>(state: MailboxState<W>) -> Seq<WriterOp> {
    state.queue.take(first_shutdown(state.queue))
}

/// The state after the worker has taken the messages of a wave.
pub open spec fn after_wave<W>(state: MailboxState<W>) -> MailboxState<W> {
    MailboxState {
        lifecycle: if state.lifecycle == Lifecycle::Running && wave_stops(state) {
            Lifecycle::Draining
        } else {
            state.lifecycle
        },
        queue: Seq::empty(),
        ..state
    }
}

impl<W> IndexWriterWorker<W> {
    #[verifier::type_invariant]
    spec fn inv(self) -> bool {
        state_ok(
            MailboxState {
                lifecycle: self.lifecycle,
                connected: self.connected,
                queue: self.queue@,
                waiters: self.waiters@,
            },
        )
    }

    /// The state of the writer.
    pub closed spec fn view(&self) -> MailboxState<W> {
        MailboxState {
            lifecycle: self.lifecycle,
            connected: self.connected,
            queue: self.queue@,
            waiters: self.waiters@,
        }
    }

    /// A running writer with nothing queued and nobody waiting.
    pub fn new() -> (worker: Self)
        ensures
            worker@ == (MailboxState::<W> {
                lifecycle: Lifecycle::Running,
                connected: true,
                queue: Seq::empty(),
                waiters: Seq::empty(),
            }),
    {
        IndexWriterWorker {
            lifecycle: Lifecycle::Running,
            connected: true,
            queue: Vec::new(),
            waiters: Vec::new(),
        }
    }

    /// Where the writer is in its life.
    pub fn lifecycle(&self) -> (stage: Lifecycle)
        ensures
            stage == self@.lifecycle,
    {
        self.lifecycle
    }

    /// The number of operations that wait to be applied.  It never exceeds
    /// [`WRITER_QUEUE_CAPACITY`].
    pub fn queued(&self) -> (n: usize)
        ensures
            n == self@.queue.len(),
            n <= WRITER_QUEUE_CAPACITY,
            state_ok(self@),
    {
        proof {
            use_type_invariant(self);
        }
        self.queue.len()
    }

    /// The number of producers that wait for room.
    pub fn waiting(&self) -> (n: usize)
        ensures
            n == self@.waiters.len(),
    {
        self.waiters.len()
    }

    /// Takes `op` from a producer.
    ///
    /// A writer that has shut down refuses it.  Otherwise the operation goes
    /// to the back of the queue if the queue has room; if it has none, the
    /// producer's `waiter` is registered behind those already waiting and the
    /// operation is handed back to be offered again after the wake-up.
    pub fn offer(&mut self, op: WriterOp, waiter: W) -> (outcome: SendOutcome<W>)
        ensures
            final(self)@ == after_send(old(self)@, op, waiter),
            state_ok(final(self)@),
            match outcome {
                SendOutcome::Closed(back, unused) => (old(self)@.lifecycle != Lifecycle::Running
                    || !old(self)@.connected) && back == op && unused == waiter,
                SendOutcome::Sent(unused) => old(self)@.lifecycle == Lifecycle::Running && old(self)@.connected && old(self)@.queue.len() < WRITER_QUEUE_CAPACITY && unused == waiter,
                SendOutcome::Parked(back) => old(self)@.lifecycle == Lifecycle::Running && old(self)@.connected && old(self)@.queue.len() == WRITER_QUEUE_CAPACITY && back == op,
            },
    {
        proof {
            use_type_invariant(&*self);
        }
        if self.lifecycle != Lifecycle::Running || !self.connected {
            return SendOutcome::Closed(op, waiter);
        }
        let mut holder = Self::new();
        std::mem::swap(&mut holder, self);
        let IndexWriterWorker { lifecycle, connected, mut queue, mut waiters } = holder;
        if queue.len() < WRITER_QUEUE_CAPACITY {
            queue.push(op);
            *self = IndexWriterWorker { lifecycle, connected, queue, waiters };
            SendOutcome::Sent(waiter)
        } else {
            waiters.push(waiter);
            *self = IndexWriterWorker { lifecycle, connected, queue, waiters };
            SendOutcome::Parked(op)
        }
    }

    /// Takes documents from a producer, in order, for as long as the queue
    /// has room.  If all fit, the waiter is handed back unused; otherwise it
    /// is registered and the documents that did not fit are handed back, to
    /// be offered again after the wake-up.  A writer that has shut down
    /// takes none.
    pub fn offer_documents(&mut self, documents: Vec<Document>, waiter: W) -> (outcome:
        ManyOutcome<W>)
        ensures
            state_ok(final(self)@),
            final(self)@.lifecycle == old(self)@.lifecycle,
            final(self)@.connected == old(self)@.connected,
            match outcome {
                ManyOutcome::Closed(back, unused) => (old(self)@.lifecycle != Lifecycle::Running
                    || !old(self)@.connected) && back@ == documents@ && unused == waiter && final(self)@ == old(self)@,
                ManyOutcome::Sent(unused) => old(self)@.lifecycle == Lifecycle::Running && old(self)@.connected && unused == waiter && old(self)@.queue.len() + documents@.len()
                    <= WRITER_QUEUE_CAPACITY && final(self)@.queue == old(self)@.queue
                    + additions(documents@) && final(self)@.waiters == old(self)@.waiters,
                ManyOutcome::Parked(back) => old(self)@.lifecycle == Lifecycle::Running && old(self)@.connected && old(self)@.queue.len() + documents@.len() > WRITER_QUEUE_CAPACITY
                    && final(self)@.queue.len() == WRITER_QUEUE_CAPACITY && final(self)@.queue
                    == old(self)@.queue + additions(
                    documents@.take(WRITER_QUEUE_CAPACITY - old(self)@.queue.len()),
                ) && back@ == documents@.skip(WRITER_QUEUE_CAPACITY - old(self)@.queue.len())
                    && final(self)@.waiters == old(self)@.waiters.push(waiter),
            },
    {
        proof {
            use_type_invariant(&*self);
        }
        if self.lifecycle != Lifecycle::Running || !self.connected {
            return ManyOutcome::Closed(documents, waiter);
        }
        let mut holder = Self::new();
        std::mem::swap(&mut holder, self);
        let IndexWriterWorker { lifecycle, connected, mut queue, mut waiters } = holder;
        let ghost before = queue@;
        let ghost all = documents@;
        let mut rest = reversed(documents);
        let mut taken: usize = 0;
        proof {
            assert(all.take(0) =~= Seq::<Document>::empty());
            assert(before + additions(all.take(0)) =~= before);
            assert(all.skip(0) =~= all);
        }
        while queue.len() < WRITER_QUEUE_CAPACITY && rest.len() > 0
            invariant
                taken <= all.len(),
                before.len() + taken <= WRITER_QUEUE_CAPACITY,
                queue@ == before + additions(all.take(taken as int)),
                rest@ == all.skip(taken as int).reverse(),
            decreases rest@.len(),
        {
            match rest.pop() {
                Some(document) => {
                    proof {
                        assert(document == all[taken as int]);
                        assert(rest@ =~= all.skip(taken + 1).reverse());
                        assert(all.take(taken + 1) =~= all.take(taken as int).push(document));
                        assert(additions(all.take(taken + 1)) =~= additions(
                            all.take(taken as int),
                        ).push(WriterOp::AddDocument(document)));
                    }
                    queue.push(WriterOp::AddDocument(document));
                    taken += 1;
                },
                None => {},
            }
        }
        if rest.len() == 0 {
            proof {
                assert(all.take(all.len() as int) =~= all);
            }
            *self = IndexWriterWorker { lifecycle, connected, queue, waiters };
            ManyOutcome::Sent(waiter)
        } else {
            waiters.push(waiter);
            *self = IndexWriterWorker { lifecycle, connected, queue, waiters };
            let back = reversed(rest);
            assert(back@ =~= all.skip(taken as int));
            ManyOutcome::Parked(back)
        }
    }

    /// Records that no producer holds the writer any more.  The operations
    /// already queued are still applied; the wave that applies them is the last.
    pub fn disconnect(&mut self)
        ensures
            final(self)@ == (MailboxState { connected: false, ..old(self)@ }),
    {
        proof {
            use_type_invariant(&*self);
        }
        self.connected = false;
    }

    /// Takes the messages of one wave: every queued operation up to the
    /// first `Shutdown`, oldest first.  The wave is the last one if a
    /// `Shutdown` was queued or no producer is left; whatever was queued
    /// behind a `Shutdown` is dropped.
    pub fn process_messages(&mut self) -> (batch: Batch)
        ensures
            batch.ops@ == wave_ops(old(self)@),
            batch.shutdown == wave_stops(old(self)@),
            final(self)@ == after_wave(old(self)@),
            state_ok(final(self)@),
    {
        proof {
            use_type_invariant(&*self);
        }
        let mut holder = Self::new();
        std::mem::swap(&mut holder, self);
        let IndexWriterWorker { lifecycle, connected, mut queue, waiters } = holder;
        let mut k: usize = 0;
        while k < queue.len() && !is_shutdown(&queue[k])
            invariant
                k <= queue@.len(),
                forall|i: int| 0 <= i < k ==> !(#[trigger] queue@[i] is Shutdown),
            decreases queue@.len() - k,
        {
            k += 1;
        }
        proof {
            lemma_first_shutdown_at(queue@, k as int);
        }
        let saw_shutdown = k < queue.len();
        let _dropped = queue.split_off(k);
        let shutdown = lifecycle != Lifecycle::Running || saw_shutdown || !connected;
        let next = if lifecycle == Lifecycle::Running && shutdown {
            Lifecycle::Draining
        } else {
            lifecycle
        };
        *self = IndexWriterWorker { lifecycle: next, connected, queue: Vec::new(), waiters };
        Batch { ops: queue, shutdown }
    }

    /// Takes the producers that wait for room, in the order they arrived, so
    /// that they can be woken.
    pub fn wake_waiters(&mut self) -> (woken: Vec<W>)
        ensures
            woken@ == old(self)@.waiters,
            final(self)@ == (MailboxState { waiters: Seq::empty(), ..old(self)@ }),
    {
        proof {
            use_type_invariant(&*self);
        }
        let mut holder = Self::new();
        std::mem::swap(&mut holder, self);
        let IndexWriterWorker { lifecycle, connected, queue, waiters } = holder;
        *self = IndexWriterWorker { lifecycle, connected, queue, waiters: Vec::new() };
        waiters
    }

    /// Ends the writer: whatever is queued is dropped, and the producers
    /// that still wait are handed out so that they can be released.
    pub fn finish(&mut self) -> (released: Vec<W>)
        ensures
            released@ == old(self)@.waiters,
            final(self)@ == (MailboxState {
                lifecycle: Lifecycle::Exited,
                queue: Seq::empty(),
                waiters: Seq::empty(),
                ..old(self)@
            }),
    {
        let mut holder = Self::new();
        std::mem::swap(&mut holder, self);
        let IndexWriterWorker { lifecycle: _, connected, queue: _, waiters } = holder;
        *self = IndexWriterWorker {
            lifecycle: Lifecycle::Exited,
            connected,
            queue: Vec::new(),
            waiters: Vec::new(),
        };
        waiters
    }

    /// Decides what the worker does with `op`: it stops on `Shutdown` and
    /// otherwise makes the engine calls that carry the operation out.
    pub fn handle_msg(op: WriterOp) -> (handling: Handling)
        ensures
            match calls_for(op) {
                None => handling is Stop,
                Some(calls) => handling matches Handling::Apply(made) && made@ == calls,
            },
    {
        let mut calls: Vec<EngineCall> = Vec::new();
        match op {
            WriterOp::Shutdown => {
                return Handling::Stop;
            },
            WriterOp::Commit => {
                calls.push(EngineCall::Commit);
            },
            WriterOp::Rollback => {
                calls.push(EngineCall::Rollback);
            },
            WriterOp::DeleteAll => {
                calls.push(EngineCall::DeleteAll);
            },
            WriterOp::DeleteTerm(term) => {
                calls.push(EngineCall::Delete(term));
            },
            WriterOp::AddDocument(doc) => {
                calls.push(EngineCall::Delete(Term::PrimaryKey(doc.id)));
                calls.push(EngineCall::Add(doc));
            },
        }
        assert(calls@ =~= calls_for(op).unwrap());
        Handling::Apply(calls)
    }
}

/// The elements of `list`, last first.
pub fn reversed<T>(list: Vec<T>) -> (out: Vec<T>)
    ensures
        out@ == list@.reverse(),
{
    let ghost all = list@;
    let mut rest = list;
    let mut out: Vec<T> = Vec::new();
    while rest.len() > 0
        invariant
            rest@.len() + out@.len() == all.len(),
            rest@ == all.take(rest@.len() as int),
            forall|j: int| 0 <= j < out@.len() ==> out@[j] == all[all.len() - 1 - j],
        decreases rest@.len(),
    {
        let ghost n = rest@.len() as int;
        match rest.pop() {
            Some(item) => {
                assert(rest@ =~= all.take(n - 1));
                out.push(item);
            },
            None => {},
        }
    }
    assert(out@ =~= all.reverse());
    out
}

fn is_shutdown(op: &WriterOp) -> (r: bool)
    ensures
        r == (*op is Shutdown),
{
    match op {
        WriterOp::Shutdown => true,
        _ => false,
    }
}

/// Something that happens to a writer.
pub enum WriterEvent<W> {
    /// A producer offers an operation, with a waiter at hand.
    Offer(WriterOp, W),
    /// The worker takes the messages of a wave and applies them.
    Wave,
    /// The worker wakes the producers that wait.
    Wake,
    /// The last producer lets go of the writer.
    Disconnect,
    /// The worker exits.
    Finish,
}

/// The state of a new writer.
pub open spec fn initial_state<W>() -> MailboxState<W> {
    MailboxState {
        lifecycle: Lifecycle::Running,
        connected: true,
        queue: Seq::empty(),
        waiters: Seq::empty(),
    }
}

/// The state after `event` happens in `state`.
pub open spec fn step<W>(state: MailboxState<W>, event: WriterEvent<W>) -> MailboxState<W> {
    match event {
        WriterEvent::Offer(op, waiter) => after_send(state, op, waiter),
        WriterEvent::Wave => after_wave(state),
        WriterEvent::Wake => MailboxState { waiters: Seq::empty(), ..state },
        WriterEvent::Disconnect => MailboxState { connected: false, ..state },
        WriterEvent::Finish => MailboxState {
            lifecycle: Lifecycle::Exited,
            queue: Seq::empty(),
            waiters: Seq::empty(),
            ..state
        },
    }
}

/// The operations that `event` puts in the queue when it happens in `state`.
pub open spec fn accepted_by<W>(state: MailboxState<W>, event: WriterEvent<W>) -> Seq<WriterOp> {
    match event {
        WriterEvent::Offer(op, _) => if state.lifecycle == Lifecycle::Running && state.connected
            && state.queue.len() < WRITER_QUEUE_CAPACITY {
            seq![op]
        } else {
            Seq::empty()
        },
        _ => Seq::empty(),
    }
}

/// The operations that `event` hands to the engine when it happens in `state`.
pub open spec fn applied_by<W>(state: MailboxState<W>, event: WriterEvent<W>) -> Seq<WriterOp> {
    match event {
        WriterEvent::Wave => wave_ops(state),
        _ => Seq::empty(),
    }
}

/// The state of a new writer after `events` have happened, in order.
pub open spec fn run<W>(events: Seq<WriterEvent<W>>) -> MailboxState<W>
    decreases events.len(),
{
    if events.len() == 0 {
        initial_state()
    } else {
        step(run(events.drop_last()), events.last())
    }
}

/// Every operation that `events` put in the queue of a new writer, in the
/// order in which the offers completed.
pub open spec fn accepted<W>(events: Seq<WriterEvent<W>>) -> Seq<WriterOp>
    decreases events.len(),
{
    if events.len() == 0 {
        Seq::empty()
    } else {
        accepted(events.drop_last()) + accepted_by(run(events.drop_last()), events.last())
    }
}

/// Every operation that a new writer handed to the engine during `events`,
/// in the order in which it did.
pub open spec fn applied<W>(events: Seq<WriterEvent<W>>) -> Seq<WriterOp>
    decreases events.len(),
{
    if events.len() == 0 {
        Seq::empty()
    } else {
        applied(events.drop_last()) + applied_by(run(events.drop_last()), events.last())
    }
}

/// The writer applies operations in the order in which they were accepted:
/// whatever happens to a new writer, what it has applied is an initial
/// segment of what it has accepted, and while it runs, what it has accepted
/// is what it has applied followed by what is queued.
pub proof fn lemma_applied_in_accepted_order<W>(events: Seq<WriterEvent<W>>)
    ensures
        applied(events).is_prefix_of(accepted(events)),
        run(events).lifecycle == Lifecycle::Running ==> accepted(events) == applied(events) + run(
            events,
        ).queue,
        state_ok(run(events)),
    decreases events.len(),
{
    if events.len() > 0 {
        let before = events.drop_last();
        lemma_applied_in_accepted_order(before);
        let state = run(before);
        let acc = accepted(before);
        let app = applied(before);
        match events.last() {
            WriterEvent::Offer(op, waiter) => {
                assert(applied(events) =~= app);
                if state.lifecycle == Lifecycle::Running && state.connected && state.queue.len()
                    < WRITER_QUEUE_CAPACITY {
                    assert(accepted(events) =~= app + state.queue.push(op));
                } else {
                    assert(accepted(events) =~= acc);
                }
            },
            WriterEvent::Wave => {
                lemma_first_shutdown(state.queue);
                assert(accepted(events) =~= acc);
                if state.lifecycle == Lifecycle::Running {
                    let taken = wave_ops(state);
                    assert(taken.is_prefix_of(state.queue));
                    assert((app + taken).is_prefix_of(app + state.queue));
                    if !wave_stops(state) {
                        assert(taken =~= state.queue);
                        assert(app + taken + Seq::<WriterOp>::empty() =~= acc);
                    }
                } else {
                    assert(wave_ops(state) =~= Seq::<WriterOp>::empty());
                    assert(applied(events) =~= app);
                }
            },
            _ => {
                assert(accepted(events) =~= acc);
                assert(applied(events) =~= app);
            },
        }
    }
}

/// At most [`WRITER_QUEUE_CAPACITY`] operations sit in the queue of a
/// writer, whatever has happened to it; an offer made while the queue is
/// full leaves the queue as it is and makes the producer wait.
pub proof fn lemma_queue_is_bounded<W>(events: Seq<WriterEvent<W>>, op: WriterOp, waiter: W)
    ensures
        run(events).queue.len() <= WRITER_QUEUE_CAPACITY,
        run(events).lifecycle == Lifecycle::Running && run(events).connected && run(
            events,
        ).queue.len() == WRITER_QUEUE_CAPACITY ==> {
            &&& after_send(run(events), op, waiter).queue == run(events).queue
            &&& after_send(run(events), op, waiter).waiters == run(events).waiters.push(waiter)
        },
{
    lemma_applied_in_accepted_order(events);
}

} // verus!
