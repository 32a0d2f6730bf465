//! The relay queue's batching engine.
//!
//! The server process runs one long-lived worker task that drains a bounded
//! inbound packet channel, collects packets for a single time-windowed batch,
//! uploads the serialized batch to the slot at the cursor, and reports the
//! slot index back. All decisions that worker makes are here, as a sequential
//! state machine: the surrounding task performs the waits and the upload, and
//! feeds the outcome of each back in as an event.
//!
//! The window is a single deadline anchored at batch start: each successful
//! receive subtracts its elapsed wall-clock time from the remaining budget, so
//! waits that only take relative timeouts still implement an absolute
//! deadline.

use vstd::prelude::*;

use crate::frame::{batch_of, packets_within_mtu, serialize_batch, MTU};
use crate::slots::SlotPool;

verus! {

/// What the relay queue reports back to a session.
pub enum Response {
    /// Index of the slot whose content was just replaced.
    FileIndex(usize),
}

/// What the worker's wait came back with.
pub enum WorkerEvent {
    /// A packet arrived `elapsed_ms` after the wait began.
    Packet { data: Vec<u8>, elapsed_ms: u64 },
    /// The remaining budget ran out with no packet.
    TimedOut,
}

/// What the worker must do next.
pub enum WorkerStep {
    /// Wait up to this budget for the next packet.
    Wait { budget_ms: u64 },
    /// Replace the content of the slot at index `slot` with `content`, then
    /// report the outcome through `finish_upload`.
    Upload { content: Vec<u8>, slot: usize },
}

/// The step asks for a wait with exactly this budget.
pub open spec fn is_wait(step: WorkerStep, budget_ms: u64) -> bool {
    match step {
        WorkerStep::Wait { budget_ms: b } => b == budget_ms,
        _ => false,
    }
}

/// The step asks for an upload of exactly this content to exactly this slot.
pub open spec fn is_upload(step: WorkerStep, content: Seq<u8>, slot: int) -> bool {
    match step {
        WorkerStep::Upload { content: c, slot: s } => c@ == content && s == slot,
        _ => false,
    }
}

/// The run model's view of one wait result.
pub open spec fn run_event_of(ev: WorkerEvent) -> RunEvent {
    match ev {
        WorkerEvent::Packet { data, elapsed_ms } => RunEvent::Packet { data: data@, elapsed_ms },
        WorkerEvent::TimedOut => RunEvent::TimedOut,
    }
}

/// The batching state of the relay worker: the slot pool with its cursor, the
/// open batch, and the remaining window budget.
pub struct RelayWorker {
    pub slots: SlotPool,
    pub batch: Vec<Vec<u8>>,
    pub remaining_ms: u64,
    pub delay_ms: u64,
}

impl RelayWorker {
    /// The packets of the open batch, oldest first.
    pub open spec fn batch(self) -> Seq<Seq<u8>> {
        self.batch.deep_view()
    }

    /// The worker is well formed: a valid pool, a budget no larger than the
    /// configured window, and only MTU-sized packets in the open batch.
    pub open spec fn wf(self) -> bool {
        &&& self.slots.wf()
        &&& self.remaining_ms <= self.delay_ms
        &&& packets_within_mtu(self.batch())
    }

    /// A fresh worker: empty batch, full window, cursor where the pool left
    /// it.
    pub fn new(slots: SlotPool, delay_ms: u64) -> (w: RelayWorker)
        requires
            slots.wf(),
        ensures
            w.wf(),
            w.slots == slots,
            w.batch() == Seq::<Seq<u8>>::empty(),
            w.remaining_ms == delay_ms,
            w.delay_ms == delay_ms,
    {
        let w = RelayWorker { slots, batch: Vec::new(), remaining_ms: delay_ms, delay_ms };
        proof {
            assert(w.batch() =~= Seq::<Seq<u8>>::empty());
        }
        w
    }

    /// Close the open batch: serialize it, reset the window, and ask for the
    /// upload to the slot at the cursor. The cursor itself moves only in
    /// `finish_upload`, after the outcome is known.
    fn close_batch(&mut self) -> (step: WorkerStep)
        requires
            old(self).wf(),
            old(self).batch().len() > 0,
        ensures
            final(self).wf(),
            final(self).slots == old(self).slots,
            final(self).delay_ms == old(self).delay_ms,
            final(self).batch().len() == 0,
            final(self).remaining_ms == old(self).delay_ms,
            is_upload(step, batch_of(old(self).batch()), old(self).slots.cursor()),
    {
        let content = serialize_batch(&self.batch);
        self.batch = Vec::new();
        self.remaining_ms = self.delay_ms;
        let slot = self.slots.current_index();
        proof {
            assert(self.batch() =~= Seq::<Seq<u8>>::empty());
        }
        WorkerStep::Upload { content, slot }
    }

    /// One decision of the batching loop.
    ///
    /// On a packet: it joins the batch; if its arrival gap fits the remaining
    /// budget the window shrinks by that gap and the wait continues, else the
    /// batch closes. On a timeout: a non-empty batch closes; an empty batch is
    /// never uploaded — the window simply restarts with a full budget and the
    /// cursor does not move.
    pub fn on_event(&mut self, ev: WorkerEvent) -> (step: WorkerStep)
        requires
            old(self).wf(),
            match ev {
                WorkerEvent::Packet { data, elapsed_ms } => data@.len() <= MTU,
                WorkerEvent::TimedOut => true,
            },
        ensures
            final(self).wf(),
            final(self).slots == old(self).slots,
            final(self).delay_ms == old(self).delay_ms,
            match ev {
                WorkerEvent::Packet { data, elapsed_ms } => {
                    if elapsed_ms <= old(self).remaining_ms {
                        &&& is_wait(step, (old(self).remaining_ms - elapsed_ms) as u64)
                        &&& final(self).batch() == old(self).batch().push(data@)
                        &&& final(self).remaining_ms == old(self).remaining_ms - elapsed_ms
                    } else {
                        &&& is_upload(
                            step,
                            batch_of(old(self).batch().push(data@)),
                            old(self).slots.cursor(),
                        )
                        &&& final(self).batch().len() == 0
                        &&& final(self).remaining_ms == old(self).delay_ms
                    }
                },
                WorkerEvent::TimedOut => {
                    if old(self).batch().len() == 0 {
                        &&& is_wait(step, old(self).delay_ms)
                        &&& final(self).batch() == old(self).batch()
                        &&& final(self).remaining_ms == old(self).delay_ms
                    } else {
                        &&& is_upload(step, batch_of(old(self).batch()), old(self).slots.cursor())
                        &&& final(self).batch().len() == 0
                        &&& final(self).remaining_ms == old(self).delay_ms
                    }
                },
            },
            // The call refines `run_step`: it does to the open batch and the
            // budget what the run model says, and emits an upload exactly
            // when the model closes a batch, carrying that batch serialized.
            ({
                let s1 = run_step(
                    RunState {
                        closed: Seq::empty(),
                        open_batch: old(self).batch(),
                        remaining_ms: old(self).remaining_ms,
                    },
                    run_event_of(ev),
                    old(self).delay_ms,
                );
                &&& final(self).batch() == s1.open_batch
                &&& final(self).remaining_ms == s1.remaining_ms
                &&& (s1.closed.len() == 0 ==> is_wait(step, s1.remaining_ms))
                &&& (s1.closed.len() > 0 ==> s1.closed.len() == 1 && is_upload(
                    step,
                    batch_of(s1.closed[0]),
                    old(self).slots.cursor(),
                ))
            }),
    {
        match ev {
            WorkerEvent::Packet { data, elapsed_ms } => {
                let ghost old_batch = self.batch();
                let ghost dv = data@;
                self.batch.push(data);
                proof {
                    assert(self.batch() =~~= old_batch.push(dv));
                }
                if elapsed_ms <= self.remaining_ms {
                    self.remaining_ms = self.remaining_ms - elapsed_ms;
                    WorkerStep::Wait { budget_ms: self.remaining_ms }
                } else {
                    self.close_batch()
                }
            },
            WorkerEvent::TimedOut => {
                if self.batch.len() == 0 {
                    self.remaining_ms = self.delay_ms;
                    WorkerStep::Wait { budget_ms: self.delay_ms }
                } else {
                    self.close_batch()
                }
            },
        }
    }

    /// Record the outcome of the upload just performed. The cursor advances
    /// whether or not the upload succeeded, so a transient failure costs one
    /// slot's worth of data and nothing else; a notification carrying the
    /// slot index that was written is produced only on success.
    pub fn finish_upload(&mut self, success: bool) -> (note: Option<Response>)
        requires
            old(self).wf(),
        ensures
            final(self).wf(),
            final(self).slots.ids() == old(self).slots.ids(),
            final(self).slots.count() == old(self).slots.count(),
            final(self).slots.cursor() == (old(self).slots.cursor() + 1) % old(self).slots.count(),
            final(self).batch() == old(self).batch(),
            final(self).remaining_ms == old(self).remaining_ms,
            final(self).delay_ms == old(self).delay_ms,
            match note {
                Some(Response::FileIndex(i)) => success && i == old(self).slots.cursor(),
                None => !success,
            },
    {
        let idx = self.slots.current_index();
        self.slots.advance();
        if success {
            Some(Response::FileIndex(idx))
        } else {
            None
        }
    }
}

/// One wait result of the worker loop, as the run model sees it.
pub enum RunEvent {
    /// A packet arrived `elapsed_ms` after the wait began.
    Packet { data: Seq<u8>, elapsed_ms: u64 },
    /// The remaining budget ran out with no packet.
    TimedOut,
}

/// The batching history of a worker run: the batches closed so far, the open
/// batch, and the remaining window budget.
pub ghost struct RunState {
    pub closed: Seq<Seq<Seq<u8>>>,
    pub open_batch: Seq<Seq<u8>>,
    pub remaining_ms: u64,
}

/// One transition of the batching loop, exactly as `on_event` performs it on
/// the open batch and the budget: a packet joins the open batch and either
/// shrinks the budget by its arrival gap or closes the batch; a timeout
/// closes a non-empty batch and merely restarts the window of an empty one.
/// Closing moves the open batch onto `closed`; `on_event` emits it as an
/// upload at that moment.
pub open spec fn run_step(s: RunState, ev: RunEvent, delay_ms: u64) -> RunState {
    match ev {
        RunEvent::Packet { data, elapsed_ms } => {
            if elapsed_ms <= s.remaining_ms {
                RunState {
                    closed: s.closed,
                    open_batch: s.open_batch.push(data),
                    remaining_ms: (s.remaining_ms - elapsed_ms) as u64,
                }
            } else {
                RunState {
                    closed: s.closed.push(s.open_batch.push(data)),
                    open_batch: Seq::empty(),
                    remaining_ms: delay_ms,
                }
            }
        },
        RunEvent::TimedOut => {
            if s.open_batch.len() == 0 {
                RunState { closed: s.closed, open_batch: s.open_batch, remaining_ms: delay_ms }
            } else {
                RunState {
                    closed: s.closed.push(s.open_batch),
                    open_batch: Seq::empty(),
                    remaining_ms: delay_ms,
                }
            }
        },
    }
}

/// The state a worker that started fresh reaches after a sequence of wait
/// results.
pub open spec fn worker_run(events: Seq<RunEvent>, delay_ms: u64) -> RunState
    decreases events.len(),
{
    if events.len() == 0 {
        RunState { closed: Seq::empty(), open_batch: Seq::empty(), remaining_ms: delay_ms }
    } else {
        run_step(worker_run(events.drop_last(), delay_ms), events.last(), delay_ms)
    }
}

/// The packets a sequence of wait results delivered, in arrival order: the
/// enqueued packets, at the point the worker receives them.
pub open spec fn packets_of(events: Seq<RunEvent>) -> Seq<Seq<u8>>
    decreases events.len(),
{
    if events.len() == 0 {
        Seq::empty()
    } else {
        match events.last() {
            RunEvent::Packet { data, elapsed_ms } => packets_of(events.drop_last()).push(data),
            RunEvent::TimedOut => packets_of(events.drop_last()),
        }
    }
}

/// Every packet delivered by the wait results fits the interface MTU.
pub open spec fn events_within_mtu(events: Seq<RunEvent>) -> bool {
    forall|i: int|
        0 <= i < events.len() ==> (match #[trigger] events[i] {
            RunEvent::Packet { data, elapsed_ms } => data.len() <= MTU,
            RunEvent::TimedOut => true,
        })
}

/// The packets of a sequence of batches, in order.
pub open spec fn concat_batches(bs: Seq<Seq<Seq<u8>>>) -> Seq<Seq<u8>>
    decreases bs.len(),
{
    if bs.len() == 0 {
        Seq::empty()
    } else {
        concat_batches(bs.drop_last()) + bs.last()
    }
}

/// A worker run partitions the enqueued packets, in order: after any
/// sequence of wait results, the closed batches followed by the open batch
/// hold exactly the packets received, none dropped, none reordered, none
/// duplicated.
pub proof fn lemma_worker_run_partitions(events: Seq<RunEvent>, delay_ms: u64)
    ensures
        concat_batches(worker_run(events, delay_ms).closed) + worker_run(
            events,
            delay_ms,
        ).open_batch == packets_of(events),
    decreases events.len(),
{
    if events.len() == 0 {
        assert(concat_batches(worker_run(events, delay_ms).closed) + worker_run(
            events,
            delay_ms,
        ).open_batch =~= packets_of(events));
    } else {
        let prior = worker_run(events.drop_last(), delay_ms);
        lemma_worker_run_partitions(events.drop_last(), delay_ms);
        let s = worker_run(events, delay_ms);
        if s.closed == prior.closed {
            assert(concat_batches(s.closed) + s.open_batch =~= packets_of(events));
        } else {
            // The last event closed a batch: the open batch (with the last
            // packet, if the event carried one) moved onto `closed`.
            assert(s.closed.drop_last() =~= prior.closed);
            assert(concat_batches(s.closed) == concat_batches(prior.closed) + s.closed.last());
            assert(concat_batches(s.closed) + s.open_batch =~= packets_of(events));
        }
    }
}

/// A worker run never closes an empty batch — an empty window only restarts
/// the budget — and, when every delivered packet fits the MTU, neither does
/// any closed batch hold an oversized packet.
pub proof fn lemma_worker_run_batches_wf(events: Seq<RunEvent>, delay_ms: u64)
    requires
        events_within_mtu(events),
    ensures
        forall|i: int|
            0 <= i < worker_run(events, delay_ms).closed.len() ==> (#[trigger] worker_run(
                events,
                delay_ms,
            ).closed[i]).len() > 0,
        forall|i: int|
            0 <= i < worker_run(events, delay_ms).closed.len() ==> packets_within_mtu(
                #[trigger] worker_run(events, delay_ms).closed[i],
            ),
        packets_within_mtu(worker_run(events, delay_ms).open_batch),
    decreases events.len(),
{
    if events.len() > 0 {
        let prior = worker_run(events.drop_last(), delay_ms);
        assert(events_within_mtu(events.drop_last()));
        lemma_worker_run_batches_wf(events.drop_last(), delay_ms);
        let s = worker_run(events, delay_ms);
        match events.last() {
            RunEvent::Packet { data, elapsed_ms } => {
                assert(data.len() <= MTU);
                assert(packets_within_mtu(prior.open_batch.push(data)));
            },
            RunEvent::TimedOut => {},
        }
        if s.closed != prior.closed {
            assert(forall|i: int|
                0 <= i < prior.closed.len() ==> s.closed[i] == #[trigger] prior.closed[i]);
        }
    }
}

/// The bytes of all slot contents written by a run of the worker, in upload
/// order: the serialized form of each closed batch whose upload succeeded.
pub open spec fn uploaded_content(batches: Seq<Seq<Seq<u8>>>, ok: Seq<bool>) -> Seq<u8>
    decreases batches.len(),
{
    if batches.len() == 0 {
        Seq::empty()
    } else {
        (if ok[0] {
            batch_of(batches[0])
        } else {
            Seq::empty()
        }) + uploaded_content(batches.drop_first(), ok.drop_first())
    }
}

/// The enqueued packets a run of the worker actually relayed, in enqueue
/// order: every packet except those of batches whose upload failed.
pub open spec fn relayed_packets(batches: Seq<Seq<Seq<u8>>>, ok: Seq<bool>) -> Seq<Seq<u8>>
    decreases batches.len(),
{
    if batches.len() == 0 {
        Seq::empty()
    } else {
        (if ok[0] {
            batches[0]
        } else {
            Seq::empty()
        }) + relayed_packets(batches.drop_first(), ok.drop_first())
    }
}

/// Every packet of every batch fits the MTU.
pub open spec fn batches_within_mtu(batches: Seq<Seq<Seq<u8>>>) -> bool {
    forall|i: int| 0 <= i < batches.len() ==> packets_within_mtu(#[trigger] batches[i])
}

/// A worker run loses nothing but whole failed batches: frame-decoding the
/// concatenation of all successfully uploaded slot contents reproduces
/// exactly the enqueued packets, in enqueue order, minus the packets of the
/// batches whose upload failed. The batches partition the enqueued packets in
/// order, since the worker appends each received packet to the open batch and
/// uploads batches strictly sequentially.
pub proof fn lemma_relay_reproduces_packets(batches: Seq<Seq<Seq<u8>>>, ok: Seq<bool>)
    requires
        ok.len() == batches.len(),
        batches_within_mtu(batches),
    ensures
        crate::frame::decode_frames(uploaded_content(batches, ok)) == Some(
            relayed_packets(batches, ok),
        ),
    decreases batches.len(),
{
    if batches.len() == 0 {
        assert(uploaded_content(batches, ok) == Seq::<u8>::empty());
        assert(crate::frame::decode_frames(Seq::<u8>::empty()) == Some(Seq::<Seq<u8>>::empty()));
    } else {
        let bs = batches.drop_first();
        let oks = ok.drop_first();
        assert(forall|i: int|
            0 <= i < bs.len() ==> packets_within_mtu(#[trigger] bs[i]) && bs[i] == batches[i + 1]);
        lemma_relay_reproduces_packets(bs, oks);
        let tail_content = uploaded_content(bs, oks);
        let tail_packets = relayed_packets(bs, oks);
        if ok[0] {
            assert(packets_within_mtu(batches[0]));
            crate::frame::lemma_decode_batch_prepend(batches[0], tail_content);
        } else {
            assert(uploaded_content(batches, ok) =~= tail_content);
            assert(relayed_packets(batches, ok) =~= tail_packets);
        }
    }
}

/// The relay law over a whole run: for any sequence of wait results and any
/// upload outcomes, frame-decoding the concatenation of the successfully
/// uploaded slot contents reproduces exactly the closed batches' packets in
/// enqueue order, minus the packets of the batches whose upload failed — and
/// by `lemma_worker_run_partitions` those closed batches, with the still-open
/// batch, are exactly the packets received.
pub proof fn lemma_worker_run_relays(events: Seq<RunEvent>, ok: Seq<bool>, delay_ms: u64)
    requires
        events_within_mtu(events),
        ok.len() == worker_run(events, delay_ms).closed.len(),
    ensures
        crate::frame::decode_frames(uploaded_content(worker_run(events, delay_ms).closed, ok))
            == Some(relayed_packets(worker_run(events, delay_ms).closed, ok)),
        concat_batches(worker_run(events, delay_ms).closed) + worker_run(
            events,
            delay_ms,
        ).open_batch == packets_of(events),
{
    lemma_worker_run_batches_wf(events, delay_ms);
    lemma_worker_run_partitions(events, delay_ms);
    lemma_relay_reproduces_packets(worker_run(events, delay_ms).closed, ok);
}

} // verus!
