//! The consumer side of the log pipeline: a set of consumers, kept in the
//! order of their registration, to which every drained batch is handed.

use crate::message::{batch_view, MonitorMsg, MonitorMsgView};
use crossbeam_channel::{Receiver, Sender};
use vstd::prelude::*;

verus! {

/// `crossbeam_channel::Sender`: the sending end of a channel.
#[verifier::external_type_specification]
#[verifier::external_body]
#[verifier::reject_recursive_types(T)]
pub struct ExSender<T>(Sender<T>);

/// `crossbeam_channel::Receiver`: the receiving end of a channel.
#[verifier::external_type_specification]
#[verifier::external_body]
#[verifier::reject_recursive_types(T)]
pub struct ExReceiver<T>(Receiver<T>);

/// `crossbeam_channel::unbounded`: the two ends of a new channel without a
/// bound on the messages it holds.
#[verifier::external_body]
pub(crate) fn unbounded_channel() -> (ends: (Sender<MonitorMsg>, Receiver<MonitorMsg>)) {
    crossbeam_channel::unbounded()
}

/// `Receiver::try_iter`, collected: the messages that are ready in the
/// channel, oldest first, without waiting for more. Which messages are ready
/// depends on the senders, so nothing is claimed of the result.
#[verifier::external_body]
pub(crate) fn collect_pending(rx: &Receiver<MonitorMsg>) -> (vals: Vec<MonitorMsg>) {
    rx.try_iter().collect()
}

/// Something that takes batches of messages.
pub trait LogConsumer: Sized {
    /// How one delivery of `vals` relates the consumer before it to the
    /// consumer after it; `done` is what the delivery returned. Each consumer
    /// says this of itself; one that says nothing is held to nothing.
    open spec fn delivered(
        before: Self,
        vals: Seq<MonitorMsgView>,
        after: Self,
        done: bool,
    ) -> bool {
        true
    }

    /// Takes one batch, oldest message first. Returns `false` when the
    /// consumer has failed and must not be handed another batch.
    fn consumes(&mut self, vals: &[MonitorMsg]) -> (done: bool)
        ensures
            Self::delivered(*old(self), batch_view(vals@), *final(self), done),
    ;
}

/// One registered consumer.
pub struct Slot<C> {
    /// The ticket under which the consumer was registered.
    pub id: u64,
    /// Whether the consumer was closed.
    pub closed: bool,
    pub consumer: C,
}

/// The ticket of a registered consumer, by which it can be closed.
#[derive(Clone, Copy, Debug, PartialEq, Eq)]
pub struct LogConsumeHandle {
    id: u64,
}

/// The consumers of a pipeline, in the order of their registration.
pub struct RLogConsumers<C> {
    slots: Vec<Slot<C>>,
    next_id: u64,
}

/// Whether an open consumer is registered under ticket `id`.
pub open spec fn is_live<C>(slots: Seq<Slot<C>>, id: u64) -> bool {
    exists|i: int| 0 <= i < slots.len() && (#[trigger] slots[i]).id == id && !slots[i].closed
}

/// The slots after the consumers registered under ticket `id` were closed.
pub open spec fn closed_at<C>(slots: Seq<Slot<C>>, id: u64) -> Seq<Slot<C>> {
    Seq::new(
        slots.len(),
        |i: int|
            if slots[i].id == id {
                Slot { id: slots[i].id, closed: true, consumer: slots[i].consumer }
            } else {
                slots[i]
            },
    )
}

/// How handing the batch `vals` to a set of consumers relates the set before
/// to the set after: nobody comes or goes; a closed consumer is left as it
/// is; every open consumer took one delivery of the whole batch, and is
/// closed afterwards exactly when that delivery failed.
pub open spec fn dispatched<C: LogConsumer>(
    before: Seq<Slot<C>>,
    vals: Seq<MonitorMsgView>,
    after: Seq<Slot<C>>,
) -> bool {
    &&& after.len() == before.len()
    &&& forall|i: int|
        0 <= i < before.len() ==> {
            &&& (#[trigger] after[i]).id == before[i].id
            &&& before[i].closed ==> after[i] == before[i]
            &&& !before[i].closed ==> C::delivered(
                before[i].consumer,
                vals,
                after[i].consumer,
                !after[i].closed,
            )
        }
}

/// The slots of the consumers that are still open, in order.
pub open spec fn open_slots<C>(slots: Seq<Slot<C>>) -> Seq<Slot<C>>
    decreases slots.len(),
{
    if slots.len() == 0 {
        slots
    } else if slots.last().closed {
        open_slots(slots.drop_last())
    } else {
        open_slots(slots.drop_last()).push(slots.last())
    }
}

/// Dropping the closed slots changes no ticket's liveness.
pub proof fn lemma_open_slots_live<C>(slots: Seq<Slot<C>>, id: u64)
    ensures
        is_live(open_slots(slots), id) <==> is_live(slots, id),
    decreases slots.len(),
{
    if slots.len() > 0 {
        let rest = slots.drop_last();
        let last = slots.last();
        lemma_open_slots_live(rest, id);
        let kept = open_slots(slots);
        let kept_rest = open_slots(rest);
        if is_live(kept, id) {
            let i = choose|i: int|
                0 <= i < kept.len() && (#[trigger] kept[i]).id == id && !kept[i].closed;
            if i < kept_rest.len() {
                assert(kept_rest[i] == kept[i]);
                assert(is_live(kept_rest, id));
                let j = choose|j: int|
                    0 <= j < rest.len() && (#[trigger] rest[j]).id == id && !rest[j].closed;
                assert(slots[j] == rest[j]);
            } else {
                assert(kept[i] == slots[slots.len() - 1]);
            }
        }
        if is_live(slots, id) {
            let j = choose|j: int|
                0 <= j < slots.len() && (#[trigger] slots[j]).id == id && !slots[j].closed;
            if j < rest.len() {
                assert(rest[j] == slots[j]);
                assert(is_live(kept_rest, id));
                let i = choose|i: int|
                    0 <= i < kept_rest.len() && (#[trigger] kept_rest[i]).id == id
                        && !kept_rest[i].closed;
                if last.closed {
                } else {
                    assert(kept[i] == kept_rest[i]);
                }
            } else {
                assert(kept[kept.len() - 1] == last);
            }
        }
    }
}

/// A consumer that was closed takes no part in the next dispatch: it comes
/// out as it went in, and closed.
pub proof fn lemma_closed_is_skipped<C: LogConsumer>(
    before: Seq<Slot<C>>,
    id: u64,
    vals: Seq<MonitorMsgView>,
    after: Seq<Slot<C>>,
)
    requires
        dispatched(closed_at(before, id), vals, after),
    ensures
        after.len() == before.len(),
        forall|i: int|
            0 <= i < before.len() && (#[trigger] before[i]).id == id ==> after[i].closed
                && after[i].consumer == before[i].consumer,
        !is_live(after, id),
{
    let mid = closed_at(before, id);
    assert forall|i: int| 0 <= i < before.len() && (#[trigger] before[i]).id == id implies after[i].closed
        && after[i].consumer == before[i].consumer by {
        assert(mid[i].closed);
        assert(after[i] == mid[i]);
    }
    if is_live(after, id) {
        let i = choose|i: int| 0 <= i < after.len() && (#[trigger] after[i]).id == id && !after[i].closed;
        assert(mid[i].id == id);
        assert(before[i].id == id);
    }
}

/// A dispatch opens nothing: a ticket that was not live before is not live
/// after, and the consumers behind it are untouched.
pub proof fn lemma_dispatch_keeps_closed<C: LogConsumer>(
    before: Seq<Slot<C>>,
    vals: Seq<MonitorMsgView>,
    after: Seq<Slot<C>>,
    id: u64,
)
    requires
        dispatched(before, vals, after),
        !is_live(before, id),
    ensures
        !is_live(after, id),
        forall|i: int|
            0 <= i < before.len() && (#[trigger] before[i]).id == id ==> after[i] == before[i],
{
    assert forall|i: int| 0 <= i < before.len() && (#[trigger] before[i]).id == id implies after[i]
        == before[i] by {
        assert(before[i].closed);
        assert(after[i].id == before[i].id);
    }
    if is_live(after, id) {
        let i = choose|i: int| 0 <= i < after.len() && (#[trigger] after[i]).id == id && !after[i].closed;
        assert(before[i].id == id);
    }
}

impl LogConsumeHandle {
    /// The ticket that the handle stands for.
    pub closed spec fn id(&self) -> u64 {
        self.id
    }

    /// The ticket that the handle stands for.
    pub fn ticket(&self) -> (id: u64)
        ensures
            id == self.id(),
    {
        self.id
    }

    /// Whether the consumer of this handle takes no more batches from
    /// `consumers`: it was closed, it failed, or it was never registered
    /// there.
    pub fn is_closed<C>(&self, consumers: &RLogConsumers<C>) -> (b: bool)
        ensures
            b == !is_live(consumers@, self.id()),
    {
        let mut i: usize = 0;
        while i < consumers.slots.len()
            invariant
                i <= consumers.slots.len(),
                forall|j: int| 0 <= j < i ==> !((#[trigger] consumers@[j]).id == self.id && !consumers@[j].closed),
            decreases consumers.slots.len() - i,
        {
            if consumers.slots[i].id == self.id && !consumers.slots[i].closed {
                return false;
            }
            i += 1;
        }
        true
    }

    /// Closes the consumer of this handle: `consumers` hands it no batch
    /// from now on. Closing twice is closing once.
    pub fn close<C>(&self, consumers: &mut RLogConsumers<C>)
        ensures
            final(consumers)@ == closed_at(old(consumers)@, self.id()),
            final(consumers).minted() == old(consumers).minted(),
            !is_live(final(consumers)@, self.id()),
    {
        let mut i: usize = 0;
        while i < consumers.slots.len()
            invariant
                i <= consumers.slots.len(),
                consumers.slots.len() == old(consumers).slots.len(),
                consumers.next_id == old(consumers).next_id,
                forall|j: int| 0 <= j < i ==> #[trigger] consumers@[j] == closed_at(old(consumers)@, self.id)[j],
                forall|j: int| i <= j < consumers.slots.len() ==> #[trigger] consumers@[j] == old(consumers)@[j],
            decreases consumers.slots.len() - i,
        {
            let ghost prev = consumers@;
            if consumers.slots[i].id == self.id {
                consumers.slots[i].closed = true;
                assert(consumers@ =~= prev.update(
                    i as int,
                    Slot { id: prev[i as int].id, closed: true, consumer: prev[i as int].consumer },
                ));
            }
            i += 1;
        }
        assert(consumers@ =~= closed_at(old(consumers)@, self.id));
    }
}

impl<C> View for RLogConsumers<C> {
    type V = Seq<Slot<C>>;

    closed spec fn view(&self) -> Seq<Slot<C>> {
        self.slots@
    }
}

impl<C> RLogConsumers<C> {
    /// How many tickets were handed out.
    pub closed spec fn minted(&self) -> u64 {
        self.next_id
    }

    /// Every ticket in use was handed out, and later registrations carry
    /// later tickets.
    pub open spec fn wf(&self) -> bool {
        &&& forall|i: int| 0 <= i < self@.len() ==> (#[trigger] self@[i]).id < self.minted()
        &&& forall|i: int, j: int| 0 <= i < j < self@.len() ==> (#[trigger] self@[i]).id < (#[trigger] self@[j]).id
    }

    /// A set without consumers.
    pub fn new() -> (consumers: Self)
        ensures
            consumers@.len() == 0,
            consumers.minted() == 0,
            consumers.wf(),
    {
        RLogConsumers { slots: Vec::new(), next_id: 0 }
    }

    /// The number of registered consumers, closed ones included.
    pub fn len(&self) -> (n: usize)
        ensures
            n == self@.len(),
    {
        self.slots.len()
    }

    /// Whether another consumer can be registered.
    pub fn can_add(&self) -> (b: bool)
        ensures
            b == (self.minted() < u64::MAX),
    {
        self.next_id < u64::MAX
    }

    /// Registers `call` behind the consumers that are there, open, under a
    /// ticket that no other consumer has had.
    pub fn add(&mut self, call: C) -> (handle: LogConsumeHandle)
        requires
            old(self).minted() < u64::MAX,
        ensures
            final(self)@ == old(self)@.push(
                Slot { id: old(self).minted(), closed: false, consumer: call },
            ),
            handle.id() == old(self).minted(),
            final(self).minted() == old(self).minted() + 1,
            is_live(final(self)@, handle.id()),
            forall|id: u64|
                id != handle.id() ==> (is_live(final(self)@, id) <==> is_live(old(self)@, id)),
            old(self).wf() ==> final(self).wf() && !is_live(old(self)@, handle.id()),
    {
        let id = self.next_id;
        self.next_id = id + 1;
        self.slots.push(Slot { id, closed: false, consumer: call });
        proof {
            let last = self@.len() - 1;
            assert(self@[last].id == id && !self@[last].closed);
            assert(forall|i: int| 0 <= i < last ==> self@[i] == old(self)@[i]);
            assert forall|other: u64| other != id implies (is_live(self@, other) <==> is_live(
                old(self)@,
                other,
            )) by {
                if is_live(self@, other) {
                    let i = choose|i: int|
                        0 <= i < self@.len() && (#[trigger] self@[i]).id == other
                            && !self@[i].closed;
                    assert(old(self)@[i].id == other);
                }
                if is_live(old(self)@, other) {
                    let i = choose|i: int|
                        0 <= i < old(self)@.len() && (#[trigger] old(self)@[i]).id == other
                            && !old(self)@[i].closed;
                    assert(self@[i].id == other);
                }
            }
            if old(self).wf() {
                if is_live(old(self)@, id) {
                    let i = choose|i: int|
                        0 <= i < old(self)@.len() && (#[trigger] old(self)@[i]).id == id
                            && !old(self)@[i].closed;
                    assert(old(self)@[i].id < old(self).minted());
                }
            }
        }
        LogConsumeHandle { id }
    }
}

impl<C> RLogConsumers<C> {
    /// Forgets the consumers that are closed. The others keep their order
    /// and their tickets.
    pub fn prune(&mut self)
        ensures
            final(self)@ == open_slots(old(self)@),
            final(self).minted() == old(self).minted(),
            old(self).wf() ==> final(self).wf(),
            forall|id: u64| is_live(final(self)@, id) <==> is_live(old(self)@, id),
    {
        let ghost all = self@;
        let ghost mut seen: int = 0;
        let mut i: usize = 0;
        assert(all.take(0) =~= Seq::empty());
        assert(all.skip(0) =~= all);
        while i < self.slots.len()
            invariant
                0 <= seen <= all.len(),
                i == open_slots(all.take(seen)).len(),
                self@ == open_slots(all.take(seen)) + all.skip(seen),
                self.next_id == old(self).next_id,
                all == old(self)@,
                old(self).wf() ==> self.wf(),
            decreases self.slots.len() - i,
        {
            proof {
                assert(self@[i as int] == all[seen]);
                assert(all.take(seen + 1).drop_last() =~= all.take(seen));
                assert(all.take(seen + 1).last() == all[seen]);
            }
            let ghost prev = self@;
            if self.slots[i].closed {
                self.slots.remove(i);
                assert(self@ =~= open_slots(all.take(seen + 1)) + all.skip(seen + 1));
                assert(forall|a: int| 0 <= a < i ==> self@[a] == prev[a]);
                assert(forall|a: int| i <= a < self@.len() ==> self@[a] == prev[a + 1]);
            } else {
                i += 1;
                assert(self@ =~= open_slots(all.take(seen + 1)) + all.skip(seen + 1));
            }
            proof {
                seen = seen + 1;
            }
        }
        proof {
            assert(all.skip(seen) =~= Seq::empty()) by {
                assert(self@.len() == i + all.skip(seen).len());
            }
            assert(all.take(seen) =~= all);
            assert(self@ =~= open_slots(all));
            assert forall|id: u64| is_live(self@, id) <==> is_live(all, id) by {
                lemma_open_slots_live(all, id);
            }
        }
    }
}

impl<C: LogConsumer> RLogConsumers<C> {
    /// Hands over what one drain has collected. When the batch is empty no
    /// consumer is called.
    pub fn drain_batch(&mut self, vals: &[MonitorMsg])
        ensures
            vals@.len() == 0 ==> final(self)@ == old(self)@,
            vals@.len() > 0 ==> dispatched(old(self)@, batch_view(vals@), final(self)@),
            forall|id: u64| !is_live(old(self)@, id) ==> !is_live(final(self)@, id),
            final(self).minted() == old(self).minted(),
            old(self).wf() ==> final(self).wf(),
    {
        if vals.len() > 0 {
            self.consume(vals);
        }
    }

    /// One turn of the drain loop: collects the messages that are ready in
    /// the channel and hands them, as one batch, to the open consumers.
    /// Returns the batch.
    pub fn drain(&mut self, rx: &Receiver<MonitorMsg>) -> (vals: Vec<MonitorMsg>)
        ensures
            vals@.len() == 0 ==> final(self)@ == old(self)@,
            vals@.len() > 0 ==> dispatched(old(self)@, batch_view(vals@), final(self)@),
            forall|id: u64| !is_live(old(self)@, id) ==> !is_live(final(self)@, id),
            final(self).minted() == old(self).minted(),
            old(self).wf() ==> final(self).wf(),
    {
        let vals = collect_pending(rx);
        self.drain_batch(vals.as_slice());
        vals
    }

    /// Hands the batch `vals` to every open consumer, in the order of
    /// registration. A consumer whose delivery fails is closed.
    pub fn consume(&mut self, vals: &[MonitorMsg])
        ensures
            dispatched(old(self)@, batch_view(vals@), final(self)@),
            forall|id: u64| !is_live(old(self)@, id) ==> !is_live(final(self)@, id),
            final(self).minted() == old(self).minted(),
            old(self).wf() ==> final(self).wf(),
    {
        let mut i: usize = 0;
        while i < self.slots.len()
            invariant
                i <= self.slots.len(),
                self.slots.len() == old(self).slots.len(),
                self.next_id == old(self).next_id,
                forall|j: int| i <= j < self.slots.len() ==> #[trigger] self@[j] == old(self)@[j],
                forall|j: int|
                    0 <= j < i ==> {
                        &&& (#[trigger] self@[j]).id == old(self)@[j].id
                        &&& old(self)@[j].closed ==> self@[j] == old(self)@[j]
                        &&& !old(self)@[j].closed ==> C::delivered(
                            old(self)@[j].consumer,
                            batch_view(vals@),
                            self@[j].consumer,
                            !self@[j].closed,
                        )
                    },
            decreases self.slots.len() - i,
        {
            let ghost prev = self@;
            if !self.slots[i].closed {
                let done = self.slots[i].consumer.consumes(vals);
                let ghost mid = self@;
                assert(mid.len() == prev.len());
                assert(forall|j: int| 0 <= j < mid.len() && j != i ==> mid[j] == prev[j]);
                assert(mid[i as int].id == prev[i as int].id);
                assert(mid[i as int].closed == prev[i as int].closed);
                if !done {
                    self.slots[i].closed = true;
                    assert(self@.len() == mid.len());
                    assert(forall|j: int| 0 <= j < mid.len() && j != i ==> self@[j] == mid[j]);
                    assert(self@[i as int].consumer == mid[i as int].consumer);
                }
            }
            i += 1;
        }
        proof {
            assert forall|id: u64| !is_live(old(self)@, id) implies !is_live(self@, id) by {
                lemma_dispatch_keeps_closed(old(self)@, batch_view(vals@), self@, id);
            }
        }
    }
}

/// A consumer that keeps every message it is handed, in the order in which
/// it is handed them.
pub struct Recorder {
    seen: Vec<MonitorMsg>,
}

impl View for Recorder {
    type V = Seq<MonitorMsgView>;

    closed spec fn view(&self) -> Seq<MonitorMsgView> {
        batch_view(self.seen@)
    }
}

impl Recorder {
    /// A recorder that has seen nothing.
    pub fn new() -> (recorder: Recorder)
        ensures
            recorder@.len() == 0,
    {
        Recorder { seen: Vec::new() }
    }

    /// What the recorder has seen, oldest message first.
    pub fn seen(&self) -> (seen: &[MonitorMsg])
        ensures
            batch_view(seen@) == self@,
    {
        self.seen.as_slice()
    }
}

impl LogConsumer for Recorder {
    open spec fn delivered(
        before: Self,
        vals: Seq<MonitorMsgView>,
        after: Self,
        done: bool,
    ) -> bool {
        after@ == before@ + vals && done
    }

    fn consumes(&mut self, vals: &[MonitorMsg]) -> (done: bool) {
        let mut i: usize = 0;
        while i < vals.len()
            invariant
                i <= vals@.len(),
                self@ == old(self)@ + batch_view(vals@).take(i as int),
            decreases vals@.len() - i,
        {
            let ghost before = self.seen@;
            let copy = vals[i].clone();
            self.seen.push(copy);
            assert(self.seen@ == before.push(copy));
            assert(batch_view(vals@)[i as int] == copy@);
            assert(batch_view(self.seen@) =~= batch_view(before).push(copy@));
            assert(batch_view(vals@).take(i + 1) =~= batch_view(vals@).take(i as int).push(
                copy@,
            ));
            assert(self@ =~= old(self)@ + batch_view(vals@).take(i + 1));
            i += 1;
        }
        assert(batch_view(vals@).take(i as int) =~= batch_view(vals@));
        true
    }
}

/// Same-batch order: two open recorders that have seen the same before a
/// dispatch have seen the same after it, the batch behind what was there.
pub proof fn lemma_recorders_agree(
    before: Seq<Slot<Recorder>>,
    vals: Seq<MonitorMsgView>,
    after: Seq<Slot<Recorder>>,
    i: int,
    j: int,
)
    requires
        dispatched(before, vals, after),
        0 <= i < before.len(),
        0 <= j < before.len(),
        !before[i].closed,
        !before[j].closed,
        before[i].consumer@ == before[j].consumer@,
    ensures
        after[i].consumer@ == before[i].consumer@ + vals,
        after[i].consumer@ == after[j].consumer@,
{
    assert(after[i].id == before[i].id);
    assert(after[j].id == before[j].id);
}

/// First in, first out: after two dispatches in a row an open recorder has
/// seen what it had seen before, then the first batch, then the second, each
/// in its own order.
pub proof fn lemma_recorders_fifo(
    before: Seq<Slot<Recorder>>,
    first: Seq<MonitorMsgView>,
    between: Seq<Slot<Recorder>>,
    second: Seq<MonitorMsgView>,
    after: Seq<Slot<Recorder>>,
    i: int,
)
    requires
        dispatched(before, first, between),
        dispatched(between, second, after),
        0 <= i < before.len(),
        !before[i].closed,
    ensures
        !after[i].closed,
        after[i].consumer@ == before[i].consumer@ + first + second,
{
    assert(between[i].id == before[i].id);
    assert(after[i].id == between[i].id);
}

/// The two ends of a new channel and an empty set of consumers: what a log
/// pipeline starts with.
pub fn new_log_writer<C>() -> (parts: (Sender<MonitorMsg>, Receiver<MonitorMsg>, RLogConsumers<C>))
    ensures
        parts.2@.len() == 0,
        parts.2.minted() == 0,
        parts.2.wf(),
{
    let (tx, rx) = unbounded_channel();
    (tx, rx, RLogConsumers::new())
}

} // verus!
