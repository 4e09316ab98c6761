//! Keeping track of the main node's last block.
use crate::error::{Context, TaskError, Report};
use crate::numbers::{l2_block_number, spec_l2_block_number};
use vstd::prelude::*;

verus! {

/// Milliseconds to wait after the last block was learnt.
pub const DELAY_INTERVAL_MS: u64 = 500;

/// Milliseconds to wait after it could not be learnt.
pub const RETRY_INTERVAL_MS: u64 = 5000;

/// What the tracker waits for.
#[derive(Debug)]
pub enum Pending<E> {
    /// The number of the main node's last block.
    GetBlockNumber,
    /// The number being published to the rest of the node.
    SetMainNodeBlock { head: u32 },
    /// The end of a pause.
    Sleep { ms: u64 },
    /// Nothing: the tracker is done.
    Stopped(TaskError<E>),
}

/// What can happen to the tracker. An event that does not answer what is
/// pending changes nothing.
#[derive(Debug)]
pub enum Event {
    BlockNumber { head: u64 },
    /// The main node did not answer as it should.
    Unavailable,
    Published,
    Slept,
    Canceled,
}

impl<E> Pending<E> {
    pub open spec fn step(self, event: Event) -> Pending<E> {
        match (self, event) {
            (Pending::GetBlockNumber, Event::BlockNumber { head }) => match spec_l2_block_number(
                head,
            ) {
                Some(head) => Pending::SetMainNodeBlock { head },
                None => Pending::Stopped(TaskError::Internal(Report::Message(Context::Overflow))),
            },
            (Pending::GetBlockNumber, Event::Unavailable) => Pending::Sleep {
                ms: RETRY_INTERVAL_MS,
            },
            (Pending::SetMainNodeBlock { .. }, Event::Published) => Pending::Sleep {
                ms: DELAY_INTERVAL_MS,
            },
            (Pending::Sleep { .. }, Event::Slept) => Pending::GetBlockNumber,
            (Pending::GetBlockNumber | Pending::Sleep { .. }, Event::Canceled) => Pending::Stopped(
                TaskError::Canceled,
            ),
            _ => self,
        }
    }

    /// What is pending after a series of events.
    pub open spec fn run(self, events: Seq<Event>) -> Pending<E>
        decreases events.len(),
    {
        if events.len() == 0 {
            self
        } else {
            self.run(events.drop_last()).step(events.last())
        }
    }

    /// The numbers that a series of events brings in answer to a request, in
    /// that order.
    pub open spec fn learnt(self, events: Seq<Event>) -> Seq<u64>
        decreases events.len(),
    {
        if events.len() == 0 {
            Seq::empty()
        } else {
            let earlier = self.learnt(events.drop_last());
            match (self.run(events.drop_last()), events.last()) {
                (Pending::GetBlockNumber, Event::BlockNumber { head }) => earlier.push(head),
                _ => earlier,
            }
        }
    }

    /// The numbers that the tracker has published, in that order.
    pub open spec fn published(self, events: Seq<Event>) -> Seq<u64>
        decreases events.len(),
    {
        if events.len() == 0 {
            Seq::empty()
        } else {
            let earlier = self.published(events.drop_last());
            match (self.run(events.drop_last()), events.last()) {
                (Pending::SetMainNodeBlock { head }, Event::Published) => earlier.push(head as u64),
                _ => earlier,
            }
        }
    }
}

/// Periodically asks for the head of the main node and publishes it.
pub struct HeadTracker<E> {
    pending: Pending<E>,
}

impl<E> View for HeadTracker<E> {
    type V = Pending<E>;

    closed spec fn view(&self) -> Pending<E> {
        self.pending
    }
}

impl<E> HeadTracker<E> {
    /// A tracker that knows nothing yet.
    pub fn new() -> (tracker: HeadTracker<E>)
        ensures
            tracker@ == Pending::<E>::GetBlockNumber,
    {
        HeadTracker { pending: Pending::GetBlockNumber }
    }

    /// What the tracker waits for.
    pub fn pending(&self) -> (pending: &Pending<E>)
        ensures
            *pending == self@,
    {
        &self.pending
    }

    /// How the tracker ended, if it did.
    pub fn into_outcome(self) -> (outcome: Option<TaskError<E>>)
        ensures
            outcome == match self@ {
                Pending::Stopped(error) => Some(error),
                _ => None::<TaskError<E>>,
            },
    {
        match self.pending {
            Pending::Stopped(error) => Some(error),
            _ => None,
        }
    }

    /// Takes the event in.
    pub fn step(self, event: Event) -> (next: HeadTracker<E>)
        ensures
            next@ == self@.step(event),
    {
        let pending: Pending<E> = match (self.pending, event) {
            (Pending::GetBlockNumber, Event::BlockNumber { head }) => {
                match l2_block_number(head) {
                    Some(head) => Pending::SetMainNodeBlock { head },
                    None => Pending::Stopped(TaskError::Internal(Report::Message(Context::Overflow))),
                }
            },
            (Pending::GetBlockNumber, Event::Unavailable) => {
                Pending::Sleep { ms: RETRY_INTERVAL_MS }
            },
            (Pending::GetBlockNumber, Event::Canceled) => Pending::Stopped(TaskError::Canceled),
            (Pending::SetMainNodeBlock { .. }, Event::Published) => {
                Pending::Sleep { ms: DELAY_INTERVAL_MS }
            },
            (Pending::Sleep { .. }, Event::Slept) => Pending::GetBlockNumber,
            (Pending::Sleep { .. }, Event::Canceled) => Pending::Stopped(TaskError::Canceled),
            (pending, _) => pending,
        };
        HeadTracker { pending }
    }
}

/// The numbers published are those that the main node gave, in the same order.
/// Only the last one may still be missing: it is about to be published, or it
/// is too large.
pub proof fn lemma_published_heads_are_the_heads_learnt<E>(events: Seq<Event>)
    ensures
        ({
            let start = Pending::<E>::GetBlockNumber;
            let learnt = start.learnt(events);
            let published = start.published(events);
            match start.run(events) {
                Pending::SetMainNodeBlock { head } => learnt == published.push(head as u64),
                Pending::Stopped(TaskError::Internal(_)) => {
                    &&& learnt == published.push(learnt.last())
                    &&& learnt.last() > u32::MAX
                },
                _ => learnt == published,
            }
        }),
    decreases events.len(),
{
    if events.len() > 0 {
        lemma_published_heads_are_the_heads_learnt::<E>(events.drop_last());
    }
}

/// The tracker ends only where it is asked to, or on a number that is too
/// large. That the main node is not available does not stop it.
pub proof fn lemma_tracker_goes_on<E>(events: Seq<Event>)
    requires
        forall|i: int| 0 <= i < events.len() ==> !((#[trigger] events[i]) is Canceled),
        forall|i: int|
            0 <= i < events.len() ==> ((#[trigger] events[i]) matches Event::BlockNumber { head }
                ==> head <= u32::MAX),
    ensures
        !(Pending::<E>::GetBlockNumber.run(events) is Stopped),
    decreases events.len(),
{
    if events.len() > 0 {
        let rest = events.drop_last();
        assert forall|i: int| 0 <= i < rest.len() implies !((#[trigger] rest[i]) is Canceled) by {
            assert(rest[i] == events[i]);
        }
        assert forall|i: int| 0 <= i < rest.len() implies ((
        #[trigger] rest[i]) matches Event::BlockNumber { head } ==> head <= u32::MAX) by {
            assert(rest[i] == events[i]);
        }
        lemma_tracker_goes_on::<E>(rest);
        assert(events.last() == events[events.len() - 1]);
    }
}

/// A head that the main node gives is published as it is, and then there is a
/// short pause. Only a number above the largest `u32` cannot be published, and
/// ends the tracker.
pub proof fn lemma_head_is_published_as_given<E>(head: u64)
    ensures
        ({
            let asked = Pending::<E>::GetBlockNumber;
            let given = asked.step(Event::BlockNumber { head });
            &&& head <= 0xffff_ffff ==> {
                &&& given matches Pending::SetMainNodeBlock { head: published }
                &&& published as int == head as int
                &&& given.step(Event::Published) == Pending::<E>::Sleep { ms: 500 }
            }
            &&& head > 0xffff_ffff ==> given == Pending::<E>::Stopped(
                TaskError::Internal(Report::Message(Context::Overflow)),
            )
        }),
{
}

/// However long the pause, its end leads back to a request. A failed request is
/// followed by a pause, and so by another one.
pub proof fn lemma_every_pause_ends_in_a_request<E>(ms: u64)
    ensures
        (Pending::<E>::Sleep { ms }).step(Event::Slept) is GetBlockNumber,
        Pending::<E>::GetBlockNumber.step(Event::Unavailable) == (Pending::<E>::Sleep { ms: 5000 }),
{
}

/// A tracker that waits for the main node or for the end of a pause can be asked
/// to stop. One that is about to publish is not interrupted, and one that has
/// ended does not care.
pub proof fn lemma_tracker_can_be_canceled<E>(pending: Pending<E>)
    ensures
        pending is GetBlockNumber || pending is Sleep ==> pending.step(Event::Canceled)
            == Pending::<E>::Stopped(TaskError::Canceled),
        pending is SetMainNodeBlock || pending is Stopped ==> pending.step(Event::Canceled)
            == pending,
{
}

/// An event moves the tracker only where it answers what is pending.
pub proof fn lemma_tracker_ignores_what_it_did_not_ask_for<E>(pending: Pending<E>, event: Event)
    ensures
        pending is Stopped ==> pending.step(event) == pending,
        event is BlockNumber && !(pending is GetBlockNumber) ==> pending.step(event) == pending,
        event is Unavailable && !(pending is GetBlockNumber) ==> pending.step(event) == pending,
        event is Published && !(pending is SetMainNodeBlock) ==> pending.step(event) == pending,
        event is Slept && !(pending is Sleep) ==> pending.step(event) == pending,
{
}

/// A number of failed requests, each with the pause after it.
pub open spec fn failed_requests(count: nat) -> Seq<Event>
    decreases count,
{
    if count == 0 {
        Seq::empty()
    } else {
        failed_requests((count - 1) as nat).push(Event::Unavailable).push(Event::Slept)
    }
}

/// However many requests fail, the tracker goes on asking, and the head that the
/// main node then gives is the next one to be published.
pub proof fn lemma_head_is_published_after_failures<E>(
    earlier: Seq<Event>,
    count: nat,
    head: u64,
)
    requires
        Pending::<E>::GetBlockNumber.run(earlier) is GetBlockNumber,
        head <= 0xffff_ffff,
    ensures
        ({
            let start = Pending::<E>::GetBlockNumber;
            let failed = earlier + failed_requests(count);
            let given = failed.push(Event::BlockNumber { head }).push(Event::Published);
            &&& start.run(failed) is GetBlockNumber
            &&& start.published(given) == start.published(earlier).push(head)
            &&& start.run(given.push(Event::Slept)) is GetBlockNumber
        }),
{
    let start = Pending::<E>::GetBlockNumber;
    lemma_failures_are_overcome::<E>(earlier, count);
    let failed = earlier + failed_requests(count);
    let learnt = failed.push(Event::BlockNumber { head });
    let given = learnt.push(Event::Published);
    let rested = given.push(Event::Slept);
    assert(learnt.drop_last() == failed);
    assert(given.drop_last() == learnt);
    assert(rested.drop_last() == given);
    assert(start.run(learnt) == start.run(failed).step(Event::BlockNumber { head }));
    assert(start.run(given) == start.run(learnt).step(Event::Published));
    assert(start.run(rested) == start.run(given).step(Event::Slept));
    assert(start.published(learnt) == start.published(failed));
    assert(start.published(given) == start.published(learnt).push(head));
}

proof fn lemma_failures_are_overcome<E>(earlier: Seq<Event>, count: nat)
    requires
        Pending::<E>::GetBlockNumber.run(earlier) is GetBlockNumber,
    ensures
        ({
            let start = Pending::<E>::GetBlockNumber;
            let failed = earlier + failed_requests(count);
            &&& start.run(failed) is GetBlockNumber
            &&& start.published(failed) == start.published(earlier)
        }),
    decreases count,
{
    let start = Pending::<E>::GetBlockNumber;
    let failed = earlier + failed_requests(count);
    if count == 0 {
        assert(failed == earlier);
    } else {
        lemma_failures_are_overcome::<E>(earlier, (count - 1) as nat);
        let before = earlier + failed_requests((count - 1) as nat);
        let once = before.push(Event::Unavailable);
        assert(failed == once.push(Event::Slept));
        assert(failed.drop_last() == once);
        assert(once.drop_last() == before);
        assert(start.run(once) == start.run(before).step(Event::Unavailable));
        assert(start.run(failed) == start.run(once).step(Event::Slept));
        assert(start.published(once) == start.published(before));
        assert(start.published(failed) == start.published(once));
    }
}

} // verus!
