//! Requesting all blocks from some number on.
use crate::numbers::next_block_number;
use vstd::prelude::*;

verus! {

/// What the producer waits for.
#[derive(Clone, Copy, Debug, PartialEq, Eq)]
pub enum Pending {
    /// The main node reaching block `next`.
    WaitForMainNodeBlock { next: u64 },
    /// A fetch of block `next` being started and put into the channel.
    FetchBlock { next: u64 },
    /// Nothing: the producer was asked to stop.
    Canceled,
}

/// What can happen to the producer. An event that does not answer what is
/// pending changes nothing.
#[derive(Clone, Copy, Debug, PartialEq, Eq)]
pub enum Event {
    /// The main node's last block is `main`.
    MainNodeBlock { main: u64 },
    /// The fetch was started and put into the channel.
    Sent,
    Canceled,
}

impl Pending {
    pub open spec fn initial(first: u64) -> Pending {
        Pending::WaitForMainNodeBlock { next: first }
    }

    /// The producer waits for just this block of the main node, or for an
    /// earlier one.
    pub open spec fn spec_is_available(self, main: u64) -> bool {
        self matches Pending::WaitForMainNodeBlock { next } && main >= next
    }

    /// No block number would follow the one that the fetch is for.
    pub open spec fn overflows(self, event: Event) -> bool {
        self == (Pending::FetchBlock { next: u64::MAX }) && event is Sent
    }

    pub open spec fn step(self, event: Event) -> Pending {
        match (self, event) {
            (Pending::Canceled, _) => self,
            (_, Event::Canceled) => Pending::Canceled,
            (Pending::WaitForMainNodeBlock { next }, Event::MainNodeBlock { main }) => if main
                >= next {
                Pending::FetchBlock { next }
            } else {
                self
            },
            (Pending::FetchBlock { next }, Event::Sent) => Pending::WaitForMainNodeBlock {
                next: (next + 1) as u64,
            },
            _ => self,
        }
    }

    /// What is pending after a series of events.
    pub open spec fn run(self, events: Seq<Event>) -> Pending
        decreases events.len(),
    {
        if events.len() == 0 {
            self
        } else {
            self.run(events.drop_last()).step(events.last())
        }
    }

    /// No event of the series overflows.
    pub open spec fn in_range(self, events: Seq<Event>) -> bool
        decreases events.len(),
    {
        events.len() == 0 || {
            &&& self.in_range(events.drop_last())
            &&& !self.run(events.drop_last()).overflows(events.last())
        }
    }

    /// The block whose fetch the event puts into the channel, if any.
    pub open spec fn sends(self, event: Event) -> Option<u64> {
        match self {
            Pending::FetchBlock { next } => if event is Sent {
                Some(next)
            } else {
                None
            },
            _ => None,
        }
    }

    /// The blocks whose fetches a series of events puts into the channel, in
    /// that order.
    pub open spec fn requested(self, events: Seq<Event>) -> Seq<u64>
        decreases events.len(),
    {
        if events.len() == 0 {
            Seq::empty()
        } else {
            let earlier = self.requested(events.drop_last());
            match self.run(events.drop_last()).sends(events.last()) {
                Some(n) => earlier.push(n),
                None => earlier,
            }
        }
    }
}

/// Requests blocks one after the other, each as soon as the main node has it.
pub struct SequentialProducer {
    pending: Pending,
}

impl View for SequentialProducer {
    type V = Pending;

    closed spec fn view(&self) -> Pending {
        self.pending
    }
}

impl SequentialProducer {
    /// A producer of the blocks from `first` on.
    pub fn new(first: u64) -> (producer: SequentialProducer)
        ensures
            producer@ == Pending::initial(first),
    {
        SequentialProducer { pending: Pending::WaitForMainNodeBlock { next: first } }
    }

    /// What the producer waits for.
    pub fn pending(&self) -> (pending: Pending)
        ensures
            pending == self@,
    {
        self.pending
    }

    /// Whether the wait for the main node is over once its last block is `main`.
    pub fn is_available(&self, main: u64) -> (available: bool)
        ensures
            available == self@.spec_is_available(main),
            available <==> {
                &&& self@ is WaitForMainNodeBlock
                &&& self@.step(Event::MainNodeBlock { main }) is FetchBlock
            },
    {
        match self.pending {
            Pending::WaitForMainNodeBlock { next } => main >= next,
            _ => false,
        }
    }

    /// Whether no block number would follow the one that the fetch is for.
    pub fn overflows(&self, event: &Event) -> (overflows: bool)
        ensures
            overflows == self@.overflows(*event),
    {
        match (&self.pending, event) {
            (Pending::FetchBlock { next }, Event::Sent) => *next == u64::MAX,
            _ => false,
        }
    }

    /// Takes the event in.
    pub fn step(self, event: Event) -> (next: SequentialProducer)
        requires
            !self@.overflows(event),
        ensures
            next@ == self@.step(event),
    {
        let pending: Pending = match (self.pending, event) {
            (Pending::WaitForMainNodeBlock { next }, Event::MainNodeBlock { main }) => {
                if main >= next {
                    Pending::FetchBlock { next }
                } else {
                    Pending::WaitForMainNodeBlock { next }
                }
            },
            (Pending::FetchBlock { next }, Event::Sent) => {
                Pending::WaitForMainNodeBlock { next: next_block_number(next) }
            },
            (_, Event::Canceled) => Pending::Canceled,
            (pending, _) => pending,
        };
        SequentialProducer { pending }
    }
}

/// The main node was seen to have block `n`.
pub open spec fn main_node_has(events: Seq<Event>, n: u64) -> bool {
    exists|i: int|
        0 <= i < events.len() && ((#[trigger] events[i]) matches Event::MainNodeBlock { main }
            && main >= n)
}

/// The blocks requested are `first`, `first + 1` and so on, without a gap and
/// without a repetition, and none is requested before the main node has it.
pub proof fn lemma_requests_are_consecutive(first: u64, events: Seq<Event>)
    requires
        Pending::initial(first).in_range(events),
    ensures
        ({
            let requested = Pending::initial(first).requested(events);
            &&& forall|i: int|
                0 <= i < requested.len() ==> #[trigger] requested[i] == first + i
            &&& forall|i: int|
                0 <= i < requested.len() ==> main_node_has(events, #[trigger] requested[i])
            &&& match Pending::initial(first).run(events) {
                Pending::WaitForMainNodeBlock { next } => next == first + requested.len(),
                Pending::FetchBlock { next } => {
                    &&& next == first + requested.len()
                    &&& main_node_has(events, next)
                },
                Pending::Canceled => true,
            }
        }),
    decreases events.len(),
{
    if events.len() > 0 {
        let rest = events.drop_last();
        let start = Pending::initial(first);
        let before = start.run(rest);
        lemma_requests_are_consecutive(first, rest);
        assert(events[rest.len() as int] == events.last());
        assert forall|n: u64| main_node_has(rest, n) implies main_node_has(events, n) by {
            let i = choose|i: int|
                0 <= i < rest.len() && ((#[trigger] rest[i]) matches Event::MainNodeBlock { main }
                    && main >= n);
            assert(events[i] == rest[i]);
        }
        match before.sends(events.last()) {
            Some(n) => {
                assert(start.requested(events) == start.requested(rest).push(n));
            },
            None => {
                assert(start.requested(events) == start.requested(rest));
            },
        }
    }
}

/// The producer waits for block `next` just as long as the main node is below
/// it. As soon as the main node is at or above `next`, however far, `next` is
/// fetched.
pub proof fn lemma_available_block_is_fetched(next: u64, main: u64)
    ensures
        ({
            let waiting = Pending::WaitForMainNodeBlock { next };
            let after = waiting.step(Event::MainNodeBlock { main });
            &&& next <= main ==> after == (Pending::FetchBlock { next })
            &&& next > main ==> after == waiting
            &&& waiting.spec_is_available(main) <==> next <= main
            &&& Pending::initial(next) == waiting
        }),
{
}

/// Once the fetch of a block is on its way, the producer waits for the block
/// after it. That fails to exist only after the largest `u64`.
pub proof fn lemma_next_block_follows(next: u64, event: Event)
    ensures
        ({
            let fetching = Pending::FetchBlock { next };
            &&& next < 0xffff_ffff_ffff_ffff ==> {
                &&& fetching.step(Event::Sent) matches Pending::WaitForMainNodeBlock { next: after }
                &&& after == next + 1
            }
            &&& fetching.overflows(event) <==> next == 0xffff_ffff_ffff_ffff && event is Sent
            &&& !(Pending::WaitForMainNodeBlock { next }).overflows(event)
            &&& !Pending::Canceled.overflows(event)
        }),
{
}

/// The producer can be asked to stop at any time, and then stays so. Any other
/// event moves it only where it answers what is pending.
pub proof fn lemma_producer_ignores_what_it_did_not_ask_for(pending: Pending, event: Event)
    ensures
        pending.step(Event::Canceled) is Canceled,
        pending is Canceled ==> pending.step(event) is Canceled,
        event is MainNodeBlock && !(pending is WaitForMainNodeBlock) ==> pending.step(event)
            == pending,
        event is Sent && !(pending is FetchBlock) ==> pending.step(event) == pending,
        !(pending is WaitForMainNodeBlock) ==> forall|main: u64|
            !#[trigger] pending.spec_is_available(main),
{
}

/// One round for each of the heads: the main node is seen at that head, and the
/// fetch is put into the channel.
pub open spec fn rounds(heads: Seq<u64>) -> Seq<Event>
    decreases heads.len(),
{
    if heads.len() == 0 {
        Seq::empty()
    } else {
        rounds(heads.drop_last()).push(Event::MainNodeBlock { main: heads.last() }).push(Event::Sent)
    }
}

/// As long as the main node is ahead, each round requests one block: after `n`
/// rounds the blocks requested are exactly the `n` blocks from `first` on.
pub proof fn lemma_each_round_requests_a_block(first: u64, heads: Seq<u64>)
    requires
        first + heads.len() <= 0xffff_ffff_ffff_ffff,
        forall|i: int| 0 <= i < heads.len() ==> #[trigger] heads[i] >= first + i,
    ensures
        ({
            let start = Pending::initial(first);
            let requested = start.requested(rounds(heads));
            &&& requested.len() == heads.len()
            &&& forall|i: int| 0 <= i < requested.len() ==> #[trigger] requested[i] == first + i
            &&& start.run(rounds(heads)) matches Pending::WaitForMainNodeBlock { next }
            &&& next == first + heads.len()
        }),
    decreases heads.len(),
{
    if heads.len() > 0 {
        let start = Pending::initial(first);
        let rest = heads.drop_last();
        let main = heads.last();
        assert forall|i: int| 0 <= i < rest.len() implies #[trigger] rest[i] >= first + i by {
            assert(rest[i] == heads[i]);
        }
        lemma_each_round_requests_a_block(first, rest);
        assert(heads[heads.len() - 1] == main);
        let seen = rounds(rest).push(Event::MainNodeBlock { main });
        let sent = seen.push(Event::Sent);
        assert(sent.drop_last() == seen);
        assert(seen.drop_last() == rounds(rest));
        assert(start.run(seen) == start.run(rounds(rest)).step(Event::MainNodeBlock { main }));
        assert(start.run(sent) == start.run(seen).step(Event::Sent));
        assert(start.requested(seen) == start.requested(rounds(rest)));
        let next = start.run(seen)->FetchBlock_next;
        assert(start.requested(sent) == start.requested(seen).push(next));
        assert(rounds(heads) == sent);
    }
}

} // verus!
