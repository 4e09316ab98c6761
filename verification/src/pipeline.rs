//! A producer and a consumer of blocks, with the channel between them.
//!
//! The producer starts a fetch and puts it into the channel, where it waits
//! while the channel is full. The consumer takes the oldest fetch out, waits for
//! its end and hands the block to the sink. Fetches run side by side; the blocks
//! still arrive in the order in which they were requested.
use crate::block_fetch;
use crate::consumer;
use crate::consumer::{Sink, MAX_CONCURRENT_REQUESTS};
use crate::fallback;
use crate::sequential;
use vstd::prelude::*;

verus! {

/// Whichever producer is at work.
pub enum Producer<E> {
    Sequential(sequential::Pending),
    Fallback(fallback::State<E>),
}

/// Producer, channel and consumer at one moment. Fetches are told apart by the
/// number of the block.
pub struct Flow<B, E> {
    pub producer: Producer<E>,
    /// The fetches that wait in the channel, oldest first.
    pub channel: Seq<u64>,
    /// The fetch that the consumer has taken out.
    pub joining: Option<u64>,
    pub consumer: consumer::State<B, E>,
    /// All fetches that were ever put into the channel.
    pub requested: Seq<u64>,
    /// All fetches whose blocks the sink has taken.
    pub delivered: Seq<u64>,
    /// Those blocks.
    pub blocks: Seq<B>,
}

/// Something that happens to the producer or to the consumer.
pub enum FlowEvent<B, E> {
    Sequential(sequential::Event),
    Fallback(fallback::Event<E>),
    Consumer(consumer::Event<B, E>),
}

impl<E> Producer<E> {
    /// The block whose fetch is being started and put into the channel.
    pub open spec fn fetching(self) -> Option<u64> {
        match self {
            Producer::Sequential(sequential::Pending::FetchBlock { next }) => Some(next),
            Producer::Sequential(_) => None,
            Producer::Fallback(state) => if state.pending is FetchBlock {
                Some(state.next)
            } else {
                None
            },
        }
    }

    /// The block whose fetch the event puts into the channel, if any.
    pub open spec fn sends<B>(self, event: FlowEvent<B, E>) -> Option<u64> {
        match (self, event) {
            (Producer::Sequential(pending), FlowEvent::Sequential(event)) => pending.sends(event),
            (Producer::Fallback(state), FlowEvent::Fallback(event)) => state.sends(event),
            _ => None,
        }
    }

    pub open spec fn overflows<B>(self, event: FlowEvent<B, E>) -> bool {
        match (self, event) {
            (Producer::Sequential(pending), FlowEvent::Sequential(event)) => pending.overflows(
                event,
            ),
            (Producer::Fallback(state), FlowEvent::Fallback(event)) => state.overflows(event),
            _ => false,
        }
    }

    pub open spec fn step<B>(self, event: FlowEvent<B, E>) -> Producer<E> {
        match (self, event) {
            (Producer::Sequential(pending), FlowEvent::Sequential(event)) => Producer::Sequential(
                pending.step(event),
            ),
            (Producer::Fallback(state), FlowEvent::Fallback(event)) => Producer::Fallback(
                state.step(event),
            ),
            _ => self,
        }
    }
}

impl<B, E> Flow<B, E> {
    pub open spec fn initial(producer: Producer<E>, sink: Sink) -> Flow<B, E> {
        Flow {
            producer,
            channel: Seq::empty(),
            joining: None,
            consumer: consumer::State::initial(sink),
            requested: Seq::empty(),
            delivered: Seq::empty(),
            blocks: Seq::empty(),
        }
    }

    /// The consumer takes a fetch out of the channel.
    pub open spec fn receives(self, event: FlowEvent<B, E>) -> bool {
        &&& self.consumer.pending is Receive
        &&& event matches FlowEvent::Consumer(consumer::Event::Received)
    }

    /// The sink takes a block.
    pub open spec fn delivers(self, event: FlowEvent<B, E>) -> bool {
        &&& self.consumer.pending is Store
        &&& event matches FlowEvent::Consumer(consumer::Event::Stored)
    }

    /// What a channel of that size lets happen: nothing is put into it while it
    /// is full, and nothing comes out while it is empty.
    pub open spec fn allows(self, event: FlowEvent<B, E>) -> bool {
        &&& self.producer.sends(event) is Some ==> self.channel.len() < MAX_CONCURRENT_REQUESTS
        &&& self.receives(event) ==> self.channel.len() > 0
        &&& !self.producer.overflows(event)
    }

    pub open spec fn step(self, event: FlowEvent<B, E>) -> Flow<B, E> {
        match event {
            FlowEvent::Consumer(consumer_event) => {
                let consumer = self.consumer.step(consumer_event);
                if self.receives(event) {
                    Flow {
                        joining: Some(self.channel.first()),
                        channel: self.channel.drop_first(),
                        consumer,
                        ..self
                    }
                } else if self.delivers(event) {
                    Flow {
                        joining: None,
                        delivered: self.delivered + in_hand(self.joining),
                        blocks: self.blocks.push(self.consumer.pending->block),
                        consumer,
                        ..self
                    }
                } else {
                    Flow { consumer, ..self }
                }
            },
            _ => match self.producer.sends(event) {
                Some(n) => Flow {
                    producer: self.producer.step(event),
                    channel: self.channel.push(n),
                    requested: self.requested.push(n),
                    ..self
                },
                None => Flow { producer: self.producer.step(event), ..self },
            },
        }
    }

    /// The state after a series of events.
    pub open spec fn run(self, events: Seq<FlowEvent<B, E>>) -> Flow<B, E>
        decreases events.len(),
    {
        if events.len() == 0 {
            self
        } else {
            self.run(events.drop_last()).step(events.last())
        }
    }

    /// The channel lets the whole series happen.
    pub open spec fn allows_all(self, events: Seq<FlowEvent<B, E>>) -> bool
        decreases events.len(),
    {
        events.len() == 0 || {
            &&& self.allows_all(events.drop_last())
            &&& self.run(events.drop_last()).allows(events.last())
        }
    }

    /// The fetches that were started and whose blocks the sink has not taken.
    pub open spec fn unfinished(self) -> nat {
        self.channel.len() + in_hand(self.joining).len() + in_hand(self.producer.fetching()).len()
    }

    /// Every fetch is delivered, in the consumer's hands or in the channel, in
    /// this order.
    pub open spec fn in_order(self) -> bool {
        self.requested == self.delivered + in_hand(self.joining) + self.channel
    }
}

/// The fetch that someone holds, if any, as a sequence.
pub open spec fn in_hand(fetch: Option<u64>) -> Seq<u64> {
    match fetch {
        Some(n) => seq![n],
        None => Seq::empty(),
    }
}

/// The blocks leave for the sink in the order in which they were requested,
/// none twice and none left out, and the channel holds no more than it can.
pub proof fn lemma_blocks_are_delivered_in_order<B, E>(
    producer: Producer<E>,
    sink: Sink,
    events: Seq<FlowEvent<B, E>>,
)
    requires
        Flow::<B, E>::initial(producer, sink).allows_all(events),
    ensures
        Flow::<B, E>::initial(producer, sink).run(events).in_order(),
        Flow::<B, E>::initial(producer, sink).run(events).channel.len() <= MAX_CONCURRENT_REQUESTS,
        ({
            let flow = Flow::<B, E>::initial(producer, sink).run(events);
            match flow.consumer.pending {
                consumer::Pending::Receive => flow.joining is None,
                consumer::Pending::Stopped(_) => true,
                _ => flow.joining is Some,
            }
        }),
    decreases events.len(),
{
    let start = Flow::<B, E>::initial(producer, sink);
    if events.len() > 0 {
        let rest = events.drop_last();
        let event = events.last();
        lemma_blocks_are_delivered_in_order(producer, sink, rest);
        let before = start.run(rest);
        let after = before.step(event);
        assert(start.run(events) == after);
        if before.receives(event) {
            assert(before.channel == seq![before.channel.first()] + before.channel.drop_first());
        }
        assert(after.requested =~= after.delivered + in_hand(after.joining) + after.channel);
    } else {
        assert(start.requested =~= start.delivered + in_hand(start.joining) + start.channel);
    }
}

/// At any time, the fetches under way are at most those that fill the channel,
/// one that waits to get into it, and one that the consumer has taken out.
pub proof fn lemma_fetches_under_way_are_bounded<B, E>(
    producer: Producer<E>,
    sink: Sink,
    events: Seq<FlowEvent<B, E>>,
)
    requires
        Flow::<B, E>::initial(producer, sink).allows_all(events),
    ensures
        Flow::<B, E>::initial(producer, sink).run(events).unfinished() <= MAX_CONCURRENT_REQUESTS
            + 2,
{
    lemma_blocks_are_delivered_in_order(producer, sink, events);
}

/// The sink gets the blocks from `first` on, one after the other: the block
/// delivered as number `i`, counted from zero, is the one requested as
/// `first + i`.
pub proof fn lemma_sequential_delivery<B, E>(
    first: u64,
    sink: Sink,
    events: Seq<FlowEvent<B, E>>,
)
    requires
        Flow::<B, E>::initial(
            Producer::Sequential(sequential::Pending::initial(first)),
            sink,
        ).allows_all(events),
    ensures
        ({
            let start = Flow::<B, E>::initial(
                Producer::Sequential(sequential::Pending::initial(first)),
                sink,
            );
            let delivered = start.run(events).delivered;
            forall|i: int| 0 <= i < delivered.len() ==> #[trigger] delivered[i] == first + i
        }),
{
    let producer = Producer::Sequential(sequential::Pending::initial(first));
    let flow = Flow::<B, E>::initial(producer, sink).run(events);
    lemma_blocks_are_delivered_in_order(producer, sink, events);
    lemma_sequential_requests(first, sink, events);
    assert forall|i: int| 0 <= i < flow.delivered.len() implies #[trigger] flow.delivered[i]
        == first + i by {
        assert(flow.requested[i] == flow.delivered[i]);
    }
}

proof fn lemma_sequential_requests<B, E>(
    first: u64,
    sink: Sink,
    events: Seq<FlowEvent<B, E>>,
)
    requires
        Flow::<B, E>::initial(
            Producer::Sequential(sequential::Pending::initial(first)),
            sink,
        ).allows_all(events),
    ensures
        ({
            let flow = Flow::<B, E>::initial(
                Producer::Sequential(sequential::Pending::initial(first)),
                sink,
            ).run(events);
            &&& forall|i: int|
                0 <= i < flow.requested.len() ==> #[trigger] flow.requested[i] == first + i
            &&& flow.producer matches Producer::Sequential(pending) && match pending {
                sequential::Pending::WaitForMainNodeBlock { next } => next == first
                    + flow.requested.len(),
                sequential::Pending::FetchBlock { next } => next == first + flow.requested.len(),
                sequential::Pending::Canceled => true,
            }
        }),
    decreases events.len(),
{
    let start = Flow::<B, E>::initial(
        Producer::Sequential(sequential::Pending::initial(first)),
        sink,
    );
    if events.len() > 0 {
        let rest = events.drop_last();
        lemma_sequential_requests(first, sink, rest);
        assert(start.run(events) == start.run(rest).step(events.last()));
    }
}

/// The blocks that the fallback fetcher delivers have increasing numbers.
pub proof fn lemma_fallback_delivery<B, E>(sink: Sink, events: Seq<FlowEvent<B, E>>)
    requires
        Flow::<B, E>::initial(
            Producer::Fallback(fallback::State::initial()),
            sink,
        ).allows_all(events),
    ensures
        ({
            let start = Flow::<B, E>::initial(
                Producer::Fallback(fallback::State::initial()),
                sink,
            );
            let delivered = start.run(events).delivered;
            forall|i: int, j: int|
                0 <= i < j < delivered.len() ==> #[trigger] delivered[i] < #[trigger] delivered[j]
        }),
{
    let producer = Producer::Fallback(fallback::State::initial());
    let flow = Flow::<B, E>::initial(producer, sink).run(events);
    lemma_blocks_are_delivered_in_order(producer, sink, events);
    lemma_fallback_requests(sink, events);
    assert forall|i: int, j: int| 0 <= i < j < flow.delivered.len() implies
        #[trigger] flow.delivered[i] < #[trigger] flow.delivered[j] by {
        assert(flow.requested[i] == flow.delivered[i]);
        assert(flow.requested[j] == flow.delivered[j]);
    }
}

proof fn lemma_fallback_requests<B, E>(sink: Sink, events: Seq<FlowEvent<B, E>>)
    requires
        Flow::<B, E>::initial(
            Producer::Fallback(fallback::State::initial()),
            sink,
        ).allows_all(events),
    ensures
        ({
            let flow = Flow::<B, E>::initial(
                Producer::Fallback(fallback::State::initial()),
                sink,
            ).run(events);
            &&& forall|i: int, j: int|
                0 <= i < j < flow.requested.len() ==> #[trigger] flow.requested[i]
                    < #[trigger] flow.requested[j]
            &&& flow.producer matches Producer::Fallback(state) && {
                &&& state.pending is FirstBlock ==> flow.requested.len() == 0
                &&& forall|i: int|
                    0 <= i < flow.requested.len() ==> #[trigger] flow.requested[i] < state.next
            }
        }),
    decreases events.len(),
{
    let start = Flow::<B, E>::initial(Producer::Fallback(fallback::State::initial()), sink);
    if events.len() > 0 {
        let rest = events.drop_last();
        lemma_fallback_requests(sink, rest);
        assert(start.run(events) == start.run(rest).step(events.last()));
    }
}

/// What happens to the fetch of each block.
pub type Fetches<B, E> = spec_fn(u64) -> Seq<block_fetch::Event<B, E>>;

/// The fetch of block `n` ends with `block`.
pub open spec fn fetch_gives<B, E>(fetches: Fetches<B, E>, n: u64, block: B) -> bool {
    block_fetch::Pending::<B, E>::initial(n).run(fetches(n)) == block_fetch::Pending::<
        B,
        E,
    >::Finished(Ok(block))
}

impl<B, E> Flow<B, E> {
    /// A block that the event hands to the consumer is the one that the fetch in
    /// its hands ends with.
    pub open spec fn joins(self, fetches: Fetches<B, E>, event: FlowEvent<B, E>) -> bool {
        match (self.consumer.pending, event) {
            (
                consumer::Pending::Join,
                FlowEvent::Consumer(consumer::Event::Joined(block)),
            ) => self.joining matches Some(n) && fetch_gives(fetches, n, block),
            _ => true,
        }
    }

    /// So it is throughout the series.
    pub open spec fn joins_all(
        self,
        fetches: Fetches<B, E>,
        events: Seq<FlowEvent<B, E>>,
    ) -> bool
        decreases events.len(),
    {
        events.len() == 0 || {
            &&& self.joins_all(fetches, events.drop_last())
            &&& self.run(events.drop_last()).joins(fetches, events.last())
        }
    }
}

/// Each block that the sink gets is what the fetch of the number under which it
/// is delivered ended with, and one that the main node gave in that fetch.
pub proof fn lemma_delivered_blocks_are_the_blocks_asked_for<B, E>(
    producer: Producer<E>,
    sink: Sink,
    fetches: Fetches<B, E>,
    events: Seq<FlowEvent<B, E>>,
    i: int,
)
    requires
        Flow::<B, E>::initial(producer, sink).allows_all(events),
        Flow::<B, E>::initial(producer, sink).joins_all(fetches, events),
        0 <= i < Flow::<B, E>::initial(producer, sink).run(events).delivered.len(),
    ensures
        ({
            let flow = Flow::<B, E>::initial(producer, sink).run(events);
            &&& flow.blocks.len() == flow.delivered.len()
            &&& fetch_gives(fetches, flow.delivered[i], flow.blocks[i])
            &&& flow.delivered[i] <= u32::MAX
            &&& exists|j: int|
                0 <= j < fetches(flow.delivered[i]).len() && #[trigger] fetches(
                    flow.delivered[i],
                )[j] == block_fetch::Event::<B, E>::Found(flow.blocks[i])
        }),
{
    let flow = Flow::<B, E>::initial(producer, sink).run(events);
    lemma_delivered_blocks_are_fetched(producer, sink, fetches, events);
    assert(fetch_gives(fetches, flow.delivered[i], flow.blocks[i]));
    block_fetch::lemma_fetcher_gives_what_was_asked_for(
        flow.delivered[i],
        fetches(flow.delivered[i]),
    );
}

proof fn lemma_delivered_blocks_are_fetched<B, E>(
    producer: Producer<E>,
    sink: Sink,
    fetches: Fetches<B, E>,
    events: Seq<FlowEvent<B, E>>,
)
    requires
        Flow::<B, E>::initial(producer, sink).allows_all(events),
        Flow::<B, E>::initial(producer, sink).joins_all(fetches, events),
    ensures
        ({
            let flow = Flow::<B, E>::initial(producer, sink).run(events);
            &&& flow.blocks.len() == flow.delivered.len()
            &&& forall|i: int|
                0 <= i < flow.delivered.len() ==> fetch_gives(
                    fetches,
                    #[trigger] flow.delivered[i],
                    flow.blocks[i],
                )
            &&& flow.consumer.pending matches consumer::Pending::Store { block } ==> {
                &&& flow.joining matches Some(n)
                &&& fetch_gives(fetches, n, block)
            }
        }),
    decreases events.len(),
{
    let start = Flow::<B, E>::initial(producer, sink);
    if events.len() > 0 {
        let rest = events.drop_last();
        lemma_delivered_blocks_are_fetched(producer, sink, fetches, rest);
        lemma_blocks_are_delivered_in_order(producer, sink, rest);
        assert(start.run(events) == start.run(rest).step(events.last()));
    }
}

} // verus!
