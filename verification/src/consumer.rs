//! Taking fetched blocks in, in the order in which they were requested.
use crate::error::{Context, TaskError};
use vstd::prelude::*;

verus! {

/// At most this many requested blocks wait in the channel.
pub const MAX_CONCURRENT_REQUESTS: usize = 30;

/// Where the blocks go.
#[derive(Clone, Copy, Debug, PartialEq, Eq)]
pub enum Sink {
    /// The queue of payloads of a node that takes no part in the consensus.
    PayloadQueue,
    /// The block store of a consensus node.
    BlockStore,
}

impl Sink {
    /// What an error of the sink is seen through.
    pub open spec fn spec_context(self) -> Context {
        match self {
            Sink::PayloadQueue => Context::QueueSend,
            Sink::BlockStore => Context::QueueNextFetchedBlock,
        }
    }

    fn context(&self) -> (context: Context)
        ensures
            context == self.spec_context(),
    {
        match self {
            Sink::PayloadQueue => Context::QueueSend,
            Sink::BlockStore => Context::QueueNextFetchedBlock,
        }
    }
}

/// What the consumer waits for. `B` is the type of a block.
#[derive(Debug)]
pub enum Pending<B, E> {
    /// The next fetch from the channel.
    Receive,
    /// The end of that fetch.
    Join,
    /// The block being handed to the sink.
    Store { block: B },
    /// Nothing: the consumer is done.
    Stopped(TaskError<E>),
}

/// What can happen to the consumer. An event that does not answer what is
/// pending changes nothing.
#[derive(Debug)]
pub enum Event<B, E> {
    Received,
    Joined(B),
    Stored,
    /// What is pending failed.
    Failed(TaskError<E>),
}

/// The state of the consumer.
#[derive(Debug)]
pub struct State<B, E> {
    pub sink: Sink,
    pub pending: Pending<B, E>,
}

impl<B, E> State<B, E> {
    pub open spec fn initial(sink: Sink) -> State<B, E> {
        State { sink, pending: Pending::Receive }
    }

    pub open spec fn with(self, pending: Pending<B, E>) -> State<B, E> {
        State { pending, ..self }
    }

    pub open spec fn step(self, event: Event<B, E>) -> State<B, E> {
        match (self.pending, event) {
            (Pending::Receive, Event::Received) => self.with(Pending::Join),
            (Pending::Join, Event::Joined(block)) => self.with(Pending::Store { block }),
            (Pending::Store { .. }, Event::Stored) => self.with(Pending::Receive),
            (Pending::Receive | Pending::Join, Event::Failed(error)) => self.with(
                Pending::Stopped(error),
            ),
            (Pending::Store { .. }, Event::Failed(error)) => self.with(
                Pending::Stopped(error.spec_wrap(self.sink.spec_context())),
            ),
            _ => self,
        }
    }

    /// The state after a series of events.
    pub open spec fn run(self, events: Seq<Event<B, E>>) -> State<B, E>
        decreases events.len(),
    {
        if events.len() == 0 {
            self
        } else {
            self.run(events.drop_last()).step(events.last())
        }
    }

    /// The blocks that a series of events brings out of the channel, in that
    /// order.
    pub open spec fn joined(self, events: Seq<Event<B, E>>) -> Seq<B>
        decreases events.len(),
    {
        if events.len() == 0 {
            Seq::empty()
        } else {
            let earlier = self.joined(events.drop_last());
            match (self.run(events.drop_last()).pending, events.last()) {
                (Pending::Join, Event::Joined(block)) => earlier.push(block),
                _ => earlier,
            }
        }
    }

    /// The blocks that the sink has taken, in that order.
    pub open spec fn stored(self, events: Seq<Event<B, E>>) -> Seq<B>
        decreases events.len(),
    {
        if events.len() == 0 {
            Seq::empty()
        } else {
            let earlier = self.stored(events.drop_last());
            match (self.run(events.drop_last()).pending, events.last()) {
                (Pending::Store { block }, Event::Stored) => earlier.push(block),
                _ => earlier,
            }
        }
    }
}

/// Hands the fetched blocks to the sink.
pub struct Consumer<B, E> {
    state: State<B, E>,
}

impl<B, E> View for Consumer<B, E> {
    type V = State<B, E>;

    closed spec fn view(&self) -> State<B, E> {
        self.state
    }
}

impl<B, E> Consumer<B, E> {
    /// A consumer that hands the blocks to `sink`.
    pub fn new(sink: Sink) -> (consumer: Consumer<B, E>)
        ensures
            consumer@ == State::<B, E>::initial(sink),
    {
        Consumer { state: State { sink, pending: Pending::Receive } }
    }

    /// What the consumer waits for.
    pub fn pending(&self) -> (pending: &Pending<B, E>)
        ensures
            *pending == self@.pending,
    {
        &self.state.pending
    }

    /// What is pending, to keep.
    pub fn into_pending(self) -> (pending: Pending<B, E>)
        ensures
            pending == self@.pending,
    {
        self.state.pending
    }

    /// Takes the event in.
    pub fn step(self, event: Event<B, E>) -> (next: Consumer<B, E>)
        ensures
            next@ == self@.step(event),
    {
        let State { sink, pending } = self.state;
        let pending: Pending<B, E> = match (pending, event) {
            (Pending::Receive, Event::Received) => Pending::Join,
            (Pending::Join, Event::Joined(block)) => Pending::Store { block },
            (Pending::Store { .. }, Event::Stored) => Pending::Receive,
            (Pending::Receive, Event::Failed(error)) => Pending::Stopped(error),
            (Pending::Join, Event::Failed(error)) => Pending::Stopped(error),
            (Pending::Store { .. }, Event::Failed(error)) => {
                Pending::Stopped(error.wrap(sink.context()))
            },
            (pending, _) => pending,
        };
        Consumer { state: State { sink, pending } }
    }
}

/// The sink gets the blocks that came out of the channel, in the same order and
/// each once. While the consumer runs, only the last one may still be under way.
pub proof fn lemma_stored_blocks_are_the_blocks_joined<B, E>(
    sink: Sink,
    events: Seq<Event<B, E>>,
)
    ensures
        ({
            let start = State::<B, E>::initial(sink);
            let joined = start.joined(events);
            let stored = start.stored(events);
            &&& stored == joined.take(stored.len() as int)
            &&& stored.len() <= joined.len() <= stored.len() + 1
            &&& match start.run(events).pending {
                Pending::Store { block } => joined == stored.push(block),
                Pending::Stopped(_) => true,
                _ => joined == stored,
            }
        }),
    decreases events.len(),
{
    if events.len() > 0 {
        let rest = events.drop_last();
        let start = State::<B, E>::initial(sink);
        lemma_stored_blocks_are_the_blocks_joined(sink, rest);
        let joined = start.joined(events);
        let stored = start.stored(events);
        assert(start.joined(rest).take(start.joined(rest).len() as int) == start.joined(rest));
        match (start.run(rest).pending, events.last()) {
            (Pending::Join, Event::Joined(block)) => {
                assert(joined.take(stored.len() as int) == stored);
            },
            (Pending::Store { block }, Event::Stored) => {
                assert(joined.take(stored.len() as int) == stored);
            },
            _ => {},
        }
    }
}

/// The consumer stops only on a failure. As long as nothing fails, it goes on,
/// and it never changes its sink.
pub proof fn lemma_consumer_stops_only_on_failure<B, E>(sink: Sink, events: Seq<Event<B, E>>)
    requires
        forall|i: int| 0 <= i < events.len() ==> !((#[trigger] events[i]) is Failed),
    ensures
        !(State::<B, E>::initial(sink).run(events).pending is Stopped),
        State::<B, E>::initial(sink).run(events).sink == sink,
    decreases events.len(),
{
    if events.len() > 0 {
        let rest = events.drop_last();
        assert forall|i: int| 0 <= i < rest.len() implies !((#[trigger] rest[i]) is Failed) by {
            assert(rest[i] == events[i]);
        }
        lemma_consumer_stops_only_on_failure(sink, rest);
        assert(events.last() == events[events.len() - 1]);
    }
}

/// A round takes one fetch out of the channel, hands just its block to the sink,
/// and leaves the consumer ready for the next one.
pub proof fn lemma_round_hands_on_one_block<B, E>(state: State<B, E>, block: B)
    ensures
        state.pending is Receive ==> {
            let received = state.step(Event::Received);
            let joined = received.step(Event::Joined(block));
            &&& received.pending is Join
            &&& received.sink == state.sink && joined.sink == state.sink
            &&& joined.pending == Pending::<B, E>::Store { block }
            &&& joined.step(Event::Stored) == state
        },
        state.pending is Store ==> {
            &&& state.step(Event::Stored).pending is Receive
            &&& state.step(Event::Stored).sink == state.sink
        },
        State::<B, E>::initial(state.sink).pending is Receive,
        State::<B, E>::initial(state.sink).sink == state.sink,
{
}

/// A failure ends the consumer with the error at hand. Only an error of the sink
/// is seen through a context: the one of that sink.
pub proof fn lemma_failure_ends_the_consumer<B, E>(state: State<B, E>, error: TaskError<E>)
    ensures
        ({
            let after = state.step(Event::Failed(error));
            &&& after.sink == state.sink
            &&& match state.pending {
                Pending::Receive | Pending::Join => after.pending == Pending::<B, E>::Stopped(
                    error,
                ),
                Pending::Store { .. } => after.pending == Pending::<B, E>::Stopped(
                    match state.sink {
                        Sink::PayloadQueue => error.spec_wrap(Context::QueueSend),
                        Sink::BlockStore => error.spec_wrap(Context::QueueNextFetchedBlock),
                    },
                ),
                Pending::Stopped(_) => after == state,
            }
        }),
{
}

/// An event moves the consumer only where it answers what is pending.
pub proof fn lemma_consumer_ignores_what_it_did_not_ask_for<B, E>(
    state: State<B, E>,
    event: Event<B, E>,
)
    ensures
        state.pending is Stopped ==> state.step(event) == state,
        event is Received && !(state.pending is Receive) ==> state.step(event) == state,
        event is Joined && !(state.pending is Join) ==> state.step(event) == state,
        event is Stored && !(state.pending is Store) ==> state.step(event) == state,
{
}

/// One round for each of the blocks.
pub open spec fn rounds<B, E>(blocks: Seq<B>) -> Seq<Event<B, E>>
    decreases blocks.len(),
{
    if blocks.len() == 0 {
        Seq::empty()
    } else {
        rounds::<B, E>(blocks.drop_last()).push(Event::Received).push(
            Event::Joined(blocks.last()),
        ).push(Event::Stored)
    }
}

/// Whatever the sink and however many blocks there are, round after round the
/// sink gets all of them, and the consumer is ready for more.
pub proof fn lemma_all_blocks_reach_the_sink<B, E>(sink: Sink, blocks: Seq<B>)
    ensures
        ({
            let start = State::<B, E>::initial(sink);
            &&& start.stored(rounds::<B, E>(blocks)) == blocks
            &&& start.run(rounds::<B, E>(blocks)) == start
        }),
    decreases blocks.len(),
{
    let start = State::<B, E>::initial(sink);
    if blocks.len() > 0 {
        let rest = rounds::<B, E>(blocks.drop_last());
        let block = blocks.last();
        lemma_all_blocks_reach_the_sink::<B, E>(sink, blocks.drop_last());
        let received = rest.push(Event::Received);
        let joined = received.push(Event::Joined(block));
        let stored = joined.push(Event::Stored);
        assert(received.drop_last() == rest);
        assert(joined.drop_last() == received);
        assert(stored.drop_last() == joined);
        assert(start.run(received) == start.run(rest).step(Event::Received));
        assert(start.run(joined) == start.run(received).step(Event::Joined(block)));
        assert(start.run(stored) == start.run(joined).step(Event::Stored));
        assert(start.stored(received) == start.stored(rest));
        assert(start.stored(joined) == start.stored(received));
        assert(start.stored(stored) == start.stored(joined).push(block));
        assert(blocks == blocks.drop_last().push(block));
        assert(rounds::<B, E>(blocks) == stored);
    } else {
        assert(start.stored(rounds::<B, E>(blocks)) == blocks);
    }
}

} // verus!
