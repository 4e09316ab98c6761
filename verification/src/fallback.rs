//! Requesting blocks directly whenever the node lags behind too much.
use crate::error::{Context, TaskError};
use crate::numbers::{
    is_lagging, next_block_number, StoreState, FALLBACK_FETCHER_THRESHOLD,
};
use vstd::prelude::*;

verus! {

/// What the producer waits for.
#[derive(Debug)]
pub enum Pending<E> {
    /// The number of the next block that the store needs, at the start.
    FirstBlock,
    /// The node lagging behind the main node.
    WaitForLag,
    /// The number of the next block that the store needs by now.
    NextBlock,
    /// The main node reaching block `next`.
    WaitForMainNodeBlock,
    /// A fetch of block `next` being started and put into the channel.
    FetchBlock,
    /// Nothing: the producer is done.
    Stopped(TaskError<E>),
}

/// What can happen to the producer. An event that does not answer what is
/// pending changes nothing.
#[derive(Debug)]
pub enum Event<E> {
    /// The next block that the store needs.
    StoreNext { next: u64 },
    /// The main node's last block is `main`, and `persisted` is stored here.
    MainNodeBlock { main: u64, persisted: StoreState },
    /// The fetch was started and put into the channel.
    Sent,
    /// What is pending failed.
    Failed(TaskError<E>),
}

/// The state of the producer.
#[derive(Debug)]
pub struct State<E> {
    /// The next block to request, unless the store is ahead.
    pub next: u64,
    pub pending: Pending<E>,
}

pub open spec fn spec_max(a: u64, b: u64) -> u64 {
    if a >= b {
        a
    } else {
        b
    }
}

impl<E> State<E> {
    pub open spec fn initial() -> State<E> {
        State { next: 0, pending: Pending::FirstBlock }
    }

    pub open spec fn with(self, pending: Pending<E>) -> State<E> {
        State { pending, ..self }
    }

    /// The wait for the main node is over.
    pub open spec fn spec_is_ready(self, main: u64, persisted: StoreState) -> bool {
        match self.pending {
            Pending::WaitForLag => persisted.missing(main) > FALLBACK_FETCHER_THRESHOLD,
            Pending::WaitForMainNodeBlock => main >= self.next,
            _ => false,
        }
    }

    /// A block number that the event calls for would not fit.
    pub open spec fn overflows(self, event: Event<E>) -> bool {
        match event {
            Event::MainNodeBlock { persisted, .. } => {
                &&& self.pending is WaitForLag
                &&& !persisted.leaves_room()
            },
            Event::Sent => self.pending is FetchBlock && self.next == u64::MAX,
            _ => false,
        }
    }

    pub open spec fn step(self, event: Event<E>) -> State<E> {
        match event {
            Event::StoreNext { next } => match self.pending {
                Pending::FirstBlock => State { next, pending: Pending::WaitForLag },
                Pending::NextBlock => State {
                    next: spec_max(self.next, next),
                    pending: Pending::WaitForMainNodeBlock,
                },
                _ => self,
            },
            Event::MainNodeBlock { main, persisted } => if !self.spec_is_ready(main, persisted) {
                self
            } else if self.pending is WaitForLag {
                self.with(Pending::NextBlock)
            } else {
                self.with(Pending::FetchBlock)
            },
            Event::Sent => if self.pending is FetchBlock {
                State { next: (self.next + 1) as u64, pending: Pending::WaitForLag }
            } else {
                self
            },
            Event::Failed(error) => match self.pending {
                Pending::FirstBlock | Pending::NextBlock => self.with(
                    Pending::Stopped(error.spec_wrap(Context::NextBlock)),
                ),
                Pending::Stopped(_) => self,
                _ => self.with(Pending::Stopped(error)),
            },
        }
    }

    /// The state after a series of events.
    pub open spec fn run(self, events: Seq<Event<E>>) -> State<E>
        decreases events.len(),
    {
        if events.len() == 0 {
            self
        } else {
            self.run(events.drop_last()).step(events.last())
        }
    }

    /// No event of the series overflows.
    pub open spec fn in_range(self, events: Seq<Event<E>>) -> bool
        decreases events.len(),
    {
        events.len() == 0 || {
            &&& self.in_range(events.drop_last())
            &&& !self.run(events.drop_last()).overflows(events.last())
        }
    }

    /// The block whose fetch the event puts into the channel, if any.
    pub open spec fn sends(self, event: Event<E>) -> Option<u64> {
        if self.pending is FetchBlock && event is Sent {
            Some(self.next)
        } else {
            None
        }
    }

    /// The blocks whose fetches a series of events puts into the channel, in
    /// that order.
    pub open spec fn requested(self, events: Seq<Event<E>>) -> Seq<u64>
        decreases events.len(),
    {
        if events.len() == 0 {
            Seq::empty()
        } else {
            let earlier = self.requested(events.drop_last());
            match self.run(events.drop_last()).sends(events.last()) {
                Some(n) => earlier.push(n),
                None => earlier,
            }
        }
    }
}

/// Requests blocks from the main node whenever the node is lagging.
pub struct FallbackProducer<E> {
    state: State<E>,
}

impl<E> View for FallbackProducer<E> {
    type V = State<E>;

    closed spec fn view(&self) -> State<E> {
        self.state
    }
}

impl<E> FallbackProducer<E> {
    /// A producer that has yet to learn where to start.
    pub fn new() -> (producer: FallbackProducer<E>)
        ensures
            producer@ == State::<E>::initial(),
    {
        FallbackProducer { state: State { next: 0, pending: Pending::FirstBlock } }
    }

    /// What the producer waits for.
    pub fn pending(&self) -> (pending: &Pending<E>)
        ensures
            *pending == self@.pending,
    {
        &self.state.pending
    }

    /// The next block to request, unless the store is ahead.
    pub fn next(&self) -> (next: u64)
        ensures
            next == self@.next,
    {
        self.state.next
    }

    /// How the producer ended, if it did.
    pub fn into_outcome(self) -> (outcome: Option<TaskError<E>>)
        ensures
            outcome == match self@.pending {
                Pending::Stopped(error) => Some(error),
                _ => None::<TaskError<E>>,
            },
    {
        match self.state.pending {
            Pending::Stopped(error) => Some(error),
            _ => None,
        }
    }

    /// Whether the wait for the main node is over.
    pub fn is_ready(&self, main: u64, persisted: &StoreState) -> (ready: bool)
        requires
            !self@.overflows(Event::MainNodeBlock { main, persisted: *persisted }),
        ensures
            ready == self@.spec_is_ready(main, *persisted),
    {
        match &self.state.pending {
            Pending::WaitForLag => is_lagging(main, persisted),
            Pending::WaitForMainNodeBlock => main >= self.state.next,
            _ => false,
        }
    }

    /// Whether a block number that the event calls for would not fit.
    pub fn overflows(&self, event: &Event<E>) -> (overflows: bool)
        ensures
            overflows == self@.overflows(*event),
    {
        match (&self.state.pending, event) {
            (Pending::WaitForLag, Event::MainNodeBlock { persisted, .. }) => !persisted.has_room(),
            (Pending::FetchBlock, Event::Sent) => self.state.next == u64::MAX,
            _ => false,
        }
    }

    /// Takes the event in.
    pub fn step(self, event: Event<E>) -> (after: FallbackProducer<E>)
        requires
            !self@.overflows(event),
        ensures
            after@ == self@.step(event),
    {
        let State { next, pending } = self.state;
        let (next, pending): (u64, Pending<E>) = match (pending, event) {
            (Pending::FirstBlock, Event::StoreNext { next: first }) => (
                first,
                Pending::WaitForLag,
            ),
            (Pending::WaitForLag, Event::MainNodeBlock { main, persisted }) => {
                if is_lagging(main, &persisted) {
                    (next, Pending::NextBlock)
                } else {
                    (next, Pending::WaitForLag)
                }
            },
            (Pending::NextBlock, Event::StoreNext { next: needed }) => {
                if next >= needed {
                    (next, Pending::WaitForMainNodeBlock)
                } else {
                    (needed, Pending::WaitForMainNodeBlock)
                }
            },
            (Pending::WaitForMainNodeBlock, Event::MainNodeBlock { main, .. }) => {
                if main >= next {
                    (next, Pending::FetchBlock)
                } else {
                    (next, Pending::WaitForMainNodeBlock)
                }
            },
            (Pending::FetchBlock, Event::Sent) => (next_block_number(next), Pending::WaitForLag),
            (Pending::FirstBlock, Event::Failed(error)) => (
                next,
                Pending::Stopped(error.wrap(Context::NextBlock)),
            ),
            (Pending::NextBlock, Event::Failed(error)) => (
                next,
                Pending::Stopped(error.wrap(Context::NextBlock)),
            ),
            (Pending::Stopped(error), _) => (next, Pending::Stopped(error)),
            (_, Event::Failed(error)) => (next, Pending::Stopped(error)),
            (pending, _) => (next, pending),
        };
        FallbackProducer { state: State { next, pending } }
    }
}

/// The numbers of the blocks requested increase: no block is requested twice,
/// and none after a later one.
pub proof fn lemma_requests_increase<E>(events: Seq<Event<E>>)
    requires
        State::<E>::initial().in_range(events),
    ensures
        ({
            let requested = State::<E>::initial().requested(events);
            &&& forall|i: int, j: int|
                0 <= i < j < requested.len() ==> #[trigger] requested[i] < #[trigger] requested[j]
            &&& forall|i: int|
                0 <= i < requested.len() ==> #[trigger] requested[i] < State::<E>::initial().run(
                    events,
                ).next
            &&& State::<E>::initial().run(events).pending is FirstBlock ==> requested.len() == 0
        }),
    decreases events.len(),
{
    if events.len() > 0 {
        let rest = events.drop_last();
        let start = State::<E>::initial();
        let before = start.run(rest);
        let after = before.step(events.last());
        lemma_requests_increase::<E>(rest);
        assert(start.run(events) == after);
        match before.sends(events.last()) {
            Some(n) => {
                assert(start.requested(events) == start.requested(rest).push(n));
                assert(after.next == n + 1);
            },
            None => {
                assert(start.requested(events) == start.requested(rest));
                assert(before.pending is FirstBlock || before.next <= after.next);
            },
        }
    }
}

/// How many events there were up to the last request, that one counted.
pub open spec fn last_request<E>(events: Seq<Event<E>>) -> int
    decreases events.len(),
{
    if events.len() == 0 {
        0
    } else if State::<E>::initial().run(events.drop_last()).sends(events.last()) is Some {
        events.len() as int
    } else {
        last_request(events.drop_last())
    }
}

/// The node was seen to lag behind.
pub open spec fn shows_lag<E>(event: Event<E>) -> bool {
    event matches Event::MainNodeBlock { main, persisted } && persisted.missing(main)
        > FALLBACK_FETCHER_THRESHOLD
}

/// The store needs block `n` or an earlier one.
pub open spec fn store_needs<E>(event: Event<E>, n: u64) -> bool {
    event matches Event::StoreNext { next } && next <= n
}

/// The main node has block `n`.
pub open spec fn main_node_has<E>(event: Event<E>, n: u64) -> bool {
    event matches Event::MainNodeBlock { main, .. } && main >= n
}

/// Event number `i` shows the lag that was waited for.
pub open spec fn lag_at<E>(events: Seq<Event<E>>, i: int) -> bool {
    &&& 0 <= i < events.len()
    &&& State::<E>::initial().run(events.take(i)).pending is WaitForLag
    &&& shows_lag(events[i])
}

/// Event number `j` says, when the store was asked, that it needs `n` or an
/// earlier block.
pub open spec fn needed_at<E>(events: Seq<Event<E>>, j: int, n: u64) -> bool {
    &&& 0 <= j < events.len()
    &&& State::<E>::initial().run(events.take(j)).pending is NextBlock
    &&& store_needs(events[j], n)
}

/// Event number `k` shows that the main node has block `n`, which was waited for.
pub open spec fn available_at<E>(events: Seq<Event<E>>, k: int, n: u64) -> bool {
    &&& 0 <= k < events.len()
    &&& State::<E>::initial().run(events.take(k)) == (State::<E> {
        next: n,
        pending: Pending::WaitForMainNodeBlock,
    })
    &&& main_node_has(events[k], n)
}

/// From event `from` on, the node was seen to lag behind; after that, the store
/// was asked what it needs, which is not beyond `n`; and after that, the main
/// node was seen to have block `n`.
pub open spec fn justified<E>(events: Seq<Event<E>>, from: int, n: u64) -> bool {
    exists|i: int, j: int, k: int|
        from <= i < j < k && #[trigger] lag_at(events, i) && #[trigger] needed_at(events, j, n)
            && #[trigger] available_at(events, k, n)
}

/// What has been seen in this round so far.
spec fn progress<E>(state: State<E>, events: Seq<Event<E>>, from: int) -> bool {
    match state.pending {
        Pending::NextBlock => exists|i: int| from <= i && #[trigger] lag_at(events, i),
        Pending::WaitForMainNodeBlock => exists|i: int, j: int|
            from <= i < j && #[trigger] lag_at(events, i) && #[trigger] needed_at(
                events,
                j,
                state.next,
            ),
        Pending::FetchBlock => justified(events, from, state.next),
        _ => true,
    }
}

/// A block is requested only where, since the last request, the node was seen
/// to lag behind by more than the threshold, the store was asked what it needs,
/// and the main node was seen to have the block.
pub proof fn lemma_requests_are_justified<E>(events: Seq<Event<E>>)
    ensures
        State::<E>::initial().run(events).pending is FetchBlock ==> justified(
            events,
            last_request(events),
            State::<E>::initial().run(events).next,
        ),
{
    lemma_progress::<E>(events);
}

proof fn lemma_lag_stays<E>(events: Seq<Event<E>>, event: Event<E>, i: int)
    requires
        lag_at(events, i),
    ensures
        lag_at(events.push(event), i),
{
    assert(events.push(event).take(i) == events.take(i));
}

proof fn lemma_need_stays<E>(events: Seq<Event<E>>, event: Event<E>, j: int, n: u64)
    requires
        needed_at(events, j, n),
    ensures
        needed_at(events.push(event), j, n),
{
    assert(events.push(event).take(j) == events.take(j));
}

proof fn lemma_availability_stays<E>(events: Seq<Event<E>>, event: Event<E>, k: int, n: u64)
    requires
        available_at(events, k, n),
    ensures
        available_at(events.push(event), k, n),
{
    assert(events.push(event).take(k) == events.take(k));
}

/// What holds of a series of events and one more: the state, and where the round
/// began.
proof fn lemma_one_more<E>(events: Seq<Event<E>>, event: Event<E>)
    ensures
        ({
            let before = State::<E>::initial().run(events);
            &&& State::<E>::initial().run(events.push(event)) == before.step(event)
            &&& last_request(events.push(event)) == if before.sends(event) is Some {
                events.len() as int + 1
            } else {
                last_request(events)
            }
        }),
{
    assert(events.push(event).drop_last() == events);
}

proof fn lemma_progress_while_waiting_for_lag<E>(events: Seq<Event<E>>, event: Event<E>)
    requires
        State::<E>::initial().run(events).pending is WaitForLag,
        last_request(events) <= events.len(),
    ensures
        progress(
            State::<E>::initial().run(events).step(event),
            events.push(event),
            last_request(events),
        ),
{
    let last = events.len() as int;
    if State::<E>::initial().run(events).step(event).pending is NextBlock {
        assert(events.push(event).take(last) == events);
        assert(lag_at(events.push(event), last));
    }
}

proof fn lemma_progress_while_asking_the_store<E>(events: Seq<Event<E>>, event: Event<E>)
    requires
        State::<E>::initial().run(events).pending is NextBlock,
        progress(State::<E>::initial().run(events), events, last_request(events)),
    ensures
        progress(
            State::<E>::initial().run(events).step(event),
            events.push(event),
            last_request(events),
        ),
{
    let last = events.len() as int;
    let after = State::<E>::initial().run(events).step(event);
    let i = choose|i: int| last_request(events) <= i && #[trigger] lag_at(events, i);
    lemma_lag_stays(events, event, i);
    if after.pending is WaitForMainNodeBlock {
        assert(events.push(event).take(last) == events);
        assert(needed_at(events.push(event), last, after.next));
    }
}

proof fn lemma_progress_while_waiting_for_the_block<E>(events: Seq<Event<E>>, event: Event<E>)
    requires
        State::<E>::initial().run(events).pending is WaitForMainNodeBlock,
        progress(State::<E>::initial().run(events), events, last_request(events)),
    ensures
        progress(
            State::<E>::initial().run(events).step(event),
            events.push(event),
            last_request(events),
        ),
{
    let last = events.len() as int;
    let before = State::<E>::initial().run(events);
    let (i, j) = choose|i: int, j: int|
        last_request(events) <= i < j && #[trigger] lag_at(events, i) && #[trigger] needed_at(
            events,
            j,
            before.next,
        );
    lemma_lag_stays(events, event, i);
    lemma_need_stays(events, event, j, before.next);
    if before.step(event).pending is FetchBlock {
        assert(events.push(event).take(last) == events);
        assert(available_at(events.push(event), last, before.next));
    }
}

proof fn lemma_progress_while_sending<E>(events: Seq<Event<E>>, event: Event<E>)
    requires
        State::<E>::initial().run(events).pending is FetchBlock,
        progress(State::<E>::initial().run(events), events, last_request(events)),
    ensures
        progress(
            State::<E>::initial().run(events).step(event),
            events.push(event),
            last_request(events),
        ),
{
    let n = State::<E>::initial().run(events).next;
    let (i, j, k) = choose|i: int, j: int, k: int|
        last_request(events) <= i < j < k && #[trigger] lag_at(events, i) && #[trigger] needed_at(
            events,
            j,
            n,
        ) && #[trigger] available_at(events, k, n);
    lemma_lag_stays(events, event, i);
    lemma_need_stays(events, event, j, n);
    lemma_availability_stays(events, event, k, n);
}

proof fn lemma_progress<E>(events: Seq<Event<E>>)
    ensures
        progress(State::<E>::initial().run(events), events, last_request(events)),
        0 <= last_request(events) <= events.len(),
    decreases events.len(),
{
    if events.len() > 0 {
        let rest = events.drop_last();
        let event = events.last();
        assert(events == rest.push(event));
        lemma_progress::<E>(rest);
        lemma_one_more(rest, event);
        match State::<E>::initial().run(rest).pending {
            Pending::WaitForLag => lemma_progress_while_waiting_for_lag(rest, event),
            Pending::NextBlock => lemma_progress_while_asking_the_store(rest, event),
            Pending::WaitForMainNodeBlock => {
                lemma_progress_while_waiting_for_the_block(rest, event);
            },
            Pending::FetchBlock => lemma_progress_while_sending(rest, event),
            _ => {},
        }
    }
}

/// As long as the node does not lag behind, nothing is requested.
pub proof fn lemma_no_lag_no_request<E>(events: Seq<Event<E>>)
    requires
        forall|i: int| 0 <= i < events.len() ==> !shows_lag(#[trigger] events[i]),
    ensures
        State::<E>::initial().requested(events).len() == 0,
    decreases events.len(),
{
    if events.len() > 0 {
        let rest = events.drop_last();
        assert forall|i: int| 0 <= i < rest.len() implies !shows_lag(#[trigger] rest[i]) by {
            assert(rest[i] == events[i]);
        }
        lemma_no_lag_no_request::<E>(rest);
        lemma_progress::<E>(rest);
    }
}

/// Whenever more blocks than the threshold are missing, the fallback fetcher is
/// active: it requests the next block that neither it nor the store is past,
/// once the main node has it.
pub proof fn lemma_lag_leads_to_a_request<E>(
    state: State<E>,
    main: u64,
    persisted: StoreState,
    needed: u64,
    later_main: u64,
    later_persisted: StoreState,
)
    requires
        state.pending is WaitForLag,
        persisted.missing(main) > FALLBACK_FETCHER_THRESHOLD,
        later_main >= spec_max(state.next, needed),
    ensures
        ({
            let lagging = state.step(Event::MainNodeBlock { main, persisted });
            let told = lagging.step(Event::StoreNext { next: needed });
            let ready = told.step(
                Event::MainNodeBlock { main: later_main, persisted: later_persisted },
            );
            &&& ready.pending is FetchBlock
            &&& ready.sends(Event::Sent) == Some(spec_max(state.next, needed))
        }),
{
}

/// The block that the store needed at the start.
pub open spec fn first_needed<E>(events: Seq<Event<E>>) -> u64
    decreases events.len(),
{
    if events.len() == 0 {
        0
    } else {
        match (State::<E>::initial().run(events.drop_last()).pending, events.last()) {
            (Pending::FirstBlock, Event::StoreNext { next }) => next,
            _ => first_needed(events.drop_last()),
        }
    }
}

/// The block that the store needed when it was last asked in a round.
pub open spec fn last_needed<E>(events: Seq<Event<E>>) -> u64
    decreases events.len(),
{
    if events.len() == 0 {
        0
    } else {
        match (State::<E>::initial().run(events.drop_last()).pending, events.last()) {
            (Pending::NextBlock, Event::StoreNext { next }) => next,
            _ => last_needed(events.drop_last()),
        }
    }
}

/// Where the producer stands: one past the last request, or where it started.
pub open spec fn position<E>(events: Seq<Event<E>>) -> int {
    let requested = State::<E>::initial().requested(events);
    if requested.len() == 0 {
        first_needed(events) as int
    } else {
        requested.last() + 1
    }
}

/// Each request is for the larger of two numbers: one past the last request (or
/// where the producer started), and the block that the store just said it needs.
pub proof fn lemma_requests_are_the_next_ones<E>(events: Seq<Event<E>>)
    requires
        State::<E>::initial().in_range(events),
    ensures
        ({
            let state = State::<E>::initial().run(events);
            match state.pending {
                Pending::FirstBlock => State::<E>::initial().requested(events).len() == 0,
                Pending::WaitForLag | Pending::NextBlock => state.next == position(events),
                Pending::WaitForMainNodeBlock | Pending::FetchBlock => state.next == if position(
                    events,
                ) >= last_needed(events) {
                    position(events)
                } else {
                    last_needed(events) as int
                },
                Pending::Stopped(_) => true,
            }
        }),
    decreases events.len(),
{
    if events.len() > 0 {
        let rest = events.drop_last();
        let start = State::<E>::initial();
        let before = start.run(rest);
        lemma_requests_are_the_next_ones::<E>(rest);
        assert(start.run(events) == before.step(events.last()));
        match before.sends(events.last()) {
            Some(n) => {
                assert(start.requested(events) == start.requested(rest).push(n));
            },
            None => {
                assert(start.requested(events) == start.requested(rest));
            },
        }
    }
}

/// The producer begins by asking what the store needs, and stands there.
pub proof fn lemma_producer_starts_where_the_store_is<E>(next: u64)
    ensures
        ({
            let start = State::<E>::initial();
            &&& start.pending is FirstBlock
            &&& start.step(Event::StoreNext { next }) == State::<E> {
                next,
                pending: Pending::WaitForLag,
            }
        }),
{
}

/// The producer sleeps exactly as long as no more than ten blocks are missing:
/// those after the last one that is persisted, or from the first one on where
/// none is, up to the main node's last one.
pub proof fn lemma_more_than_ten_missing_blocks_are_a_lag<E>(
    state: State<E>,
    main: u64,
    persisted: StoreState,
)
    requires
        state.pending is WaitForLag,
    ensures
        ({
            let missing = match persisted.last {
                Some(last) => main - last,
                None => main + 1 - persisted.first,
            };
            let after = state.step(Event::MainNodeBlock { main, persisted });
            &&& after.next == state.next
            &&& missing > 10 ==> after.pending is NextBlock
            &&& missing <= 10 ==> after == state
            &&& state.spec_is_ready(main, persisted) <==> missing > 10
        }),
{
}

/// The next block is the one that the producer stands at, unless the store is
/// past that: then it is the one that the store needs.
pub proof fn lemma_store_can_only_push_ahead<E>(state: State<E>, needed: u64)
    requires
        state.pending is NextBlock,
    ensures
        ({
            let after = state.step(Event::StoreNext { next: needed });
            &&& after.pending is WaitForMainNodeBlock
            &&& after.next >= state.next && after.next >= needed
            &&& after.next == state.next || after.next == needed
        }),
{
}

/// The block is fetched as soon as the main node is at or above it, however far
/// and whatever is persisted, and not before.
pub proof fn lemma_available_block_is_fetched<E>(
    state: State<E>,
    main: u64,
    persisted: StoreState,
)
    requires
        state.pending is WaitForMainNodeBlock,
    ensures
        ({
            let after = state.step(Event::MainNodeBlock { main, persisted });
            &&& after.next == state.next
            &&& main >= state.next ==> after.pending is FetchBlock
            &&& main < state.next ==> after == state
            &&& state.spec_is_ready(main, persisted) <==> main >= state.next
        }),
{
}

/// Once the fetch is on its way, the producer stands at the block after it and
/// waits for a lag again.
pub proof fn lemma_next_block_follows<E>(state: State<E>)
    requires
        state.pending is FetchBlock,
        state.next < 0xffff_ffff_ffff_ffff,
    ensures
        state.step(Event::Sent).next == state.next + 1,
        state.step(Event::Sent).pending is WaitForLag,
{
}

/// What the producer cannot take in: a store so full that ten block numbers
/// after its next one do not exist, while a lag is waited for, and the end of a
/// fetch that no block number follows. Nothing else.
pub proof fn lemma_only_the_last_numbers_overflow<E>(state: State<E>, event: Event<E>)
    ensures
        state.overflows(event) <==> match event {
            Event::MainNodeBlock { persisted, .. } => {
                &&& state.pending is WaitForLag
                &&& match persisted.last {
                    Some(last) => last + 11 > 0xffff_ffff_ffff_ffff,
                    None => persisted.first + 10 > 0xffff_ffff_ffff_ffff,
                }
            },
            Event::Sent => state.pending is FetchBlock && state.next == 0xffff_ffff_ffff_ffff,
            Event::StoreNext { .. } | Event::Failed(_) => false,
        },
{
}

/// A failure ends the producer with the error at hand. Only an error of the
/// store is seen through a context.
pub proof fn lemma_failure_ends_the_producer<E>(state: State<E>, error: TaskError<E>)
    ensures
        ({
            let after = state.step(Event::Failed(error));
            &&& after.next == state.next
            &&& match state.pending {
                Pending::FirstBlock | Pending::NextBlock => after.pending == Pending::<E>::Stopped(
                    error.spec_wrap(Context::NextBlock),
                ),
                Pending::WaitForLag
                | Pending::WaitForMainNodeBlock
                | Pending::FetchBlock => after.pending == Pending::<E>::Stopped(error),
                Pending::Stopped(_) => after == state,
            }
        }),
{
}

/// An event moves the producer only where it answers what is pending.
pub proof fn lemma_producer_ignores_what_it_did_not_ask_for<E>(state: State<E>, event: Event<E>)
    ensures
        state.pending is Stopped ==> state.step(event) == state,
        event is StoreNext && !(state.pending is FirstBlock) && !(state.pending is NextBlock)
            ==> state.step(event) == state,
        event is MainNodeBlock && !(state.pending is WaitForLag)
            && !(state.pending is WaitForMainNodeBlock) ==> state.step(event) == state,
        event is Sent && !(state.pending is FetchBlock) ==> state.step(event) == state,
        !(state.pending is WaitForLag) && !(state.pending is WaitForMainNodeBlock) ==> forall|
            main: u64,
            persisted: StoreState,
        |
            !#[trigger] state.spec_is_ready(main, persisted),
{
}

/// The producer stops only on a failure.
pub proof fn lemma_producer_stops_only_on_failure<E>(events: Seq<Event<E>>)
    requires
        forall|i: int| 0 <= i < events.len() ==> !((#[trigger] events[i]) is Failed),
    ensures
        !(State::<E>::initial().run(events).pending is Stopped),
    decreases events.len(),
{
    if events.len() > 0 {
        let rest = events.drop_last();
        assert forall|i: int| 0 <= i < rest.len() implies !((#[trigger] rest[i]) is Failed) by {
            assert(rest[i] == events[i]);
        }
        lemma_producer_stops_only_on_failure::<E>(rest);
        assert(events.last() == events[events.len() - 1]);
    }
}

/// A number of rounds in which the main node stays at `main`, and the store
/// neither persists nor needs anything new.
pub open spec fn rounds<E>(
    count: nat,
    main: u64,
    persisted: StoreState,
    needed: u64,
) -> Seq<Event<E>>
    decreases count,
{
    if count == 0 {
        seq![Event::StoreNext { next: needed }]
    } else {
        rounds::<E>((count - 1) as nat, main, persisted, needed).push(
            Event::MainNodeBlock { main, persisted },
        ).push(Event::StoreNext { next: needed }).push(
            Event::MainNodeBlock { main, persisted },
        ).push(Event::Sent)
    }
}

/// As long as the node lags behind, each round requests one block: after `count`
/// rounds the blocks requested are exactly the `count` blocks from the one on
/// that the store needs.
pub proof fn lemma_each_round_requests_a_block<E>(
    count: nat,
    main: u64,
    persisted: StoreState,
    needed: u64,
)
    requires
        needed + count <= main + 1,
        needed + count <= 0xffff_ffff_ffff_ffff,
        match persisted.last {
            Some(last) => main - last > 10,
            None => main + 1 - persisted.first > 10,
        },
    ensures
        ({
            let start = State::<E>::initial();
            let events = rounds::<E>(count, main, persisted, needed);
            let requested = start.requested(events);
            &&& requested.len() == count
            &&& forall|i: int| 0 <= i < requested.len() ==> #[trigger] requested[i] == needed + i
            &&& start.run(events).pending is WaitForLag
            &&& start.run(events).next == needed + count
        }),
    decreases count,
{
    let start = State::<E>::initial();
    let events = rounds::<E>(count, main, persisted, needed);
    if count == 0 {
        let none = Seq::<Event<E>>::empty();
        assert(events.drop_last() == none);
        assert(start.run(none) == start);
        assert(start.run(events) == start.step(Event::StoreNext { next: needed }));
        assert(start.requested(events) == start.requested(none));
    } else {
        let before = rounds::<E>((count - 1) as nat, main, persisted, needed);
        lemma_each_round_requests_a_block::<E>((count - 1) as nat, main, persisted, needed);
        let head = Event::<E>::MainNodeBlock { main, persisted };
        let lagging = before.push(head);
        let told = lagging.push(Event::StoreNext { next: needed });
        let ready = told.push(head);
        assert(lagging.drop_last() == before);
        assert(told.drop_last() == lagging);
        assert(ready.drop_last() == told);
        assert(events.drop_last() == ready);
        assert(start.run(lagging) == start.run(before).step(head));
        assert(start.run(told) == start.run(lagging).step(Event::StoreNext { next: needed }));
        assert(start.run(ready) == start.run(told).step(head));
        assert(start.run(events) == start.run(ready).step(Event::Sent));
        assert(start.requested(lagging) == start.requested(before));
        assert(start.requested(told) == start.requested(lagging));
        assert(start.requested(ready) == start.requested(told));
        assert(start.requested(events) == start.requested(ready).push(start.run(ready).next));
    }
}

} // verus!
