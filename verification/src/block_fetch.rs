//! Fetching one block from the main node.
use crate::error::{Context, TaskError, Report};
use crate::numbers::{l2_block_number, spec_l2_block_number};
use vstd::prelude::*;

verus! {

/// Milliseconds to wait before the block is asked for again.
pub const RETRY_INTERVAL_MS: u64 = 5000;

/// What the fetcher waits for. `B` is the type of a block.
#[derive(Debug)]
pub enum Pending<B, E> {
    /// The fetch being counted among those begun.
    CountFetch { number: u32 },
    /// The block, with its transactions if `include_transactions` is set.
    SyncL2Block { number: u32, include_transactions: bool },
    /// The end of a pause, after which `number` is asked for again.
    Sleep { ms: u64, number: u32 },
    /// Nothing: the fetcher is done.
    Finished(Result<B, TaskError<E>>),
}

/// What can happen to the fetcher. An event that does not answer what is
/// pending changes nothing.
#[derive(Debug)]
pub enum Event<B, E> {
    Counted,
    /// The main node gave the block.
    Found(B),
    /// The main node gave something that is no proper block.
    Malformed(E),
    /// The main node does not have the block.
    Missing,
    /// The request failed. It may be worth another try.
    Failed { retryable: bool, cause: E },
    Slept,
    Canceled,
}

impl<B, E> Pending<B, E> {
    pub open spec fn initial(n: u64) -> Pending<B, E> {
        match spec_l2_block_number(n) {
            Some(number) => Pending::CountFetch { number },
            None => Pending::Finished(
                Err(
                    TaskError::Internal(
                        Report::Message(Context::IntegerOutOfRange).spec_wrap(Context::Overflow),
                    ),
                ),
            ),
        }
    }

    pub open spec fn step(self, event: Event<B, E>) -> Pending<B, E> {
        match self {
            Pending::CountFetch { number } => match event {
                Event::Counted => Pending::SyncL2Block { number, include_transactions: true },
                _ => self,
            },
            Pending::SyncL2Block { number, .. } => match event {
                Event::Found(block) => Pending::Finished(Ok(block)),
                Event::Malformed(cause) => Pending::Finished(
                    Err(TaskError::Internal(Report::Outside(cause))),
                ),
                Event::Missing => Pending::Sleep { ms: RETRY_INTERVAL_MS, number },
                Event::Failed { retryable, cause } => if retryable {
                    Pending::Sleep { ms: RETRY_INTERVAL_MS, number }
                } else {
                    Pending::Finished(
                        Err(
                            TaskError::Internal(
                                Report::Outside(cause).spec_wrap(Context::SyncL2Block(number)),
                            ),
                        ),
                    )
                },
                Event::Canceled => Pending::Finished(Err(TaskError::Canceled)),
                Event::Counted | Event::Slept => self,
            },
            Pending::Sleep { number, .. } => match event {
                Event::Slept => Pending::SyncL2Block { number, include_transactions: true },
                Event::Canceled => Pending::Finished(Err(TaskError::Canceled)),
                _ => self,
            },
            Pending::Finished(_) => self,
        }
    }

    /// What is pending after a series of events.
    pub open spec fn run(self, events: Seq<Event<B, E>>) -> Pending<B, E>
        decreases events.len(),
    {
        if events.len() == 0 {
            self
        } else {
            self.run(events.drop_last()).step(events.last())
        }
    }

    /// The number of the block that is being fetched.
    pub open spec fn target(self) -> Option<u32> {
        match self {
            Pending::CountFetch { number } => Some(number),
            Pending::SyncL2Block { number, .. } => Some(number),
            Pending::Sleep { number, .. } => Some(number),
            Pending::Finished(_) => None,
        }
    }

    /// How often a series of events counts the fetch.
    pub open spec fn counted(self, events: Seq<Event<B, E>>) -> nat
        decreases events.len(),
    {
        if events.len() == 0 {
            0
        } else {
            let earlier = self.counted(events.drop_last());
            match (self.run(events.drop_last()), events.last()) {
                (Pending::CountFetch { .. }, Event::Counted) => earlier + 1,
                _ => earlier,
            }
        }
    }

    /// The requests that a series of events answers, in that order: the number
    /// of the block, and whether its transactions were asked for.
    pub open spec fn requests(self, events: Seq<Event<B, E>>) -> Seq<(u32, bool)>
        decreases events.len(),
    {
        if events.len() == 0 {
            Seq::empty()
        } else {
            let earlier = self.requests(events.drop_last());
            match (self.run(events.drop_last()), events.last()) {
                (Pending::SyncL2Block { .. }, Event::Counted | Event::Slept) => earlier,
                (Pending::SyncL2Block { number, include_transactions }, _) => earlier.push(
                    (number, include_transactions),
                ),
                _ => earlier,
            }
        }
    }
}

/// Fetches (with retries) one block from the main node.
pub struct BlockFetcher<B, E> {
    pending: Pending<B, E>,
}

impl<B, E> View for BlockFetcher<B, E> {
    type V = Pending<B, E>;

    closed spec fn view(&self) -> Pending<B, E> {
        self.pending
    }
}

impl<B, E> BlockFetcher<B, E> {
    /// A fetcher of block `n`. There are no blocks above the largest `u32`.
    pub fn new(n: u64) -> (fetcher: BlockFetcher<B, E>)
        ensures
            fetcher@ == Pending::<B, E>::initial(n),
    {
        match l2_block_number(n) {
            Some(number) => BlockFetcher { pending: Pending::CountFetch { number } },
            None => {
                let report = Report::Message(Context::IntegerOutOfRange).wrap(Context::Overflow);
                BlockFetcher { pending: Pending::Finished(Err(TaskError::Internal(report))) }
            },
        }
    }

    /// What the fetcher waits for.
    pub fn pending(&self) -> (pending: &Pending<B, E>)
        ensures
            *pending == self@,
    {
        &self.pending
    }

    /// The block or the error, if the fetcher is done.
    pub fn into_outcome(self) -> (outcome: Option<Result<B, TaskError<E>>>)
        ensures
            outcome == match self@ {
                Pending::Finished(result) => Some(result),
                _ => None::<Result<B, TaskError<E>>>,
            },
    {
        match self.pending {
            Pending::Finished(result) => Some(result),
            _ => None,
        }
    }

    /// Takes the event in.
    pub fn step(self, event: Event<B, E>) -> (next: BlockFetcher<B, E>)
        ensures
            next@ == self@.step(event),
    {
        let pending: Pending<B, E> = match (self.pending, event) {
            (Pending::CountFetch { number }, Event::Counted) => {
                Pending::SyncL2Block { number, include_transactions: true }
            },
            (Pending::SyncL2Block { .. }, Event::Found(block)) => Pending::Finished(Ok(block)),
            (Pending::SyncL2Block { .. }, Event::Malformed(cause)) => {
                Pending::Finished(Err(TaskError::Internal(Report::Outside(cause))))
            },
            (Pending::SyncL2Block { number, .. }, Event::Missing) => {
                Pending::Sleep { ms: RETRY_INTERVAL_MS, number }
            },
            (Pending::SyncL2Block { number, .. }, Event::Failed { retryable, cause }) => {
                if retryable {
                    Pending::Sleep { ms: RETRY_INTERVAL_MS, number }
                } else {
                    let report = Report::Outside(cause).wrap(Context::SyncL2Block(number));
                    Pending::Finished(Err(TaskError::Internal(report)))
                }
            },
            (Pending::Sleep { number, .. }, Event::Slept) => {
                Pending::SyncL2Block { number, include_transactions: true }
            },
            (Pending::SyncL2Block { .. } | Pending::Sleep { .. }, Event::Canceled) => {
                Pending::Finished(Err(TaskError::Canceled))
            },
            (pending, _) => pending,
        };
        BlockFetcher { pending }
    }
}

/// However often the fetcher retries, it asks for the block it was made for, and
/// it hands out only a block that the main node gave.
pub proof fn lemma_fetcher_gives_what_was_asked_for<B, E>(n: u64, events: Seq<Event<B, E>>)
    ensures
        ({
            let pending = Pending::<B, E>::initial(n).run(events);
            &&& pending.target() matches Some(number) ==> number == n
            &&& pending matches Pending::SyncL2Block { include_transactions, .. }
                ==> include_transactions
            &&& pending matches Pending::Finished(Ok(block)) ==> n <= u32::MAX && exists|i: int|
                0 <= i < events.len() && #[trigger] events[i] == Event::<B, E>::Found(block)
        }),
    decreases events.len(),
{
    if events.len() > 0 {
        let rest = events.drop_last();
        lemma_fetcher_gives_what_was_asked_for(n, rest);
        match Pending::<B, E>::initial(n).run(rest) {
            Pending::SyncL2Block { .. } => {
                if let Event::Found(block) = events.last() {
                    assert(events[rest.len() as int] == Event::<B, E>::Found(block));
                }
            },
            Pending::Finished(Ok(block)) => {
                let i = choose|i: int|
                    0 <= i < rest.len() && #[trigger] rest[i] == Event::<B, E>::Found(block);
                assert(events[i] == Event::<B, E>::Found(block));
            },
            _ => {},
        }
    }
}

/// A fetch is counted once, before the first request and however often it is
/// retried. One of a number that is too large is not counted, and nothing is
/// requested for it. All requests are for the block itself, with its
/// transactions.
pub proof fn lemma_fetch_is_counted_once<B, E>(n: u64, events: Seq<Event<B, E>>)
    ensures
        ({
            let start = Pending::<B, E>::initial(n);
            let requests = start.requests(events);
            &&& start.counted(events) == if n > u32::MAX || start.run(events) is CountFetch {
                0nat
            } else {
                1nat
            }
            &&& start.counted(events) == 0 ==> requests.len() == 0
            &&& forall|i: int| 0 <= i < requests.len() ==> #[trigger] requests[i] == (n as u32, true)
        }),
    decreases events.len(),
{
    if events.len() > 0 {
        let start = Pending::<B, E>::initial(n);
        let rest = events.drop_last();
        lemma_fetch_is_counted_once(n, rest);
        lemma_fetcher_gives_what_was_asked_for(n, rest);
        lemma_oversized_fetch_is_finished(n, rest);
        assert(start.run(events) == start.run(rest).step(events.last()));
        if let Pending::SyncL2Block { number, include_transactions } = start.run(rest) {
            assert((number, include_transactions) == (n as u32, true));
        }
        assert(start.requests(events) == start.requests(rest) || start.requests(events)
            == start.requests(rest).push((n as u32, true)));
    }
}

proof fn lemma_oversized_fetch_is_finished<B, E>(n: u64, events: Seq<Event<B, E>>)
    ensures
        n > u32::MAX ==> Pending::<B, E>::initial(n).run(events) is Finished,
    decreases events.len(),
{
    if events.len() > 0 {
        lemma_oversized_fetch_is_finished(n, events.drop_last());
    }
}

/// The event calls for another try, or leads up to it.
pub open spec fn is_setback<B, E>(event: Event<B, E>) -> bool {
    match event {
        Event::Missing | Event::Slept | Event::Counted => true,
        Event::Failed { retryable, .. } => retryable,
        _ => false,
    }
}

/// A block that the main node does not have yet, and an error that may be worth
/// another try, never end the fetcher: it is still after the same block, and
/// takes it when it comes.
pub proof fn lemma_fetcher_retries<B, E>(n: u64, events: Seq<Event<B, E>>, block: B)
    requires
        n <= u32::MAX,
        forall|i: int| 0 <= i < events.len() ==> is_setback(#[trigger] events[i]),
    ensures
        ({
            let pending = Pending::<B, E>::initial(n).run(events);
            &&& pending.target() == Some(n as u32)
            &&& pending is CountFetch ==> pending.step(Event::Counted).step(Event::Found(block))
                == Pending::<B, E>::Finished(Ok(block))
            &&& pending is SyncL2Block ==> pending.step(Event::Found(block)) == Pending::<
                B,
                E,
            >::Finished(Ok(block))
            &&& pending is Sleep ==> pending.step(Event::Slept).step(Event::Found(block))
                == Pending::<B, E>::Finished(Ok(block))
        }),
    decreases events.len(),
{
    if events.len() > 0 {
        let rest = events.drop_last();
        assert forall|i: int| 0 <= i < rest.len() implies is_setback(#[trigger] rest[i]) by {
            assert(rest[i] == events[i]);
        }
        lemma_fetcher_retries(n, rest, block);
        assert(is_setback(events[events.len() - 1]));
    }
}

/// A fetch begins with being counted and then with a request for just that
/// block, with its transactions. For a number above the largest `u32` it ends at
/// once, in an error.
pub proof fn lemma_fetch_begins_with_its_block<B, E>(n: u64)
    ensures
        ({
            let start = Pending::<B, E>::initial(n);
            &&& n <= 0xffff_ffff ==> {
                &&& start is CountFetch
                &&& start.step(Event::Counted) matches Pending::SyncL2Block {
                    number,
                    include_transactions,
                }
                &&& number as int == n as int
                &&& include_transactions
            }
            &&& n > 0xffff_ffff ==> start == Pending::<B, E>::Finished(
                Err(
                    TaskError::Internal(
                        Report::Wrapped(
                            Context::Overflow,
                            Box::new(Report::Message(Context::IntegerOutOfRange)),
                        ),
                    ),
                ),
            )
        }),
{
}

/// What each reply to a request means: a block is handed out, a block that is
/// not there and a failure worth another try lead to a pause and then to the
/// same request, and anything else ends the fetch with its own error.
pub proof fn lemma_each_reply_has_its_meaning<B, E>(
    request: Pending<B, E>,
    block: B,
    cause: E,
    retryable: bool,
)
    requires
        request is SyncL2Block,
    ensures
        ({
            let number = request->SyncL2Block_number;
            let again = Pending::<B, E>::Sleep { ms: 5000, number };
            &&& request.step(Event::Found(block)) == Pending::<B, E>::Finished(Ok(block))
            &&& request.step(Event::Malformed(cause)) == Pending::<B, E>::Finished(
                Err(TaskError::Internal(Report::Outside(cause))),
            )
            &&& request.step(Event::Missing) == again
            &&& request.step(Event::Failed { retryable: true, cause }) == again
            &&& request.step(Event::Failed { retryable: false, cause }) == Pending::<
                B,
                E,
            >::Finished(
                Err(
                    TaskError::Internal(
                        Report::Wrapped(
                            Context::SyncL2Block(number),
                            Box::new(Report::Outside(cause)),
                        ),
                    ),
                ),
            )
            &&& request.step(Event::Canceled) == Pending::<B, E>::Finished(Err(TaskError::Canceled))
        }),
{
}

/// However long the pause, its end leads to a request for the same block, with
/// its transactions. It can also be cut short.
pub proof fn lemma_every_pause_ends_in_the_same_request<B, E>(ms: u64, number: u32)
    ensures
        ({
            let pause = Pending::<B, E>::Sleep { ms, number };
            &&& pause.step(Event::Slept) == Pending::<B, E>::SyncL2Block {
                number,
                include_transactions: true,
            }
            &&& pause.step(Event::Canceled) == Pending::<B, E>::Finished(Err(TaskError::Canceled))
        }),
{
}

/// An event moves the fetcher only where it answers what is pending, and a fetch
/// that has ended stays so.
pub proof fn lemma_fetcher_ignores_what_it_did_not_ask_for<B, E>(
    pending: Pending<B, E>,
    event: Event<B, E>,
)
    ensures
        pending is Finished ==> pending.step(event) == pending,
        pending is CountFetch && !(event is Counted) ==> pending.step(event) == pending,
        event is Counted && !(pending is CountFetch) ==> pending.step(event) == pending,
        event is Slept && !(pending is Sleep) ==> pending.step(event) == pending,
        pending is Sleep && !(event is Slept) && !(event is Canceled) ==> pending.step(event)
            == pending,
{
}

} // verus!
