use external_node::block_fetch;
use external_node::block_fetch::BlockFetcher;
use external_node::consumer;
use external_node::consumer::{Consumer, Sink, MAX_CONCURRENT_REQUESTS};
use external_node::error::{Context, TaskError, Report};
use external_node::fallback;
use external_node::fallback::FallbackProducer;
use external_node::head;
use external_node::head::HeadTracker;
use external_node::numbers::{
    is_lagging, l2_block_number, StoreState, FALLBACK_FETCHER_THRESHOLD,
};
use external_node::sequential;
use external_node::sequential::SequentialProducer;

type Fetcher = BlockFetcher<&'static str, &'static str>;

/// A fetcher whose fetch was counted.
fn counted(n: u64) -> Fetcher {
    Fetcher::new(n).step(block_fetch::Event::Counted)
}

/// What a fetcher does with the replies: how often it is counted, what it asks
/// for, and how it ends.
fn drive(
    n: u64,
    replies: Vec<block_fetch::Event<&'static str, &'static str>>,
) -> (usize, Vec<(u32, bool)>, Option<Result<&'static str, TaskError<&'static str>>>) {
    let mut fetcher = Fetcher::new(n);
    let mut replies = replies.into_iter();
    let mut counts = 0;
    let mut requests = vec![];
    loop {
        let event = match fetcher.pending() {
            block_fetch::Pending::CountFetch { .. } => {
                counts += 1;
                block_fetch::Event::Counted
            }
            block_fetch::Pending::SyncL2Block {
                number,
                include_transactions,
            } => {
                requests.push((*number, *include_transactions));
                match replies.next() {
                    Some(reply) => reply,
                    None => break,
                }
            }
            block_fetch::Pending::Sleep { .. } => block_fetch::Event::Slept,
            block_fetch::Pending::Finished(_) => break,
        };
        fetcher = fetcher.step(event);
    }
    (counts, requests, fetcher.into_outcome())
}

#[test]
fn a_fetch_is_counted_once_however_often_it_is_retried() {
    let (counts, requests, outcome) = drive(
        7,
        vec![
            block_fetch::Event::Missing,
            block_fetch::Event::Failed {
                retryable: true,
                cause: "timeout",
            },
            block_fetch::Event::Found("f"),
        ],
    );
    assert_eq!(counts, 1);
    assert_eq!(requests, vec![(7, true), (7, true), (7, true)]);
    assert_eq!(outcome, Some(Ok("f")));
}

#[test]
fn a_fetch_of_too_large_a_number_is_not_counted() {
    let (counts, requests, outcome) = drive(4294967296, vec![block_fetch::Event::Found("f")]);
    assert_eq!(counts, 0);
    assert!(requests.is_empty());
    assert!(matches!(outcome, Some(Err(TaskError::Internal(_)))));
}

#[test]
fn the_last_block_number_overflows() {
    let producer =
        SequentialProducer::new(u64::MAX).step(sequential::Event::MainNodeBlock { main: u64::MAX });
    assert!(producer.overflows(&sequential::Event::Sent));
    assert!(!producer.overflows(&sequential::Event::Canceled));
    assert!(!SequentialProducer::new(u64::MAX).overflows(&sequential::Event::Sent));

    let full = |last: u64| fallback::Event::<&str>::MainNodeBlock {
        main: u64::MAX,
        persisted: StoreState {
            first: 0,
            last: Some(last),
        },
    };
    let producer =
        FallbackProducer::<&str>::new().step(fallback::Event::StoreNext { next: u64::MAX });
    assert!(producer.overflows(&full(u64::MAX - 10)));
    assert!(!producer.overflows(&full(u64::MAX - 11)));
    let producer = producer.step(full(u64::MAX - 11));
    assert!(matches!(producer.pending(), fallback::Pending::NextBlock));
    assert!(!producer.overflows(&full(u64::MAX)));
    let producer = producer
        .step(fallback::Event::StoreNext { next: 0 })
        .step(full(u64::MAX));
    assert!(producer.overflows(&fallback::Event::Sent));
    let empty = StoreState {
        first: u64::MAX - 10,
        last: None,
    };
    assert!(empty.has_room());
    assert!(!StoreState {
        first: u64::MAX - 9,
        last: None
    }
    .has_room());
}

#[test]
fn constants_are_as_documented() {
    assert_eq!(FALLBACK_FETCHER_THRESHOLD, 10);
    assert_eq!(MAX_CONCURRENT_REQUESTS, 30);
}

#[test]
fn block_numbers_fit_or_do_not() {
    assert_eq!(l2_block_number(0), Some(0));
    assert_eq!(l2_block_number(4294967295), Some(4294967295));
    assert_eq!(l2_block_number(4294967296), None);
}

#[test]
fn lag_begins_above_the_threshold() {
    // Blocks 0..=4 are stored, 5 is the next one.
    let stored = StoreState {
        first: 0,
        last: Some(4),
    };
    assert!(!is_lagging(3, &stored));
    assert!(!is_lagging(14, &stored));
    assert!(is_lagging(15, &stored));
    let empty = StoreState {
        first: 100,
        last: None,
    };
    assert!(!is_lagging(109, &empty));
    assert!(is_lagging(110, &empty));
}

#[test]
fn block_is_fetched() {
    let fetcher = Fetcher::new(12);
    assert!(matches!(
        fetcher.pending(),
        block_fetch::Pending::CountFetch { number: 12 }
    ));
    let fetcher = fetcher.step(block_fetch::Event::Counted);
    assert!(matches!(
        fetcher.pending(),
        block_fetch::Pending::SyncL2Block {
            number: 12,
            include_transactions: true
        }
    ));
    let fetcher = fetcher.step(block_fetch::Event::Found("block 12"));
    assert_eq!(fetcher.into_outcome(), Some(Ok("block 12")));
}

#[test]
fn block_is_asked_for_again() {
    let fetcher = counted(12)
        .step(block_fetch::Event::Missing)
        .step(block_fetch::Event::Slept)
        .step(block_fetch::Event::Failed {
            retryable: true,
            cause: "busy",
        });
    assert!(matches!(
        fetcher.pending(),
        block_fetch::Pending::Sleep {
            ms: 5000,
            number: 12
        }
    ));
    let fetcher = fetcher.step(block_fetch::Event::Slept);
    assert!(matches!(
        fetcher.pending(),
        block_fetch::Pending::SyncL2Block {
            number: 12,
            include_transactions: true
        }
    ));
    let fetcher = fetcher.step(block_fetch::Event::Found("late"));
    assert_eq!(fetcher.into_outcome(), Some(Ok("late")));
}

#[test]
fn fetching_fails() {
    assert_eq!(
        Fetcher::new(1 << 32).into_outcome(),
        Some(Err(TaskError::Internal(Report::Wrapped(
            Context::Overflow,
            Box::new(Report::Message(Context::IntegerOutOfRange))
        ))))
    );
    assert_eq!(Fetcher::new(1).into_outcome(), None);
    assert_eq!(
        counted(3)
            .step(block_fetch::Event::Failed {
                retryable: false,
                cause: "denied"
            })
            .into_outcome(),
        Some(Err(TaskError::Internal(Report::Wrapped(
            Context::SyncL2Block(3),
            Box::new(Report::Outside("denied"))
        ))))
    );
    assert_eq!(
        counted(3)
            .step(block_fetch::Event::Malformed("no hash"))
            .into_outcome(),
        Some(Err(TaskError::Internal(Report::Outside("no hash"))))
    );
    assert_eq!(
        counted(3)
            .step(block_fetch::Event::Missing)
            .step(block_fetch::Event::Canceled)
            .into_outcome(),
        Some(Err(TaskError::Canceled))
    );
    assert_eq!(
        counted(3)
            .step(block_fetch::Event::Canceled)
            .step(block_fetch::Event::Found("too late"))
            .into_outcome(),
        Some(Err(TaskError::Canceled))
    );
}

#[test]
fn head_is_published() {
    let tracker = HeadTracker::<&str>::new().step(head::Event::BlockNumber { head: 77 });
    assert!(matches!(
        tracker.pending(),
        head::Pending::SetMainNodeBlock { head: 77 }
    ));
    let tracker = tracker.step(head::Event::Published);
    assert!(matches!(tracker.pending(), head::Pending::Sleep { ms: 500 }));
    let tracker = tracker.step(head::Event::Slept);
    assert!(matches!(tracker.pending(), head::Pending::GetBlockNumber));
    let tracker = tracker.step(head::Event::Unavailable);
    assert!(matches!(
        tracker.pending(),
        head::Pending::Sleep { ms: 5000 }
    ));
    assert_eq!(
        tracker.step(head::Event::Canceled).into_outcome(),
        Some(TaskError::Canceled)
    );
}

#[test]
fn head_may_be_too_large() {
    assert_eq!(
        HeadTracker::<&str>::new()
            .step(head::Event::BlockNumber { head: 1 << 32 })
            .into_outcome(),
        Some(TaskError::Internal(Report::Message(Context::Overflow)))
    );
    assert_eq!(
        HeadTracker::<&str>::new()
            .step(head::Event::Canceled)
            .into_outcome(),
        Some(TaskError::Canceled)
    );
    assert_eq!(HeadTracker::<&str>::new().into_outcome(), None);
}

#[test]
fn blocks_are_requested_one_after_the_other() {
    let mut producer = SequentialProducer::new(5);
    let mut requested = vec![];
    for main in [3, 5, 5, 9, 9, 9, 9, 9] {
        assert_eq!(
            producer.is_available(main),
            match producer.pending() {
                sequential::Pending::WaitForMainNodeBlock { next } => next <= main,
                _ => false,
            }
        );
        producer = producer.step(sequential::Event::MainNodeBlock { main });
        if let sequential::Pending::FetchBlock { next } = producer.pending() {
            requested.push(next);
            producer = producer.step(sequential::Event::Sent);
        }
    }
    assert_eq!(requested, vec![5, 6, 7, 8, 9]);
    assert_eq!(
        producer.pending(),
        sequential::Pending::WaitForMainNodeBlock { next: 10 }
    );
    let producer = producer.step(sequential::Event::Canceled);
    assert_eq!(
        producer
            .step(sequential::Event::MainNodeBlock { main: 100 })
            .pending(),
        sequential::Pending::Canceled
    );
}

fn main_block(main: u64, last: u64) -> fallback::Event<&'static str> {
    fallback::Event::MainNodeBlock {
        main,
        persisted: StoreState {
            first: 0,
            last: Some(last),
        },
    }
}

#[test]
fn fallback_requests_while_the_node_lags() {
    let producer = FallbackProducer::<&str>::new();
    assert!(matches!(producer.pending(), fallback::Pending::FirstBlock));
    let producer = producer
        .step(fallback::Event::StoreNext { next: 5 })
        .step(main_block(14, 4));
    // Ten blocks are missing, which is not more than the threshold.
    assert!(matches!(producer.pending(), fallback::Pending::WaitForLag));
    assert!(producer.is_ready(
        15,
        &StoreState {
            first: 0,
            last: Some(4)
        }
    ));
    let producer = producer.step(main_block(15, 4));
    assert!(matches!(producer.pending(), fallback::Pending::NextBlock));
    let producer = producer.step(fallback::Event::StoreNext { next: 5 });
    assert!(matches!(
        producer.pending(),
        fallback::Pending::WaitForMainNodeBlock
    ));
    let producer = producer.step(main_block(15, 4));
    assert!(matches!(producer.pending(), fallback::Pending::FetchBlock));
    assert_eq!(producer.next(), 5);
    let producer = producer.step(fallback::Event::Sent);
    assert!(matches!(producer.pending(), fallback::Pending::WaitForLag));
    assert_eq!(producer.next(), 6);
}

#[test]
fn fallback_never_goes_back_and_jumps_ahead_with_the_store() {
    let round = |producer: FallbackProducer<&'static str>, store: u64| {
        producer
            .step(main_block(1000, 4))
            .step(fallback::Event::StoreNext { next: store })
            .step(main_block(1000, 4))
    };
    let producer = FallbackProducer::new().step(fallback::Event::StoreNext { next: 5 });
    let producer = round(producer, 5).step(fallback::Event::Sent);
    // The store still needs 5, which is under way already.
    let producer = round(producer, 5);
    assert_eq!(producer.next(), 6);
    // The store got ahead by other means.
    let producer = round(producer.step(fallback::Event::Sent), 40);
    assert_eq!(producer.next(), 40);
}

#[test]
fn fallback_waits_for_the_main_node() {
    let producer = FallbackProducer::<&str>::new()
        .step(fallback::Event::StoreNext { next: 0 })
        .step(main_block(50, 4))
        .step(fallback::Event::StoreNext { next: 60 })
        .step(main_block(59, 4));
    assert!(matches!(
        producer.pending(),
        fallback::Pending::WaitForMainNodeBlock
    ));
    let producer = producer.step(main_block(60, 59));
    assert!(matches!(producer.pending(), fallback::Pending::FetchBlock));
    assert_eq!(producer.next(), 60);
}

#[test]
fn fallback_fails() {
    let failed = || fallback::Event::Failed(TaskError::Internal(Report::Outside("db")));
    let wrapped = Some(TaskError::Internal(Report::Wrapped(
        Context::NextBlock,
        Box::new(Report::Outside("db")),
    )));
    assert_eq!(
        FallbackProducer::new().step(failed()).into_outcome(),
        wrapped
    );
    assert_eq!(
        FallbackProducer::new()
            .step(fallback::Event::StoreNext { next: 5 })
            .step(main_block(1000, 4))
            .step(failed())
            .into_outcome(),
        wrapped
    );
    assert_eq!(
        FallbackProducer::<&str>::new()
            .step(fallback::Event::StoreNext { next: 5 })
            .step(fallback::Event::Failed(TaskError::Canceled))
            .into_outcome(),
        Some(TaskError::Canceled)
    );
    assert_eq!(FallbackProducer::<&str>::new().into_outcome(), None);
}

#[test]
fn blocks_reach_the_sink() {
    let consumer = Consumer::<&str, &str>::new(Sink::PayloadQueue);
    assert!(matches!(consumer.pending(), consumer::Pending::Receive));
    let consumer = consumer.step(consumer::Event::Received);
    assert!(matches!(consumer.pending(), consumer::Pending::Join));
    let consumer = consumer.step(consumer::Event::Joined("block"));
    assert!(matches!(
        consumer.pending(),
        consumer::Pending::Store { block: "block" }
    ));
    let consumer = consumer.step(consumer::Event::Stored);
    assert!(matches!(
        consumer.into_pending(),
        consumer::Pending::Receive
    ));
}

#[test]
fn sinks_report_their_own_failure() {
    for (sink, context) in [
        (Sink::PayloadQueue, Context::QueueSend),
        (Sink::BlockStore, Context::QueueNextFetchedBlock),
    ] {
        let consumer = Consumer::<&str, &str>::new(sink)
            .step(consumer::Event::Received)
            .step(consumer::Event::Joined("block"))
            .step(consumer::Event::Failed(TaskError::Internal(Report::Outside(
                "full",
            ))));
        match consumer.into_pending() {
            consumer::Pending::Stopped(error) => assert_eq!(
                error,
                TaskError::Internal(Report::Wrapped(context, Box::new(Report::Outside("full"))))
            ),
            other => panic!("{other:?}"),
        }
    }
    for received in [false, true] {
        let mut consumer = Consumer::<&str, &str>::new(Sink::BlockStore);
        if received {
            consumer = consumer.step(consumer::Event::Received);
        }
        match consumer
            .step(consumer::Event::Failed(TaskError::Canceled))
            .into_pending()
        {
            consumer::Pending::Stopped(error) => assert_eq!(error, TaskError::Canceled),
            other => panic!("{other:?}"),
        }
    }
}

/// Producer, channel and consumer together, with a channel of two.
#[test]
fn blocks_are_delivered_in_the_order_of_the_requests() {
    let mut producer = SequentialProducer::new(8);
    let mut consumer = Consumer::<u64, &str>::new(Sink::PayloadQueue);
    let mut channel = std::collections::VecDeque::new();
    let mut delivered = vec![];
    for round in 0..40 {
        if round % 3 != 0 {
            match producer.pending() {
                sequential::Pending::WaitForMainNodeBlock { .. } => {
                    producer = producer.step(sequential::Event::MainNodeBlock { main: 12 });
                }
                sequential::Pending::FetchBlock { next } if channel.len() < 2 => {
                    channel.push_back(next);
                    producer = producer.step(sequential::Event::Sent);
                }
                _ => {}
            }
        }
        let event = match consumer.pending() {
            consumer::Pending::Receive if !channel.is_empty() => consumer::Event::Received,
            consumer::Pending::Receive => continue,
            consumer::Pending::Join => {
                let number: u64 = channel.pop_front().unwrap();
                let fetcher =
                    BlockFetcher::<u64, &str>::new(number).step(block_fetch::Event::Counted);
                let block = match fetcher.pending() {
                    block_fetch::Pending::SyncL2Block { number, .. } => u64::from(*number),
                    other => panic!("{other:?}"),
                };
                let fetched = fetcher.step(block_fetch::Event::Found(block)).into_outcome();
                consumer::Event::Joined(fetched.unwrap().unwrap())
            }
            consumer::Pending::Store { block } => {
                delivered.push(*block);
                consumer::Event::Stored
            }
            other => panic!("{other:?}"),
        };
        consumer = consumer.step(event);
    }
    assert_eq!(delivered, vec![8, 9, 10, 11, 12]);
}
