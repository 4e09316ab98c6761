use external_node::error::{Context, Report, TaskError};
use external_node::node::{
    conclude, settle, Action, BackgroundTask, Event, FetcherAction, FetcherRun, FetcherStep, Parts,
    Pending, Run, RunStep, Validator, EN,
};

/// Names in place of the real values.
struct Names;

impl Parts for Names {
    type Actions = &'static str;
    type ConsensusConfig = &'static str;
    type ConsensusSecrets = &'static str;
    type Version = &'static str;
    type AttesterKey = &'static str;
    type ValidatorKey = &'static str;
    type GlobalConfig = &'static str;
    type Connection = &'static str;
    type PayloadQueue = &'static str;
    type Store = &'static str;
    type StoreRunner = &'static str;
    type BlockStore = &'static str;
    type BlockStoreRunner = &'static str;
    type AttestationController = &'static str;
    type ExecutorConfig = &'static str;
    type Error = &'static str;
}

const RUN: [RunStep; 18] = [
    RunStep::AttesterKey,
    RunStep::SpawnFetchStateLoop,
    RunStep::FetchGlobalConfig,
    RunStep::Connection,
    RunStep::TryUpdateGlobalConfig,
    RunStep::NewPayloadQueue,
    RunStep::DropConnection,
    RunStep::SpawnConfigMonitor,
    RunStep::StoreNew,
    RunStep::SpawnStoreRunner,
    RunStep::SpawnFallbackFetcher,
    RunStep::BlockStoreNew,
    RunStep::SpawnBlockStoreRunner,
    RunStep::NewAttestationController,
    RunStep::SpawnAttestationController,
    RunStep::ExecutorConfig,
    RunStep::ValidatorKey,
    RunStep::RunExecutor,
];

fn outside() -> TaskError<&'static str> {
    TaskError::Internal(Report::Outside("cause"))
}

fn wrapped(context: Context) -> TaskError<&'static str> {
    TaskError::Internal(Report::Wrapped(
        context,
        Box::new(Report::Outside("cause")),
    ))
}

fn start() -> Run<Names> {
    EN::run("actions", "cfg", "secrets", Some("1.2.3"))
}

/// The event that answers the step.
fn answer(step: RunStep) -> Event<Names> {
    match step {
        RunStep::AttesterKey => Event::AttesterKey(Some("attester key")),
        RunStep::FetchGlobalConfig => Event::GlobalConfig("config"),
        RunStep::Connection => Event::Connection("connection"),
        RunStep::NewPayloadQueue => Event::PayloadQueue("queue"),
        RunStep::StoreNew => Event::Store {
            store: "store",
            store_runner: "store runner",
        },
        RunStep::BlockStoreNew => Event::BlockStore {
            block_store: "block store",
            block_store_runner: "block store runner",
        },
        RunStep::NewAttestationController => Event::AttestationController("votes"),
        RunStep::ExecutorConfig => Event::ExecutorConfig("executor config"),
        RunStep::ValidatorKey => Event::ValidatorKey(Some("validator key")),
        _ => Event::Done,
    }
}

/// The node after its first `n` steps.
fn after_steps(n: usize) -> Run<Names> {
    let mut run = start();
    for step in &RUN[..n] {
        run = run.step(answer(*step));
    }
    run
}

#[test]
fn consensus_node_does_its_steps_in_order() {
    let mut run = start();
    for step in RUN {
        assert_eq!(*run.pending(), Pending::Do(step));
        run = run.step(answer(step));
    }
    assert_eq!(*run.pending(), Pending::Finished(Ok(())));
    assert!(run.action().is_none());
    assert_eq!(run.step(Event::Done).into_outcome(), Some(Ok(())));
}

#[test]
fn an_event_that_answers_another_step_changes_nothing() {
    for (n, step) in RUN.into_iter().enumerate() {
        for other in RUN {
            let run = after_steps(n).step(answer(other));
            let same_kind = matches!(answer(other), Event::Done) == matches!(answer(step), Event::Done)
                && (other == step || matches!(answer(step), Event::Done));
            if same_kind {
                assert_ne!(*run.pending(), Pending::Do(step));
            } else {
                assert_eq!(*run.pending(), Pending::Do(step));
            }
        }
    }
}

/// The values that each step gets, each under its name.
fn values(action: Action<Names>) -> Vec<&'static str> {
    match action {
        Action::AttesterKey { secrets } => vec![*secrets],
        Action::SpawnFetchStateLoop => vec![],
        Action::FetchGlobalConfig => vec![],
        Action::Connection => vec![],
        Action::TryUpdateGlobalConfig { connection, config } => vec![*connection, *config],
        Action::NewPayloadQueue {
            connection,
            actions,
        } => vec![*connection, *actions],
        Action::DropConnection { connection } => vec![*connection],
        Action::SpawnConfigMonitor { initial } => vec![*initial],
        Action::StoreNew { queue } => vec![*queue],
        Action::SpawnStoreRunner { store_runner } => vec![*store_runner],
        Action::SpawnFallbackFetcher { store } => vec![*store],
        Action::BlockStoreNew { store } => vec![*store],
        Action::SpawnBlockStoreRunner { block_store_runner } => vec![*block_store_runner],
        Action::NewAttestationController { attester_key } => vec![attester_key.unwrap_or("none")],
        Action::SpawnAttestationController { config, controller } => vec![*config, *controller],
        Action::ExecutorConfig {
            cfg,
            secrets,
            config,
            build_version,
        } => vec![*cfg, *secrets, *config, build_version.unwrap_or("none")],
        Action::ValidatorKey { secrets } => vec![*secrets],
        Action::RunExecutor {
            executor_config,
            block_store,
            validator,
            attestation,
        } => match validator {
            Some(Validator { key, store }) => {
                vec![*executor_config, *block_store, *attestation, *key, *store]
            }
            None => vec![*executor_config, *block_store, *attestation],
        },
    }
}

#[test]
fn each_step_gets_what_was_made_for_it() {
    let expected: [&[&str]; 18] = [
        &["secrets"],
        &[],
        &[],
        &[],
        &["connection", "config"],
        &["connection", "actions"],
        &["connection"],
        &["config"],
        &["queue"],
        &["store runner"],
        &["store"],
        &["store"],
        &["block store runner"],
        &["attester key"],
        &["config", "votes"],
        &["cfg", "secrets", "config", "1.2.3"],
        &["secrets"],
        &[
            "executor config",
            "block store",
            "votes",
            "validator key",
            "store",
        ],
    ];
    for (n, names) in expected.into_iter().enumerate() {
        let run = after_steps(n);
        assert_eq!(values(run.action().unwrap()), names);
    }
}

#[test]
fn without_keys_the_node_neither_validates_nor_votes() {
    let mut run: Run<Names> = EN::run("actions", "cfg", "secrets", None);
    for step in &RUN[..17] {
        match step {
            RunStep::NewAttestationController => {
                assert_eq!(values(run.action().unwrap()), ["none"]);
            }
            RunStep::ExecutorConfig => {
                assert_eq!(values(run.action().unwrap())[3], "none");
            }
            _ => {}
        }
        run = run.step(match step {
            RunStep::AttesterKey => Event::AttesterKey(None),
            RunStep::ValidatorKey => Event::ValidatorKey(None),
            step => answer(*step),
        });
    }
    assert_eq!(
        values(run.action().unwrap()),
        ["executor config", "block store", "votes"]
    );
}

#[test]
fn consensus_node_reports_where_it_failed() {
    let expected = [
        Some(wrapped(Context::AttesterKey)),
        None,
        Some(wrapped(Context::FetchGlobalConfig)),
        Some(wrapped(Context::Connection)),
        Some(wrapped(Context::TryUpdateGlobalConfig)),
        Some(wrapped(Context::NewPayloadQueue)),
        None,
        None,
        Some(wrapped(Context::StoreNew)),
        None,
        None,
        Some(wrapped(Context::BlockStoreNew)),
        None,
        None,
        None,
        Some(outside()),
        Some(wrapped(Context::ValidatorKey)),
        Some(outside()),
    ];
    for (n, error) in expected.into_iter().enumerate() {
        let run = after_steps(n).step(Event::Failed(outside()));
        assert_eq!(run.action().is_none(), error.is_some());
        assert_eq!(run.into_outcome(), error.map(Err));
    }
    // Nothing is done after a failure.
    let run = after_steps(4).step(Event::Failed(outside())).step(Event::Done);
    assert!(run.action().is_none());
    assert_eq!(
        after_steps(2)
            .step(Event::Failed(TaskError::Canceled))
            .into_outcome(),
        Some(Err(TaskError::Canceled))
    );
}

const FETCHER: [FetcherStep; 4] = [
    FetcherStep::SpawnFetchStateLoop,
    FetcherStep::Connection,
    FetcherStep::NewPayloadQueue,
    FetcherStep::FetchBlocks,
];

fn fetcher_answer(step: FetcherStep) -> Event<Names> {
    match step {
        FetcherStep::Connection => Event::Connection("connection"),
        FetcherStep::NewPayloadQueue => Event::PayloadQueue("queue"),
        _ => Event::Done,
    }
}

fn fetcher_after_steps(n: usize) -> FetcherRun<Names> {
    let mut run = EN::run_fetcher("actions");
    for step in &FETCHER[..n] {
        run = run.step(fetcher_answer(*step));
    }
    run
}

#[test]
fn fetching_node_does_its_steps_in_order() {
    for (n, step) in FETCHER.into_iter().enumerate() {
        let run = fetcher_after_steps(n);
        assert_eq!(*run.pending(), Pending::Do(step));
        match (step, run.action().unwrap()) {
            (FetcherStep::SpawnFetchStateLoop, FetcherAction::SpawnFetchStateLoop) => {}
            (FetcherStep::Connection, FetcherAction::Connection) => {}
            (
                FetcherStep::NewPayloadQueue,
                FetcherAction::NewPayloadQueue {
                    connection,
                    actions,
                },
            ) => {
                assert_eq!(*connection, "connection");
                assert_eq!(*actions, "actions");
            }
            (FetcherStep::FetchBlocks, FetcherAction::FetchBlocks { queue }) => {
                assert_eq!(*queue, "queue");
            }
            _ => panic!("{step:?}"),
        }
    }
    let run = fetcher_after_steps(4);
    assert!(run.action().is_none());
    assert_eq!(run.into_outcome(), Some(Ok(())));
}

#[test]
fn fetching_node_reports_where_it_failed() {
    let failing_at =
        |n: usize| fetcher_after_steps(n).step(Event::Failed(outside())).into_outcome();
    assert_eq!(failing_at(0), None);
    assert_eq!(failing_at(1), Some(Err(wrapped(Context::Connection))));
    assert_eq!(failing_at(2), Some(Err(wrapped(Context::NewFetcherCursor))));
    assert_eq!(failing_at(3), Some(Err(outside())));
}

#[test]
fn attestation_is_not_critical() {
    for error in [TaskError::Canceled, outside()] {
        assert_eq!(
            settle(BackgroundTask::AttestationController, Err(error)),
            Ok(())
        );
    }
}

#[test]
fn background_errors_are_passed_on() {
    let settled = |task| settle(task, Err(outside())).unwrap_err();
    assert_eq!(settled(BackgroundTask::FetchStateLoop), outside());
    assert_eq!(settled(BackgroundTask::ConfigMonitor), outside());
    assert_eq!(
        settled(BackgroundTask::StoreRunner),
        wrapped(Context::StoreRunner)
    );
    assert_eq!(
        settled(BackgroundTask::FallbackFetcher),
        wrapped(Context::FallbackBlockFetcher)
    );
    assert_eq!(
        settled(BackgroundTask::BlockStoreRunner),
        wrapped(Context::BlockStoreRun)
    );
    assert_eq!(
        settle::<&str>(BackgroundTask::StoreRunner, Ok(())),
        Ok(())
    );
    assert_eq!(
        settle::<&str>(BackgroundTask::FallbackFetcher, Err(TaskError::Canceled)),
        Err(TaskError::Canceled)
    );
}

#[test]
fn cancellation_is_no_error() {
    assert_eq!(conclude::<&str>(Ok(())), Ok(()));
    assert_eq!(conclude::<&str>(Err(TaskError::Canceled)), Ok(()));
    assert_eq!(
        conclude(Err(wrapped(Context::Connection))),
        Err(Report::Wrapped(
            Context::Connection,
            Box::new(Report::Outside("cause"))
        ))
    );
}

#[test]
fn contexts_wrap_errors_but_not_cancellation() {
    assert_eq!(
        TaskError::<&str>::Canceled.wrap(Context::NextBlock),
        TaskError::Canceled
    );
    assert_eq!(
        wrapped(Context::NextBlock).wrap(Context::FallbackBlockFetcher),
        TaskError::Internal(Report::Wrapped(
            Context::FallbackBlockFetcher,
            Box::new(Report::Wrapped(
                Context::NextBlock,
                Box::new(Report::Outside("cause"))
            ))
        ))
    );
}

#[test]
fn contexts_have_their_texts() {
    for (context, text) in [
        (Context::AttesterKey, "attester_key"),
        (Context::ValidatorKey, "validator_key"),
        (Context::FetchGlobalConfig, "fetch_global_config()"),
        (Context::Connection, "connection()"),
        (Context::TryUpdateGlobalConfig, "try_update_global_config()"),
        (Context::NewPayloadQueue, "new_payload_queue()"),
        (Context::NewFetcherCursor, "new_fetcher_cursor()"),
        (Context::StoreNew, "Store::new()"),
        (Context::StoreRunner, "Store::runner()"),
        (Context::FallbackBlockFetcher, "fallback_block_fetcher()"),
        (Context::BlockStoreNew, "BlockStore::new()"),
        (Context::BlockStoreRun, "BlockStore::run()"),
        (
            Context::RunAttestationController,
            "run_attestation_controller()",
        ),
        (
            Context::FetchAttestationStatus,
            "fetch_attestation_status()",
        ),
        (Context::AttestationStatus, "attestation_status()"),
        (
            Context::AttestationStatusMissing,
            "main node is not runnign consensus component",
        ),
        (Context::GenesisMismatch, "genesis mismatch"),
        (Context::WaitForBatchInfo, "wait_for_batch_info()"),
        (Context::AttesterCommitteeFor, "attester_committee_for()"),
        (Context::CommitteeConnection, "connection"),
        (
            Context::UpsertAttesterCommittee,
            "upsert_attester_committee()",
        ),
        (Context::StartAttestation, "start_attestation()"),
        (Context::ConsensusGlobalConfig, "consensus_global_config()"),
        (Context::ConsensusGenesis, "consensus_genesis()"),
        (
            Context::NotRunningConsensus,
            "main node is not running consensus component",
        ),
        (Context::Deserialize, "deserialize()"),
        (Context::Overflow, "overflow"),
        (
            Context::IntegerOutOfRange,
            "out of range integral type conversion attempted",
        ),
        (Context::SyncL2Block(0), "client.sync_l2_block(0)"),
        (
            Context::SyncL2Block(4294967295),
            "client.sync_l2_block(4294967295)",
        ),
        (Context::SyncL2Block(1070), "client.sync_l2_block(1070)"),
        (Context::NextBlock, "next_block()"),
        (
            Context::QueueNextFetchedBlock,
            "queue_next_fetched_block()",
        ),
        (Context::QueueSend, "queue.send()"),
    ] {
        assert_eq!(context.message(), text);
    }
}
