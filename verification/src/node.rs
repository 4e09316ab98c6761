//! The external node as a whole: what it does from start to end, which values
//! each step gets, and what the end of each of its tasks means for it.
use crate::error::{Context, Report, TaskError};
use vstd::prelude::*;

verus! {

/// The types of the values that pass through the node. The node hands them from
/// the step that makes them to the steps that need them, and never looks inside.
pub trait Parts: Sized {
    /// Where the blocks that are taken in go.
    type Actions;

    type ConsensusConfig;

    type ConsensusSecrets;

    type Version;

    type AttesterKey;

    type ValidatorKey;

    type GlobalConfig;

    /// A connection to the database.
    type Connection;

    type PayloadQueue;

    type Store;

    type StoreRunner;

    type BlockStore;

    type BlockStoreRunner;

    /// What collects the votes of the attesters.
    type AttestationController;

    type ExecutorConfig;

    /// The error type of the code around the node.
    type Error;
}

/// A step of a node that takes part in the consensus, as a validator where it
/// has a key for that.
#[derive(Clone, Copy, Debug, PartialEq, Eq)]
pub enum RunStep {
    AttesterKey,
    SpawnFetchStateLoop,
    FetchGlobalConfig,
    Connection,
    TryUpdateGlobalConfig,
    NewPayloadQueue,
    DropConnection,
    SpawnConfigMonitor,
    StoreNew,
    SpawnStoreRunner,
    SpawnFallbackFetcher,
    BlockStoreNew,
    SpawnBlockStoreRunner,
    NewAttestationController,
    SpawnAttestationController,
    ExecutorConfig,
    ValidatorKey,
    RunExecutor,
}

/// A step of a node that only fetches blocks from the main node.
#[derive(Clone, Copy, Debug, PartialEq, Eq)]
pub enum FetcherStep {
    SpawnFetchStateLoop,
    Connection,
    NewPayloadQueue,
    FetchBlocks,
}

/// What makes a consensus node with a key a validator.
pub struct Validator<'a, P: Parts> {
    pub key: &'a P::ValidatorKey,
    /// Holds the state of the replica and makes and checks the payloads.
    pub store: &'a P::Store,
}

/// A step of a consensus node with the values that it gets.
pub enum Action<'a, P: Parts> {
    /// Read the attester's key, if there is one.
    AttesterKey { secrets: &'a P::ConsensusSecrets },
    /// Keep track of the main node's last block in the background.
    SpawnFetchStateLoop,
    /// Get the global configuration from the main node.
    FetchGlobalConfig,
    /// Connect to the database.
    Connection,
    /// Store the global configuration.
    TryUpdateGlobalConfig { connection: &'a P::Connection, config: &'a P::GlobalConfig },
    /// Open the queue through which data from the main node is taken in.
    NewPayloadQueue { connection: &'a P::Connection, actions: &'a P::Actions },
    /// Give the connection back.
    DropConnection { connection: &'a P::Connection },
    /// Watch the main node in the background for another configuration.
    SpawnConfigMonitor { initial: &'a P::GlobalConfig },
    /// Open the store.
    StoreNew { queue: &'a P::PayloadQueue },
    /// Run the store in the background.
    SpawnStoreRunner { store_runner: &'a P::StoreRunner },
    /// Fetch blocks directly in the background whenever the node lags behind.
    SpawnFallbackFetcher { store: &'a P::Store },
    /// Open the block store on top of the store.
    BlockStoreNew { store: &'a P::Store },
    /// Run the block store in the background.
    SpawnBlockStoreRunner { block_store_runner: &'a P::BlockStoreRunner },
    /// Make what collects the votes. Without a key, the node does not vote.
    NewAttestationController { attester_key: &'a Option<P::AttesterKey> },
    /// Attest batches in the background.
    SpawnAttestationController {
        config: &'a P::GlobalConfig,
        controller: &'a P::AttestationController,
    },
    /// Make the configuration of the executor.
    ExecutorConfig {
        cfg: &'a P::ConsensusConfig,
        secrets: &'a P::ConsensusSecrets,
        config: &'a P::GlobalConfig,
        build_version: &'a Option<P::Version>,
    },
    /// Read the validator's key, if there is one.
    ValidatorKey { secrets: &'a P::ConsensusSecrets },
    /// Run the executor to its end.
    RunExecutor {
        executor_config: &'a P::ExecutorConfig,
        block_store: &'a P::BlockStore,
        validator: Option<Validator<'a, P>>,
        attestation: &'a P::AttestationController,
    },
}

/// A step of a fetching node with the values that it gets.
pub enum FetcherAction<'a, P: Parts> {
    /// Keep track of the main node's last block in the background.
    SpawnFetchStateLoop,
    /// Connect to the database.
    Connection,
    /// Open the queue through which the blocks are taken in.
    NewPayloadQueue { connection: &'a P::Connection, actions: &'a P::Actions },
    /// Fetch all blocks, starting with the next one of the queue.
    FetchBlocks { queue: &'a P::PayloadQueue },
}

/// What is to be done now.
#[derive(Debug, PartialEq, Eq)]
pub enum Pending<S, E> {
    Do(S),
    /// Nothing: this is how it ended.
    Finished(Result<(), TaskError<E>>),
}

/// What can happen to the step at hand. An event that does not answer it changes
/// nothing.
pub enum Event<P: Parts> {
    /// A step that makes nothing was done.
    Done,
    AttesterKey(Option<P::AttesterKey>),
    GlobalConfig(P::GlobalConfig),
    Connection(P::Connection),
    PayloadQueue(P::PayloadQueue),
    Store { store: P::Store, store_runner: P::StoreRunner },
    BlockStore { block_store: P::BlockStore, block_store_runner: P::BlockStoreRunner },
    AttestationController(P::AttestationController),
    ExecutorConfig(P::ExecutorConfig),
    ValidatorKey(Option<P::ValidatorKey>),
    /// The step failed. Some steps cannot, and this changes nothing for them.
    Failed(TaskError<P::Error>),
}

/// What an event means for the step at hand.
pub enum Signal<E> {
    Done,
    Failed(TaskError<E>),
    Irrelevant,
}

/// The steps of a consensus node, in order.
pub open spec fn run_order() -> Seq<RunStep> {
    seq![
        RunStep::AttesterKey,
        RunStep::SpawnFetchStateLoop,
        RunStep::FetchGlobalConfig,
        RunStep::Connection,
        RunStep::TryUpdateGlobalConfig,
        RunStep::NewPayloadQueue,
        RunStep::DropConnection,
        RunStep::SpawnConfigMonitor,
        RunStep::StoreNew,
        RunStep::SpawnStoreRunner,
        RunStep::SpawnFallbackFetcher,
        RunStep::BlockStoreNew,
        RunStep::SpawnBlockStoreRunner,
        RunStep::NewAttestationController,
        RunStep::SpawnAttestationController,
        RunStep::ExecutorConfig,
        RunStep::ValidatorKey,
        RunStep::RunExecutor,
    ]
}

/// The steps of a fetching node, in order.
pub open spec fn fetcher_order() -> Seq<FetcherStep> {
    seq![
        FetcherStep::SpawnFetchStateLoop,
        FetcherStep::Connection,
        FetcherStep::NewPayloadQueue,
        FetcherStep::FetchBlocks,
    ]
}

/// What happens to an error of a step: where the step cannot fail, nothing.
/// Else it ends the node, seen through this context, if there is one.
pub enum FailureRule {
    CannotFail,
    AsIs,
    Through(Context),
}

impl FailureRule {
    pub open spec fn apply<E>(self, error: TaskError<E>) -> Option<TaskError<E>> {
        match self {
            FailureRule::CannotFail => None,
            FailureRule::AsIs => Some(error),
            FailureRule::Through(context) => Some(error.spec_wrap(context)),
        }
    }
}

pub open spec fn run_failure_rule(step: RunStep) -> FailureRule {
    match step {
        RunStep::AttesterKey => FailureRule::Through(Context::AttesterKey),
        RunStep::FetchGlobalConfig => FailureRule::Through(Context::FetchGlobalConfig),
        RunStep::Connection => FailureRule::Through(Context::Connection),
        RunStep::TryUpdateGlobalConfig => FailureRule::Through(Context::TryUpdateGlobalConfig),
        RunStep::NewPayloadQueue => FailureRule::Through(Context::NewPayloadQueue),
        RunStep::StoreNew => FailureRule::Through(Context::StoreNew),
        RunStep::BlockStoreNew => FailureRule::Through(Context::BlockStoreNew),
        RunStep::ValidatorKey => FailureRule::Through(Context::ValidatorKey),
        RunStep::ExecutorConfig | RunStep::RunExecutor => FailureRule::AsIs,
        _ => FailureRule::CannotFail,
    }
}

pub open spec fn fetcher_failure_rule(step: FetcherStep) -> FailureRule {
    match step {
        FetcherStep::SpawnFetchStateLoop => FailureRule::CannotFail,
        FetcherStep::Connection => FailureRule::Through(Context::Connection),
        FetcherStep::NewPayloadQueue => FailureRule::Through(Context::NewFetcherCursor),
        FetcherStep::FetchBlocks => FailureRule::AsIs,
    }
}

/// What happens to an error of each step of a consensus node.
pub open spec fn run_rule() -> spec_fn(RunStep) -> FailureRule {
    |step: RunStep| run_failure_rule(step)
}

/// What happens to an error of each step of a fetching node.
pub open spec fn fetcher_rule() -> spec_fn(FetcherStep) -> FailureRule {
    |step: FetcherStep| fetcher_failure_rule(step)
}

/// The event brings what the step was to make.
pub open spec fn run_answers<P: Parts>(step: RunStep, event: Event<P>) -> bool {
    match step {
        RunStep::AttesterKey => event is AttesterKey,
        RunStep::FetchGlobalConfig => event is GlobalConfig,
        RunStep::Connection => event is Connection,
        RunStep::NewPayloadQueue => event is PayloadQueue,
        RunStep::StoreNew => event is Store,
        RunStep::BlockStoreNew => event is BlockStore,
        RunStep::NewAttestationController => event is AttestationController,
        RunStep::ExecutorConfig => event is ExecutorConfig,
        RunStep::ValidatorKey => event is ValidatorKey,
        _ => event is Done,
    }
}

/// The event brings what the step was to make.
pub open spec fn fetcher_answers<P: Parts>(step: FetcherStep, event: Event<P>) -> bool {
    match step {
        FetcherStep::Connection => event is Connection,
        FetcherStep::NewPayloadQueue => event is PayloadQueue,
        FetcherStep::SpawnFetchStateLoop | FetcherStep::FetchBlocks => event is Done,
    }
}

pub open spec fn signal_of<P: Parts>(event: Event<P>, answers: bool) -> Signal<P::Error> {
    match event {
        Event::Failed(error) => Signal::Failed(error),
        _ => if answers {
            Signal::Done
        } else {
            Signal::Irrelevant
        },
    }
}

impl<S, E> Pending<S, E> {
    /// The first step, where the steps are to be done in this order.
    pub open spec fn initial(order: Seq<S>) -> Pending<S, E> {
        Pending::Do(order[0])
    }

    /// What is to be done after the signal. `order` gives the steps, each once.
    pub open spec fn step(
        self,
        order: Seq<S>,
        rule: spec_fn(S) -> FailureRule,
        signal: Signal<E>,
    ) -> Pending<S, E> {
        match (self, signal) {
            (Pending::Do(step), Signal::Done) => {
                let after = order.index_of(step) + 1;
                if after < order.len() {
                    Pending::Do(order[after])
                } else {
                    Pending::Finished(Ok(()))
                }
            },
            (Pending::Do(step), Signal::Failed(error)) => match rule(step).apply(error) {
                Some(error) => Pending::Finished(Err(error)),
                None => self,
            },
            _ => self,
        }
    }

    /// What is to be done after a series of signals.
    pub open spec fn run(
        self,
        order: Seq<S>,
        rule: spec_fn(S) -> FailureRule,
        signals: Seq<Signal<E>>,
    ) -> Pending<S, E>
        decreases signals.len(),
    {
        if signals.len() == 0 {
            self
        } else {
            self.run(order, rule, signals.drop_last()).step(order, rule, signals.last())
        }
    }

    /// The steps that a series of signals completes, in that order.
    pub open spec fn completed(
        self,
        order: Seq<S>,
        rule: spec_fn(S) -> FailureRule,
        signals: Seq<Signal<E>>,
    ) -> Seq<S>
        decreases signals.len(),
    {
        if signals.len() == 0 {
            Seq::empty()
        } else {
            let earlier = self.completed(order, rule, signals.drop_last());
            match (self.run(order, rule, signals.drop_last()), signals.last()) {
                (Pending::Do(step), Signal::Done) => earlier.push(step),
                _ => earlier,
            }
        }
    }
}

/// In a sequence without duplicates, every element is found where it is.
pub proof fn lemma_positions<S>(order: Seq<S>)
    requires
        order.no_duplicates(),
    ensures
        forall|i: int| 0 <= i < order.len() ==> order.index_of(#[trigger] order[i]) == i,
{
    assert forall|i: int| 0 <= i < order.len() implies order.index_of(#[trigger] order[i]) == i by {
        assert(order.contains(order[i]));
    }
}

/// Where each step of a consensus node stands.
pub proof fn lemma_run_positions()
    ensures
        run_order().no_duplicates(),
        run_order().index_of(RunStep::AttesterKey) == 0,
        run_order().index_of(RunStep::SpawnFetchStateLoop) == 1,
        run_order().index_of(RunStep::FetchGlobalConfig) == 2,
        run_order().index_of(RunStep::Connection) == 3,
        run_order().index_of(RunStep::TryUpdateGlobalConfig) == 4,
        run_order().index_of(RunStep::NewPayloadQueue) == 5,
        run_order().index_of(RunStep::DropConnection) == 6,
        run_order().index_of(RunStep::SpawnConfigMonitor) == 7,
        run_order().index_of(RunStep::StoreNew) == 8,
        run_order().index_of(RunStep::SpawnStoreRunner) == 9,
        run_order().index_of(RunStep::SpawnFallbackFetcher) == 10,
        run_order().index_of(RunStep::BlockStoreNew) == 11,
        run_order().index_of(RunStep::SpawnBlockStoreRunner) == 12,
        run_order().index_of(RunStep::NewAttestationController) == 13,
        run_order().index_of(RunStep::SpawnAttestationController) == 14,
        run_order().index_of(RunStep::ExecutorConfig) == 15,
        run_order().index_of(RunStep::ValidatorKey) == 16,
        run_order().index_of(RunStep::RunExecutor) == 17,
{
    let order = run_order();
    lemma_positions(order);
    assert(order[0] == RunStep::AttesterKey);
    assert(order[1] == RunStep::SpawnFetchStateLoop);
    assert(order[2] == RunStep::FetchGlobalConfig);
    assert(order[3] == RunStep::Connection);
    assert(order[4] == RunStep::TryUpdateGlobalConfig);
    assert(order[5] == RunStep::NewPayloadQueue);
    assert(order[6] == RunStep::DropConnection);
    assert(order[7] == RunStep::SpawnConfigMonitor);
    assert(order[8] == RunStep::StoreNew);
    assert(order[9] == RunStep::SpawnStoreRunner);
    assert(order[10] == RunStep::SpawnFallbackFetcher);
    assert(order[11] == RunStep::BlockStoreNew);
    assert(order[12] == RunStep::SpawnBlockStoreRunner);
    assert(order[13] == RunStep::NewAttestationController);
    assert(order[14] == RunStep::SpawnAttestationController);
    assert(order[15] == RunStep::ExecutorConfig);
    assert(order[16] == RunStep::ValidatorKey);
    assert(order[17] == RunStep::RunExecutor);
}

/// Where each step of a fetching node stands.
pub proof fn lemma_fetcher_positions()
    ensures
        fetcher_order().no_duplicates(),
        fetcher_order().index_of(FetcherStep::SpawnFetchStateLoop) == 0,
        fetcher_order().index_of(FetcherStep::Connection) == 1,
        fetcher_order().index_of(FetcherStep::NewPayloadQueue) == 2,
        fetcher_order().index_of(FetcherStep::FetchBlocks) == 3,
{
    let order = fetcher_order();
    lemma_positions(order);
    assert(order[0] == FetcherStep::SpawnFetchStateLoop);
    assert(order[1] == FetcherStep::Connection);
    assert(order[2] == FetcherStep::NewPayloadQueue);
    assert(order[3] == FetcherStep::FetchBlocks);
}

/// What a consensus node is started with.
pub struct Inputs<P: Parts> {
    pub actions: P::Actions,
    pub cfg: P::ConsensusConfig,
    pub secrets: P::ConsensusSecrets,
    pub build_version: Option<P::Version>,
}

/// What the steps of a consensus node have made so far.
pub struct Made<P: Parts> {
    /// Read, and there or not.
    pub attester_key: Option<Option<P::AttesterKey>>,
    pub config: Option<P::GlobalConfig>,
    /// Held only until it is given back.
    pub connection: Option<P::Connection>,
    pub queue: Option<P::PayloadQueue>,
    pub store: Option<P::Store>,
    pub store_runner: Option<P::StoreRunner>,
    pub block_store: Option<P::BlockStore>,
    pub block_store_runner: Option<P::BlockStoreRunner>,
    pub controller: Option<P::AttestationController>,
    pub executor_config: Option<P::ExecutorConfig>,
    /// Read, and there or not.
    pub validator_key: Option<Option<P::ValidatorKey>>,
}

impl<P: Parts> Made<P> {
    pub open spec fn nothing() -> Made<P> {
        Made {
            attester_key: None,
            config: None,
            connection: None,
            queue: None,
            store: None,
            store_runner: None,
            block_store: None,
            block_store_runner: None,
            controller: None,
            executor_config: None,
            validator_key: None,
        }
    }

    /// What is there once `step` was answered by `event`.
    pub open spec fn after(self, step: RunStep, event: Event<P>) -> Made<P> {
        match event {
            Event::AttesterKey(key) => Made { attester_key: Some(key), ..self },
            Event::GlobalConfig(config) => Made { config: Some(config), ..self },
            Event::Connection(connection) => Made { connection: Some(connection), ..self },
            Event::PayloadQueue(queue) => Made { queue: Some(queue), ..self },
            Event::Store { store, store_runner } => Made {
                store: Some(store),
                store_runner: Some(store_runner),
                ..self
            },
            Event::BlockStore { block_store, block_store_runner } => Made {
                block_store: Some(block_store),
                block_store_runner: Some(block_store_runner),
                ..self
            },
            Event::AttestationController(controller) => Made {
                controller: Some(controller),
                ..self
            },
            Event::ExecutorConfig(config) => Made { executor_config: Some(config), ..self },
            Event::ValidatorKey(key) => Made { validator_key: Some(key), ..self },
            Event::Done | Event::Failed(_) => if step is DropConnection {
                Made { connection: None, ..self }
            } else {
                self
            },
        }
    }
}

/// The state of a consensus node.
pub struct RunState<P: Parts> {
    pub inputs: Inputs<P>,
    pub made: Made<P>,
    pub pending: Pending<RunStep, P::Error>,
}

/// Step `a` comes after step `b`.
pub open spec fn comes_after(a: RunStep, b: RunStep) -> bool {
    run_order().index_of(a) > run_order().index_of(b)
}

impl<P: Parts> RunState<P> {
    pub open spec fn initial(inputs: Inputs<P>) -> RunState<P> {
        RunState { inputs, made: Made::nothing(), pending: Pending::initial(run_order()) }
    }

    /// What the event means now.
    pub open spec fn signal(self, event: Event<P>) -> Signal<P::Error> {
        match self.pending {
            Pending::Do(step) => signal_of(event, run_answers(step, event)),
            Pending::Finished(_) => Signal::Irrelevant,
        }
    }

    pub open spec fn step(self, event: Event<P>) -> RunState<P> {
        RunState {
            inputs: self.inputs,
            made: match self.pending {
                Pending::Do(step) => if run_answers(step, event) {
                    self.made.after(step, event)
                } else {
                    self.made
                },
                Pending::Finished(_) => self.made,
            },
            pending: self.pending.step(run_order(), run_rule(), self.signal(event)),
        }
    }

    /// The state after a series of events.
    pub open spec fn run(self, events: Seq<Event<P>>) -> RunState<P>
        decreases events.len(),
    {
        if events.len() == 0 {
            self
        } else {
            self.run(events.drop_last()).step(events.last())
        }
    }

    /// What a series of events means.
    pub open spec fn signals(self, events: Seq<Event<P>>) -> Seq<Signal<P::Error>>
        decreases events.len(),
    {
        if events.len() == 0 {
            Seq::empty()
        } else {
            self.signals(events.drop_last()).push(
                self.run(events.drop_last()).signal(events.last()),
            )
        }
    }

    /// The steps that a series of events completes, in that order.
    pub open spec fn completed(self, events: Seq<Event<P>>) -> Seq<RunStep> {
        self.pending.completed(run_order(), run_rule(), self.signals(events))
    }

    /// What the step at hand needs was made before.
    pub open spec fn equipped(self) -> bool {
        match self.pending {
            Pending::Finished(_) => true,
            Pending::Do(step) => {
                &&& comes_after(step, RunStep::AttesterKey) ==> self.made.attester_key is Some
                &&& comes_after(step, RunStep::FetchGlobalConfig) ==> self.made.config is Some
                &&& comes_after(step, RunStep::Connection) && !comes_after(
                    step,
                    RunStep::DropConnection,
                ) ==> self.made.connection is Some
                &&& comes_after(step, RunStep::DropConnection) ==> self.made.connection is None
                &&& comes_after(step, RunStep::NewPayloadQueue) ==> self.made.queue is Some
                &&& comes_after(step, RunStep::StoreNew) ==> self.made.store is Some
                    && self.made.store_runner is Some
                &&& comes_after(step, RunStep::BlockStoreNew) ==> self.made.block_store is Some
                    && self.made.block_store_runner is Some
                &&& comes_after(step, RunStep::NewAttestationController)
                    ==> self.made.controller is Some
                &&& comes_after(step, RunStep::ExecutorConfig)
                    ==> self.made.executor_config is Some
                &&& comes_after(step, RunStep::ValidatorKey) ==> self.made.validator_key is Some
            },
        }
    }

    /// The step at hand, with the values that it gets.
    pub open spec fn spec_action(&self) -> Option<Action<P>> {
        match self.pending {
            Pending::Finished(_) => None,
            Pending::Do(step) => Some(self.action_of(step)),
        }
    }

    pub open spec fn action_of(&self, step: RunStep) -> Action<P> {
        match step {
            RunStep::AttesterKey => Action::AttesterKey { secrets: &self.inputs.secrets },
            RunStep::SpawnFetchStateLoop => Action::SpawnFetchStateLoop,
            RunStep::FetchGlobalConfig => Action::FetchGlobalConfig,
            RunStep::Connection => Action::Connection,
            RunStep::TryUpdateGlobalConfig => Action::TryUpdateGlobalConfig {
                connection: &self.made.connection->0,
                config: &self.made.config->0,
            },
            RunStep::NewPayloadQueue => Action::NewPayloadQueue {
                connection: &self.made.connection->0,
                actions: &self.inputs.actions,
            },
            RunStep::DropConnection => Action::DropConnection {
                connection: &self.made.connection->0,
            },
            RunStep::SpawnConfigMonitor => Action::SpawnConfigMonitor {
                initial: &self.made.config->0,
            },
            RunStep::StoreNew => Action::StoreNew { queue: &self.made.queue->0 },
            RunStep::SpawnStoreRunner => Action::SpawnStoreRunner {
                store_runner: &self.made.store_runner->0,
            },
            RunStep::SpawnFallbackFetcher => Action::SpawnFallbackFetcher {
                store: &self.made.store->0,
            },
            RunStep::BlockStoreNew => Action::BlockStoreNew { store: &self.made.store->0 },
            RunStep::SpawnBlockStoreRunner => Action::SpawnBlockStoreRunner {
                block_store_runner: &self.made.block_store_runner->0,
            },
            RunStep::NewAttestationController => Action::NewAttestationController {
                attester_key: &self.made.attester_key->0,
            },
            RunStep::SpawnAttestationController => Action::SpawnAttestationController {
                config: &self.made.config->0,
                controller: &self.made.controller->0,
            },
            RunStep::ExecutorConfig => Action::ExecutorConfig {
                cfg: &self.inputs.cfg,
                secrets: &self.inputs.secrets,
                config: &self.made.config->0,
                build_version: &self.inputs.build_version,
            },
            RunStep::ValidatorKey => Action::ValidatorKey { secrets: &self.inputs.secrets },
            RunStep::RunExecutor => Action::RunExecutor {
                executor_config: &self.made.executor_config->0,
                block_store: &self.made.block_store->0,
                validator: match self.made.validator_key->0 {
                    Some(key) => Some(Validator { key: &key, store: &self.made.store->0 }),
                    None => None,
                },
                attestation: &self.made.controller->0,
            },
        }
    }
}

/// A node that takes part in the consensus, from start to end.
pub struct Run<P: Parts> {
    state: RunState<P>,
}

impl<P: Parts> View for Run<P> {
    type V = RunState<P>;

    closed spec fn view(&self) -> RunState<P> {
        self.state
    }
}

impl<P: Parts> Run<P> {
    #[verifier::type_invariant]
    spec fn always_equipped(self) -> bool {
        self.state.equipped()
    }

    /// The step at hand and what it gets, unless the node has ended.
    pub fn action(&self) -> (action: Option<Action<P>>)
        ensures
            action == self@.spec_action(),
    {
        proof {
            use_type_invariant(self);
            lemma_run_positions();
        }
        let inputs = &self.state.inputs;
        let made = &self.state.made;
        let step = match &self.state.pending {
            Pending::Do(step) => *step,
            Pending::Finished(_) => {
                return None;
            },
        };
        Some(
            match step {
                RunStep::AttesterKey => Action::AttesterKey { secrets: &inputs.secrets },
                RunStep::SpawnFetchStateLoop => Action::SpawnFetchStateLoop,
                RunStep::FetchGlobalConfig => Action::FetchGlobalConfig,
                RunStep::Connection => Action::Connection,
                RunStep::TryUpdateGlobalConfig => Action::TryUpdateGlobalConfig {
                    connection: made.connection.as_ref().unwrap(),
                    config: made.config.as_ref().unwrap(),
                },
                RunStep::NewPayloadQueue => Action::NewPayloadQueue {
                    connection: made.connection.as_ref().unwrap(),
                    actions: &inputs.actions,
                },
                RunStep::DropConnection => Action::DropConnection {
                    connection: made.connection.as_ref().unwrap(),
                },
                RunStep::SpawnConfigMonitor => Action::SpawnConfigMonitor {
                    initial: made.config.as_ref().unwrap(),
                },
                RunStep::StoreNew => Action::StoreNew { queue: made.queue.as_ref().unwrap() },
                RunStep::SpawnStoreRunner => Action::SpawnStoreRunner {
                    store_runner: made.store_runner.as_ref().unwrap(),
                },
                RunStep::SpawnFallbackFetcher => Action::SpawnFallbackFetcher {
                    store: made.store.as_ref().unwrap(),
                },
                RunStep::BlockStoreNew => Action::BlockStoreNew {
                    store: made.store.as_ref().unwrap(),
                },
                RunStep::SpawnBlockStoreRunner => Action::SpawnBlockStoreRunner {
                    block_store_runner: made.block_store_runner.as_ref().unwrap(),
                },
                RunStep::NewAttestationController => Action::NewAttestationController {
                    attester_key: made.attester_key.as_ref().unwrap(),
                },
                RunStep::SpawnAttestationController => Action::SpawnAttestationController {
                    config: made.config.as_ref().unwrap(),
                    controller: made.controller.as_ref().unwrap(),
                },
                RunStep::ExecutorConfig => Action::ExecutorConfig {
                    cfg: &inputs.cfg,
                    secrets: &inputs.secrets,
                    config: made.config.as_ref().unwrap(),
                    build_version: &inputs.build_version,
                },
                RunStep::ValidatorKey => Action::ValidatorKey { secrets: &inputs.secrets },
                RunStep::RunExecutor => Action::RunExecutor {
                    executor_config: made.executor_config.as_ref().unwrap(),
                    block_store: made.block_store.as_ref().unwrap(),
                    validator: match made.validator_key.as_ref().unwrap() {
                        Some(key) => Some(
                            Validator { key, store: made.store.as_ref().unwrap() },
                        ),
                        None => None,
                    },
                    attestation: made.controller.as_ref().unwrap(),
                },
            },
        )
    }

    /// What is to be done now.
    pub fn pending(&self) -> (pending: &Pending<RunStep, P::Error>)
        ensures
            *pending == self@.pending,
    {
        &self.state.pending
    }

    /// How the node ended, if it did.
    pub fn into_outcome(self) -> (outcome: Option<Result<(), TaskError<P::Error>>>)
        ensures
            outcome == match self@.pending {
                Pending::Finished(result) => Some(result),
                Pending::Do(_) => None::<Result<(), TaskError<P::Error>>>,
            },
    {
        match self.state.pending {
            Pending::Finished(result) => Some(result),
            Pending::Do(_) => None,
        }
    }

    fn after(step: RunStep) -> (pending: Pending<RunStep, P::Error>)
        ensures
            pending == Pending::<RunStep, P::Error>::Do(step).step(
                run_order(),
                run_rule(),
                Signal::Done,
            ),
    {
        proof {
            lemma_run_positions();
        }
        match step {
            RunStep::AttesterKey => Pending::Do(RunStep::SpawnFetchStateLoop),
            RunStep::SpawnFetchStateLoop => Pending::Do(RunStep::FetchGlobalConfig),
            RunStep::FetchGlobalConfig => Pending::Do(RunStep::Connection),
            RunStep::Connection => Pending::Do(RunStep::TryUpdateGlobalConfig),
            RunStep::TryUpdateGlobalConfig => Pending::Do(RunStep::NewPayloadQueue),
            RunStep::NewPayloadQueue => Pending::Do(RunStep::DropConnection),
            RunStep::DropConnection => Pending::Do(RunStep::SpawnConfigMonitor),
            RunStep::SpawnConfigMonitor => Pending::Do(RunStep::StoreNew),
            RunStep::StoreNew => Pending::Do(RunStep::SpawnStoreRunner),
            RunStep::SpawnStoreRunner => Pending::Do(RunStep::SpawnFallbackFetcher),
            RunStep::SpawnFallbackFetcher => Pending::Do(RunStep::BlockStoreNew),
            RunStep::BlockStoreNew => Pending::Do(RunStep::SpawnBlockStoreRunner),
            RunStep::SpawnBlockStoreRunner => Pending::Do(RunStep::NewAttestationController),
            RunStep::NewAttestationController => Pending::Do(RunStep::SpawnAttestationController),
            RunStep::SpawnAttestationController => Pending::Do(RunStep::ExecutorConfig),
            RunStep::ExecutorConfig => Pending::Do(RunStep::ValidatorKey),
            RunStep::ValidatorKey => Pending::Do(RunStep::RunExecutor),
            RunStep::RunExecutor => Pending::Finished(Ok(())),
        }
    }

    fn failed(step: RunStep, error: TaskError<P::Error>) -> (pending: Pending<RunStep, P::Error>)
        ensures
            pending == Pending::<RunStep, P::Error>::Do(step).step(
                run_order(),
                run_rule(),
                Signal::Failed(error),
            ),
    {
        match step {
            RunStep::AttesterKey => Pending::Finished(Err(error.wrap(Context::AttesterKey))),
            RunStep::FetchGlobalConfig => {
                Pending::Finished(Err(error.wrap(Context::FetchGlobalConfig)))
            },
            RunStep::Connection => Pending::Finished(Err(error.wrap(Context::Connection))),
            RunStep::TryUpdateGlobalConfig => {
                Pending::Finished(Err(error.wrap(Context::TryUpdateGlobalConfig)))
            },
            RunStep::NewPayloadQueue => {
                Pending::Finished(Err(error.wrap(Context::NewPayloadQueue)))
            },
            RunStep::StoreNew => Pending::Finished(Err(error.wrap(Context::StoreNew))),
            RunStep::BlockStoreNew => Pending::Finished(Err(error.wrap(Context::BlockStoreNew))),
            RunStep::ValidatorKey => Pending::Finished(Err(error.wrap(Context::ValidatorKey))),
            RunStep::ExecutorConfig => Pending::Finished(Err(error)),
            RunStep::RunExecutor => Pending::Finished(Err(error)),
            _ => Pending::Do(step),
        }
    }

    /// Takes the event in.
    pub fn step(self, event: Event<P>) -> (next: Run<P>)
        ensures
            next@ == self@.step(event),
    {
        proof {
            use_type_invariant(&self);
            lemma_run_positions();
            lemma_step_keeps_equipped(self.state, event);
        }
        let RunState { inputs, mut made, pending } = self.state;
        let pending: Pending<RunStep, P::Error> = match pending {
            Pending::Finished(result) => Pending::Finished(result),
            Pending::Do(step) => match (step, event) {
                (_, Event::Failed(error)) => Run::<P>::failed(step, error),
                (RunStep::AttesterKey, Event::AttesterKey(key)) => {
                    made.attester_key = Some(key);
                    Run::<P>::after(step)
                },
                (RunStep::FetchGlobalConfig, Event::GlobalConfig(config)) => {
                    made.config = Some(config);
                    Run::<P>::after(step)
                },
                (RunStep::Connection, Event::Connection(connection)) => {
                    made.connection = Some(connection);
                    Run::<P>::after(step)
                },
                (RunStep::NewPayloadQueue, Event::PayloadQueue(queue)) => {
                    made.queue = Some(queue);
                    Run::<P>::after(step)
                },
                (RunStep::DropConnection, Event::Done) => {
                    made.connection = None;
                    Run::<P>::after(step)
                },
                (RunStep::StoreNew, Event::Store { store, store_runner }) => {
                    made.store = Some(store);
                    made.store_runner = Some(store_runner);
                    Run::<P>::after(step)
                },
                (RunStep::BlockStoreNew, Event::BlockStore { block_store, block_store_runner }) => {
                    made.block_store = Some(block_store);
                    made.block_store_runner = Some(block_store_runner);
                    Run::<P>::after(step)
                },
                (
                    RunStep::NewAttestationController,
                    Event::AttestationController(controller),
                ) => {
                    made.controller = Some(controller);
                    Run::<P>::after(step)
                },
                (RunStep::ExecutorConfig, Event::ExecutorConfig(config)) => {
                    made.executor_config = Some(config);
                    Run::<P>::after(step)
                },
                (RunStep::ValidatorKey, Event::ValidatorKey(key)) => {
                    made.validator_key = Some(key);
                    Run::<P>::after(step)
                },
                (
                    RunStep::SpawnFetchStateLoop
                    | RunStep::TryUpdateGlobalConfig
                    | RunStep::SpawnConfigMonitor
                    | RunStep::SpawnStoreRunner
                    | RunStep::SpawnFallbackFetcher
                    | RunStep::SpawnBlockStoreRunner
                    | RunStep::SpawnAttestationController
                    | RunStep::RunExecutor,
                    Event::Done,
                ) => Run::<P>::after(step),
                _ => Pending::Do(step),
            },
        };
        Run { state: RunState { inputs, made, pending } }
    }
}

proof fn lemma_step_keeps_equipped<P: Parts>(state: RunState<P>, event: Event<P>)
    requires
        state.equipped(),
    ensures
        state.step(event).equipped(),
{
    lemma_run_positions();
    if let Pending::Do(step) = state.pending {
        if run_answers(step, event) {
            let after = run_order().index_of(step) + 1;
            if after < run_order().len() {
                lemma_positions(run_order());
                assert(run_order().index_of(run_order()[after]) == after);
            }
        }
    }
}

/// The state of a fetching node.
pub struct FetcherState<P: Parts> {
    pub actions: P::Actions,
    /// Held only until the queue is open.
    pub connection: Option<P::Connection>,
    pub queue: Option<P::PayloadQueue>,
    pub pending: Pending<FetcherStep, P::Error>,
}

impl<P: Parts> FetcherState<P> {
    pub open spec fn initial(actions: P::Actions) -> FetcherState<P> {
        FetcherState {
            actions,
            connection: None,
            queue: None,
            pending: Pending::initial(fetcher_order()),
        }
    }

    /// What the event means now.
    pub open spec fn signal(self, event: Event<P>) -> Signal<P::Error> {
        match self.pending {
            Pending::Do(step) => signal_of(event, fetcher_answers(step, event)),
            Pending::Finished(_) => Signal::Irrelevant,
        }
    }

    pub open spec fn step(self, event: Event<P>) -> FetcherState<P> {
        let pending = self.pending.step(fetcher_order(), fetcher_rule(), self.signal(event));
        match (self.pending, event) {
            (Pending::Do(FetcherStep::Connection), Event::Connection(connection)) => FetcherState {
                connection: Some(connection),
                pending,
                ..self
            },
            (Pending::Do(FetcherStep::NewPayloadQueue), Event::PayloadQueue(queue)) => FetcherState {
                connection: None,
                queue: Some(queue),
                pending,
                ..self
            },
            _ => FetcherState { pending, ..self },
        }
    }

    /// The state after a series of events.
    pub open spec fn run(self, events: Seq<Event<P>>) -> FetcherState<P>
        decreases events.len(),
    {
        if events.len() == 0 {
            self
        } else {
            self.run(events.drop_last()).step(events.last())
        }
    }

    /// What a series of events means.
    pub open spec fn signals(self, events: Seq<Event<P>>) -> Seq<Signal<P::Error>>
        decreases events.len(),
    {
        if events.len() == 0 {
            Seq::empty()
        } else {
            self.signals(events.drop_last()).push(
                self.run(events.drop_last()).signal(events.last()),
            )
        }
    }

    /// The steps that a series of events completes, in that order.
    pub open spec fn completed(self, events: Seq<Event<P>>) -> Seq<FetcherStep> {
        self.pending.completed(fetcher_order(), fetcher_rule(), self.signals(events))
    }

    /// What the step at hand needs was made before.
    pub open spec fn equipped(self) -> bool {
        &&& self.pending == Pending::<FetcherStep, P::Error>::Do(FetcherStep::NewPayloadQueue)
            ==> self.connection is Some
        &&& self.pending == Pending::<FetcherStep, P::Error>::Do(FetcherStep::FetchBlocks)
            ==> self.queue is Some && self.connection is None
    }

    /// The step at hand, with the values that it gets.
    pub open spec fn spec_action(&self) -> Option<FetcherAction<P>> {
        match self.pending {
            Pending::Finished(_) => None,
            Pending::Do(FetcherStep::SpawnFetchStateLoop) => Some(
                FetcherAction::SpawnFetchStateLoop,
            ),
            Pending::Do(FetcherStep::Connection) => Some(FetcherAction::Connection),
            Pending::Do(FetcherStep::NewPayloadQueue) => Some(
                FetcherAction::NewPayloadQueue {
                    connection: &self.connection->0,
                    actions: &self.actions,
                },
            ),
            Pending::Do(FetcherStep::FetchBlocks) => Some(
                FetcherAction::FetchBlocks { queue: &self.queue->0 },
            ),
        }
    }
}

/// A node that only fetches blocks, from start to end.
pub struct FetcherRun<P: Parts> {
    state: FetcherState<P>,
}

impl<P: Parts> View for FetcherRun<P> {
    type V = FetcherState<P>;

    closed spec fn view(&self) -> FetcherState<P> {
        self.state
    }
}

impl<P: Parts> FetcherRun<P> {
    #[verifier::type_invariant]
    spec fn always_equipped(self) -> bool {
        self.state.equipped()
    }

    /// The step at hand and what it gets, unless the node has ended.
    pub fn action(&self) -> (action: Option<FetcherAction<P>>)
        ensures
            action == self@.spec_action(),
    {
        proof {
            use_type_invariant(self);
        }
        match &self.state.pending {
            Pending::Finished(_) => None,
            Pending::Do(FetcherStep::SpawnFetchStateLoop) => Some(
                FetcherAction::SpawnFetchStateLoop,
            ),
            Pending::Do(FetcherStep::Connection) => Some(FetcherAction::Connection),
            Pending::Do(FetcherStep::NewPayloadQueue) => Some(
                FetcherAction::NewPayloadQueue {
                    connection: self.state.connection.as_ref().unwrap(),
                    actions: &self.state.actions,
                },
            ),
            Pending::Do(FetcherStep::FetchBlocks) => Some(
                FetcherAction::FetchBlocks { queue: self.state.queue.as_ref().unwrap() },
            ),
        }
    }

    /// What is to be done now.
    pub fn pending(&self) -> (pending: &Pending<FetcherStep, P::Error>)
        ensures
            *pending == self@.pending,
    {
        &self.state.pending
    }

    /// How the node ended, if it did.
    pub fn into_outcome(self) -> (outcome: Option<Result<(), TaskError<P::Error>>>)
        ensures
            outcome == match self@.pending {
                Pending::Finished(result) => Some(result),
                Pending::Do(_) => None::<Result<(), TaskError<P::Error>>>,
            },
    {
        match self.state.pending {
            Pending::Finished(result) => Some(result),
            Pending::Do(_) => None,
        }
    }

    /// Takes the event in.
    pub fn step(self, event: Event<P>) -> (next: FetcherRun<P>)
        ensures
            next@ == self@.step(event),
    {
        proof {
            use_type_invariant(&self);
            lemma_fetcher_positions();
        }
        let FetcherState { actions, mut connection, mut queue, pending } = self.state;
        let pending: Pending<FetcherStep, P::Error> = match (pending, event) {
            (Pending::Do(FetcherStep::SpawnFetchStateLoop), Event::Done) => {
                Pending::Do(FetcherStep::Connection)
            },
            (Pending::Do(FetcherStep::Connection), Event::Connection(c)) => {
                connection = Some(c);
                Pending::Do(FetcherStep::NewPayloadQueue)
            },
            (Pending::Do(FetcherStep::NewPayloadQueue), Event::PayloadQueue(q)) => {
                connection = None;
                queue = Some(q);
                Pending::Do(FetcherStep::FetchBlocks)
            },
            (Pending::Do(FetcherStep::FetchBlocks), Event::Done) => Pending::Finished(Ok(())),
            (Pending::Do(FetcherStep::Connection), Event::Failed(error)) => {
                Pending::Finished(Err(error.wrap(Context::Connection)))
            },
            (Pending::Do(FetcherStep::NewPayloadQueue), Event::Failed(error)) => {
                Pending::Finished(Err(error.wrap(Context::NewFetcherCursor)))
            },
            (Pending::Do(FetcherStep::FetchBlocks), Event::Failed(error)) => {
                Pending::Finished(Err(error))
            },
            (pending, _) => pending,
        };
        FetcherRun { state: FetcherState { actions, connection, queue, pending } }
    }
}

/// External node.
pub struct EN;

impl EN {
    /// Starts a node that takes part in the consensus.
    pub fn run<P: Parts>(
        actions: P::Actions,
        cfg: P::ConsensusConfig,
        secrets: P::ConsensusSecrets,
        build_version: Option<P::Version>,
    ) -> (run: Run<P>)
        ensures
            run@ == RunState::<P>::initial((Inputs { actions, cfg, secrets, build_version })),
    {
        proof {
            lemma_run_positions();
        }
        Run {
            state: RunState {
                inputs: Inputs { actions, cfg, secrets, build_version },
                made: Made {
                    attester_key: None,
                    config: None,
                    connection: None,
                    queue: None,
                    store: None,
                    store_runner: None,
                    block_store: None,
                    block_store_runner: None,
                    controller: None,
                    executor_config: None,
                    validator_key: None,
                },
                pending: Pending::Do(RunStep::AttesterKey),
            },
        }
    }

    /// Starts a node that only fetches blocks, using the API of the main node.
    pub fn run_fetcher<P: Parts>(actions: P::Actions) -> (run: FetcherRun<P>)
        ensures
            run@ == FetcherState::<P>::initial(actions),
    {
        FetcherRun {
            state: FetcherState {
                actions,
                connection: None,
                queue: None,
                pending: Pending::Do(FetcherStep::SpawnFetchStateLoop),
            },
        }
    }
}

/// A task that runs beside the steps of the node.
#[derive(Clone, Copy, Debug, PartialEq, Eq)]
pub enum BackgroundTask {
    FetchStateLoop,
    ConfigMonitor,
    StoreRunner,
    FallbackFetcher,
    BlockStoreRunner,
    AttestationController,
}

pub open spec fn spec_settle<E>(task: BackgroundTask, result: Result<(), TaskError<E>>) -> Result<
    (),
    TaskError<E>,
> {
    match result {
        Ok(()) => Ok(()),
        Err(error) => match task {
            // Attestation is not critical for the node to function.
            BackgroundTask::AttestationController => Ok(()),
            BackgroundTask::FetchStateLoop | BackgroundTask::ConfigMonitor => Err(error),
            BackgroundTask::StoreRunner => Err(error.spec_wrap(Context::StoreRunner)),
            BackgroundTask::FallbackFetcher => Err(
                error.spec_wrap(Context::FallbackBlockFetcher),
            ),
            BackgroundTask::BlockStoreRunner => Err(error.spec_wrap(Context::BlockStoreRun)),
        },
    }
}

/// What the end of a background task means for the node: an error here is an
/// error of the node.
pub fn settle<E>(task: BackgroundTask, result: Result<(), TaskError<E>>) -> (settled: Result<
    (),
    TaskError<E>,
>)
    ensures
        settled == spec_settle(task, result),
{
    match result {
        Ok(()) => Ok(()),
        Err(error) => match task {
            BackgroundTask::FetchStateLoop => Err(error),
            BackgroundTask::ConfigMonitor => Err(error),
            BackgroundTask::StoreRunner => Err(error.wrap(Context::StoreRunner)),
            BackgroundTask::FallbackFetcher => Err(error.wrap(Context::FallbackBlockFetcher)),
            BackgroundTask::BlockStoreRunner => Err(error.wrap(Context::BlockStoreRun)),
            BackgroundTask::AttestationController => Ok(()),
        },
    }
}

pub open spec fn spec_conclude<E>(result: Result<(), TaskError<E>>) -> Result<(), Report<E>> {
    match result {
        Ok(()) | Err(TaskError::Canceled) => Ok(()),
        Err(TaskError::Internal(report)) => Err(report),
    }
}

/// What the node reports in the end. That it was asked to stop is no error.
pub fn conclude<E>(result: Result<(), TaskError<E>>) -> (concluded: Result<(), Report<E>>)
    ensures
        concluded == spec_conclude(result),
{
    match result {
        Ok(()) => Ok(()),
        Err(TaskError::Canceled) => Ok(()),
        Err(TaskError::Internal(report)) => Err(report),
    }
}

/// The steps are done one by one in the given order, none left out, up to the
/// one at hand. The node succeeds only once it has done them all.
pub proof fn lemma_steps_are_done_in_order<S, E>(
    order: Seq<S>,
    rule: spec_fn(S) -> FailureRule,
    signals: Seq<Signal<E>>,
)
    requires
        order.len() > 0,
        order.no_duplicates(),
    ensures
        ({
            let start = Pending::<S, E>::initial(order);
            let completed = start.completed(order, rule, signals);
            &&& completed.len() <= order.len()
            &&& completed == order.take(completed.len() as int)
            &&& match start.run(order, rule, signals) {
                Pending::Do(step) => completed.len() < order.len() && step == order[completed.len()
                    as int],
                Pending::Finished(Ok(())) => completed == order,
                Pending::Finished(Err(_)) => completed.len() < order.len(),
            }
        }),
    decreases signals.len(),
{
    let start = Pending::<S, E>::initial(order);
    if signals.len() > 0 {
        let rest = signals.drop_last();
        lemma_steps_are_done_in_order(order, rule, rest);
        lemma_positions(order);
        let done = start.completed(order, rule, rest);
        if let (Pending::Do(step), Signal::Done) = (start.run(order, rule, rest), signals.last()) {
            let n = done.len() as int;
            assert(order.index_of(order[n]) == n);
            assert(order.take(n + 1) == order.take(n).push(step));
            if n + 1 == order.len() {
                assert(order.take(n + 1) == order);
            }
        }
    } else {
        assert(order.take(0) == Seq::<S>::empty());
    }
}

proof fn lemma_run_follows_signals<P: Parts>(state: RunState<P>, events: Seq<Event<P>>)
    ensures
        state.run(events).pending == state.pending.run(
            run_order(),
            run_rule(),
            state.signals(events),
        ),
        state.signals(events).len() == events.len(),
    decreases events.len(),
{
    if events.len() > 0 {
        let rest = events.drop_last();
        lemma_run_follows_signals(state, rest);
        assert(state.signals(events).drop_last() == state.signals(rest));
    }
}

/// A consensus node does its steps in the order of `run_order`, each at most
/// once. In particular, it goes on to the queue, the store and the executor only
/// once the global configuration was stored, and it runs the executor only once
/// everything else is in place.
pub proof fn lemma_consensus_node_follows_its_order<P: Parts>(
    inputs: Inputs<P>,
    events: Seq<Event<P>>,
)
    ensures
        ({
            let start = RunState::<P>::initial(inputs);
            let completed = start.completed(events);
            &&& completed == run_order().take(completed.len() as int)
            &&& completed.len() <= run_order().len()
            &&& match start.run(events).pending {
                Pending::Do(step) => {
                    &&& completed.len() < run_order().len()
                    &&& step == run_order()[completed.len() as int]
                    &&& comes_after(step, RunStep::TryUpdateGlobalConfig) ==> completed.contains(
                        RunStep::TryUpdateGlobalConfig,
                    )
                    &&& step is RunExecutor ==> completed == run_order().drop_last()
                },
                Pending::Finished(Ok(())) => completed == run_order(),
                Pending::Finished(Err(_)) => completed.len() < run_order().len(),
            }
        }),
{
    let start = RunState::<P>::initial(inputs);
    let completed = start.completed(events);
    lemma_run_positions();
    lemma_positions(run_order());
    lemma_run_follows_signals(start, events);
    lemma_steps_are_done_in_order::<RunStep, P::Error>(
        run_order(),
        run_rule(),
        start.signals(events),
    );
    if let Pending::Do(step) = start.run(events).pending {
        assert(run_order().index_of(run_order()[completed.len() as int]) == completed.len());
        if comes_after(step, RunStep::TryUpdateGlobalConfig) {
            assert(completed[4] == RunStep::TryUpdateGlobalConfig);
        }
        if step is RunExecutor {
            assert(run_order().take(17) == run_order().drop_last());
        }
    }
}

/// The event number `i` answers the step.
pub open spec fn answers_at<P: Parts>(
    inputs: Inputs<P>,
    events: Seq<Event<P>>,
    i: int,
    step: RunStep,
) -> bool {
    &&& 0 <= i < events.len()
    &&& RunState::<P>::initial(inputs).run(events.take(i)).pending == Pending::<
        RunStep,
        P::Error,
    >::Do(step)
    &&& run_answers(step, events[i])
}

/// The step was answered with this event.
pub open spec fn answered<P: Parts>(
    inputs: Inputs<P>,
    events: Seq<Event<P>>,
    step: RunStep,
    event: Event<P>,
) -> bool {
    exists|i: int| #[trigger] answers_at(inputs, events, i, step) && events[i] == event
}

proof fn lemma_completed_grows<P: Parts>(
    inputs: Inputs<P>,
    events: Seq<Event<P>>,
    i: int,
    j: int,
)
    requires
        0 <= i <= j <= events.len(),
    ensures
        ({
            let start = RunState::<P>::initial(inputs);
            start.completed(events.take(i)).len() <= start.completed(events.take(j)).len()
        }),
    decreases j - i,
{
    if i < j {
        let start = RunState::<P>::initial(inputs);
        lemma_completed_grows(inputs, events, i, j - 1);
        assert(events.take(j).drop_last() == events.take(j - 1));
        assert(start.signals(events.take(j)).drop_last() == start.signals(events.take(j - 1)));
    }
}

/// Each step is answered at most once. So the value that it is answered with is
/// the only one of its kind that the node ever holds.
pub proof fn lemma_each_step_is_answered_once<P: Parts>(
    inputs: Inputs<P>,
    events: Seq<Event<P>>,
    i: int,
    j: int,
    step: RunStep,
)
    requires
        answers_at(inputs, events, i, step),
        answers_at(inputs, events, j, step),
    ensures
        i == j,
{
    if i < j {
        lemma_answered_step_is_behind(inputs, events, i, j, step);
    } else if j < i {
        lemma_answered_step_is_behind(inputs, events, j, i, step);
    }
}

proof fn lemma_answered_step_is_behind<P: Parts>(
    inputs: Inputs<P>,
    events: Seq<Event<P>>,
    i: int,
    j: int,
    step: RunStep,
)
    requires
        answers_at(inputs, events, i, step),
        i < j <= events.len(),
    ensures
        RunState::<P>::initial(inputs).run(events.take(j)).pending != Pending::<
            RunStep,
            P::Error,
        >::Do(step),
{
    let start = RunState::<P>::initial(inputs);
    let (before, after) = (events.take(i), events.take(i + 1));
    assert(after.drop_last() == before);
    assert(start.signals(after).drop_last() == start.signals(before));
    lemma_run_follows_signals(start, before);
    assert(start.completed(after).len() == start.completed(before).len() + 1);
    lemma_completed_grows(inputs, events, i + 1, j);
    lemma_consensus_node_follows_its_order(inputs, before);
    lemma_consensus_node_follows_its_order(inputs, events.take(j));
    lemma_run_positions();
}

/// All that a consensus node holds is what it was started with and what its
/// steps were answered with, and the step at hand has all that it needs.
pub proof fn lemma_values_are_kept<P: Parts>(inputs: Inputs<P>, events: Seq<Event<P>>)
    ensures
        ({
            let state = RunState::<P>::initial(inputs).run(events);
            let made = state.made;
            &&& state.inputs == inputs
            &&& state.equipped()
            &&& made.attester_key matches Some(key) ==> answered(
                inputs,
                events,
                RunStep::AttesterKey,
                Event::AttesterKey(key),
            )
            &&& made.config matches Some(config) ==> answered(
                inputs,
                events,
                RunStep::FetchGlobalConfig,
                Event::GlobalConfig(config),
            )
            &&& made.connection matches Some(connection) ==> answered(
                inputs,
                events,
                RunStep::Connection,
                Event::Connection(connection),
            )
            &&& made.queue matches Some(queue) ==> answered(
                inputs,
                events,
                RunStep::NewPayloadQueue,
                Event::PayloadQueue(queue),
            )
            &&& made.store is Some == made.store_runner is Some
            &&& made.store matches Some(store) ==> answered(
                inputs,
                events,
                RunStep::StoreNew,
                Event::Store { store, store_runner: made.store_runner->0 },
            )
            &&& made.block_store is Some == made.block_store_runner is Some
            &&& made.block_store matches Some(block_store) ==> answered(
                inputs,
                events,
                RunStep::BlockStoreNew,
                Event::BlockStore { block_store, block_store_runner: made.block_store_runner->0 },
            )
            &&& made.controller matches Some(controller) ==> answered(
                inputs,
                events,
                RunStep::NewAttestationController,
                Event::AttestationController(controller),
            )
            &&& made.executor_config matches Some(config) ==> answered(
                inputs,
                events,
                RunStep::ExecutorConfig,
                Event::ExecutorConfig(config),
            )
            &&& made.validator_key matches Some(key) ==> answered(
                inputs,
                events,
                RunStep::ValidatorKey,
                Event::ValidatorKey(key),
            )
        }),
    decreases events.len(),
{
    lemma_run_positions();
    if events.len() > 0 {
        let rest = events.drop_last();
        let last = rest.len() as int;
        let before = RunState::<P>::initial(inputs).run(rest);
        lemma_values_are_kept(inputs, rest);
        lemma_step_keeps_equipped(before, events.last());
        assert forall|step: RunStep, event: Event<P>| #[trigger]
            answered(inputs, rest, step, event) implies answered(inputs, events, step, event) by {
            let i = choose|i: int|
                #[trigger] answers_at(inputs, rest, i, step) && rest[i] == event;
            assert(events.take(i) == rest.take(i));
            assert(answers_at(inputs, events, i, step));
        }
        assert(events.take(last) == rest);
        if let Pending::Do(step) = before.pending {
            if run_answers(step, events.last()) {
                assert(answers_at(inputs, events, last, step));
                assert(answered(inputs, events, step, events.last()));
            }
        }
    }
}

/// The store was opened.
pub open spec fn opened_store<P: Parts>(
    inputs: Inputs<P>,
    events: Seq<Event<P>>,
    store: P::Store,
) -> bool {
    exists|store_runner: P::StoreRunner| #[trigger]
        answered(inputs, events, RunStep::StoreNew, Event::Store { store, store_runner })
}

/// The store was opened with this runner.
pub open spec fn opened_with_runner<P: Parts>(
    inputs: Inputs<P>,
    events: Seq<Event<P>>,
    store_runner: P::StoreRunner,
) -> bool {
    exists|store: P::Store| #[trigger]
        answered(inputs, events, RunStep::StoreNew, Event::Store { store, store_runner })
}

/// The block store was opened.
pub open spec fn opened_block_store<P: Parts>(
    inputs: Inputs<P>,
    events: Seq<Event<P>>,
    block_store: P::BlockStore,
) -> bool {
    exists|block_store_runner: P::BlockStoreRunner| #[trigger]
        answered(
            inputs,
            events,
            RunStep::BlockStoreNew,
            Event::BlockStore { block_store, block_store_runner },
        )
}

/// The block store was opened with this runner.
pub open spec fn opened_with_block_runner<P: Parts>(
    inputs: Inputs<P>,
    events: Seq<Event<P>>,
    block_store_runner: P::BlockStoreRunner,
) -> bool {
    exists|block_store: P::BlockStore| #[trigger]
        answered(
            inputs,
            events,
            RunStep::BlockStoreNew,
            Event::BlockStore { block_store, block_store_runner },
        )
}

proof fn lemma_stores_are_those_opened<P: Parts>(inputs: Inputs<P>, events: Seq<Event<P>>)
    ensures
        ({
            let made = RunState::<P>::initial(inputs).run(events).made;
            &&& made.store matches Some(store) ==> opened_store(inputs, events, store)
            &&& made.store_runner matches Some(runner) ==> opened_with_runner(
                inputs,
                events,
                runner,
            )
            &&& made.block_store matches Some(store) ==> opened_block_store(inputs, events, store)
            &&& made.block_store_runner matches Some(runner) ==> opened_with_block_runner(
                inputs,
                events,
                runner,
            )
        }),
{
    lemma_values_are_kept(inputs, events);
    let made = RunState::<P>::initial(inputs).run(events).made;
    if let (Some(store), Some(store_runner)) = (made.store, made.store_runner) {
        assert(answered(inputs, events, RunStep::StoreNew, Event::Store { store, store_runner }));
    }
    if let (Some(block_store), Some(block_store_runner)) = (
        made.block_store,
        made.block_store_runner,
    ) {
        assert(answered(
            inputs,
            events,
            RunStep::BlockStoreNew,
            Event::BlockStore { block_store, block_store_runner },
        ));
    }
}

/// One and the same global configuration, the one that was fetched, is stored,
/// watched, attested and handed to the executor's configuration. What collects
/// the votes is made with the attester's key as it was read, and is the same
/// for the attestation task and the executor.
pub proof fn lemma_steps_get_what_was_made<P: Parts>(inputs: Inputs<P>, events: Seq<Event<P>>)
    ensures
        ({
            let fetched = |config: P::GlobalConfig|
                answered(
                    inputs,
                    events,
                    RunStep::FetchGlobalConfig,
                    Event::GlobalConfig(config),
                );
            let connected = |connection: P::Connection|
                answered(inputs, events, RunStep::Connection, Event::Connection(connection));
            match RunState::<P>::initial(inputs).run(events).spec_action() {
                Some(Action::AttesterKey { secrets }) => *secrets == inputs.secrets,
                Some(Action::TryUpdateGlobalConfig { connection, config }) => {
                    &&& connected(*connection)
                    &&& fetched(*config)
                },
                Some(Action::NewPayloadQueue { connection, actions }) => {
                    &&& connected(*connection)
                    &&& *actions == inputs.actions
                },
                Some(Action::DropConnection { connection }) => connected(*connection),
                Some(Action::SpawnConfigMonitor { initial }) => fetched(*initial),
                Some(Action::StoreNew { queue }) => answered(
                    inputs,
                    events,
                    RunStep::NewPayloadQueue,
                    Event::PayloadQueue(*queue),
                ),
                Some(Action::SpawnStoreRunner { store_runner }) => opened_with_runner(inputs, events, *store_runner),
                Some(Action::SpawnFallbackFetcher { store }) => opened_store(inputs, events, *store),
                Some(Action::BlockStoreNew { store }) => opened_store(inputs, events, *store),
                Some(Action::SpawnBlockStoreRunner { block_store_runner }) => opened_with_block_runner(inputs, events, *block_store_runner),
                Some(Action::NewAttestationController { attester_key }) => answered(
                    inputs,
                    events,
                    RunStep::AttesterKey,
                    Event::AttesterKey(*attester_key),
                ),
                Some(Action::SpawnAttestationController { config, controller }) => {
                    &&& fetched(*config)
                    &&& answered(
                        inputs,
                        events,
                        RunStep::NewAttestationController,
                        Event::AttestationController(*controller),
                    )
                },
                Some(Action::ExecutorConfig { cfg, secrets, config, build_version }) => {
                    &&& *cfg == inputs.cfg
                    &&& *secrets == inputs.secrets
                    &&& fetched(*config)
                    &&& *build_version == inputs.build_version
                },
                Some(Action::ValidatorKey { secrets }) => *secrets == inputs.secrets,
                _ => true,
            }
        }),
{
    lemma_values_are_kept(inputs, events);
    lemma_stores_are_those_opened(inputs, events);
    lemma_run_positions();
}

/// The executor gets the configuration and the block store that were made, what
/// collects the votes, and a validator if and only if a validator's key was
/// read: with that key and the store that was opened.
pub proof fn lemma_executor_gets_what_was_made<P: Parts>(inputs: Inputs<P>, events: Seq<Event<P>>)
    requires
        RunState::<P>::initial(inputs).run(events).pending == Pending::<RunStep, P::Error>::Do(
            RunStep::RunExecutor,
        ),
    ensures
        ({
            let state = RunState::<P>::initial(inputs).run(events);
            &&& state.spec_action() matches Some(
                Action::RunExecutor { executor_config, block_store, validator, attestation },
            )
            &&& answered(
                inputs,
                events,
                RunStep::ExecutorConfig,
                Event::ExecutorConfig(*executor_config),
            )
            &&& opened_block_store(inputs, events, *block_store)
            &&& answered(
                inputs,
                events,
                RunStep::NewAttestationController,
                Event::AttestationController(*attestation),
            )
            &&& match validator {
                Some(Validator { key, store }) => {
                    &&& answered(
                        inputs,
                        events,
                        RunStep::ValidatorKey,
                        Event::ValidatorKey(Some(*key)),
                    )
                    &&& opened_store(inputs, events, *store)
                },
                None => answered(inputs, events, RunStep::ValidatorKey, Event::ValidatorKey(None)),
            }
        }),
{
    let state = RunState::<P>::initial(inputs).run(events);
    lemma_values_are_kept(inputs, events);
    lemma_stores_are_those_opened(inputs, events);
    assert({
        &&& state.made.executor_config is Some
        &&& state.made.block_store is Some
        &&& state.made.controller is Some
        &&& state.made.store is Some
        &&& state.made.validator_key is Some
    }) by {
        lemma_run_positions();
    }
    assert(state.spec_action() == Some(state.action_of(RunStep::RunExecutor)));
}

/// A node that has ended does nothing more, whatever happens.
pub proof fn lemma_ended_node_stays_ended<P: Parts>(state: RunState<P>, events: Seq<Event<P>>)
    requires
        state.pending is Finished,
    ensures
        state.run(events) == state,
        state.spec_action() is None,
    decreases events.len(),
{
    if events.len() > 0 {
        lemma_ended_node_stays_ended(state, events.drop_last());
    }
}

/// A step that can fail ends the node when it does, with its error seen through
/// the context of the step, and nothing is done after that. A step that cannot
/// fail is not disturbed.
pub proof fn lemma_failure_ends_the_node<P: Parts>(
    state: RunState<P>,
    step: RunStep,
    error: TaskError<P::Error>,
    events: Seq<Event<P>>,
)
    requires
        state.pending == Pending::<RunStep, P::Error>::Do(step),
    ensures
        match run_failure_rule(step).apply(error) {
            Some(reported) => {
                let ended = state.step(Event::Failed(error)).run(events);
                &&& ended.pending == Pending::<RunStep, P::Error>::Finished(Err(reported))
                &&& ended.spec_action() is None
            },
            None => state.step(Event::Failed(error)) == state,
        },
{
    let after = state.step(Event::Failed(error));
    if after.pending is Finished {
        lemma_ended_node_stays_ended(after, events);
    }
}

proof fn lemma_fetcher_follows_signals<P: Parts>(state: FetcherState<P>, events: Seq<Event<P>>)
    ensures
        state.run(events).pending == state.pending.run(
            fetcher_order(),
            fetcher_rule(),
            state.signals(events),
        ),
    decreases events.len(),
{
    if events.len() > 0 {
        let rest = events.drop_last();
        lemma_fetcher_follows_signals(state, rest);
        assert(state.signals(events).drop_last() == state.signals(rest));
    }
}

/// A fetching node does its steps in the order of `fetcher_order`.
pub proof fn lemma_fetching_node_follows_its_order<P: Parts>(
    actions: P::Actions,
    events: Seq<Event<P>>,
)
    ensures
        ({
            let start = FetcherState::<P>::initial(actions);
            let completed = start.completed(events);
            &&& completed == fetcher_order().take(completed.len() as int)
            &&& completed.len() <= fetcher_order().len()
            &&& match start.run(events).pending {
                Pending::Do(step) => {
                    &&& completed.len() < fetcher_order().len()
                    &&& step == fetcher_order()[completed.len() as int]
                },
                Pending::Finished(Ok(())) => completed == fetcher_order(),
                Pending::Finished(Err(_)) => completed.len() < fetcher_order().len(),
            }
        }),
{
    let start = FetcherState::<P>::initial(actions);
    lemma_fetcher_positions();
    lemma_fetcher_follows_signals(start, events);
    lemma_steps_are_done_in_order::<FetcherStep, P::Error>(
        fetcher_order(),
        fetcher_rule(),
        start.signals(events),
    );
}

/// The step of a fetching node was answered with this event.
pub open spec fn fetcher_answered<P: Parts>(
    actions: P::Actions,
    events: Seq<Event<P>>,
    step: FetcherStep,
    event: Event<P>,
) -> bool {
    exists|i: int|
        0 <= i < events.len() && #[trigger] events[i] == event && FetcherState::<P>::initial(
            actions,
        ).run(events.take(i)).pending == Pending::<FetcherStep, P::Error>::Do(step)
}

/// A fetching node opens the queue on the connection that it was given, for the
/// actions that it was started with, and fetches blocks into that queue. By then
/// the connection was given back.
pub proof fn lemma_fetching_node_gets_what_was_made<P: Parts>(
    actions: P::Actions,
    events: Seq<Event<P>>,
)
    ensures
        ({
            let state = FetcherState::<P>::initial(actions).run(events);
            &&& state.actions == actions
            &&& state.equipped()
            &&& state.connection matches Some(connection) ==> fetcher_answered(
                actions,
                events,
                FetcherStep::Connection,
                Event::Connection(connection),
            )
            &&& state.queue matches Some(queue) ==> fetcher_answered(
                actions,
                events,
                FetcherStep::NewPayloadQueue,
                Event::PayloadQueue(queue),
            )
            &&& match state.spec_action() {
                Some(FetcherAction::NewPayloadQueue { connection, actions: a }) => {
                    &&& state.connection == Some(*connection)
                    &&& *a == actions
                },
                Some(FetcherAction::FetchBlocks { queue }) => {
                    &&& state.connection is None
                    &&& state.queue == Some(*queue)
                },
                _ => true,
            }
        }),
    decreases events.len(),
{
    lemma_fetcher_positions();
    if events.len() > 0 {
        let rest = events.drop_last();
        let last = rest.len() as int;
        lemma_fetching_node_gets_what_was_made(actions, rest);
        assert forall|step: FetcherStep, event: Event<P>| #[trigger]
            fetcher_answered(actions, rest, step, event) implies fetcher_answered(
            actions,
            events,
            step,
            event,
        ) by {
            let i = choose|i: int|
                0 <= i < rest.len() && #[trigger] rest[i] == event && FetcherState::<P>::initial(
                    actions,
                ).run(rest.take(i)).pending == Pending::<FetcherStep, P::Error>::Do(step);
            assert(events.take(i) == rest.take(i));
            assert(events[i] == event);
        }
        assert(events.take(last) == rest);
        assert(events[last] == events.last());
    }
}

/// Whatever ends the attestation controller, the node goes on.
pub proof fn lemma_attestation_is_not_critical<E>(result: Result<(), TaskError<E>>)
    ensures
        spec_settle(BackgroundTask::AttestationController, result) == Ok::<(), TaskError<E>>(()),
{
}

/// Any other background task that fails fails the node, and what it failed with
/// is what the node reports, seen through at most one more context. That a task
/// was asked to stop is never reported.
pub proof fn lemma_background_errors_are_reported<E>(
    task: BackgroundTask,
    result: Result<(), TaskError<E>>,
)
    requires
        !(task is AttestationController),
    ensures
        spec_conclude(spec_settle(task, result)) is Err <==> result matches Err(TaskError::Internal(_)),
        result matches Err(TaskError::Internal(report)) ==> {
            &&& spec_conclude(spec_settle(task, result)) matches Err(reported)
            &&& reported.cause() == report.cause()
        },
{
}

/// The values that a consensus node comes to hold in one run.
pub struct Values<P: Parts> {
    pub attester_key: Option<P::AttesterKey>,
    pub config: P::GlobalConfig,
    pub connection: P::Connection,
    pub queue: P::PayloadQueue,
    pub store: P::Store,
    pub store_runner: P::StoreRunner,
    pub block_store: P::BlockStore,
    pub block_store_runner: P::BlockStoreRunner,
    pub controller: P::AttestationController,
    pub executor_config: P::ExecutorConfig,
    pub validator_key: Option<P::ValidatorKey>,
}

impl<P: Parts> Values<P> {
    /// Whatever the node holds of these is as it is here.
    pub open spec fn agree_with(self, made: Made<P>) -> bool {
        &&& made.attester_key is Some ==> made.attester_key == Some(self.attester_key)
        &&& made.config is Some ==> made.config == Some(self.config)
        &&& made.connection is Some ==> made.connection == Some(self.connection)
        &&& made.queue is Some ==> made.queue == Some(self.queue)
        &&& made.store is Some ==> made.store == Some(self.store)
        &&& made.store_runner is Some ==> made.store_runner == Some(self.store_runner)
        &&& made.block_store is Some ==> made.block_store == Some(self.block_store)
        &&& made.block_store_runner is Some ==> made.block_store_runner == Some(
            self.block_store_runner,
        )
        &&& made.controller is Some ==> made.controller == Some(self.controller)
        &&& made.executor_config is Some ==> made.executor_config == Some(self.executor_config)
        &&& made.validator_key is Some ==> made.validator_key == Some(self.validator_key)
    }
}

/// The action is the one that the step is named after.
pub open spec fn action_is_of<P: Parts>(action: Action<P>, step: RunStep) -> bool {
    &&& action is AttesterKey <==> step is AttesterKey
    &&& action is SpawnFetchStateLoop <==> step is SpawnFetchStateLoop
    &&& action is FetchGlobalConfig <==> step is FetchGlobalConfig
    &&& action is Connection <==> step is Connection
    &&& action is TryUpdateGlobalConfig <==> step is TryUpdateGlobalConfig
    &&& action is NewPayloadQueue <==> step is NewPayloadQueue
    &&& action is DropConnection <==> step is DropConnection
    &&& action is SpawnConfigMonitor <==> step is SpawnConfigMonitor
    &&& action is StoreNew <==> step is StoreNew
    &&& action is SpawnStoreRunner <==> step is SpawnStoreRunner
    &&& action is SpawnFallbackFetcher <==> step is SpawnFallbackFetcher
    &&& action is BlockStoreNew <==> step is BlockStoreNew
    &&& action is SpawnBlockStoreRunner <==> step is SpawnBlockStoreRunner
    &&& action is NewAttestationController <==> step is NewAttestationController
    &&& action is SpawnAttestationController <==> step is SpawnAttestationController
    &&& action is ExecutorConfig <==> step is ExecutorConfig
    &&& action is ValidatorKey <==> step is ValidatorKey
    &&& action is RunExecutor <==> step is RunExecutor
}

/// What is handed out is what the pending step is about, for every step: the
/// action that the step is named after, and nothing once the node has ended.
pub proof fn lemma_action_is_that_of_the_step<P: Parts>(state: RunState<P>)
    ensures
        match state.pending {
            Pending::Do(step) => {
                &&& state.spec_action() matches Some(action)
                &&& action_is_of(action, step)
            },
            Pending::Finished(_) => state.spec_action() is None,
        },
{
}

/// The values in an action are those that its step is to work on: what the node
/// was started with, and what earlier steps made.
pub proof fn lemma_action_has_the_values_of_the_step<P: Parts>(
    state: RunState<P>,
    values: Values<P>,
)
    requires
        state.equipped(),
        values.agree_with(state.made),
    ensures
        match state.spec_action() {
            Some(Action::AttesterKey { secrets }) => *secrets == state.inputs.secrets,
            Some(Action::TryUpdateGlobalConfig { connection, config }) => {
                &&& *connection == values.connection
                &&& *config == values.config
            },
            Some(Action::NewPayloadQueue { connection, actions }) => {
                &&& *connection == values.connection
                &&& *actions == state.inputs.actions
            },
            Some(Action::DropConnection { connection }) => *connection == values.connection,
            Some(Action::SpawnConfigMonitor { initial }) => *initial == values.config,
            Some(Action::StoreNew { queue }) => *queue == values.queue,
            Some(Action::SpawnStoreRunner { store_runner }) => *store_runner
                == values.store_runner,
            Some(Action::SpawnFallbackFetcher { store }) => *store == values.store,
            Some(Action::BlockStoreNew { store }) => *store == values.store,
            Some(Action::SpawnBlockStoreRunner { block_store_runner }) => *block_store_runner
                == values.block_store_runner,
            Some(Action::NewAttestationController { attester_key }) => *attester_key
                == values.attester_key,
            Some(Action::SpawnAttestationController { config, controller }) => {
                &&& *config == values.config
                &&& *controller == values.controller
            },
            Some(Action::ExecutorConfig { cfg, secrets, config, build_version }) => {
                &&& *cfg == state.inputs.cfg
                &&& *secrets == state.inputs.secrets
                &&& *config == values.config
                &&& *build_version == state.inputs.build_version
            },
            Some(Action::ValidatorKey { secrets }) => *secrets == state.inputs.secrets,
            Some(Action::RunExecutor { executor_config, block_store, validator, attestation }) => {
                &&& *executor_config == values.executor_config
                &&& *block_store == values.block_store
                &&& *attestation == values.controller
                &&& validator is Some <==> values.validator_key is Some
                &&& validator matches Some(v) ==> {
                    &&& Some(*v.key) == values.validator_key
                    &&& *v.store == values.store
                }
            },
            Some(Action::SpawnFetchStateLoop)
            | Some(Action::FetchGlobalConfig)
            | Some(Action::Connection)
            | None => true,
        },
{
    lemma_run_positions();
}

/// A node starts with what it is given, with nothing made, by reading the
/// attester's key.
pub proof fn lemma_node_starts_with_nothing_made<P: Parts>(
    inputs: Inputs<P>,
    actions: P::Actions,
)
    ensures
        ({
            let start = RunState::<P>::initial(inputs);
            &&& start.inputs == inputs
            &&& start.pending == Pending::<RunStep, P::Error>::Do(RunStep::AttesterKey)
            &&& start.made.attester_key is None && start.made.config is None
            &&& start.made.connection is None && start.made.queue is None
            &&& start.made.store is None && start.made.store_runner is None
            &&& start.made.block_store is None && start.made.block_store_runner is None
            &&& start.made.controller is None && start.made.executor_config is None
            &&& start.made.validator_key is None
        }),
        ({
            let start = FetcherState::<P>::initial(actions);
            &&& start.actions == actions
            &&& start.connection is None && start.queue is None
            &&& start.pending == Pending::<FetcherStep, P::Error>::Do(
                FetcherStep::SpawnFetchStateLoop,
            )
        }),
{
}

/// The node is on to `step`, holds `made`, and has kept what it was started with.
pub open spec fn moved_on<P: Parts>(
    before: RunState<P>,
    after: RunState<P>,
    step: RunStep,
    made: Made<P>,
) -> bool {
    &&& after.pending == Pending::<RunStep, P::Error>::Do(step)
    &&& after.made == made
    &&& after.inputs == before.inputs
}

/// Whatever the node was started with and holds, the answer to a step leads to
/// the step that follows. What the answer brings is kept, and so is all that was
/// there before, but for the connection, which is given back.
pub proof fn lemma_each_answer_leads_to_the_next_step<P: Parts>(
    state: RunState<P>,
    step: RunStep,
    values: Values<P>,
)
    requires
        state.pending == Pending::<RunStep, P::Error>::Do(step),
    ensures
        ({
            let made = state.made;
            let Values {
                attester_key,
                config,
                connection,
                queue,
                store,
                store_runner,
                block_store,
                block_store_runner,
                controller,
                executor_config,
                validator_key,
            } = values;
            match step {
                RunStep::AttesterKey => moved_on(
                    state,
                    state.step(Event::AttesterKey(attester_key)),
                    RunStep::SpawnFetchStateLoop,
                    Made { attester_key: Some(attester_key), ..made },
                ),
                RunStep::SpawnFetchStateLoop => moved_on(
                    state,
                    state.step(Event::Done),
                    RunStep::FetchGlobalConfig,
                    made,
                ),
                RunStep::FetchGlobalConfig => moved_on(
                    state,
                    state.step(Event::GlobalConfig(config)),
                    RunStep::Connection,
                    Made { config: Some(config), ..made },
                ),
                RunStep::Connection => moved_on(
                    state,
                    state.step(Event::Connection(connection)),
                    RunStep::TryUpdateGlobalConfig,
                    Made { connection: Some(connection), ..made },
                ),
                RunStep::TryUpdateGlobalConfig => moved_on(
                    state,
                    state.step(Event::Done),
                    RunStep::NewPayloadQueue,
                    made,
                ),
                RunStep::NewPayloadQueue => moved_on(
                    state,
                    state.step(Event::PayloadQueue(queue)),
                    RunStep::DropConnection,
                    Made { queue: Some(queue), ..made },
                ),
                RunStep::DropConnection => moved_on(
                    state,
                    state.step(Event::Done),
                    RunStep::SpawnConfigMonitor,
                    Made { connection: None, ..made },
                ),
                RunStep::SpawnConfigMonitor => moved_on(
                    state,
                    state.step(Event::Done),
                    RunStep::StoreNew,
                    made,
                ),
                RunStep::StoreNew => moved_on(
                    state,
                    state.step(Event::Store { store, store_runner }),
                    RunStep::SpawnStoreRunner,
                    Made { store: Some(store), store_runner: Some(store_runner), ..made },
                ),
                RunStep::SpawnStoreRunner => moved_on(
                    state,
                    state.step(Event::Done),
                    RunStep::SpawnFallbackFetcher,
                    made,
                ),
                RunStep::SpawnFallbackFetcher => moved_on(
                    state,
                    state.step(Event::Done),
                    RunStep::BlockStoreNew,
                    made,
                ),
                RunStep::BlockStoreNew => moved_on(
                    state,
                    state.step(Event::BlockStore { block_store, block_store_runner }),
                    RunStep::SpawnBlockStoreRunner,
                    Made { block_store: Some(block_store), block_store_runner: Some(block_store_runner), ..made },
                ),
                RunStep::SpawnBlockStoreRunner => moved_on(
                    state,
                    state.step(Event::Done),
                    RunStep::NewAttestationController,
                    made,
                ),
                RunStep::NewAttestationController => moved_on(
                    state,
                    state.step(Event::AttestationController(controller)),
                    RunStep::SpawnAttestationController,
                    Made { controller: Some(controller), ..made },
                ),
                RunStep::SpawnAttestationController => moved_on(
                    state,
                    state.step(Event::Done),
                    RunStep::ExecutorConfig,
                    made,
                ),
                RunStep::ExecutorConfig => moved_on(
                    state,
                    state.step(Event::ExecutorConfig(executor_config)),
                    RunStep::ValidatorKey,
                    Made { executor_config: Some(executor_config), ..made },
                ),
                RunStep::ValidatorKey => moved_on(
                    state,
                    state.step(Event::ValidatorKey(validator_key)),
                    RunStep::RunExecutor,
                    Made { validator_key: Some(validator_key), ..made },
                ),
                RunStep::RunExecutor => {
                    let after = state.step(Event::Done);
                    &&& after.pending == Pending::<RunStep, P::Error>::Finished(Ok(()))
                    &&& after.made == made
                    &&& after.inputs == state.inputs
                },
            }
        }),
{
    lemma_run_positions();
}

/// An event moves the node only where it answers the step at hand: a value where
/// the step is to make one of its kind, and a mere `Done` where it is to make
/// none. A node that has ended is not moved by anything.
pub proof fn lemma_node_ignores_what_it_did_not_ask_for<P: Parts>(
    state: RunState<P>,
    event: Event<P>,
)
    ensures
        ({
            let at = |step: RunStep| state.pending == Pending::<RunStep, P::Error>::Do(step);
            let unmoved = state.step(event) == state;
            &&& state.pending is Finished ==> unmoved
            &&& event is AttesterKey && !at(RunStep::AttesterKey) ==> unmoved
            &&& event is GlobalConfig && !at(RunStep::FetchGlobalConfig) ==> unmoved
            &&& event is Connection && !at(RunStep::Connection) ==> unmoved
            &&& event is PayloadQueue && !at(RunStep::NewPayloadQueue) ==> unmoved
            &&& event is Store && !at(RunStep::StoreNew) ==> unmoved
            &&& event is BlockStore && !at(RunStep::BlockStoreNew) ==> unmoved
            &&& event is AttestationController && !at(RunStep::NewAttestationController)
                ==> unmoved
            &&& event is ExecutorConfig && !at(RunStep::ExecutorConfig) ==> unmoved
            &&& event is ValidatorKey && !at(RunStep::ValidatorKey) ==> unmoved
            &&& event is Done && (at(RunStep::AttesterKey) || at(RunStep::FetchGlobalConfig) || at(
                RunStep::Connection,
            ) || at(RunStep::NewPayloadQueue) || at(RunStep::StoreNew) || at(
                RunStep::BlockStoreNew,
            ) || at(RunStep::NewAttestationController) || at(RunStep::ExecutorConfig) || at(
                RunStep::ValidatorKey,
            )) ==> unmoved
        }),
{
}

/// A step that can fail ends the node when it does, with its own error: seen
/// through the name of the step, but for the executor and its configuration,
/// whose errors say enough. Steps that only start or drop something cannot fail.
pub proof fn lemma_each_failure_has_its_context<P: Parts>(
    state: RunState<P>,
    step: RunStep,
    error: TaskError<P::Error>,
)
    requires
        state.pending == Pending::<RunStep, P::Error>::Do(step),
    ensures
        ({
            let after = state.step(Event::Failed(error));
            let ended = |reported: TaskError<P::Error>|
                {
                    &&& after.pending == Pending::<RunStep, P::Error>::Finished(Err(reported))
                    &&& after.made == state.made
                    &&& after.inputs == state.inputs
                };
            match step {
                RunStep::AttesterKey => ended(error.spec_wrap(Context::AttesterKey)),
                RunStep::FetchGlobalConfig => ended(error.spec_wrap(Context::FetchGlobalConfig)),
                RunStep::Connection => ended(error.spec_wrap(Context::Connection)),
                RunStep::TryUpdateGlobalConfig => ended(
                    error.spec_wrap(Context::TryUpdateGlobalConfig),
                ),
                RunStep::NewPayloadQueue => ended(error.spec_wrap(Context::NewPayloadQueue)),
                RunStep::StoreNew => ended(error.spec_wrap(Context::StoreNew)),
                RunStep::BlockStoreNew => ended(error.spec_wrap(Context::BlockStoreNew)),
                RunStep::ValidatorKey => ended(error.spec_wrap(Context::ValidatorKey)),
                RunStep::ExecutorConfig | RunStep::RunExecutor => ended(error),
                RunStep::SpawnFetchStateLoop
                | RunStep::DropConnection
                | RunStep::SpawnConfigMonitor
                | RunStep::SpawnStoreRunner
                | RunStep::SpawnFallbackFetcher
                | RunStep::SpawnBlockStoreRunner
                | RunStep::NewAttestationController
                | RunStep::SpawnAttestationController => after == state,
            }
        }),
{
}

/// The events that answer all steps in turn.
pub open spec fn all_answers<P: Parts>(values: Values<P>) -> Seq<Event<P>> {
    seq![
        Event::AttesterKey(values.attester_key),
        Event::Done,
        Event::GlobalConfig(values.config),
        Event::Connection(values.connection),
        Event::Done,
        Event::PayloadQueue(values.queue),
        Event::Done,
        Event::Done,
        Event::Store { store: values.store, store_runner: values.store_runner },
        Event::Done,
        Event::Done,
        Event::BlockStore { block_store: values.block_store, block_store_runner: values.block_store_runner },
        Event::Done,
        Event::AttestationController(values.controller),
        Event::Done,
        Event::ExecutorConfig(values.executor_config),
        Event::ValidatorKey(values.validator_key),
        Event::Done,
    ]
}

/// From start to end: a node whose steps are all answered does each of them in
/// turn and ends well. At every point before, the action handed out is that of
/// the step that is due.
pub proof fn lemma_node_runs_from_start_to_end<P: Parts>(
    inputs: Inputs<P>,
    values: Values<P>,
    n: int,
)
    requires
        0 <= n <= 18,
    ensures
        ({
            let state = RunState::<P>::initial(inputs).run(all_answers(values).take(n));
            &&& state.inputs == inputs
            &&& values.agree_with(state.made)
            &&& n < 18 ==> {
                &&& state.pending == Pending::<RunStep, P::Error>::Do(run_order()[n])
                &&& state.spec_action() matches Some(action)
                &&& action_is_of(action, run_order()[n])
            }
            &&& n == 18 ==> state.pending == Pending::<RunStep, P::Error>::Finished(Ok(()))
        }),
    decreases n,
{
    let events = all_answers(values).take(n);
    if n > 0 {
        let rest = all_answers(values).take(n - 1);
        let before = RunState::<P>::initial(inputs).run(rest);
        lemma_node_runs_from_start_to_end(inputs, values, n - 1);
        assert(events.drop_last() == rest);
        assert(events.last() == all_answers(values)[n - 1]);
        assert(RunState::<P>::initial(inputs).run(events) == before.step(events.last()));
        lemma_each_answer_leads_to_the_next_step(before, run_order()[n - 1], values);
    }
    lemma_action_is_that_of_the_step(RunState::<P>::initial(inputs).run(events));
}

/// What is handed out by a fetching node is what the pending step is about, with
/// the connection, the actions and the queue that it holds.
pub proof fn lemma_fetching_action_is_that_of_the_step<P: Parts>(
    state: FetcherState<P>,
    connection: P::Connection,
    queue: P::PayloadQueue,
)
    requires
        state.connection is Some ==> state.connection == Some(connection),
        state.queue is Some ==> state.queue == Some(queue),
        state.equipped(),
    ensures
        match state.pending {
            Pending::Do(FetcherStep::SpawnFetchStateLoop) => state.spec_action() matches Some(
                FetcherAction::SpawnFetchStateLoop,
            ),
            Pending::Do(FetcherStep::Connection) => state.spec_action() matches Some(
                FetcherAction::Connection,
            ),
            Pending::Do(FetcherStep::NewPayloadQueue) => {
                &&& state.spec_action() matches Some(
                    FetcherAction::NewPayloadQueue { connection: c, actions: a },
                )
                &&& *c == connection
                &&& *a == state.actions
            },
            Pending::Do(FetcherStep::FetchBlocks) => {
                &&& state.spec_action() matches Some(FetcherAction::FetchBlocks { queue: q })
                &&& *q == queue
            },
            Pending::Finished(_) => state.spec_action() is None,
        },
{
}

/// Whatever a fetching node was started with and holds, the answer to a step
/// leads to the step that follows. The connection is given back once the queue
/// is open.
pub proof fn lemma_each_answer_leads_a_fetching_node_on<P: Parts>(
    state: FetcherState<P>,
    connection: P::Connection,
    queue: P::PayloadQueue,
)
    ensures
        match state.pending {
            Pending::Do(FetcherStep::SpawnFetchStateLoop) => state.step(Event::Done)
                == FetcherState::<P> { pending: Pending::Do(FetcherStep::Connection), ..state },
            Pending::Do(FetcherStep::Connection) => state.step(Event::Connection(connection))
                == FetcherState::<P> {
                connection: Some(connection),
                pending: Pending::Do(FetcherStep::NewPayloadQueue),
                ..state
            },
            Pending::Do(FetcherStep::NewPayloadQueue) => state.step(Event::PayloadQueue(queue))
                == FetcherState::<P> {
                connection: None,
                queue: Some(queue),
                pending: Pending::Do(FetcherStep::FetchBlocks),
                ..state
            },
            Pending::Do(FetcherStep::FetchBlocks) => state.step(Event::Done) == FetcherState::<P> {
                pending: Pending::Finished(Ok(())),
                ..state
            },
            Pending::Finished(_) => true,
        },
{
    lemma_fetcher_positions();
}

/// An event moves a fetching node only where it answers the step at hand, or is
/// its failure, which ends the node with its own error.
pub proof fn lemma_fetching_node_ignores_what_it_did_not_ask_for<P: Parts>(
    state: FetcherState<P>,
    event: Event<P>,
    error: TaskError<P::Error>,
)
    ensures
        ({
            let at = |step: FetcherStep| state.pending == Pending::<FetcherStep, P::Error>::Do(step);
            let unmoved = state.step(event) == state;
            let failed = state.step(Event::Failed(error));
            let ended = |reported: TaskError<P::Error>|
                failed == FetcherState::<P> { pending: Pending::Finished(Err(reported)), ..state };
            &&& state.pending is Finished ==> unmoved
            &&& event is Connection && !at(FetcherStep::Connection) ==> unmoved
            &&& event is PayloadQueue && !at(FetcherStep::NewPayloadQueue) ==> unmoved
            &&& event is Done && (at(FetcherStep::Connection) || at(FetcherStep::NewPayloadQueue))
                ==> unmoved
            &&& event is AttesterKey || event is GlobalConfig || event is Store
                || event is BlockStore || event is AttestationController || event is ExecutorConfig
                || event is ValidatorKey ==> unmoved
            &&& at(FetcherStep::SpawnFetchStateLoop) ==> failed == state
            &&& at(FetcherStep::Connection) ==> ended(error.spec_wrap(Context::Connection))
            &&& at(FetcherStep::NewPayloadQueue) ==> ended(
                error.spec_wrap(Context::NewFetcherCursor),
            )
            &&& at(FetcherStep::FetchBlocks) ==> ended(error)
        }),
{
}

/// What the end of each background task means for the node. A good end means
/// nothing, and so does any end of the attestation. An error of another task is
/// an error of the node, seen through the name of the task where the task does
/// not say it itself.
pub proof fn lemma_each_task_ends_in_its_own_way<E>(error: TaskError<E>, task: BackgroundTask)
    ensures
        ({
            let settled = spec_settle(task, Err(error));
            &&& spec_settle(task, Ok::<(), TaskError<E>>(())) is Ok
            &&& match task {
                BackgroundTask::FetchStateLoop | BackgroundTask::ConfigMonitor => settled == Err::<
                    (),
                    TaskError<E>,
                >(error),
                BackgroundTask::StoreRunner => settled == Err::<(), TaskError<E>>(
                    error.spec_wrap(Context::StoreRunner),
                ),
                BackgroundTask::FallbackFetcher => settled == Err::<(), TaskError<E>>(
                    error.spec_wrap(Context::FallbackBlockFetcher),
                ),
                BackgroundTask::BlockStoreRunner => settled == Err::<(), TaskError<E>>(
                    error.spec_wrap(Context::BlockStoreRun),
                ),
                BackgroundTask::AttestationController => settled is Ok,
            }
        }),
{
}

/// A node that was asked to stop has ended well. Any other error is reported as
/// it is.
pub proof fn lemma_only_errors_are_reported<E>(report: Report<E>)
    ensures
        spec_conclude(Ok::<(), TaskError<E>>(())) is Ok,
        spec_conclude(Err::<(), TaskError<E>>(TaskError::Canceled)) is Ok,
        spec_conclude(Err::<(), TaskError<E>>(TaskError::Internal(report))) == Err::<(), Report<E>>(
            report,
        ),
{
}

} // verus!
