//! Following the main node's attestation status, batch by batch.
use crate::config::GlobalConfig;
use crate::error::{Context, TaskError, Report};
use crate::genesis::{genesis_hash, GenesisHash};
use crate::numbers::next_batch_number;
use vstd::prelude::*;

verus! {

/// Milliseconds between two looks at the main node, or at the database.
pub const POLL_INTERVAL_MS: u64 = 5000;

/// What the main node says of attestation: the chain, and the batch that is to
/// be attested next.
#[derive(Clone, Copy, Debug, PartialEq, Eq)]
pub struct AttestationStatus {
    pub genesis: GenesisHash,
    pub next_batch_to_attest: u64,
}

/// Hash of a batch: a Keccak-256 digest.
#[derive(Clone, Copy, Debug, PartialEq, Eq)]
pub struct BatchHash {
    pub keccak256: [u8; 32],
}

/// A batch to attest.
#[derive(Clone, Copy, Debug, PartialEq, Eq)]
pub struct Batch {
    pub genesis: GenesisHash,
    pub hash: BatchHash,
    pub number: u64,
}

/// How the main node answered a request for its attestation status.
#[derive(Debug)]
pub enum StatusReply<E> {
    /// The request was given up.
    Canceled,
    /// The request failed.
    Failed(E),
    /// There is no status: the main node takes no part in the consensus.
    Absent,
    /// The status could not be read.
    Malformed(E),
    Status(AttestationStatus),
}

pub open spec fn spec_fetch_attestation_status<E>(reply: StatusReply<E>) -> Result<
    AttestationStatus,
    TaskError<E>,
> {
    match reply {
        StatusReply::Status(status) => Ok(status),
        StatusReply::Canceled => Err(TaskError::Canceled),
        StatusReply::Failed(error) => Err(
            TaskError::Internal(Report::Outside(error).spec_wrap(Context::AttestationStatus)),
        ),
        StatusReply::Absent => Err(
            TaskError::Internal(Report::Message(Context::AttestationStatusMissing)),
        ),
        StatusReply::Malformed(error) => Err(
            TaskError::Internal(Report::Outside(error).spec_wrap(Context::Deserialize)),
        ),
    }
}

/// The status, or why there is none.
pub fn fetch_attestation_status<E>(reply: StatusReply<E>) -> (status: Result<
    AttestationStatus,
    TaskError<E>,
>)
    ensures
        status == spec_fetch_attestation_status(reply),
{
    match reply {
        StatusReply::Canceled => Err(TaskError::Canceled),
        StatusReply::Failed(error) => Err(
            TaskError::Internal(Report::Outside(error).wrap(Context::AttestationStatus)),
        ),
        StatusReply::Absent => Err(
            TaskError::Internal(Report::Message(Context::AttestationStatusMissing)),
        ),
        StatusReply::Malformed(error) => Err(
            TaskError::Internal(Report::Outside(error).wrap(Context::Deserialize)),
        ),
        StatusReply::Status(status) => Ok(status),
    }
}

/// What the controller waits for. `C` is the type of a committee of attesters.
#[derive(Debug)]
pub enum Pending<C, E> {
    /// The attestation status of the main node.
    FetchAttestationStatus,
    /// The end of a pause.
    Sleep { ms: u64 },
    /// The hash of the batch, which the database will hold sooner or later.
    WaitForBatchInfo { status: AttestationStatus, poll_interval_ms: u64 },
    /// The committee that the registry names for the batch, if any.
    AttesterCommitteeFor { registry_address: Option<[u8; 20]>, batch: Batch },
    /// A connection to the database.
    Connection { batch: Batch, committee: C },
    /// The committee being stored for the batch.
    UpsertAttesterCommittee { batch: Batch, committee: C },
    /// The attestation of the batch by the committee being started.
    StartAttestation { batch: Batch, committee: C },
    /// Nothing: the controller is done.
    Stopped(TaskError<E>),
}

/// What can happen to the controller. An event that does not answer what is
/// pending changes nothing.
#[derive(Debug)]
pub enum Event<C, E> {
    StatusFetched(Result<AttestationStatus, TaskError<E>>),
    Slept,
    BatchInfo { hash: BatchHash },
    Committee(Option<C>),
    Connected,
    CommitteeStored,
    AttestationStarted,
    /// What is pending failed.
    Failed(TaskError<E>),
}

/// The state of the controller.
#[derive(Debug)]
pub struct State<C, E> {
    /// Hash of the genesis that the node was configured with.
    pub genesis: GenesisHash,
    pub registry_address: Option<[u8; 20]>,
    /// No batch below this one is attested any more.
    pub next: u64,
    pub pending: Pending<C, E>,
}

impl<C, E> State<C, E> {
    pub open spec fn initial(genesis: GenesisHash, registry_address: Option<[u8; 20]>) -> Self {
        State { genesis, registry_address, next: 0, pending: Pending::FetchAttestationStatus }
    }

    /// The status names a batch to attest on the configured chain.
    pub open spec fn accepts(self, status: AttestationStatus) -> bool {
        &&& status.genesis == self.genesis
        &&& status.next_batch_to_attest >= self.next
    }

    /// No batch number would follow the one that the event names.
    pub open spec fn overflows(self, event: Event<C, E>) -> bool {
        &&& self.pending is FetchAttestationStatus
        &&& event matches Event::StatusFetched(Ok(status))
        &&& self.accepts(status)
        &&& status.next_batch_to_attest == u64::MAX
    }

    pub open spec fn with(self, pending: Pending<C, E>) -> Self {
        State { pending, ..self }
    }

    /// The state after the status was asked for.
    pub open spec fn after_status(self, result: Result<AttestationStatus, TaskError<E>>) -> Self {
        match result {
            Err(_) => self.with(Pending::Sleep { ms: POLL_INTERVAL_MS }),
            Ok(status) => if status.genesis != self.genesis {
                self.with(
                    Pending::Stopped(TaskError::Internal(Report::Message(Context::GenesisMismatch))),
                )
            } else if status.next_batch_to_attest < self.next {
                self.with(Pending::Sleep { ms: POLL_INTERVAL_MS })
            } else {
                State {
                    next: (status.next_batch_to_attest + 1) as u64,
                    pending: Pending::WaitForBatchInfo {
                        status,
                        poll_interval_ms: POLL_INTERVAL_MS,
                    },
                    ..self
                }
            },
        }
    }

    /// What an error of the pending step is seen through.
    pub open spec fn failure(self, error: TaskError<E>) -> Option<TaskError<E>> {
        match self.pending {
            Pending::Sleep { .. } => Some(error),
            Pending::WaitForBatchInfo { .. } => Some(error.spec_wrap(Context::WaitForBatchInfo)),
            Pending::AttesterCommitteeFor { .. } => Some(
                error.spec_wrap(Context::AttesterCommitteeFor),
            ),
            Pending::Connection { .. } => Some(error.spec_wrap(Context::CommitteeConnection)),
            Pending::UpsertAttesterCommittee { .. } => Some(
                error.spec_wrap(Context::UpsertAttesterCommittee),
            ),
            Pending::StartAttestation { .. } => Some(error.spec_wrap(Context::StartAttestation)),
            Pending::FetchAttestationStatus | Pending::Stopped(_) => None,
        }
    }

    pub open spec fn step(self, event: Event<C, E>) -> Self {
        match (self.pending, event) {
            (_, Event::Failed(error)) => match self.failure(error) {
                Some(error) => self.with(Pending::Stopped(error)),
                None => self,
            },
            (Pending::FetchAttestationStatus, Event::StatusFetched(result)) => self.after_status(
                result,
            ),
            (Pending::Sleep { .. }, Event::Slept) => self.with(Pending::FetchAttestationStatus),
            (Pending::WaitForBatchInfo { status, .. }, Event::BatchInfo { hash }) => self.with(
                Pending::AttesterCommitteeFor {
                    registry_address: self.registry_address,
                    batch: Batch {
                        genesis: status.genesis,
                        hash,
                        number: status.next_batch_to_attest,
                    },
                },
            ),
            (Pending::AttesterCommitteeFor { batch, .. }, Event::Committee(Some(committee))) =>
                self.with(Pending::Connection { batch, committee }),
            // Attestation of this batch is not required.
            (Pending::AttesterCommitteeFor { .. }, Event::Committee(None)) => self.with(
                Pending::FetchAttestationStatus,
            ),
            (Pending::Connection { batch, committee }, Event::Connected) => self.with(
                Pending::UpsertAttesterCommittee { batch, committee },
            ),
            (Pending::UpsertAttesterCommittee { batch, committee }, Event::CommitteeStored) =>
                self.with(Pending::StartAttestation { batch, committee }),
            (Pending::StartAttestation { .. }, Event::AttestationStarted) => self.with(
                Pending::FetchAttestationStatus,
            ),
            _ => self,
        }
    }

    /// The state after a series of events.
    pub open spec fn run(self, events: Seq<Event<C, E>>) -> Self
        decreases events.len(),
    {
        if events.len() == 0 {
            self
        } else {
            self.run(events.drop_last()).step(events.last())
        }
    }

    /// No event of the series overflows.
    pub open spec fn in_range(self, events: Seq<Event<C, E>>) -> bool
        decreases events.len(),
    {
        events.len() == 0 || {
            &&& self.in_range(events.drop_last())
            &&& !self.run(events.drop_last()).overflows(events.last())
        }
    }

    /// The attestations that a series of events makes the controller start, in
    /// that order.
    pub open spec fn started(self, events: Seq<Event<C, E>>) -> Seq<(Batch, C)>
        decreases events.len(),
    {
        if events.len() == 0 {
            Seq::empty()
        } else {
            let earlier = self.started(events.drop_last());
            match self.run(events.drop_last()).starts(events.last()) {
                Some(attestation) => earlier.push(attestation),
                None => earlier,
            }
        }
    }

    /// The attestation that the event makes the controller start, if any.
    pub open spec fn starts(self, event: Event<C, E>) -> Option<(Batch, C)> {
        match self.pending {
            Pending::UpsertAttesterCommittee { batch, committee } => if event is CommitteeStored {
                Some((batch, committee))
            } else {
                None
            },
            _ => None,
        }
    }
}

/// Monitors the attestation status on the main node and starts the attestation
/// of each batch in turn.
pub struct AttestationController<C, E> {
    state: State<C, E>,
}

impl<C, E> View for AttestationController<C, E> {
    type V = State<C, E>;

    closed spec fn view(&self) -> State<C, E> {
        self.state
    }
}

impl<C, E> AttestationController<C, E> {
    /// A controller for the chain of `config`.
    pub fn new(config: &GlobalConfig) -> (controller: Self)
        ensures
            controller@ == State::<C, E>::initial(config.genesis@.hash, config.registry_address),
            genesis_hash(config.genesis@.encoding) == Some(controller@.genesis.keccak256@),
    {
        AttestationController {
            state: State {
                genesis: config.genesis.hash(),
                registry_address: config.registry_address,
                next: 0,
                pending: Pending::FetchAttestationStatus,
            },
        }
    }

    /// What the controller waits for.
    pub fn pending(&self) -> (pending: &Pending<C, E>)
        ensures
            *pending == self@.pending,
    {
        &self.state.pending
    }

    /// How the controller ended, if it did.
    pub fn into_outcome(self) -> (outcome: Option<TaskError<E>>)
        ensures
            outcome == match self@.pending {
                Pending::Stopped(error) => Some(error),
                _ => None::<TaskError<E>>,
            },
    {
        match self.state.pending {
            Pending::Stopped(error) => Some(error),
            _ => None,
        }
    }

    /// Whether the event names the last batch number there is.
    pub fn overflows(&self, event: &Event<C, E>) -> (overflows: bool)
        ensures
            overflows == self@.overflows(*event),
    {
        match (&self.state.pending, event) {
            (Pending::FetchAttestationStatus, Event::StatusFetched(Ok(status))) => {
                status.genesis.same_as(&self.state.genesis) && status.next_batch_to_attest
                    >= self.state.next && status.next_batch_to_attest == u64::MAX
            },
            _ => false,
        }
    }

    /// Takes the event in.
    pub fn step(self, event: Event<C, E>) -> (next: Self)
        requires
            !self@.overflows(event),
        ensures
            next@ == self@.step(event),
    {
        let State { genesis, registry_address, next, pending } = self.state;
        let (next, pending): (u64, Pending<C, E>) = match (pending, event) {
            (Pending::FetchAttestationStatus, Event::StatusFetched(Err(_))) => (
                next,
                Pending::Sleep { ms: POLL_INTERVAL_MS },
            ),
            (Pending::FetchAttestationStatus, Event::StatusFetched(Ok(status))) => {
                if !status.genesis.same_as(&genesis) {
                    let report = Report::Message(Context::GenesisMismatch);
                    (next, Pending::Stopped(TaskError::Internal(report)))
                } else if status.next_batch_to_attest >= next {
                    (
                        next_batch_number(status.next_batch_to_attest),
                        Pending::WaitForBatchInfo { status, poll_interval_ms: POLL_INTERVAL_MS },
                    )
                } else {
                    (next, Pending::Sleep { ms: POLL_INTERVAL_MS })
                }
            },
            (Pending::Sleep { .. }, Event::Slept) => (next, Pending::FetchAttestationStatus),
            (Pending::Sleep { .. }, Event::Failed(error)) => (next, Pending::Stopped(error)),
            (Pending::WaitForBatchInfo { status, .. }, Event::BatchInfo { hash }) => {
                let batch = Batch {
                    genesis: status.genesis,
                    hash,
                    number: status.next_batch_to_attest,
                };
                (next, Pending::AttesterCommitteeFor { registry_address, batch })
            },
            (Pending::WaitForBatchInfo { .. }, Event::Failed(error)) => (
                next,
                Pending::Stopped(error.wrap(Context::WaitForBatchInfo)),
            ),
            (Pending::AttesterCommitteeFor { batch, .. }, Event::Committee(Some(committee))) => (
                next,
                Pending::Connection { batch, committee },
            ),
            (Pending::AttesterCommitteeFor { .. }, Event::Committee(None)) => (
                next,
                Pending::FetchAttestationStatus,
            ),
            (Pending::AttesterCommitteeFor { .. }, Event::Failed(error)) => (
                next,
                Pending::Stopped(error.wrap(Context::AttesterCommitteeFor)),
            ),
            (Pending::Connection { batch, committee }, Event::Connected) => (
                next,
                Pending::UpsertAttesterCommittee { batch, committee },
            ),
            (Pending::Connection { .. }, Event::Failed(error)) => (
                next,
                Pending::Stopped(error.wrap(Context::CommitteeConnection)),
            ),
            (Pending::UpsertAttesterCommittee { batch, committee }, Event::CommitteeStored) => (
                next,
                Pending::StartAttestation { batch, committee },
            ),
            (Pending::UpsertAttesterCommittee { .. }, Event::Failed(error)) => (
                next,
                Pending::Stopped(error.wrap(Context::UpsertAttesterCommittee)),
            ),
            (Pending::StartAttestation { .. }, Event::AttestationStarted) => (
                next,
                Pending::FetchAttestationStatus,
            ),
            (Pending::StartAttestation { .. }, Event::Failed(error)) => (
                next,
                Pending::Stopped(error.wrap(Context::StartAttestation)),
            ),
            (pending, _) => (next, pending),
        };
        AttestationController { state: State { genesis, registry_address, next, pending } }
    }
}

impl<C, E> State<C, E> {
    /// The batch at hand, if there is one, is on the configured chain and is
    /// the one before `next`, and it is looked up in the configured registry.
    pub open spec fn consistent(self) -> bool {
        match self.pending {
            Pending::WaitForBatchInfo { status, .. } => {
                &&& status.genesis == self.genesis
                &&& status.next_batch_to_attest + 1 == self.next
            },
            Pending::AttesterCommitteeFor { registry_address, batch } => {
                &&& registry_address == self.registry_address
                &&& self.has_at_hand(batch)
            },
            Pending::Connection { batch, .. } => self.has_at_hand(batch),
            Pending::UpsertAttesterCommittee { batch, .. } => self.has_at_hand(batch),
            Pending::StartAttestation { batch, .. } => self.has_at_hand(batch),
            _ => true,
        }
    }

    pub open spec fn has_at_hand(self, batch: Batch) -> bool {
        &&& batch.genesis == self.genesis
        &&& batch.number + 1 == self.next
    }

    /// All attestations started so far are of batches below this number.
    spec fn ceiling(self) -> int {
        match self.pending {
            Pending::WaitForBatchInfo { .. }
            | Pending::AttesterCommitteeFor { .. }
            | Pending::Connection { .. }
            | Pending::UpsertAttesterCommittee { .. } => self.next - 1,
            _ => self.next as int,
        }
    }
}

/// The controller never leaves the chain and the registry it was configured
/// with, and works on one batch at a time: the one before `next`.
pub proof fn lemma_controller_is_consistent<C, E>(
    genesis: GenesisHash,
    registry_address: Option<[u8; 20]>,
    events: Seq<Event<C, E>>,
)
    requires
        State::<C, E>::initial(genesis, registry_address).in_range(events),
    ensures
        State::<C, E>::initial(genesis, registry_address).run(events).consistent(),
        State::<C, E>::initial(genesis, registry_address).run(events).genesis == genesis,
        State::<C, E>::initial(genesis, registry_address).run(events).registry_address
            == registry_address,
    decreases events.len(),
{
    if events.len() > 0 {
        lemma_controller_is_consistent::<C, E>(genesis, registry_address, events.drop_last());
    }
}

/// The batches whose attestation is started are all on the configured chain,
/// and their numbers increase: no batch is attested twice, and none after a
/// later one.
pub proof fn lemma_attested_batches_increase<C, E>(
    genesis: GenesisHash,
    registry_address: Option<[u8; 20]>,
    events: Seq<Event<C, E>>,
)
    requires
        State::<C, E>::initial(genesis, registry_address).in_range(events),
    ensures
        ({
            let initial = State::<C, E>::initial(genesis, registry_address);
            let started = initial.started(events);
            &&& forall|i: int|
                0 <= i < started.len() ==> (#[trigger] started[i]).0.genesis == genesis
            &&& forall|i: int, j: int|
                0 <= i < j < started.len() ==> (#[trigger] started[i]).0.number < (
                #[trigger] started[j]).0.number
            &&& forall|i: int|
                0 <= i < started.len() ==> (#[trigger] started[i]).0.number < initial.run(
                    events,
                ).next
        }),
{
    lemma_started_stay_below(genesis, registry_address, events);
}

proof fn lemma_started_stay_below<C, E>(
    genesis: GenesisHash,
    registry_address: Option<[u8; 20]>,
    events: Seq<Event<C, E>>,
)
    requires
        State::<C, E>::initial(genesis, registry_address).in_range(events),
    ensures
        ({
            let initial = State::<C, E>::initial(genesis, registry_address);
            let started = initial.started(events);
            &&& forall|i: int|
                0 <= i < started.len() ==> (#[trigger] started[i]).0.genesis == genesis
            &&& forall|i: int, j: int|
                0 <= i < j < started.len() ==> (#[trigger] started[i]).0.number < (
                #[trigger] started[j]).0.number
            &&& forall|i: int|
                0 <= i < started.len() ==> (#[trigger] started[i]).0.number < initial.run(
                    events,
                ).ceiling()
            &&& initial.run(events).ceiling() <= initial.run(events).next
        }),
    decreases events.len(),
{
    if events.len() > 0 {
        let rest = events.drop_last();
        lemma_started_stay_below::<C, E>(genesis, registry_address, rest);
        lemma_controller_is_consistent::<C, E>(genesis, registry_address, rest);
        let initial = State::<C, E>::initial(genesis, registry_address);
        let before = initial.run(rest);
        let after = before.step(events.last());
        assert(initial.run(events) == after);
        match before.starts(events.last()) {
            Some(attestation) => {
                assert(initial.started(events) == initial.started(rest).push(attestation));
                assert(before.has_at_hand(attestation.0));
                assert(before.ceiling() == attestation.0.number);
                assert(after.ceiling() == before.ceiling() + 1);
            },
            None => {
                assert(initial.started(events) == initial.started(rest));
                assert(before.ceiling() <= after.ceiling());
            },
        }
    }
}

/// The status that names the batch.
pub open spec fn status_of(batch: Batch) -> AttestationStatus {
    AttestationStatus { genesis: batch.genesis, next_batch_to_attest: batch.number }
}

/// Event number `i` gives the status, in answer to a request for it.
pub open spec fn status_at<C, E>(
    start: State<C, E>,
    events: Seq<Event<C, E>>,
    i: int,
    status: AttestationStatus,
) -> bool {
    &&& 0 <= i < events.len()
    &&& start.run(events.take(i)).pending is FetchAttestationStatus
    &&& events[i] == Event::<C, E>::StatusFetched(Ok(status))
}

/// Event number `j` gives the hash of the batch, which was waited for.
pub open spec fn hashed_at<C, E>(
    start: State<C, E>,
    events: Seq<Event<C, E>>,
    j: int,
    batch: Batch,
) -> bool {
    &&& 0 <= j < events.len()
    &&& start.run(events.take(j)).pending == (Pending::<C, E>::WaitForBatchInfo {
        status: status_of(batch),
        poll_interval_ms: POLL_INTERVAL_MS,
    })
    &&& events[j] == (Event::<C, E>::BatchInfo { hash: batch.hash })
}

/// Event number `k` gives the committee, which was asked for in the configured
/// registry and for this batch.
pub open spec fn committee_at<C, E>(
    start: State<C, E>,
    events: Seq<Event<C, E>>,
    k: int,
    batch: Batch,
    committee: C,
) -> bool {
    &&& 0 <= k < events.len()
    &&& start.run(events.take(k)).pending == (Pending::<C, E>::AttesterCommitteeFor {
        registry_address: start.registry_address,
        batch,
    })
    &&& events[k] == Event::<C, E>::Committee(Some(committee))
}

/// The main node named the batch, then the database gave its hash, then the
/// registry gave the committee for it.
pub open spec fn vouched_for<C, E>(
    start: State<C, E>,
    events: Seq<Event<C, E>>,
    batch: Batch,
    committee: C,
) -> bool {
    exists|i: int, j: int, k: int|
        i < j < k && #[trigger] status_at(start, events, i, status_of(batch)) && #[trigger] hashed_at(
            start,
            events,
            j,
            batch,
        ) && #[trigger] committee_at(start, events, k, batch, committee)
}

/// The main node named the batch, and then the database gave its hash.
spec fn hash_vouched_for<C, E>(
    start: State<C, E>,
    events: Seq<Event<C, E>>,
    batch: Batch,
) -> bool {
    exists|i: int, j: int|
        i < j && #[trigger] status_at(start, events, i, status_of(batch)) && #[trigger] hashed_at(
            start,
            events,
            j,
            batch,
        )
}

/// Where the values of the batch at hand came from.
spec fn traced<C, E>(
    pending: Pending<C, E>,
    start: State<C, E>,
    events: Seq<Event<C, E>>,
) -> bool {
    match pending {
        Pending::WaitForBatchInfo { status, poll_interval_ms } => {
            &&& poll_interval_ms == POLL_INTERVAL_MS
            &&& exists|i: int| #[trigger] status_at(start, events, i, status)
        },
        Pending::AttesterCommitteeFor { registry_address, batch } => {
            &&& registry_address == start.registry_address
            &&& hash_vouched_for(start, events, batch)
        },
        Pending::Connection { batch, committee } => vouched_for(start, events, batch, committee),
        Pending::UpsertAttesterCommittee { batch, committee } => vouched_for(
            start,
            events,
            batch,
            committee,
        ),
        Pending::StartAttestation { batch, committee } => vouched_for(
            start,
            events,
            batch,
            committee,
        ),
        _ => true,
    }
}

proof fn lemma_status_stays<C, E>(
    start: State<C, E>,
    events: Seq<Event<C, E>>,
    event: Event<C, E>,
    i: int,
    status: AttestationStatus,
)
    requires
        status_at(start, events, i, status),
    ensures
        status_at(start, events.push(event), i, status),
{
    assert(events.push(event).take(i) == events.take(i));
}

proof fn lemma_hash_stays<C, E>(
    start: State<C, E>,
    events: Seq<Event<C, E>>,
    event: Event<C, E>,
    j: int,
    batch: Batch,
)
    requires
        hashed_at(start, events, j, batch),
    ensures
        hashed_at(start, events.push(event), j, batch),
{
    assert(events.push(event).take(j) == events.take(j));
}

proof fn lemma_committee_stays<C, E>(
    start: State<C, E>,
    events: Seq<Event<C, E>>,
    event: Event<C, E>,
    k: int,
    batch: Batch,
    committee: C,
)
    requires
        committee_at(start, events, k, batch, committee),
    ensures
        committee_at(start, events.push(event), k, batch, committee),
{
    assert(events.push(event).take(k) == events.take(k));
}

proof fn lemma_vouched_for_stays<C, E>(
    start: State<C, E>,
    events: Seq<Event<C, E>>,
    event: Event<C, E>,
    batch: Batch,
    committee: C,
)
    requires
        vouched_for(start, events, batch, committee),
    ensures
        vouched_for(start, events.push(event), batch, committee),
{
    let (i, j, k) = choose|i: int, j: int, k: int|
        i < j < k && #[trigger] status_at(start, events, i, status_of(batch))
            && #[trigger] hashed_at(start, events, j, batch) && #[trigger] committee_at(
            start,
            events,
            k,
            batch,
            committee,
        );
    lemma_status_stays(start, events, event, i, status_of(batch));
    lemma_hash_stays(start, events, event, j, batch);
    lemma_committee_stays(start, events, event, k, batch, committee);
}

proof fn lemma_hash_vouched_for_stays<C, E>(
    start: State<C, E>,
    events: Seq<Event<C, E>>,
    event: Event<C, E>,
    batch: Batch,
)
    requires
        hash_vouched_for(start, events, batch),
    ensures
        hash_vouched_for(start, events.push(event), batch),
{
    let (i, j) = choose|i: int, j: int|
        i < j && #[trigger] status_at(start, events, i, status_of(batch)) && #[trigger] hashed_at(
            start,
            events,
            j,
            batch,
        );
    lemma_status_stays(start, events, event, i, status_of(batch));
    lemma_hash_stays(start, events, event, j, batch);
}

/// The status is given: the batch at hand is the one that it names.
proof fn lemma_traced_from_status<C, E>(
    start: State<C, E>,
    events: Seq<Event<C, E>>,
    event: Event<C, E>,
)
    requires
        start.run(events).pending is FetchAttestationStatus,
    ensures
        traced(start.run(events).step(event).pending, start, events.push(event)),
{
    let last = events.len() as int;
    let after = start.run(events).step(event);
    match event {
        Event::StatusFetched(Ok(status)) => {
            let longer = events.push(event);
            assert(longer.take(last) == events);
            assert(longer[last] == Event::<C, E>::StatusFetched(Ok(status)));
            assert(status_at(start, longer, last, status));
            if after.pending is WaitForBatchInfo {
                assert(after.pending->WaitForBatchInfo_status == status);
            } else {
                assert(after.pending is Sleep || after.pending is Stopped);
            }
        },
        Event::StatusFetched(Err(_)) => {
            assert(after.pending is Sleep);
        },
        _ => {
            assert(after.pending is FetchAttestationStatus);
        },
    }
}

/// The hash is given: it goes with the batch that was named.
proof fn lemma_traced_from_hash<C, E>(
    start: State<C, E>,
    events: Seq<Event<C, E>>,
    event: Event<C, E>,
)
    requires
        start.run(events).pending is WaitForBatchInfo,
        start.run(events).registry_address == start.registry_address,
        traced(start.run(events).pending, start, events),
    ensures
        traced(start.run(events).step(event).pending, start, events.push(event)),
{
    let last = events.len() as int;
    let status = start.run(events).pending->WaitForBatchInfo_status;
    let i = choose|i: int| #[trigger] status_at(start, events, i, status);
    lemma_status_stays(start, events, event, i, status);
    if let Event::BatchInfo { hash } = event {
        let batch = Batch { genesis: status.genesis, hash, number: status.next_batch_to_attest };
        assert(status_of(batch) == status);
        assert(events.push(event).take(last) == events);
        assert(hashed_at(start, events.push(event), last, batch));
        assert(hash_vouched_for(start, events.push(event), batch));
    }
}

/// The committee is given: it goes with the batch and its hash.
proof fn lemma_traced_from_committee<C, E>(
    start: State<C, E>,
    events: Seq<Event<C, E>>,
    event: Event<C, E>,
)
    requires
        start.run(events).pending is AttesterCommitteeFor,
        traced(start.run(events).pending, start, events),
    ensures
        traced(start.run(events).step(event).pending, start, events.push(event)),
{
    let last = events.len() as int;
    let batch = start.run(events).pending->AttesterCommitteeFor_batch;
    lemma_hash_vouched_for_stays(start, events, event, batch);
    if let Event::Committee(Some(committee)) = event {
        let (i, j) = choose|i: int, j: int|
            i < j && #[trigger] status_at(start, events, i, status_of(batch))
                && #[trigger] hashed_at(start, events, j, batch);
        lemma_status_stays(start, events, event, i, status_of(batch));
        lemma_hash_stays(start, events, event, j, batch);
        assert(events.push(event).take(last) == events);
        assert(committee_at(start, events.push(event), last, batch, committee));
    }
}

proof fn lemma_batch_at_hand_is_traced<C, E>(start: State<C, E>, events: Seq<Event<C, E>>)
    requires
        start.pending is FetchAttestationStatus,
    ensures
        traced(start.run(events).pending, start, events),
        start.run(events).registry_address == start.registry_address,
    decreases events.len(),
{
    if events.len() > 0 {
        let rest = events.drop_last();
        let event = events.last();
        assert(events == rest.push(event));
        lemma_batch_at_hand_is_traced(start, rest);
        assert(start.run(events) == start.run(rest).step(event));
        match start.run(rest).pending {
            Pending::FetchAttestationStatus => lemma_traced_from_status(start, rest, event),
            Pending::WaitForBatchInfo { .. } => lemma_traced_from_hash(start, rest, event),
            Pending::AttesterCommitteeFor { .. } => lemma_traced_from_committee(start, rest, event),
            Pending::Connection { batch, committee } => {
                lemma_vouched_for_stays(start, rest, event, batch, committee);
            },
            Pending::UpsertAttesterCommittee { batch, committee } => {
                lemma_vouched_for_stays(start, rest, event, batch, committee);
            },
            Pending::StartAttestation { batch, committee } => {
                lemma_vouched_for_stays(start, rest, event, batch, committee);
            },
            _ => {},
        }
    }
}

proof fn lemma_started_are_vouched_for<C, E>(start: State<C, E>, events: Seq<Event<C, E>>)
    requires
        start.pending is FetchAttestationStatus,
    ensures
        forall|n: int|
            0 <= n < start.started(events).len() ==> vouched_for(
                start,
                events,
                (#[trigger] start.started(events)[n]).0,
                start.started(events)[n].1,
            ),
    decreases events.len(),
{
    if events.len() > 0 {
        let rest = events.drop_last();
        let event = events.last();
        assert(events == rest.push(event));
        lemma_started_are_vouched_for(start, rest);
        lemma_batch_at_hand_is_traced(start, rest);
        assert forall|n: int| 0 <= n < start.started(events).len() implies vouched_for(
            start,
            events,
            (#[trigger] start.started(events)[n]).0,
            start.started(events)[n].1,
        ) by {
            let (batch, committee) = start.started(events)[n];
            if n < start.started(rest).len() {
                assert(start.started(rest)[n] == (batch, committee));
            }
            lemma_vouched_for_stays(start, rest, event, batch, committee);
        }
    }
}

/// An attestation is started only of a batch that the main node named, under
/// the hash that the database gave for it, and by the committee that the
/// configured registry gave for it.
pub proof fn lemma_attested_batches_are_vouched_for<C, E>(
    genesis: GenesisHash,
    registry_address: Option<[u8; 20]>,
    events: Seq<Event<C, E>>,
    n: int,
)
    requires
        0 <= n < State::<C, E>::initial(genesis, registry_address).started(events).len(),
    ensures
        ({
            let start = State::<C, E>::initial(genesis, registry_address);
            let (batch, committee) = start.started(events)[n];
            vouched_for(start, events, batch, committee)
        }),
{
    let start = State::<C, E>::initial(genesis, registry_address);
    let (batch, committee) = start.started(events)[n];
    lemma_started_are_vouched_for(start, events);
    assert(vouched_for(start, events, batch, committee));
}

/// An attestation is started only right after the committee was stored for the
/// same batch.
pub proof fn lemma_committee_is_stored_before_attestation<C, E>(
    state: State<C, E>,
    event: Event<C, E>,
    batch: Batch,
    committee: C,
)
    requires
        !(state.pending is StartAttestation),
        state.step(event).pending == (Pending::<C, E>::StartAttestation { batch, committee }),
    ensures
        state.pending == (Pending::<C, E>::UpsertAttesterCommittee { batch, committee }),
        event is CommitteeStored,
{
}

/// As long as no step fails and the main node stays on the configured chain,
/// the controller goes on. That the status cannot be had does not stop it.
pub proof fn lemma_controller_goes_on<C, E>(
    genesis: GenesisHash,
    registry_address: Option<[u8; 20]>,
    events: Seq<Event<C, E>>,
)
    requires
        forall|i: int| 0 <= i < events.len() ==> !((#[trigger] events[i]) is Failed),
        forall|i: int|
            0 <= i < events.len() ==> ((#[trigger] events[i]) matches Event::StatusFetched(
                Ok(status),
            ) ==> status.genesis == genesis),
    ensures
        !(State::<C, E>::initial(genesis, registry_address).run(events).pending is Stopped),
        State::<C, E>::initial(genesis, registry_address).run(events).genesis == genesis,
    decreases events.len(),
{
    if events.len() > 0 {
        let rest = events.drop_last();
        assert forall|i: int| 0 <= i < rest.len() implies !((#[trigger] rest[i]) is Failed) by {
            assert(rest[i] == events[i]);
        }
        assert forall|i: int| 0 <= i < rest.len() implies ((
        #[trigger] rest[i]) matches Event::StatusFetched(Ok(status)) ==> status.genesis
            == genesis) by {
            assert(rest[i] == events[i]);
        }
        lemma_controller_goes_on::<C, E>(genesis, registry_address, rest);
        assert(events.last() == events[events.len() - 1]);
    }
}

/// Once stopped, the controller stays stopped.
pub proof fn lemma_controller_stays_stopped<C, E>(state: State<C, E>, events: Seq<Event<C, E>>)
    requires
        state.pending is Stopped,
    ensures
        state.run(events) == state,
        state.started(events).len() == 0,
    decreases events.len(),
{
    if events.len() > 0 {
        lemma_controller_stays_stopped(state, events.drop_last());
    }
}

/// A batch that the main node names on the configured chain is attested, unless
/// it or a later one was taken up before: once its hash and a committee are
/// there, the committee is stored and the attestation is started. After that,
/// the controller asks for the next status without a pause.
pub proof fn lemma_named_batch_is_attested<C, E>(
    state: State<C, E>,
    batch: Batch,
    committee: C,
)
    requires
        state.pending is FetchAttestationStatus,
        batch.genesis == state.genesis,
        state.next <= batch.number < u64::MAX,
    ensures
        ({
            let named = state.step(Event::StatusFetched(Ok(status_of(batch))));
            let hashed = named.step(Event::BatchInfo { hash: batch.hash });
            let stored = hashed.step(Event::Committee(Some(committee))).step(Event::Connected);
            let starting = stored.step(Event::CommitteeStored);
            &&& hashed.pending == (Pending::<C, E>::AttesterCommitteeFor {
                registry_address: state.registry_address,
                batch,
            })
            &&& stored.starts(Event::CommitteeStored) == Some((batch, committee))
            &&& starting.pending == (Pending::<C, E>::StartAttestation { batch, committee })
            &&& starting.step(Event::AttestationStarted) == State {
                next: (batch.number + 1) as u64,
                ..state
            }
        }),
{
}

/// Where the registry names no committee for a batch, the batch is settled
/// without an attestation: the controller goes on with the batches after it.
pub proof fn lemma_batch_without_committee_is_settled<C, E>(state: State<C, E>, batch: Batch)
    requires
        state.pending == (Pending::<C, E>::AttesterCommitteeFor {
            registry_address: state.registry_address,
            batch,
        }),
    ensures
        state.step(Event::Committee(None)) == state.with(Pending::FetchAttestationStatus),
{
}

impl<C, E> State<C, E> {
    /// The number that the event names in answer to a request for the status, if
    /// it is of the configured chain.
    pub open spec fn names(self, event: Event<C, E>) -> Option<u64> {
        match (self.pending, event) {
            (Pending::FetchAttestationStatus, Event::StatusFetched(Ok(status))) => {
                if status.genesis == self.genesis {
                    Some(status.next_batch_to_attest)
                } else {
                    None
                }
            },
            _ => None,
        }
    }

    /// The numbers that a series of events names, in that order.
    pub open spec fn named(self, events: Seq<Event<C, E>>) -> Seq<u64>
        decreases events.len(),
    {
        if events.len() == 0 {
            Seq::empty()
        } else {
            let earlier = self.named(events.drop_last());
            match self.run(events.drop_last()).names(events.last()) {
                Some(number) => earlier.push(number),
                None => earlier,
            }
        }
    }

    /// The batch whose committee the event gives, or that it has none.
    pub open spec fn settles(self, event: Event<C, E>) -> Option<(Batch, Option<C>)> {
        match (self.pending, event) {
            (Pending::AttesterCommitteeFor { batch, .. }, Event::Committee(committee)) => Some(
                (batch, committee),
            ),
            _ => None,
        }
    }

    /// The batches for which a series of events gives the committee, or that
    /// they have none, in that order.
    pub open spec fn settled(self, events: Seq<Event<C, E>>) -> Seq<(Batch, Option<C>)>
        decreases events.len(),
    {
        if events.len() == 0 {
            Seq::empty()
        } else {
            let earlier = self.settled(events.drop_last());
            match self.run(events.drop_last()).settles(events.last()) {
                Some(answer) => earlier.push(answer),
                None => earlier,
            }
        }
    }
}

/// The least number above all of these.
pub open spec fn beyond_all(numbers: Seq<u64>) -> int
    decreases numbers.len(),
{
    if numbers.len() == 0 {
        0
    } else if numbers.last() >= beyond_all(numbers.drop_last()) {
        numbers.last() + 1
    } else {
        beyond_all(numbers.drop_last())
    }
}

/// The numbers that are above all numbers before them.
pub open spec fn record_highs(numbers: Seq<u64>) -> Seq<u64>
    decreases numbers.len(),
{
    if numbers.len() == 0 {
        Seq::empty()
    } else if numbers.last() >= beyond_all(numbers.drop_last()) {
        record_highs(numbers.drop_last()).push(numbers.last())
    } else {
        record_highs(numbers.drop_last())
    }
}

/// The batches that have a committee.
pub open spec fn with_committee<C>(settled: Seq<(Batch, Option<C>)>) -> Seq<(Batch, C)>
    decreases settled.len(),
{
    if settled.len() == 0 {
        Seq::empty()
    } else {
        let earlier = with_committee(settled.drop_last());
        match settled.last() {
            (batch, Some(committee)) => earlier.push((batch, committee)),
            (_, None) => earlier,
        }
    }
}

/// The controller takes up exactly the batches whose numbers are record highs
/// among those that the main node named, in that order: it asks for a committee
/// for each of them, the one at hand excepted.
pub proof fn lemma_record_highs_are_taken_up<C, E>(
    genesis: GenesisHash,
    registry_address: Option<[u8; 20]>,
    events: Seq<Event<C, E>>,
)
    requires
        State::<C, E>::initial(genesis, registry_address).in_range(events),
    ensures
        ({
            let start = State::<C, E>::initial(genesis, registry_address);
            let state = start.run(events);
            let highs = record_highs(start.named(events));
            let settled = start.settled(events);
            &&& state.next == beyond_all(start.named(events))
            &&& settled.len() <= highs.len() <= settled.len() + 1
            &&& forall|i: int|
                0 <= i < settled.len() ==> (#[trigger] settled[i]).0.number == highs[i]
            &&& match state.pending {
                Pending::WaitForBatchInfo { status, .. } => {
                    &&& highs.len() == settled.len() + 1
                    &&& highs.last() == status.next_batch_to_attest
                },
                Pending::AttesterCommitteeFor { batch, .. } => {
                    &&& highs.len() == settled.len() + 1
                    &&& highs.last() == batch.number
                },
                Pending::Stopped(_) => true,
                _ => highs.len() == settled.len(),
            }
        }),
    decreases events.len(),
{
    if events.len() > 0 {
        let start = State::<C, E>::initial(genesis, registry_address);
        let rest = events.drop_last();
        let before = start.run(rest);
        lemma_record_highs_are_taken_up::<C, E>(genesis, registry_address, rest);
        assert(start.run(events) == before.step(events.last()));
        match before.names(events.last()) {
            Some(number) => {
                assert(start.named(events) == start.named(rest).push(number));
                assert(start.named(events).drop_last() == start.named(rest));
                assert(start.settled(events) == start.settled(rest));
            },
            None => {
                assert(start.named(events) == start.named(rest));
                match before.settles(events.last()) {
                    Some(answer) => {
                        assert(start.settled(events) == start.settled(rest).push(answer));
                    },
                    None => {
                        assert(start.settled(events) == start.settled(rest));
                    },
                }
            },
        }
    }
}

/// Of the batches taken up, exactly those that have a committee are attested, in
/// the same order and each by its committee. Only the last of them may still be
/// on its way.
pub proof fn lemma_batches_with_committee_are_attested<C, E>(
    genesis: GenesisHash,
    registry_address: Option<[u8; 20]>,
    events: Seq<Event<C, E>>,
)
    ensures
        ({
            let start = State::<C, E>::initial(genesis, registry_address);
            let due = with_committee(start.settled(events));
            let started = start.started(events);
            match start.run(events).pending {
                Pending::Connection { batch, committee } => due == started.push(
                    (batch, committee),
                ),
                Pending::UpsertAttesterCommittee { batch, committee } => due == started.push(
                    (batch, committee),
                ),
                Pending::Stopped(_) => {
                    ||| due == started
                    ||| due.len() == started.len() + 1 && started == due.drop_last()
                },
                _ => due == started,
            }
        }),
    decreases events.len(),
{
    if events.len() > 0 {
        let start = State::<C, E>::initial(genesis, registry_address);
        let rest = events.drop_last();
        let before = start.run(rest);
        lemma_batches_with_committee_are_attested::<C, E>(genesis, registry_address, rest);
        assert(start.run(events) == before.step(events.last()));
        match before.settles(events.last()) {
            Some(answer) => {
                assert(start.settled(events) == start.settled(rest).push(answer));
                assert(start.settled(events).drop_last() == start.settled(rest));
                assert(start.started(events) == start.started(rest));
            },
            None => {
                assert(start.settled(events) == start.settled(rest));
                match before.starts(events.last()) {
                    Some(attestation) => {
                        assert(start.started(events) == start.started(rest).push(attestation));
                    },
                    None => {
                        assert(start.started(events) == start.started(rest));
                        let started = start.started(rest);
                        if let Pending::Connection { batch, committee } = before.pending {
                            assert(started.push((batch, committee)).drop_last() == started);
                        }
                        if let Pending::UpsertAttesterCommittee { batch, committee } =
                            before.pending {
                            assert(started.push((batch, committee)).drop_last() == started);
                        }
                    },
                }
            },
        }
    }
}

/// A status that cannot be had, or that names a batch that was taken up before
/// or an earlier one, has no effect but the pause that follows it: without the
/// two events, all goes the same way.
pub proof fn lemma_idle_polls_have_no_effect<C, E>(
    start: State<C, E>,
    earlier: Seq<Event<C, E>>,
    result: Result<AttestationStatus, TaskError<E>>,
    later: Seq<Event<C, E>>,
)
    requires
        start.run(earlier).pending is FetchAttestationStatus,
        result matches Ok(status) ==> {
            &&& status.genesis == start.run(earlier).genesis
            &&& status.next_batch_to_attest < start.run(earlier).next
        },
    ensures
        ({
            let polled = earlier.push(Event::StatusFetched(result)).push(Event::Slept);
            &&& start.run(polled + later) == start.run(earlier + later)
            &&& start.started(polled + later) == start.started(earlier + later)
        }),
    decreases later.len(),
{
    let asked = earlier.push(Event::StatusFetched(result));
    let polled = asked.push(Event::Slept);
    if later.len() == 0 {
        assert(polled + later == polled);
        assert(earlier + later == earlier);
        lemma_one_more(start, earlier, Event::StatusFetched(result));
        lemma_one_more(start, asked, Event::Slept);
    } else {
        let rest = later.drop_last();
        lemma_idle_polls_have_no_effect(start, earlier, result, rest);
        assert(polled + later == (polled + rest).push(later.last()));
        assert(earlier + later == (earlier + rest).push(later.last()));
        lemma_one_more(start, polled + rest, later.last());
        lemma_one_more(start, earlier + rest, later.last());
    }
}

/// What holds of a series of events and one more.
proof fn lemma_one_more<C, E>(
    start: State<C, E>,
    events: Seq<Event<C, E>>,
    event: Event<C, E>,
)
    ensures
        start.run(events.push(event)) == start.run(events).step(event),
        start.started(events.push(event)) == match start.run(events).starts(event) {
            Some(attestation) => start.started(events).push(attestation),
            None => start.started(events),
        },
{
    assert(events.push(event).drop_last() == events);
}

/// The controller begins with the configured chain and registry, with no batch
/// taken up, by asking for the status.
pub proof fn lemma_controller_starts_afresh<C, E>(
    genesis: GenesisHash,
    registry_address: Option<[u8; 20]>,
)
    ensures
        ({
            let start = State::<C, E>::initial(genesis, registry_address);
            &&& start.genesis == genesis
            &&& start.registry_address == registry_address
            &&& start.next == 0
            &&& start.pending is FetchAttestationStatus
        }),
{
}

/// Every status is checked, not just the first one: whatever was attested
/// before, one of another chain ends the controller with a genesis mismatch.
pub proof fn lemma_other_chain_ends_the_controller<C, E>(
    state: State<C, E>,
    status: AttestationStatus,
    events: Seq<Event<C, E>>,
)
    requires
        state.pending is FetchAttestationStatus,
        status.genesis != state.genesis,
    ensures
        ({
            let after = state.step(Event::StatusFetched(Ok(status)));
            &&& after.pending == Pending::<C, E>::Stopped(
                TaskError::Internal(Report::Message(Context::GenesisMismatch)),
            )
            &&& after.run(events) == after
            &&& after.started(events).len() == 0
        }),
{
    let after = state.step(Event::StatusFetched(Ok(status)));
    lemma_controller_stays_stopped(after, events);
}

/// A whole run ends so as soon as a status of another chain comes in answer to a
/// request, whatever came before.
pub proof fn lemma_run_ends_on_another_chain<C, E>(
    genesis: GenesisHash,
    registry_address: Option<[u8; 20]>,
    events: Seq<Event<C, E>>,
    i: int,
    status: AttestationStatus,
)
    requires
        status_at(State::<C, E>::initial(genesis, registry_address), events, i, status),
        status.genesis != genesis,
    ensures
        State::<C, E>::initial(genesis, registry_address).run(events).pending == Pending::<
            C,
            E,
        >::Stopped(TaskError::Internal(Report::Message(Context::GenesisMismatch))),
    decreases events.len(),
{
    let start = State::<C, E>::initial(genesis, registry_address);
    let rest = events.drop_last();
    assert(start.run(events) == start.run(rest).step(events.last()));
    if i == rest.len() {
        assert(events.take(i) == rest);
        lemma_configuration_is_kept(start, rest);
    } else {
        assert(rest.take(i) == events.take(i));
        lemma_run_ends_on_another_chain::<C, E>(genesis, registry_address, rest, i, status);
    }
}

proof fn lemma_configuration_is_kept<C, E>(start: State<C, E>, events: Seq<Event<C, E>>)
    ensures
        start.run(events).genesis == start.genesis,
        start.run(events).registry_address == start.registry_address,
    decreases events.len(),
{
    if events.len() > 0 {
        lemma_configuration_is_kept(start, events.drop_last());
    }
}

/// A status of the configured chain names a batch. One that was not taken up yet
/// is waited for, and nothing at or below it is taken up again; an earlier one
/// leads to a pause, as does a status that cannot be had.
pub proof fn lemma_each_status_has_its_meaning<C, E>(
    state: State<C, E>,
    status: AttestationStatus,
    error: TaskError<E>,
)
    requires
        state.pending is FetchAttestationStatus,
        status.genesis == state.genesis,
    ensures
        ({
            let after = state.step(Event::StatusFetched(Ok(status)));
            let pause = state.with(Pending::Sleep { ms: 5000 });
            let number = status.next_batch_to_attest;
            &&& state.next <= number < 0xffff_ffff_ffff_ffff ==> {
                &&& after.pending == (Pending::<C, E>::WaitForBatchInfo {
                    status,
                    poll_interval_ms: 5000,
                })
                &&& after.next == number + 1
            }
            &&& number < state.next ==> after.pending == pause.pending && after.next == state.next
            &&& state.step(Event::StatusFetched(Err(error))).pending == pause.pending
            &&& state.step(Event::StatusFetched(Err(error))).next == state.next
            &&& pause.pending == (Pending::<C, E>::Sleep { ms: 5000 })
        }),
{
}

/// However long the pause, its end leads back to a request for the status.
pub proof fn lemma_every_pause_ends_in_a_request<C, E>(state: State<C, E>)
    requires
        state.pending is Sleep,
    ensures
        state.step(Event::Slept).pending is FetchAttestationStatus,
        state.step(Event::Slept).next == state.next,
{
}

/// From the hash on, the batch at hand goes through its stations as it is: the
/// committee is asked for in the configured registry, stored over a connection,
/// and only then the attestation is started. After that, or where no committee
/// is there, the status is asked for again.
pub proof fn lemma_batch_goes_through_its_stations<C, E>(
    state: State<C, E>,
    hash: BatchHash,
    batch: Batch,
    committee: C,
)
    ensures
        ({
            let next = |event: Event<C, E>| state.step(event).pending;
            &&& state.pending matches Pending::WaitForBatchInfo { status, .. } ==> next(
                Event::BatchInfo { hash },
            ) == (Pending::<C, E>::AttesterCommitteeFor {
                registry_address: state.registry_address,
                batch: Batch {
                    genesis: status.genesis,
                    hash,
                    number: status.next_batch_to_attest,
                },
            })
            &&& state.pending matches Pending::AttesterCommitteeFor { batch, .. } ==> {
                &&& next(Event::Committee(Some(committee))) == (Pending::<C, E>::Connection {
                    batch,
                    committee,
                })
                &&& next(Event::Committee(None)) is FetchAttestationStatus
            }
            &&& state.pending == (Pending::<C, E>::Connection { batch, committee }) ==> next(
                Event::Connected,
            ) == (Pending::<C, E>::UpsertAttesterCommittee { batch, committee })
            &&& state.pending == (Pending::<C, E>::UpsertAttesterCommittee { batch, committee })
                ==> next(Event::CommitteeStored) == (Pending::<C, E>::StartAttestation {
                batch,
                committee,
            })
            &&& state.pending is StartAttestation ==> next(
                Event::AttestationStarted,
            ) is FetchAttestationStatus
        }),
{
}

/// A failure of a step ends the controller with the error of that step, seen
/// through the context of the step. Only the request for the status has no such
/// failure: it is answered in one way or another.
pub proof fn lemma_failure_ends_the_controller<C, E>(state: State<C, E>, error: TaskError<E>)
    ensures
        ({
            let after = state.step(Event::Failed(error));
            let ended = |error: TaskError<E>| after.pending == Pending::<C, E>::Stopped(error);
            match state.pending {
                Pending::Sleep { .. } => ended(error),
                Pending::WaitForBatchInfo { .. } => ended(error.spec_wrap(Context::WaitForBatchInfo)),
                Pending::AttesterCommitteeFor { .. } => ended(
                    error.spec_wrap(Context::AttesterCommitteeFor),
                ),
                Pending::Connection { .. } => ended(error.spec_wrap(Context::CommitteeConnection)),
                Pending::UpsertAttesterCommittee { .. } => ended(
                    error.spec_wrap(Context::UpsertAttesterCommittee),
                ),
                Pending::StartAttestation { .. } => ended(
                    error.spec_wrap(Context::StartAttestation),
                ),
                Pending::FetchAttestationStatus | Pending::Stopped(_) => after == state,
            }
        }),
{
}

/// The configured chain and registry never change, nor does the batch to come
/// but by a status. An event moves the controller only where it answers what is
/// pending.
pub proof fn lemma_controller_ignores_what_it_did_not_ask_for<C, E>(
    state: State<C, E>,
    event: Event<C, E>,
)
    ensures
        state.step(event).genesis == state.genesis,
        state.step(event).registry_address == state.registry_address,
        !(event is StatusFetched) ==> state.step(event).next == state.next,
        state.pending is Stopped ==> state.step(event) == state,
        event is StatusFetched && !(state.pending is FetchAttestationStatus) ==> state.step(event)
            == state,
        event is Slept && !(state.pending is Sleep) ==> state.step(event) == state,
        event is BatchInfo && !(state.pending is WaitForBatchInfo) ==> state.step(event) == state,
        event is Committee && !(state.pending is AttesterCommitteeFor) ==> state.step(event)
            == state,
        event is Connected && !(state.pending is Connection) ==> state.step(event) == state,
        event is CommitteeStored && !(state.pending is UpsertAttesterCommittee) ==> state.step(
            event,
        ) == state,
        event is AttestationStarted && !(state.pending is StartAttestation) ==> state.step(event)
            == state,
{
}

/// The only event that the controller cannot take in is a status of the
/// configured chain, asked for, that names the last batch number there is.
pub proof fn lemma_only_the_last_number_overflows<C, E>(state: State<C, E>, event: Event<C, E>)
    ensures
        state.overflows(event) <==> {
            &&& state.pending is FetchAttestationStatus
            &&& event matches Event::StatusFetched(Ok(status))
            &&& status.genesis == state.genesis
            &&& status.next_batch_to_attest == 0xffff_ffff_ffff_ffff
        },
{
}

/// What each reply to a request for the status means.
pub proof fn lemma_each_status_reply_has_its_meaning<E>(status: AttestationStatus, error: E)
    ensures
        spec_fetch_attestation_status(StatusReply::<E>::Status(status)) == Ok::<
            AttestationStatus,
            TaskError<E>,
        >(status),
        spec_fetch_attestation_status(StatusReply::<E>::Canceled) == Err::<
            AttestationStatus,
            TaskError<E>,
        >(TaskError::Canceled),
        spec_fetch_attestation_status(StatusReply::<E>::Absent) == Err::<
            AttestationStatus,
            TaskError<E>,
        >(TaskError::Internal(Report::Message(Context::AttestationStatusMissing))),
        spec_fetch_attestation_status(StatusReply::Failed(error)) == Err::<
            AttestationStatus,
            TaskError<E>,
        >(
            TaskError::Internal(
                Report::Wrapped(Context::AttestationStatus, Box::new(Report::Outside(error))),
            ),
        ),
        spec_fetch_attestation_status(StatusReply::Malformed(error)) == Err::<
            AttestationStatus,
            TaskError<E>,
        >(
            TaskError::Internal(
                Report::Wrapped(Context::Deserialize, Box::new(Report::Outside(error))),
            ),
        ),
{
}

} // verus!
