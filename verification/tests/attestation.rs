use external_node::attestation::{
    fetch_attestation_status, AttestationController, AttestationStatus, Batch, BatchHash, Event,
    Pending, StatusReply,
};
use external_node::config::GlobalConfig;
use external_node::error::{Context, TaskError, Report};
use external_node::genesis::{Genesis, GenesisHash};
use zksync_consensus_roles::validator;

type Controller = AttestationController<&'static str, &'static str>;

fn genesis(fork: u64) -> Genesis {
    let key = validator::SecretKey::generate();
    let raw = validator::GenesisRaw {
        chain_id: validator::ChainId(1337),
        fork_number: validator::ForkNumber(fork),
        protocol_version: validator::ProtocolVersion::CURRENT,
        first_block: validator::BlockNumber(5),
        validators: validator::Committee::new([validator::WeightedValidator {
            key: key.public(),
            weight: 1,
        }])
        .unwrap(),
        leader_selection: validator::LeaderSelectionMode::RoundRobin,
    };
    Genesis::decode(zksync_protobuf::encode(&raw.with_hash())).unwrap()
}

fn config() -> GlobalConfig {
    let mut config = GlobalConfig::from_genesis(genesis(0));
    config.registry_address = Some([7; 20]);
    config
}

fn status(genesis: GenesisHash, batch: u64) -> Event<&'static str, &'static str> {
    Event::StatusFetched(Ok(AttestationStatus {
        genesis,
        next_batch_to_attest: batch,
    }))
}

fn hash(byte: u8) -> BatchHash {
    BatchHash {
        keccak256: [byte; 32],
    }
}

/// Attests `batch` and returns to polling.
fn attest(controller: Controller, genesis: GenesisHash, batch: u64) -> Controller {
    let controller = controller
        .step(status(genesis, batch))
        .step(Event::BatchInfo { hash: hash(1) })
        .step(Event::Committee(Some("committee")))
        .step(Event::Connected)
        .step(Event::CommitteeStored);
    assert!(matches!(
        controller.pending(),
        Pending::StartAttestation { .. }
    ));
    controller.step(Event::AttestationStarted)
}

#[test]
fn a_batch_is_attested_step_by_step() {
    let config = config();
    let genesis = config.genesis.hash();
    let controller = Controller::new(&config);
    assert!(matches!(
        controller.pending(),
        Pending::FetchAttestationStatus
    ));
    let controller = controller.step(status(genesis, 7));
    match controller.pending() {
        Pending::WaitForBatchInfo {
            status,
            poll_interval_ms,
        } => {
            assert_eq!(status.next_batch_to_attest, 7);
            assert_eq!(*poll_interval_ms, 5000);
        }
        other => panic!("{other:?}"),
    }
    let controller = controller.step(Event::BatchInfo { hash: hash(9) });
    let batch = Batch {
        genesis,
        hash: hash(9),
        number: 7,
    };
    match controller.pending() {
        Pending::AttesterCommitteeFor {
            registry_address,
            batch: b,
        } => {
            assert_eq!(*registry_address, Some([7; 20]));
            assert_eq!(*b, batch);
        }
        other => panic!("{other:?}"),
    }
    let controller = controller.step(Event::Committee(Some("alice, bob")));
    assert!(matches!(controller.pending(), Pending::Connection { .. }));
    let controller = controller.step(Event::Connected);
    match controller.pending() {
        Pending::UpsertAttesterCommittee {
            batch: b,
            committee,
        } => {
            assert_eq!(*b, batch);
            assert_eq!(*committee, "alice, bob");
        }
        other => panic!("{other:?}"),
    }
    let controller = controller.step(Event::CommitteeStored);
    match controller.pending() {
        Pending::StartAttestation {
            batch: b,
            committee,
        } => {
            assert_eq!(*b, batch);
            assert_eq!(*committee, "alice, bob");
        }
        other => panic!("{other:?}"),
    }
    let controller = controller.step(Event::AttestationStarted);
    assert!(matches!(
        controller.pending(),
        Pending::FetchAttestationStatus
    ));
}

#[test]
fn a_batch_is_not_attested_twice() {
    let config = config();
    let genesis = config.genesis.hash();
    let controller = attest(Controller::new(&config), genesis, 7);
    // The main node still asks for the same batch, or for an earlier one.
    let controller = controller.step(status(genesis, 7));
    assert!(matches!(controller.pending(), Pending::Sleep { ms: 5000 }));
    let controller = controller.step(Event::Slept).step(status(genesis, 3));
    assert!(matches!(controller.pending(), Pending::Sleep { ms: 5000 }));
    let controller = controller.step(Event::Slept).step(status(genesis, 8));
    assert!(matches!(
        controller.pending(),
        Pending::WaitForBatchInfo { .. }
    ));
}

#[test]
fn batches_may_be_skipped() {
    let config = config();
    let genesis = config.genesis.hash();
    let controller = attest(Controller::new(&config), genesis, 0);
    attest(controller, genesis, 1_000_000);
}

#[test]
fn only_record_highs_are_attested() {
    let config = config();
    let genesis = config.genesis.hash();
    let mut controller = Controller::new(&config);
    let mut attested = vec![];
    let numbers = [5, 3, 5, 9, 9, 6, 10, 0];
    for number in numbers {
        controller = controller.step(status(genesis, number));
        if matches!(controller.pending(), Pending::Sleep { .. }) {
            controller = controller.step(Event::Slept);
            continue;
        }
        // The registry names no committee for batch 9.
        let committee = if number == 9 { None } else { Some("c") };
        controller = controller
            .step(Event::BatchInfo { hash: hash(1) })
            .step(Event::Committee(committee))
            .step(Event::Connected)
            .step(Event::CommitteeStored);
        if let Pending::StartAttestation { batch, .. } = controller.pending() {
            attested.push(batch.number);
            controller = controller.step(Event::AttestationStarted);
        }
    }
    assert_eq!(attested, vec![5, 10]);
}

#[test]
fn idle_polls_have_no_effect() {
    let config = config();
    let genesis = config.genesis.hash();
    let controller = attest(Controller::new(&config), genesis, 7)
        .step(Event::StatusFetched(Err(TaskError::Canceled)))
        .step(Event::Slept)
        .step(status(genesis, 7))
        .step(Event::Slept);
    assert!(matches!(
        controller.pending(),
        Pending::FetchAttestationStatus
    ));
    attest(controller, genesis, 8);
}

#[test]
fn attestation_may_not_be_required() {
    let config = config();
    let genesis = config.genesis.hash();
    let controller = Controller::new(&config)
        .step(status(genesis, 2))
        .step(Event::BatchInfo { hash: hash(2) })
        .step(Event::Committee(None));
    // No pause before the next status is asked for, and batch 2 is settled.
    assert!(matches!(
        controller.pending(),
        Pending::FetchAttestationStatus
    ));
    let controller = controller.step(status(genesis, 2));
    assert!(matches!(controller.pending(), Pending::Sleep { .. }));
}

#[test]
fn another_genesis_stops_the_controller() {
    let config = config();
    let controller = Controller::new(&config).step(status(genesis(1).hash(), 7));
    match controller.pending() {
        Pending::Stopped(error) => {
            assert_eq!(
                *error,
                TaskError::Internal(Report::Message(Context::GenesisMismatch))
            );
        }
        other => panic!("{other:?}"),
    }
    let controller = controller.step(Event::Slept);
    assert!(matches!(controller.pending(), Pending::Stopped(_)));
    assert_eq!(
        controller.into_outcome(),
        Some(TaskError::Internal(Report::Message(Context::GenesisMismatch)))
    );
    assert_eq!(Controller::new(&config).into_outcome(), None);
}

#[test]
fn a_missing_status_is_asked_for_again() {
    let config = config();
    let controller = Controller::new(&config)
        .step(Event::StatusFetched(Err(TaskError::Canceled)))
        .step(Event::Slept)
        .step(Event::StatusFetched(Err(TaskError::Internal(
            Report::Outside("no route"),
        ))));
    assert!(matches!(controller.pending(), Pending::Sleep { ms: 5000 }));
    let controller = controller.step(Event::Failed(TaskError::Canceled));
    assert!(matches!(
        controller.pending(),
        Pending::Stopped(TaskError::Canceled)
    ));
}

fn stopped(controller: Controller, context: Context) {
    match controller.step(Event::Failed(TaskError::Internal(Report::Outside("e")))).pending() {
        Pending::Stopped(error) => assert_eq!(
            *error,
            TaskError::Internal(Report::Wrapped(context, Box::new(Report::Outside("e"))))
        ),
        other => panic!("{other:?}"),
    }
}

#[test]
fn every_step_reports_its_own_failure() {
    let config = config();
    let genesis = config.genesis.hash();
    let waiting = || Controller::new(&config).step(status(genesis, 1));
    let looking_up = || waiting().step(Event::BatchInfo { hash: hash(1) });
    let connecting = || looking_up().step(Event::Committee(Some("c")));
    let storing = || connecting().step(Event::Connected);
    let starting = || storing().step(Event::CommitteeStored);
    stopped(waiting(), Context::WaitForBatchInfo);
    stopped(looking_up(), Context::AttesterCommitteeFor);
    stopped(connecting(), Context::CommitteeConnection);
    stopped(storing(), Context::UpsertAttesterCommittee);
    stopped(starting(), Context::StartAttestation);
}

#[test]
fn an_event_that_answers_nothing_changes_nothing() {
    let config = config();
    let controller = Controller::new(&config)
        .step(Event::Slept)
        .step(Event::Connected)
        .step(Event::Failed(TaskError::Canceled));
    assert!(matches!(
        controller.pending(),
        Pending::FetchAttestationStatus
    ));
}

#[test]
fn the_last_batch_number_overflows() {
    let config = config();
    let genesis = config.genesis.hash();
    let controller = Controller::new(&config);
    assert!(controller.overflows(&status(genesis, u64::MAX)));
    assert!(!controller.overflows(&status(genesis, u64::MAX - 1)));
    assert!(!controller.overflows(&Event::Slept));
    let controller = controller.step(status(genesis, u64::MAX - 1));
    assert!(!controller.overflows(&status(genesis, u64::MAX)));
}

#[test]
fn status_replies_are_told_apart() {
    let ok = AttestationStatus {
        genesis: genesis(0).hash(),
        next_batch_to_attest: 4,
    };
    assert_eq!(
        fetch_attestation_status::<&str>(StatusReply::Status(ok)),
        Ok(ok)
    );
    assert_eq!(
        fetch_attestation_status::<&str>(StatusReply::Canceled),
        Err(TaskError::Canceled)
    );
    assert_eq!(
        fetch_attestation_status(StatusReply::Failed("x")),
        Err(TaskError::Internal(Report::Wrapped(
            Context::AttestationStatus,
            Box::new(Report::Outside("x"))
        )))
    );
    assert_eq!(
        fetch_attestation_status::<&str>(StatusReply::Absent),
        Err(TaskError::Internal(Report::Message(
            Context::AttestationStatusMissing
        )))
    );
    assert_eq!(
        fetch_attestation_status(StatusReply::Malformed("y")),
        Err(TaskError::Internal(Report::Wrapped(
            Context::Deserialize,
            Box::new(Report::Outside("y"))
        )))
    );
}
