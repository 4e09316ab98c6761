use external_node::bytes::same_bytes;
use external_node::config::{find_peer, GlobalConfig, SeedPeer};
use external_node::config_fetch::{
    after_genesis, after_global_config, config_of_genesis, Decision, GenesisReply,
    GlobalConfigReply, RpcError, RpcErrorKind,
};
use external_node::config_monitor::{change_message, ConfigMonitor, Event, Pending};
use external_node::error::{Context, TaskError, Report};
use external_node::genesis::{Genesis, GenesisHash};
use zksync_consensus_roles::validator;
use zksync_protobuf::ProtoFmt as _;

fn raw_genesis(key: &validator::SecretKey, fork: u64) -> validator::Genesis {
    validator::GenesisRaw {
        chain_id: validator::ChainId(1337),
        fork_number: validator::ForkNumber(fork),
        protocol_version: validator::ProtocolVersion::CURRENT,
        first_block: validator::BlockNumber(5),
        validators: validator::Committee::new([validator::WeightedValidator {
            key: key.public(),
            weight: 10,
        }])
        .unwrap(),
        leader_selection: validator::LeaderSelectionMode::RoundRobin,
    }
    .with_hash()
}

fn json(genesis: &validator::Genesis) -> String {
    zksync_protobuf::serde::Serialize.proto_fmt_to_json(genesis)
}

fn digest(hash: validator::GenesisHash) -> GenesisHash {
    GenesisHash {
        keccak256: hash.build().keccak256.unwrap().try_into().unwrap(),
    }
}

fn genesis(key: &validator::SecretKey, fork: u64) -> Genesis {
    Genesis::decode(zksync_protobuf::encode(&raw_genesis(key, fork))).unwrap()
}

fn peer(key: &str, host: &str) -> SeedPeer {
    SeedPeer {
        key: key.as_bytes().to_vec(),
        host: host.as_bytes().to_vec(),
    }
}

fn rich_config(key: &validator::SecretKey, peers: Vec<SeedPeer>) -> GlobalConfig {
    GlobalConfig {
        genesis: genesis(key, 0),
        registry_address: Some([3; 20]),
        seed_peers: peers,
    }
}

#[test]
fn bytes_are_compared() {
    assert!(same_bytes(b"", b""));
    assert!(same_bytes(b"abc", b"abc"));
    assert!(!same_bytes(b"abc", b"abd"));
    assert!(!same_bytes(b"abc", b"ab"));
}

#[test]
fn genesis_is_decoded_with_its_hash() {
    let key = validator::SecretKey::generate();
    let outside = raw_genesis(&key, 2);
    let encoding = zksync_protobuf::encode(&outside);
    let genesis = Genesis::decode(encoding.clone()).unwrap();
    assert_eq!(genesis.encoding(), &encoding[..]);
    assert_eq!(genesis.hash(), digest(outside.hash()));
    assert!(Genesis::decode(vec![1, 2, 3]).is_err());
    assert!(Genesis::decode(vec![]).is_err());
}

#[test]
fn genesis_is_read_from_json() {
    let key = validator::SecretKey::generate();
    let outside = raw_genesis(&key, 2);
    let text = json(&outside);
    let genesis = Genesis::from_json(&text).unwrap();
    assert_eq!(
        genesis.encoding(),
        &zksync_protobuf::encode(&outside)[..]
    );
    assert!(genesis.hash().same_as(&digest(outside.hash())));
    assert!(!genesis
        .hash()
        .same_as(&digest(raw_genesis(&key, 3).hash())));
    // Unknown fields are ignored.
    let more = text.replacen('{', "{\"somethingNew\": 1,", 1);
    assert_eq!(Genesis::from_json(&more).unwrap().hash(), genesis.hash());
    assert!(Genesis::from_json("{}").is_err());
    assert!(Genesis::from_json("nonsense").is_err());
}

/// Whatever genesis is read from JSON, its encoding can be decoded again.
#[test]
fn genesis_read_from_json_can_be_decoded() {
    let keys = [
        validator::SecretKey::generate(),
        validator::SecretKey::generate(),
    ];
    let (a, b) = (keys[0].public(), keys[1].public());
    for leader_selection in [
        validator::LeaderSelectionMode::RoundRobin,
        validator::LeaderSelectionMode::Weighted,
        validator::LeaderSelectionMode::Sticky(a.clone()),
        validator::LeaderSelectionMode::Rota(vec![b.clone(), a.clone(), b.clone()]),
    ] {
        let outside = validator::GenesisRaw {
            chain_id: validator::ChainId(0),
            fork_number: validator::ForkNumber(u64::MAX),
            protocol_version: validator::ProtocolVersion::CURRENT,
            first_block: validator::BlockNumber(0),
            validators: validator::Committee::new(keys.iter().map(|key| {
                validator::WeightedValidator {
                    key: key.public(),
                    weight: 3,
                }
            }))
            .unwrap(),
            leader_selection,
        }
        .with_hash();
        let read = Genesis::from_json(&json(&outside)).unwrap();
        let decoded = Genesis::decode(read.encoding().to_vec()).unwrap();
        assert_eq!(decoded.hash(), digest(outside.hash()));
        assert_eq!(decoded.hash(), read.hash());
    }
}

#[test]
fn the_later_of_two_peers_counts() {
    let peers = [peer("a", "1"), peer("b", "2"), peer("a", "3")];
    assert_eq!(find_peer(&peers, b"a"), Some(&b"3"[..]));
    assert_eq!(find_peer(&peers, b"b"), Some(&b"2"[..]));
    assert_eq!(find_peer(&peers, b"c"), None);
}

#[test]
fn configs_are_compared() {
    let key = validator::SecretKey::generate();
    let a = rich_config(&key, vec![peer("a", "1"), peer("b", "2")]);
    // The order of the peers does not matter.
    assert!(a.same_as(&rich_config(&key, vec![peer("b", "2"), peer("a", "1")])));
    assert!(a.same_as(&rich_config(
        &key,
        vec![peer("b", "9"), peer("a", "1"), peer("b", "2")]
    )));
    assert!(!a.same_as(&rich_config(&key, vec![peer("a", "1")])));
    assert!(!rich_config(&key, vec![peer("a", "1")]).same_as(&a));
    assert!(!a.same_as(&rich_config(&key, vec![peer("a", "1"), peer("b", "3")])));
    let mut other = rich_config(&key, vec![peer("a", "1"), peer("b", "2")]);
    other.registry_address = None;
    assert!(!a.same_as(&other));
    other.registry_address = Some([4; 20]);
    assert!(!a.same_as(&other));
    other.registry_address = Some([3; 20]);
    assert!(a.same_as(&other));
    other.genesis = genesis(&key, 1);
    assert!(!a.same_as(&other));
}

#[test]
fn config_is_taken_as_it_is() {
    let key = validator::SecretKey::generate();
    let config = rich_config(&key, vec![peer("a", "1")]);
    match after_global_config::<&str>(GlobalConfigReply::Config(config)) {
        Decision::Finished(Ok(taken)) => {
            assert!(taken.same_as(&rich_config(&key, vec![peer("a", "1")])));
        }
        other => panic!("{other:?}"),
    }
}

fn config_error(reply: GlobalConfigReply<&'static str>) -> Option<TaskError<&'static str>> {
    match after_global_config(reply) {
        Decision::Finished(Err(error)) => Some(error),
        Decision::AskForGenesis => None,
        other => panic!("{other:?}"),
    }
}

fn rpc(kind: RpcErrorKind) -> GlobalConfigReply<&'static str> {
    GlobalConfigReply::Failed(RpcError { kind, cause: "rpc" })
}

#[test]
fn genesis_is_asked_for_where_the_method_may_be_missing() {
    assert_eq!(config_error(rpc(RpcErrorKind::Transport)), None);
    assert_eq!(config_error(rpc(RpcErrorKind::Call { code: -32601 })), None);
    let failed = Some(TaskError::Internal(Report::Wrapped(
        Context::ConsensusGlobalConfig,
        Box::new(Report::Outside("rpc")),
    )));
    assert_eq!(config_error(rpc(RpcErrorKind::Call { code: -32603 })), failed);
    assert_eq!(config_error(rpc(RpcErrorKind::Other)), failed);
}

#[test]
fn config_errors_are_told_apart() {
    assert_eq!(
        config_error(GlobalConfigReply::Canceled),
        Some(TaskError::Canceled)
    );
    assert_eq!(
        config_error(GlobalConfigReply::Absent),
        Some(TaskError::Internal(Report::Message(
            Context::NotRunningConsensus
        )))
    );
    assert_eq!(
        config_error(GlobalConfigReply::Malformed("m")),
        Some(TaskError::Internal(Report::Wrapped(
            Context::Deserialize,
            Box::new(Report::Outside("m"))
        )))
    );
}

#[test]
fn genesis_makes_a_bare_config() {
    let key = validator::SecretKey::generate();
    let outside = raw_genesis(&key, 7);
    let config = after_genesis(GenesisReply::Json(json(&outside))).unwrap();
    assert_eq!(config.genesis.hash(), digest(outside.hash()));
    assert_eq!(config.registry_address, None);
    assert!(config.seed_peers.is_empty());
    let again = config_of_genesis::<&str>(Ok(genesis(&key, 7))).unwrap();
    assert!(config.same_as(&again));
}

fn genesis_error(reply: GenesisReply<anyhow::Error>) -> TaskError<anyhow::Error> {
    after_genesis(reply).unwrap_err()
}

#[test]
fn genesis_errors_are_told_apart() {
    assert!(matches!(
        genesis_error(GenesisReply::Canceled),
        TaskError::Canceled
    ));
    assert!(matches!(
        genesis_error(GenesisReply::Absent),
        TaskError::Internal(Report::Message(Context::NotRunningConsensus))
    ));
    match genesis_error(GenesisReply::Failed(anyhow::Error::msg("f"))) {
        TaskError::Internal(Report::Wrapped(Context::ConsensusGenesis, inner)) => match *inner {
            Report::Outside(cause) => assert_eq!(cause.to_string(), "f"),
            other => panic!("{other:?}"),
        },
        other => panic!("{other:?}"),
    }
    match genesis_error(GenesisReply::Json("{\"chainId\": \"x\"}".to_string())) {
        TaskError::Internal(Report::Wrapped(Context::Deserialize, inner)) => {
            assert!(matches!(*inner, Report::Outside(_)));
        }
        other => panic!("{other:?}"),
    }
    assert_eq!(
        config_of_genesis(Err("unreadable")).unwrap_err(),
        TaskError::Internal(Report::Wrapped(
            Context::Deserialize,
            Box::new(Report::Outside("unreadable"))
        ))
    );
}

#[test]
fn monitor_ignores_the_same_config() {
    let key = validator::SecretKey::generate();
    let monitor = ConfigMonitor::new(rich_config(&key, vec![]));
    assert!(matches!(monitor.pending(), Pending::FetchGlobalConfig));
    let monitor = monitor.step(Event::Fetched(Some(rich_config(&key, vec![]))));
    assert!(matches!(monitor.pending(), Pending::Sleep { ms: 5000 }));
    let monitor = monitor.step(Event::Slept).step(Event::Fetched(None));
    assert!(matches!(monitor.pending(), Pending::Sleep { ms: 5000 }));
    assert_eq!(monitor.outcome::<&str>("A", "B"), None);
    let monitor = monitor.step(Event::Canceled);
    assert_eq!(monitor.outcome::<&str>("A", "B"), Some(TaskError::Canceled));
}

#[test]
fn monitor_reports_an_admissible_change() {
    let key = validator::SecretKey::generate();
    let monitor = ConfigMonitor::new(rich_config(&key, vec![]));
    let mut new = rich_config(&key, vec![]);
    new.genesis = genesis(&key, 1);
    let monitor = monitor.step(Event::Fetched(Some(new)));
    assert!(matches!(
        monitor.pending(),
        Pending::VerifyConfigTransition { .. }
    ));
    let monitor = monitor.step(Event::TransitionVerified { admissible: true });
    match monitor.pending() {
        Pending::Changed { new } => assert_eq!(new.genesis.hash(), genesis(&key, 1).hash()),
        other => panic!("{other:?}"),
    }
    assert_eq!(
        monitor.outcome::<&str>("A", "B"),
        Some(TaskError::Internal(Report::Text(
            "global config changed: old A, new B".to_string()
        )))
    );
    assert!(monitor
        .initial_config()
        .same_as(&rich_config(&key, vec![])));
}

#[test]
fn monitor_stays_with_the_first_admissible_change() {
    let key = validator::SecretKey::generate();
    let changed = |fork: u64| {
        let mut config = rich_config(&key, vec![]);
        config.genesis = genesis(&key, fork);
        Event::Fetched(Some(config))
    };
    let monitor = ConfigMonitor::new(rich_config(&key, vec![]))
        .step(changed(1))
        .step(Event::TransitionVerified { admissible: false })
        .step(Event::Slept)
        .step(changed(2))
        .step(Event::TransitionVerified { admissible: true })
        .step(Event::Slept)
        .step(changed(3))
        .step(Event::TransitionVerified { admissible: true });
    match monitor.pending() {
        Pending::Changed { new } => assert_eq!(new.genesis.hash(), genesis(&key, 2).hash()),
        other => panic!("{other:?}"),
    }
}

#[test]
fn a_change_is_told_in_full() {
    assert_eq!(change_message("", ""), "global config changed: old , new ");
    assert_eq!(
        change_message("X { a: 1 }", "X { a: 2 }"),
        "global config changed: old X { a: 1 }, new X { a: 2 }"
    );
}

#[test]
fn monitor_ignores_an_inadmissible_change() {
    let key = validator::SecretKey::generate();
    let monitor = ConfigMonitor::new(rich_config(&key, vec![]));
    let monitor = monitor
        .step(Event::Fetched(Some(GlobalConfig::from_genesis(genesis(
            &key, 0,
        )))))
        .step(Event::TransitionVerified { admissible: false });
    assert!(matches!(monitor.pending(), Pending::Sleep { ms: 5000 }));
    assert_eq!(monitor.outcome::<&str>("A", "B"), None);
}
