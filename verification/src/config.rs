//! The consensus configuration that all nodes of a chain share.
use crate::bytes::same_bytes;
use crate::genesis::{Genesis, GenesisView};
use vstd::prelude::*;

verus! {

/// A node that others may connect to: its public key and the address it
/// listens on, both as bytes.
#[derive(Debug)]
pub struct SeedPeer {
    pub key: Vec<u8>,
    pub host: Vec<u8>,
}

/// Global configuration of the consensus.
#[derive(Debug)]
pub struct GlobalConfig {
    pub genesis: Genesis,
    /// Address of the contract that lists the attesters, if there is one.
    pub registry_address: Option<[u8; 20]>,
    /// Nodes to connect to at first. Where a key occurs twice, the later entry
    /// counts.
    pub seed_peers: Vec<SeedPeer>,
}

/// What a global configuration says.
pub struct GlobalConfigView {
    pub genesis: GenesisView,
    pub registry_address: Option<[u8; 20]>,
    pub seed_peers: Map<Seq<u8>, Seq<u8>>,
}

/// The addresses by key.
pub open spec fn peer_map(peers: Seq<SeedPeer>) -> Map<Seq<u8>, Seq<u8>>
    decreases peers.len(),
{
    if peers.len() == 0 {
        Map::empty()
    } else {
        peer_map(peers.drop_last()).insert(peers.last().key@, peers.last().host@)
    }
}

impl View for GlobalConfig {
    type V = GlobalConfigView;

    open spec fn view(&self) -> GlobalConfigView {
        GlobalConfigView {
            genesis: self.genesis@,
            registry_address: self.registry_address,
            seed_peers: peer_map(self.seed_peers@),
        }
    }
}

impl GlobalConfigView {
    /// Two configurations are equal when their geneses have the same hash and
    /// the rest is the same.
    pub open spec fn same_as(self, other: GlobalConfigView) -> bool {
        &&& self.genesis.hash == other.genesis.hash
        &&& self.registry_address == other.registry_address
        &&& self.seed_peers == other.seed_peers
    }
}

/// The keys of `peer_map` are those that occur in the list.
proof fn lemma_peer_map_keys(peers: Seq<SeedPeer>)
    ensures
        forall|i: int| 0 <= i < peers.len() ==> peer_map(peers).contains_key(
            #[trigger] peers[i].key@,
        ),
        forall|key: Seq<u8>| #[trigger] peer_map(peers).contains_key(key) ==> exists|i: int|
            0 <= i < peers.len() && (#[trigger] peers[i]).key@ == key,
    decreases peers.len(),
{
    if peers.len() > 0 {
        let rest = peers.drop_last();
        lemma_peer_map_keys(rest);
        assert forall|i: int| 0 <= i < peers.len() implies peer_map(peers).contains_key(
            #[trigger] peers[i].key@,
        ) by {
            if i < rest.len() {
                assert(rest[i] == peers[i]);
                assert(peer_map(rest).contains_key(rest[i].key@));
            }
        }
        assert forall|key: Seq<u8>| #[trigger] peer_map(peers).contains_key(key) implies exists|
            i: int,
        |
            0 <= i < peers.len() && (#[trigger] peers[i]).key@ == key by {
            if key == peers.last().key@ {
                assert(peers[peers.len() - 1].key@ == key);
            } else {
                assert(peer_map(rest).contains_key(key));
                let i = choose|i: int| 0 <= i < rest.len() && (#[trigger] rest[i]).key@ == key;
                assert(peers[i].key@ == key);
            }
        }
    }
}

/// The address that goes with a key.
pub fn find_peer<'a>(peers: &'a [SeedPeer], key: &[u8]) -> (host: Option<&'a [u8]>)
    ensures
        host is Some <==> peer_map(peers@).contains_key(key@),
        host matches Some(bytes) ==> bytes@ == peer_map(peers@)[key@],
{
    let mut i: usize = peers.len();
    assert(peers@.take(i as int) == peers@);
    while i > 0
        invariant
            i <= peers@.len(),
            peer_map(peers@).contains_key(key@) == peer_map(peers@.take(i as int)).contains_key(
                key@,
            ),
            peer_map(peers@).contains_key(key@) ==> peer_map(peers@)[key@] == peer_map(
                peers@.take(i as int),
            )[key@],
        decreases i,
    {
        i = i - 1;
        assert(peers@.take(i + 1).drop_last() == peers@.take(i as int));
        assert(peers@.take(i + 1).last() == peers@[i as int]);
        if same_bytes(peers[i].key.as_slice(), key) {
            return Some(peers[i].host.as_slice());
        }
    }
    None
}

/// Whether every peer of `a` is in `b`, under the address that it has in `a`.
fn peers_within(a: &[SeedPeer], b: &[SeedPeer]) -> (within: bool)
    ensures
        within == peer_map(a@).submap_of(peer_map(b@)),
{
    proof {
        lemma_peer_map_keys(a@);
    }
    let mut i: usize = 0;
    while i < a.len()
        invariant
            i <= a@.len(),
            forall|j: int| 0 <= j < a@.len() ==> peer_map(a@).contains_key(#[trigger] a@[j].key@),
            forall|j: int| 0 <= j < i ==> {
                &&& peer_map(b@).contains_key(#[trigger] a@[j].key@)
                &&& peer_map(a@)[a@[j].key@] == peer_map(b@)[a@[j].key@]
            },
        decreases a@.len() - i,
    {
        let key = a[i].key.as_slice();
        assert(peer_map(a@).contains_key(a@[i as int].key@));
        match (find_peer(a, key), find_peer(b, key)) {
            (Some(x), Some(y)) => {
                if !same_bytes(x, y) {
                    return false;
                }
            },
            _ => {
                return false;
            },
        }
        i = i + 1;
    }
    true
}

fn same_address(a: &Option<[u8; 20]>, b: &Option<[u8; 20]>) -> (same: bool)
    ensures
        same == (*a == *b),
{
    match (a, b) {
        (Some(x), Some(y)) => {
            let same = same_bytes(x.as_slice(), y.as_slice());
            if same {
                assert(*x =~= *y) by {
                    assert forall|i: int| 0 <= i < 20 implies x[i] == y[i] by {
                        assert(x@[i] == y@[i]);
                    }
                }
            }
            same
        },
        (None, None) => true,
        _ => false,
    }
}

impl GlobalConfig {
    /// The configuration of a chain of which only the genesis is known.
    pub fn from_genesis(genesis: Genesis) -> (config: GlobalConfig)
        ensures
            config.genesis == genesis,
            config.registry_address is None,
            config.seed_peers@.len() == 0,
            config@.seed_peers == Map::<Seq<u8>, Seq<u8>>::empty(),
    {
        GlobalConfig { genesis, registry_address: None, seed_peers: Vec::new() }
    }

    /// Whether two configurations are equal.
    pub fn same_as(&self, other: &GlobalConfig) -> (same: bool)
        ensures
            same == self@.same_as(other@),
    {
        let same_genesis = self.genesis.hash().same_as(&other.genesis.hash());
        let same_registry = same_address(&self.registry_address, &other.registry_address);
        let a = self.seed_peers.as_slice();
        let b = other.seed_peers.as_slice();
        let same_peers = peers_within(a, b) && peers_within(b, a);
        proof {
            let x = self@.seed_peers;
            let y = other@.seed_peers;
            if same_peers {
                assert forall|key: Seq<u8>| x.dom().contains(key) == y.dom().contains(key) by {}
                assert(x =~= y);
            }
            if x == y {
                assert(x.submap_of(y) && y.submap_of(x));
            }
        }
        same_genesis && same_registry && same_peers
    }
}

/// Equality of configurations is an equivalence.
pub proof fn lemma_same_config_is_an_equivalence(
    a: GlobalConfigView,
    b: GlobalConfigView,
    c: GlobalConfigView,
)
    ensures
        a.same_as(a),
        a.same_as(b) == b.same_as(a),
        a.same_as(b) && b.same_as(c) ==> a.same_as(c),
{
}

/// A key is known where an entry has it, and the last such entry gives the
/// address.
pub proof fn lemma_last_entry_counts(peers: Seq<SeedPeer>, key: Seq<u8>, i: int)
    ensures
        peer_map(peers).contains_key(key) <==> exists|j: int|
            0 <= j < peers.len() && (#[trigger] peers[j]).key@ == key,
        0 <= i < peers.len() && peers[i].key@ == key && (forall|j: int|
            i < j < peers.len() ==> (#[trigger] peers[j]).key@ != key) ==> peer_map(peers)[key]
            == peers[i].host@,
    decreases peers.len(),
{
    lemma_peer_map_keys(peers);
    if peer_map(peers).contains_key(key) {
        let j = choose|j: int| 0 <= j < peers.len() && (#[trigger] peers[j]).key@ == key;
        assert(peers[j].key@ == key);
    }
    if 0 <= i < peers.len() && peers[i].key@ == key && (forall|j: int|
        i < j < peers.len() ==> (#[trigger] peers[j]).key@ != key) {
        if i < peers.len() - 1 {
            let rest = peers.drop_last();
            assert(peers[peers.len() - 1].key@ != key);
            assert forall|j: int| i < j < rest.len() implies (#[trigger] rest[j]).key@ != key by {
                assert(rest[j] == peers[j]);
            }
            assert(rest[i] == peers[i]);
            lemma_last_entry_counts(rest, key, i);
        }
    }
}

/// Both lists give the key the same address, or none.
pub open spec fn agree_on(a: Seq<SeedPeer>, b: Seq<SeedPeer>, key: Seq<u8>) -> bool {
    &&& peer_map(a).contains_key(key) == peer_map(b).contains_key(key)
    &&& peer_map(a).contains_key(key) ==> peer_map(a)[key] == peer_map(b)[key]
}

/// Two configurations are the same exactly where the hashes of the geneses agree,
/// the registry addresses agree, and every key has the same address in both or
/// none in either.
pub proof fn lemma_same_config_is_same_in_all_parts(a: GlobalConfig, b: GlobalConfig)
    ensures
        a@.same_as(b@) <==> {
            &&& a.genesis@.hash == b.genesis@.hash
            &&& a.registry_address == b.registry_address
            &&& forall|key: Seq<u8>| #[trigger] agree_on(a.seed_peers@, b.seed_peers@, key)
        },
{
    let (x, y) = (peer_map(a.seed_peers@), peer_map(b.seed_peers@));
    if forall|key: Seq<u8>| #[trigger] agree_on(a.seed_peers@, b.seed_peers@, key) {
        assert forall|key: Seq<u8>| x.dom().contains(key) == y.dom().contains(key) by {
            assert(agree_on(a.seed_peers@, b.seed_peers@, key));
        }
        assert forall|key: Seq<u8>| x.dom().contains(key) implies x[key] == y[key] by {
            assert(agree_on(a.seed_peers@, b.seed_peers@, key));
        }
        assert(x =~= y);
    }
}

} // verus!
