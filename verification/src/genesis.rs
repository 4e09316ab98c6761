//! The genesis of the chain that the node follows.
use crate::bytes::same_bytes;
use vstd::prelude::*;
use zksync_consensus_roles::validator;
use zksync_protobuf::ProtoFmt;

verus! {

/// Hash of a genesis: a Keccak-256 digest.
#[derive(Clone, Copy, Debug, PartialEq, Eq)]
pub struct GenesisHash {
    pub keccak256: [u8; 32],
}

impl GenesisHash {
    /// Whether two hashes are the same.
    pub fn same_as(&self, other: &GenesisHash) -> (same: bool)
        ensures
            same == (*self == *other),
    {
        let same = same_bytes(self.keccak256.as_slice(), other.keccak256.as_slice());
        if same {
            assert(self.keccak256 =~= other.keccak256) by {
                assert forall|i: int| 0 <= i < 32 implies self.keccak256[i] == other.keccak256[i] by {
                    assert(self.keccak256@[i] == other.keccak256@[i]);
                }
            }
        }
        same
    }
}

/// The hash of the genesis whose protobuf encoding is `encoding`, or `None`
/// where the bytes encode no valid genesis.
pub uninterp spec fn genesis_hash(encoding: Seq<u8>) -> Option<Seq<u8>>;

/// The canonical protobuf encoding of the genesis that a JSON text describes,
/// or `None` where it describes no valid genesis. Unknown fields are ignored.
pub uninterp spec fn genesis_of_json(json: Seq<char>) -> Option<Seq<u8>>;

/// `anyhow::Error`: why something could not be read. Nothing is known of what
/// it says.
#[verifier::external_type_specification]
#[verifier::external_body]
pub struct ExAnyhowError(anyhow::Error);

/// `validator::Genesis::hash`, on the genesis that `zksync_protobuf::decode`
/// reads from `encoding`. The claim is only that the outcome depends on the
/// bytes alone; it is called `genesis_hash`. What the error says is left open.
#[verifier::external_body]
fn hash_of_encoding(encoding: &[u8]) -> (hash: Result<[u8; 32], anyhow::Error>)
    ensures
        hash matches Ok(digest) ==> genesis_hash(encoding@) == Some(digest@),
        hash is Err ==> genesis_hash(encoding@) is None,
{
    let hash = zksync_protobuf::decode::<validator::Genesis>(encoding)?.hash();
    let digest = hash.build().keccak256.unwrap_or_default();
    Ok(digest.as_slice().try_into()?)
}

/// `zksync_protobuf::serde::Deserialize::proto_fmt`, which reads a
/// `validator::Genesis` from the JSON value that `json` spells, with unknown
/// fields allowed. The genesis is handed back in its canonical encoding, which
/// `zksync_protobuf::encode` makes. The claims are that the outcome depends on
/// the text alone, where it is called `genesis_of_json`, and that the encoding
/// of a genesis, which was checked when it was read, can be decoded. What the
/// error says is left open.
#[verifier::external_body]
fn encoding_of_json(json: &str) -> (encoding: Result<Vec<u8>, anyhow::Error>)
    ensures
        encoding matches Ok(bytes) ==> {
            &&& genesis_of_json(json@) == Some(bytes@)
            &&& genesis_hash(bytes@) is Some
        },
        encoding is Err ==> genesis_of_json(json@) is None,
{
    let value: serde_json::Value = serde_json::from_str(json)?;
    let options = zksync_protobuf::serde::Deserialize { deny_unknown_fields: false };
    let genesis: validator::Genesis = options.proto_fmt(&value)?;
    Ok(zksync_protobuf::encode(&genesis))
}

/// A genesis: its protobuf encoding, with its hash at hand.
#[derive(Debug)]
pub struct Genesis {
    encoding: Vec<u8>,
    hash: GenesisHash,
}

/// What a genesis is to the node.
pub struct GenesisView {
    pub encoding: Seq<u8>,
    pub hash: GenesisHash,
}

impl View for Genesis {
    type V = GenesisView;

    closed spec fn view(&self) -> GenesisView {
        GenesisView { encoding: self.encoding@, hash: self.hash }
    }
}

impl GenesisView {
    /// The hash is that of the encoding.
    pub open spec fn valid(self) -> bool {
        genesis_hash(self.encoding) == Some(self.hash.keccak256@)
    }
}

impl Genesis {
    #[verifier::type_invariant]
    spec fn hash_is_of_encoding(self) -> bool {
        genesis_hash(self.encoding@) == Some(self.hash.keccak256@)
    }

    /// Reads a genesis from its protobuf encoding.
    pub fn decode(encoding: Vec<u8>) -> (genesis: Result<Genesis, anyhow::Error>)
        ensures
            genesis is Ok <==> genesis_hash(encoding@) is Some,
            genesis matches Ok(g) ==> {
                &&& g@.encoding == encoding@
                &&& g@.valid()
                &&& genesis_hash(encoding@) == Some(g@.hash.keccak256@)
            },
    {
        match hash_of_encoding(encoding.as_slice()) {
            Ok(keccak256) => Ok(Genesis { encoding, hash: GenesisHash { keccak256 } }),
            Err(error) => Err(error),
        }
    }

    /// Reads a genesis from its JSON form, as the main node's API gives it.
    pub fn from_json(json: &str) -> (genesis: Result<Genesis, anyhow::Error>)
        ensures
            genesis is Ok <==> genesis_of_json(json@) is Some,
            genesis matches Ok(g) ==> {
                &&& genesis_of_json(json@) == Some(g@.encoding)
                &&& g@.valid()
                &&& genesis_hash(g@.encoding) == Some(g@.hash.keccak256@)
            },
    {
        match encoding_of_json(json) {
            Ok(encoding) => Genesis::decode(encoding),
            Err(error) => Err(error),
        }
    }

    /// The protobuf encoding.
    pub fn encoding(&self) -> (encoding: &[u8])
        ensures
            encoding@ == self@.encoding,
            self@.valid(),
    {
        proof {
            use_type_invariant(self);
        }
        self.encoding.as_slice()
    }

    /// The hash.
    pub fn hash(&self) -> (hash: GenesisHash)
        ensures
            hash == self@.hash,
            self@.valid(),
    {
        proof {
            use_type_invariant(self);
        }
        self.hash
    }
}

} // verus!
