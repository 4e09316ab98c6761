//! Getting the global configuration from the main node.
use crate::config::{GlobalConfig, GlobalConfigView};
use crate::error::{Context, TaskError, Report};
use crate::genesis::{genesis_of_json, Genesis, GenesisView};
use jsonrpsee::types::error::ErrorCode;
use vstd::prelude::*;

verus! {

/// What kind of failure an RPC call met.
#[derive(Clone, Copy, Debug, PartialEq, Eq)]
pub enum RpcErrorKind {
    /// The main node could not be talked to, or refused to talk.
    Transport,
    /// The main node answered with an error.
    Call { code: i32 },
    Other,
}

/// A failed RPC call.
#[derive(Debug, PartialEq, Eq)]
pub struct RpcError<E> {
    pub kind: RpcErrorKind,
    pub cause: E,
}

/// `ErrorCode::code` of `ErrorCode::MethodNotFound`: the code by which a
/// JSON-RPC server says that it has no such method.
#[verifier::external_body]
fn method_not_found_code() -> (code: i32)
    ensures
        code == -32601,
{
    ErrorCode::MethodNotFound.code()
}

impl RpcErrorKind {
    /// The method may be missing. For methods that are not allowed, a proxy
    /// answers at the HTTP level, which is seen as a transport error. For
    /// methods that do not exist, the server itself answers with the code
    /// -32601.
    pub open spec fn spec_method_may_be_missing(self) -> bool {
        match self {
            RpcErrorKind::Transport => true,
            RpcErrorKind::Call { code } => code == -32601,
            RpcErrorKind::Other => false,
        }
    }

    /// Whether the failure may mean that the main node does not offer the
    /// method.
    pub fn method_may_be_missing(&self) -> (missing: bool)
        ensures
            missing == self.spec_method_may_be_missing(),
    {
        match self {
            RpcErrorKind::Transport => true,
            RpcErrorKind::Call { code } => *code == method_not_found_code(),
            RpcErrorKind::Other => false,
        }
    }
}

/// How the main node answered a request for the global configuration.
#[derive(Debug)]
pub enum GlobalConfigReply<E> {
    /// The request was given up.
    Canceled,
    Config(GlobalConfig),
    /// There is none: the main node takes no part in the consensus.
    Absent,
    /// The configuration could not be read.
    Malformed(E),
    Failed(RpcError<E>),
}

/// How the main node answered a request for the genesis.
#[derive(Debug)]
pub enum GenesisReply<E> {
    /// The request was given up.
    Canceled,
    /// The genesis, as JSON.
    Json(String),
    /// There is none: the main node takes no part in the consensus.
    Absent,
    Failed(E),
}

/// What to do once the request for the global configuration was answered.
#[derive(Debug)]
pub enum Decision<E> {
    /// Nothing more: here is the outcome.
    Finished(Result<GlobalConfig, TaskError<E>>),
    /// Ask for the genesis instead.
    AskForGenesis,
}

pub open spec fn spec_after_global_config<E>(reply: GlobalConfigReply<E>) -> Decision<E> {
    match reply {
        GlobalConfigReply::Config(config) => Decision::Finished(Ok(config)),
        GlobalConfigReply::Canceled => Decision::Finished(Err(TaskError::Canceled)),
        GlobalConfigReply::Absent => Decision::Finished(
            Err(TaskError::Internal(Report::Message(Context::NotRunningConsensus))),
        ),
        GlobalConfigReply::Malformed(error) => Decision::Finished(
            Err(TaskError::Internal(Report::Outside(error).spec_wrap(Context::Deserialize))),
        ),
        GlobalConfigReply::Failed(error) => if error.kind.spec_method_may_be_missing() {
            Decision::AskForGenesis
        } else {
            Decision::Finished(
                Err(
                    TaskError::Internal(
                        Report::Outside(error.cause).spec_wrap(Context::ConsensusGlobalConfig),
                    ),
                ),
            )
        },
    }
}

/// What to do with the answer to the request for the global configuration.
pub fn after_global_config<E>(reply: GlobalConfigReply<E>) -> (decision: Decision<E>)
    ensures
        decision == spec_after_global_config(reply),
{
    match reply {
        GlobalConfigReply::Canceled => Decision::Finished(Err(TaskError::Canceled)),
        GlobalConfigReply::Config(config) => Decision::Finished(Ok(config)),
        GlobalConfigReply::Absent => Decision::Finished(
            Err(TaskError::Internal(Report::Message(Context::NotRunningConsensus))),
        ),
        GlobalConfigReply::Malformed(error) => Decision::Finished(
            Err(TaskError::Internal(Report::Outside(error).wrap(Context::Deserialize))),
        ),
        GlobalConfigReply::Failed(error) => {
            if error.kind.method_may_be_missing() {
                Decision::AskForGenesis
            } else {
                let report = Report::Outside(error.cause).wrap(Context::ConsensusGlobalConfig);
                Decision::Finished(Err(TaskError::Internal(report)))
            }
        },
    }
}

/// The configuration of which only the genesis is known.
pub open spec fn bare_config(genesis: GenesisView) -> GlobalConfigView {
    GlobalConfigView {
        genesis,
        registry_address: None,
        seed_peers: Map::empty(),
    }
}

/// The configuration for the genesis that was read, if one could be read.
pub fn config_of_genesis<E>(genesis: Result<Genesis, E>) -> (config: Result<
    GlobalConfig,
    TaskError<E>,
>)
    ensures
        match genesis {
            Ok(genesis) => {
                &&& config matches Ok(c)
                &&& c@ == bare_config(genesis@)
                &&& c.genesis == genesis
                &&& c.registry_address is None
                &&& c.seed_peers@.len() == 0
            },
            Err(error) => config == Err::<GlobalConfig, TaskError<E>>(
                TaskError::Internal(Report::Outside(error).spec_wrap(Context::Deserialize)),
            ),
        },
{
    match genesis {
        Ok(genesis) => Ok(GlobalConfig::from_genesis(genesis)),
        Err(error) => Err(TaskError::Internal(Report::Outside(error).wrap(Context::Deserialize))),
    }
}

/// The outcome, once the request for the genesis was answered. Of a genesis
/// that cannot be read, the reader's error is the cause; what it says is left
/// open.
pub fn after_genesis(reply: GenesisReply<anyhow::Error>) -> (config: Result<
    GlobalConfig,
    TaskError<anyhow::Error>,
>)
    ensures
        match reply {
            GenesisReply::Canceled => config == Err::<GlobalConfig, TaskError<anyhow::Error>>(
                TaskError::Canceled,
            ),
            GenesisReply::Failed(error) => config == Err::<GlobalConfig, TaskError<anyhow::Error>>(
                TaskError::Internal(Report::Outside(error).spec_wrap(Context::ConsensusGenesis)),
            ),
            GenesisReply::Absent => config == Err::<GlobalConfig, TaskError<anyhow::Error>>(
                TaskError::Internal(Report::Message(Context::NotRunningConsensus)),
            ),
            GenesisReply::Json(json) => if genesis_of_json(json@) is Some {
                &&& config matches Ok(c)
                &&& genesis_of_json(json@) == Some(c@.genesis.encoding)
                &&& c@.genesis.valid()
                &&& c@ == bare_config(c@.genesis)
                &&& c.registry_address is None
                &&& c.seed_peers@.len() == 0
            } else {
                &&& config matches Err(TaskError::Internal(Report::Wrapped(context, inner)))
                &&& context == Context::Deserialize
                &&& *inner is Outside
            },
        },
{
    match reply {
        GenesisReply::Canceled => Err(TaskError::Canceled),
        GenesisReply::Failed(error) => Err(
            TaskError::Internal(Report::Outside(error).wrap(Context::ConsensusGenesis)),
        ),
        GenesisReply::Absent => Err(
            TaskError::Internal(Report::Message(Context::NotRunningConsensus)),
        ),
        GenesisReply::Json(json) => config_of_genesis(Genesis::from_json(json.as_str())),
    }
}

/// The genesis is asked for only where the main node may not offer the global
/// configuration. Any configuration that it does give is taken as it is.
pub proof fn lemma_genesis_is_a_last_resort<E>(reply: GlobalConfigReply<E>)
    ensures
        spec_after_global_config(reply) is AskForGenesis <==> {
            &&& reply matches GlobalConfigReply::Failed(error)
            &&& error.kind.spec_method_may_be_missing()
        },
        reply matches GlobalConfigReply::Config(config) ==> spec_after_global_config(reply)
            == Decision::<E>::Finished(Ok(config)),
{
}

/// The method may be missing where the main node could not be talked to, and
/// where it said so by the code -32601. No other failure means that.
pub proof fn lemma_which_failures_mean_a_missing_method(code: i32)
    ensures
        RpcErrorKind::Transport.spec_method_may_be_missing(),
        (RpcErrorKind::Call { code }).spec_method_may_be_missing() <==> code == -32601,
        !RpcErrorKind::Other.spec_method_may_be_missing(),
{
}

/// What each reply to a request for the configuration means. Every reply but one
/// of a method that may be missing is final, and each error is told apart.
pub proof fn lemma_each_config_reply_has_its_meaning<E>(
    config: GlobalConfig,
    error: E,
    kind: RpcErrorKind,
)
    ensures
        spec_after_global_config(GlobalConfigReply::<E>::Config(config)) == Decision::<
            E,
        >::Finished(Ok(config)),
        spec_after_global_config(GlobalConfigReply::<E>::Canceled) == Decision::<E>::Finished(
            Err(TaskError::Canceled),
        ),
        spec_after_global_config(GlobalConfigReply::<E>::Absent) == Decision::<E>::Finished(
            Err(TaskError::Internal(Report::Message(Context::NotRunningConsensus))),
        ),
        spec_after_global_config(GlobalConfigReply::Malformed(error)) == Decision::<E>::Finished(
            Err(
                TaskError::Internal(
                    Report::Wrapped(Context::Deserialize, Box::new(Report::Outside(error))),
                ),
            ),
        ),
        ({
            let decision = spec_after_global_config(
                GlobalConfigReply::Failed(RpcError { kind, cause: error }),
            );
            if kind is Transport || (kind is Call && kind->code == -32601) {
                decision is AskForGenesis
            } else {
                decision == Decision::<E>::Finished(
                    Err(
                        TaskError::Internal(
                            Report::Wrapped(
                                Context::ConsensusGlobalConfig,
                                Box::new(Report::Outside(error)),
                            ),
                        ),
                    ),
                )
            }
        }),
{
}

} // verus!
