//! What a task of the node can end with.
use vstd::prelude::*;

verus! {

/// What the node says about the place where an error arose or passed through.
#[derive(Clone, Copy, Debug, PartialEq, Eq)]
pub enum Context {
    AttesterKey,
    ValidatorKey,
    FetchGlobalConfig,
    Connection,
    TryUpdateGlobalConfig,
    NewPayloadQueue,
    NewFetcherCursor,
    StoreNew,
    StoreRunner,
    FallbackBlockFetcher,
    BlockStoreNew,
    BlockStoreRun,
    RunAttestationController,
    FetchAttestationStatus,
    AttestationStatus,
    AttestationStatusMissing,
    GenesisMismatch,
    WaitForBatchInfo,
    AttesterCommitteeFor,
    CommitteeConnection,
    UpsertAttesterCommittee,
    StartAttestation,
    ConsensusGlobalConfig,
    ConsensusGenesis,
    NotRunningConsensus,
    Deserialize,
    Overflow,
    IntegerOutOfRange,
    SyncL2Block(u32),
    NextBlock,
    QueueNextFetchedBlock,
    QueueSend,
}

impl Context {
    /// The fixed part of the text.
    pub open spec fn spec_label(self) -> Seq<char> {
        match self {
            Context::AttesterKey => "attester_key"@,
            Context::ValidatorKey => "validator_key"@,
            Context::FetchGlobalConfig => "fetch_global_config()"@,
            Context::Connection => "connection()"@,
            Context::TryUpdateGlobalConfig => "try_update_global_config()"@,
            Context::NewPayloadQueue => "new_payload_queue()"@,
            Context::NewFetcherCursor => "new_fetcher_cursor()"@,
            Context::StoreNew => "Store::new()"@,
            Context::StoreRunner => "Store::runner()"@,
            Context::FallbackBlockFetcher => "fallback_block_fetcher()"@,
            Context::BlockStoreNew => "BlockStore::new()"@,
            Context::BlockStoreRun => "BlockStore::run()"@,
            Context::RunAttestationController => "run_attestation_controller()"@,
            Context::FetchAttestationStatus => "fetch_attestation_status()"@,
            Context::AttestationStatus => "attestation_status()"@,
            Context::AttestationStatusMissing => "main node is not runnign consensus component"@,
            Context::GenesisMismatch => "genesis mismatch"@,
            Context::WaitForBatchInfo => "wait_for_batch_info()"@,
            Context::AttesterCommitteeFor => "attester_committee_for()"@,
            Context::CommitteeConnection => "connection"@,
            Context::UpsertAttesterCommittee => "upsert_attester_committee()"@,
            Context::StartAttestation => "start_attestation()"@,
            Context::ConsensusGlobalConfig => "consensus_global_config()"@,
            Context::ConsensusGenesis => "consensus_genesis()"@,
            Context::NotRunningConsensus => "main node is not running consensus component"@,
            Context::Deserialize => "deserialize()"@,
            Context::Overflow => "overflow"@,
            Context::IntegerOutOfRange => "out of range integral type conversion attempted"@,
            Context::SyncL2Block(_) => "client.sync_l2_block"@,
            Context::NextBlock => "next_block()"@,
            Context::QueueNextFetchedBlock => "queue_next_fetched_block()"@,
            Context::QueueSend => "queue.send()"@,
        }
    }

    /// The fixed part of the text.
    fn label(&self) -> (text: &'static str)
        ensures
            text@ == self.spec_label(),
    {
        match self {
            Context::AttesterKey => "attester_key",
            Context::ValidatorKey => "validator_key",
            Context::FetchGlobalConfig => "fetch_global_config()",
            Context::Connection => "connection()",
            Context::TryUpdateGlobalConfig => "try_update_global_config()",
            Context::NewPayloadQueue => "new_payload_queue()",
            Context::NewFetcherCursor => "new_fetcher_cursor()",
            Context::StoreNew => "Store::new()",
            Context::StoreRunner => "Store::runner()",
            Context::FallbackBlockFetcher => "fallback_block_fetcher()",
            Context::BlockStoreNew => "BlockStore::new()",
            Context::BlockStoreRun => "BlockStore::run()",
            Context::RunAttestationController => "run_attestation_controller()",
            Context::FetchAttestationStatus => "fetch_attestation_status()",
            Context::AttestationStatus => "attestation_status()",
            Context::AttestationStatusMissing => "main node is not runnign consensus component",
            Context::GenesisMismatch => "genesis mismatch",
            Context::WaitForBatchInfo => "wait_for_batch_info()",
            Context::AttesterCommitteeFor => "attester_committee_for()",
            Context::CommitteeConnection => "connection",
            Context::UpsertAttesterCommittee => "upsert_attester_committee()",
            Context::StartAttestation => "start_attestation()",
            Context::ConsensusGlobalConfig => "consensus_global_config()",
            Context::ConsensusGenesis => "consensus_genesis()",
            Context::NotRunningConsensus => "main node is not running consensus component",
            Context::Deserialize => "deserialize()",
            Context::Overflow => "overflow",
            Context::IntegerOutOfRange => "out of range integral type conversion attempted",
            Context::SyncL2Block(_) => "client.sync_l2_block",
            Context::NextBlock => "next_block()",
            Context::QueueNextFetchedBlock => "queue_next_fetched_block()",
            Context::QueueSend => "queue.send()",
        }
    }
}

pub open spec fn digit_char(d: int) -> char
    recommends
        0 <= d < 10,
{
    seq!['0', '1', '2', '3', '4', '5', '6', '7', '8', '9'][d]
}

/// A number in decimal.
pub open spec fn spec_decimal(n: nat) -> Seq<char>
    decreases n,
{
    if n < 10 {
        seq![digit_char(n as int)]
    } else {
        spec_decimal(n / 10).push(digit_char((n % 10) as int))
    }
}

fn digit(d: u32) -> (text: &'static str)
    requires
        d < 10,
    ensures
        text@ == seq![digit_char(d as int)],
{
    proof {
        reveal_strlit("0");
        reveal_strlit("1");
        reveal_strlit("2");
        reveal_strlit("3");
        reveal_strlit("4");
        reveal_strlit("5");
        reveal_strlit("6");
        reveal_strlit("7");
        reveal_strlit("8");
        reveal_strlit("9");
    }
    match d {
        0 => "0",
        1 => "1",
        2 => "2",
        3 => "3",
        4 => "4",
        5 => "5",
        6 => "6",
        7 => "7",
        8 => "8",
        _ => "9",
    }
}

fn decimal(n: u32) -> (text: String)
    ensures
        text@ == spec_decimal(n as nat),
    decreases n,
{
    let mut text = if n < 10 {
        String::new()
    } else {
        decimal(n / 10)
    };
    text.append(digit(n % 10));
    text
}

impl Context {
    pub open spec fn spec_message(self) -> Seq<char> {
        match self {
            Context::SyncL2Block(number) => self.spec_label() + "("@ + spec_decimal(number as nat)
                + ")"@,
            _ => self.spec_label(),
        }
    }

    /// The text that the node shows.
    pub fn message(&self) -> (text: String)
        ensures
            text@ == self.spec_message(),
    {
        let mut text = self.label().to_string();
        match self {
            Context::SyncL2Block(number) => {
                text.append("(");
                text.append(decimal(*number).as_str());
                text.append(")");
            },
            _ => {},
        }
        text
    }
}

/// An internal error, with the contexts that it passed through. `E` is the
/// error type of the code around the node.
#[derive(Debug, PartialEq, Eq)]
pub enum Report<E> {
    /// An error that came from outside.
    Outside(E),
    /// An error that the node itself raised.
    Message(Context),
    /// An error that the node itself raised, with a text of its own.
    Text(String),
    /// An error seen through one more context.
    Wrapped(Context, Box<Report<E>>),
}

/// What ends a task early.
#[derive(Debug, PartialEq, Eq)]
pub enum TaskError<E> {
    /// The task was asked to stop.
    Canceled,
    /// The task failed.
    Internal(Report<E>),
}

impl<E> Report<E> {
    pub open spec fn spec_wrap(self, context: Context) -> Report<E> {
        Report::Wrapped(context, Box::new(self))
    }

    /// The context that was added last, if any was.
    pub open spec fn outermost(self) -> Option<Context> {
        match self {
            Report::Outside(_) | Report::Text(_) => None,
            Report::Message(context) => Some(context),
            Report::Wrapped(context, _) => Some(context),
        }
    }

    /// The error that came from outside, if that is where it began.
    pub open spec fn cause(self) -> Option<E>
        decreases self,
    {
        match self {
            Report::Outside(error) => Some(error),
            Report::Message(_) | Report::Text(_) => None,
            Report::Wrapped(_, inner) => inner.cause(),
        }
    }

    /// Adds a context.
    pub fn wrap(self, context: Context) -> (report: Report<E>)
        ensures
            report == self.spec_wrap(context),
    {
        Report::Wrapped(context, Box::new(self))
    }
}

impl<E> TaskError<E> {
    pub open spec fn spec_wrap(self, context: Context) -> TaskError<E> {
        match self {
            TaskError::Canceled => TaskError::Canceled,
            TaskError::Internal(report) => TaskError::Internal(report.spec_wrap(context)),
        }
    }

    /// Adds a context to an internal error. Cancellation passes through as it is.
    pub fn wrap(self, context: Context) -> (error: TaskError<E>)
        ensures
            error == self.spec_wrap(context),
    {
        match self {
            TaskError::Canceled => TaskError::Canceled,
            TaskError::Internal(report) => TaskError::Internal(report.wrap(context)),
        }
    }
}

/// A context never hides the error it is put around: cancellation stays
/// cancellation, and an outside error can still be reached.
pub proof fn lemma_wrap_keeps_the_cause<E>(error: TaskError<E>, context: Context)
    ensures
        error.spec_wrap(context) is Canceled <==> error is Canceled,
        error matches TaskError::Internal(report) ==> {
            &&& error.spec_wrap(context) matches TaskError::Internal(wrapped)
            &&& wrapped.cause() == report.cause()
            &&& wrapped.outermost() == Some(context)
        },
{
}

/// The contexts of a report, the one that was added last first.
pub open spec fn contexts<E>(report: Report<E>) -> Seq<Context>
    decreases report,
{
    match report {
        Report::Wrapped(context, inner) => seq![context] + contexts(*inner),
        _ => Seq::empty(),
    }
}

/// A context is put in front of those that were there before, and changes
/// nothing else of the report.
pub proof fn lemma_wrap_adds_one_context<E>(report: Report<E>, context: Context)
    ensures
        report.spec_wrap(context) == Report::Wrapped(context, Box::new(report)),
        contexts(report.spec_wrap(context)) == seq![context] + contexts(report),
        TaskError::Internal(report).spec_wrap(context) == TaskError::Internal(
            Report::Wrapped(context, Box::new(report)),
        ),
        TaskError::<E>::Canceled.spec_wrap(context) is Canceled,
{
}

/// The number that a text in decimal stands for.
pub open spec fn decimal_value(text: Seq<char>) -> int
    decreases text.len(),
{
    if text.len() == 0 {
        0
    } else {
        decimal_value(text.drop_last()) * 10 + (text.last() as int - '0' as int)
    }
}

/// A number in decimal stands for that number, is made of digits alone, and has
/// no zeros in front.
pub proof fn lemma_decimal_reads_back(n: nat)
    ensures
        decimal_value(spec_decimal(n)) == n,
        spec_decimal(n).len() > 0,
        forall|i: int|
            0 <= i < spec_decimal(n).len() ==> '0' <= #[trigger] spec_decimal(n)[i] <= '9',
        n > 0 ==> spec_decimal(n)[0] != '0',
        n == 0 ==> spec_decimal(n) == seq!['0'],
    decreases n,
{
    if n < 10 {
        let text = spec_decimal(n);
        assert(text.drop_last() == Seq::<char>::empty());
        assert(decimal_value(text.drop_last()) == 0);
        assert(text.last() as int == '0' as int + n);
    } else {
        let front = spec_decimal(n / 10);
        let last = digit_char((n % 10) as int);
        lemma_decimal_reads_back(n / 10);
        assert(spec_decimal(n) == front.push(last));
        assert(front.push(last).drop_last() == front);
        assert(last as int == '0' as int + n % 10);
        assert(spec_decimal(n)[0] == front[0]);
    }
}

/// A failed request shows the number of its block, in decimal and in brackets.
/// Any other context has a fixed text.
pub proof fn lemma_message_shows_the_number(context: Context)
    ensures
        context matches Context::SyncL2Block(number) ==> context.spec_message()
            == "client.sync_l2_block"@ + "("@ + spec_decimal(number as nat) + ")"@,
        !(context is SyncL2Block) ==> context.spec_message() == context.spec_label(),
{
}

} // verus!
