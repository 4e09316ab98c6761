//! Block and batch numbers.
use vstd::prelude::*;
use zksync_consensus_roles::attester::BatchNumber;
use zksync_consensus_roles::validator::BlockNumber;
use zksync_consensus_storage::{BlockStoreState, Last};

verus! {

/// Whenever more than this many blocks are missing, the fallback fetcher is
/// active.
pub const FALLBACK_FETCHER_THRESHOLD: u64 = 10;

/// `validator::BlockNumber::next`: the number after `n`. It panics at the
/// largest `u64`, which is left out.
#[verifier::external_body]
pub(crate) fn next_block_number(n: u64) -> (next: u64)
    requires
        n < u64::MAX,
    ensures
        next == n + 1,
{
    BlockNumber(n).next().0
}

/// `validator::BlockNumber + u64`: the number `k` blocks after `n`. It panics
/// where the sum does not fit, which is left out.
#[verifier::external_body]
pub(crate) fn block_number_after(n: u64, k: u64) -> (later: u64)
    requires
        n + k <= u64::MAX,
    ensures
        later == n + k,
{
    (BlockNumber(n) + k).0
}

/// `attester::BatchNumber::next`: the number after `n`. It panics at the
/// largest `u64`, which is left out.
#[verifier::external_body]
pub(crate) fn next_batch_number(n: u64) -> (next: u64)
    requires
        n < u64::MAX,
    ensures
        next == n + 1,
{
    BatchNumber(n).next().0
}

/// The range of blocks that a store holds: `first` is the lowest of them, or
/// the first one to be stored while the store is empty.
#[derive(Clone, Copy, Debug, PartialEq, Eq)]
pub struct StoreState {
    pub first: u64,
    pub last: Option<u64>,
}

impl StoreState {
    /// The number of the next block to be stored.
    pub open spec fn spec_next(self) -> int {
        match self.last {
            Some(last) => last + 1,
            None => self.first as int,
        }
    }

    /// `BlockStoreState::next`: one after the last block, or `first` while the
    /// store is empty. It panics where the last block has the largest `u64` for
    /// its number, which is left out.
    #[verifier::external_body]
    pub(crate) fn next(&self) -> (next: u64)
        requires
            self.spec_next() <= u64::MAX,
        ensures
            next == self.spec_next(),
    {
        let last = self.last.map(|n| Last::PreGenesis(BlockNumber(n)));
        BlockStoreState { first: BlockNumber(self.first), last }.next().0
    }

    /// How many blocks the store misses of a main node whose last block is `main`.
    pub open spec fn missing(self, main: u64) -> int {
        main + 1 - self.spec_next()
    }
}

impl StoreState {
    /// Whether `next` and the threshold after it are block numbers.
    pub open spec fn leaves_room(self) -> bool {
        self.spec_next() + FALLBACK_FETCHER_THRESHOLD <= u64::MAX
    }

    /// Whether the number of the next block leaves room for the threshold.
    pub fn has_room(&self) -> (room: bool)
        ensures
            room == self.leaves_room(),
    {
        match self.last {
            Some(last) => last < u64::MAX - FALLBACK_FETCHER_THRESHOLD,
            None => self.first <= u64::MAX - FALLBACK_FETCHER_THRESHOLD,
        }
    }
}

/// Whether the fallback fetcher is active: the main node, whose last block is
/// `main`, is too far ahead of what is persisted here.
pub fn is_lagging(main: u64, persisted: &StoreState) -> (lagging: bool)
    requires
        persisted.leaves_room(),
    ensures
        lagging == (persisted.missing(main) > FALLBACK_FETCHER_THRESHOLD),
{
    main >= block_number_after(persisted.next(), FALLBACK_FETCHER_THRESHOLD)
}

/// The number of an L2 block as the main node's API takes it, if it fits.
pub fn l2_block_number(n: u64) -> (number: Option<u32>)
    ensures
        number == spec_l2_block_number(n),
{
    if n <= u32::MAX as u64 {
        Some(n as u32)
    } else {
        None
    }
}

pub open spec fn spec_l2_block_number(n: u64) -> Option<u32> {
    if n <= u32::MAX {
        Some(n as u32)
    } else {
        None
    }
}

/// The main node's API takes every number up to the largest `u32`, as it is, and
/// no other.
pub proof fn lemma_l2_block_number_is_the_number(n: u64)
    ensures
        match spec_l2_block_number(n) {
            Some(number) => number as int == n as int,
            None => n > 0xffff_ffff,
        },
        n <= 0xffff_ffff ==> spec_l2_block_number(n) is Some,
{
}

/// What a store misses are the blocks after its last one, or from its first one
/// on while it is empty, up to the main node's last one. A lag is more than ten
/// of them, and there must be ten numbers after the next one to tell.
pub proof fn lemma_missing_blocks_are_those_after_the_last(state: StoreState, main: u64)
    ensures
        FALLBACK_FETCHER_THRESHOLD == 10,
        state.last matches Some(last) ==> {
            &&& state.spec_next() == last + 1
            &&& state.missing(main) == main - last
            &&& state.leaves_room() <==> last + 11 <= 0xffff_ffff_ffff_ffff
        },
        state.last is None ==> {
            &&& state.spec_next() == state.first
            &&& state.missing(main) == main + 1 - state.first
            &&& state.leaves_room() <==> state.first + 10 <= 0xffff_ffff_ffff_ffff
        },
{
}

} // verus!
