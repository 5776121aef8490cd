//! Rate-limiting guard: a node records the block height of its last election
//! attempt in a single persisted cell and refuses to run again until a fixed
//! number of blocks has passed. The decision logic is pure; the cell here is
//! the in-memory model of the persisted marker, updated only through a
//! compare-and-set so that a caller backed by real storage can detect lost
//! races (`WriteFailed`).

use vstd::prelude::*;

use crate::types::BlockNumber;

verus! {

/// Minimum number of blocks between two election attempts of the same node.
pub const OFFCHAIN_REPEAT: u64 = 5;

/// Guard-level failures. None of them means the election logic itself failed:
/// the invocation is simply skipped.
#[derive(Clone, Copy, Debug, PartialEq, Eq, Structural)]
pub enum GuardError {
    /// The current height is below the recorded head: the local view of the
    /// chain regressed, most likely a reorg.
    Fork,
    /// An attempt already ran within the last `OFFCHAIN_REPEAT` blocks.
    RecentlyExecuted,
    /// The compare-and-set against the persisted cell lost a race with a
    /// concurrent invocation.
    WriteFailed,
}

/// The guard's decision table. Given the stored head (or its absence) and the
/// current height, either the new head to commit, or the reason to skip.
pub open spec fn guard_decision(head: Option<BlockNumber>, now: BlockNumber) -> Result<
    BlockNumber,
    GuardError,
> {
    match head {
        Option::Some(h) => if now < h {
            Result::Err(GuardError::Fork)
        } else if now - h <= OFFCHAIN_REPEAT {
            Result::Err(GuardError::RecentlyExecuted)
        } else {
            Result::Ok(now)
        },
        Option::None => Result::Ok(now),
    }
}

/// The single persisted marker holding the height of the last attempt.
/// Absent until the first run after boot.
pub struct ElectionHeadCell {
    head: Option<BlockNumber>,
}

impl ElectionHeadCell {
    /// What the cell currently stores.
    pub closed spec fn view(&self) -> Option<BlockNumber> {
        self.head
    }

    /// A cell as it stands at genesis or first boot: nothing recorded yet.
    pub fn empty() -> (r: ElectionHeadCell)
        ensures
            r@ == Option::<BlockNumber>::None,
    {
        ElectionHeadCell { head: None }
    }

    /// A cell holding a previously committed head.
    pub fn with_head(h: BlockNumber) -> (r: ElectionHeadCell)
        ensures
            r@ == Option::Some(h),
    {
        ElectionHeadCell { head: Some(h) }
    }

    /// Read the cell.
    pub fn read(&self) -> (r: Option<BlockNumber>)
        ensures
            r == self@,
    {
        self.head
    }

    /// Atomically replace the stored value, but only if it still equals the
    /// value the caller observed; reports whether the write took place.
    pub fn compare_and_set(&mut self, observed: Option<BlockNumber>, new_head: BlockNumber) -> (r:
        bool)
        ensures
            r == (old(self)@ == observed),
            r ==> final(self)@ == Option::Some(new_head),
            !r ==> final(self)@ == old(self)@,
    {
        let same: bool = match (&self.head, &observed) {
            (Option::Some(a), Option::Some(b)) => *a == *b,
            (Option::None, Option::None) => true,
            _ => false,
        };
        if same {
            self.head = Some(new_head);
            true
        } else {
            false
        }
    }
}

/// The decision table as executable code, for callers that keep the marker
/// in storage of their own: given the head they observed and the current
/// height, the new head to commit, or the reason to skip.
pub fn guard_decide(head: Option<BlockNumber>, now: BlockNumber) -> (r: Result<
    BlockNumber,
    GuardError,
>)
    ensures
        r == guard_decision(head, now),
{
    match head {
        Option::Some(h) => {
            if now < h {
                Err(GuardError::Fork)
            } else if now - h <= OFFCHAIN_REPEAT {
                Err(GuardError::RecentlyExecuted)
            } else {
                Ok(now)
            }
        },
        Option::None => Ok(now),
    }
}

/// Apply the guard at height `now`: read the recorded head, decide by the
/// table, and on a proceed decision commit `now` through compare-and-set.
/// Exactly the decision table: the cell is written if and only if the guard
/// proceeds, and a rejected invocation leaves it untouched.
pub fn set_check_offchain_execution_status(cell: &mut ElectionHeadCell, now: BlockNumber) -> (r:
    Result<(), GuardError>)
    ensures
        match guard_decision(old(cell)@, now) {
            Result::Ok(h) => r == Result::<(), GuardError>::Ok(()) && final(cell)@
                == Option::Some(h),
            Result::Err(e) => r == Result::<(), GuardError>::Err(e) && final(cell)@ == old(cell)@,
        },
{
    let observed: Option<BlockNumber> = cell.read();
    match guard_decide(observed, now) {
        Ok(h) => {
            let written: bool = cell.compare_and_set(observed, h);
            assert(written);
            Ok(())
        },
        Err(e) => Err(e),
    }
}

/// Guard idempotence: once an attempt at `now1` has been committed, a second
/// attempt at any `now2` with `now1 < now2 <= now1 + OFFCHAIN_REPEAT` is
/// rejected as recently executed.
pub proof fn lemma_guard_idempotence(head: Option<BlockNumber>, now1: BlockNumber, now2: BlockNumber)
    requires
        guard_decision(head, now1) == Result::<BlockNumber, GuardError>::Ok(now1),
        now1 < now2,
        now2 <= now1 + OFFCHAIN_REPEAT,
    ensures
        guard_decision(Option::Some(now1), now2) == Result::<BlockNumber, GuardError>::Err(
            GuardError::RecentlyExecuted,
        ),
{
}

/// Fork rejection: a height below a committed head always fails with `Fork`,
/// whatever the repeat threshold.
pub proof fn lemma_guard_fork_rejection(head: BlockNumber, now: BlockNumber)
    requires
        now < head,
    ensures
        guard_decision(Option::Some(head), now) == Result::<BlockNumber, GuardError>::Err(
            GuardError::Fork,
        ),
{
}

} // verus!
