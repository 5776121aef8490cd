//! Core data model: identifiers, assignments in ratio and staked form, the
//! election result handed in by the external solver, and the error taxonomy.

use vstd::prelude::*;

verus! {

/// An account identifier. The worker only compares accounts for equality and
/// looks them up by position in the snapshots, so a plain integer carries all
/// it needs.
pub type AccountId = u64;

/// A block height.
pub type BlockNumber = u64;

/// The numeric weight of a vote, wide enough that sums of converted stakes do
/// not overflow in ordinary operation.
pub type ExtendedBalance = u128;

/// Position of a validator inside the validator snapshot.
pub type ValidatorIndex = u16;

/// Position of a nominator inside the nominator snapshot.
pub type NominatorIndex = u32;

/// Denominator of the fractional vote weights: a ratio is `parts / ACCURACY`,
/// so a full assignment's parts sum to exactly `ACCURACY`.
pub const ACCURACY: u32 = 1_000_000_000;

/// Largest converted stake that can be scaled by a ratio without the
/// intermediate product leaving `u128`.
pub const MAX_SCALABLE_STAKE: u128 = u128::MAX / 1_000_000_000;

/// A voter's stake split among a set of targets, as fractions of the voter's
/// total stake.
#[derive(Clone, Debug)]
pub struct Assignment {
    /// The voter.
    pub who: AccountId,
    /// `(target, parts)` pairs; `parts` is a fraction of the voter's stake in
    /// units of `1 / ACCURACY`.
    pub distribution: Vec<(AccountId, u32)>,
}

/// A voter's stake split among a set of targets, in absolute stake units.
#[derive(Clone, Debug)]
pub struct StakedAssignment {
    /// The voter.
    pub who: AccountId,
    /// `(target, stake)` pairs in absolute `ExtendedBalance` units.
    pub distribution: Vec<(AccountId, ExtendedBalance)>,
}

/// What the external election solver returns: the elected accounts, each with
/// its approval stake (discarded by this worker), and one ratio assignment per
/// voter that backed at least one winner.
pub struct ElectionResult {
    /// Elected accounts, paired with an approval-stake artifact of the solver.
    pub winners: Vec<(AccountId, ExtendedBalance)>,
    /// One assignment per participating voter.
    pub assignments: Vec<Assignment>,
}

/// Quality measure of a solution, compared lexicographically on chain:
/// the least-backed winner's support, the sum of all supports, and the sum of
/// their squares.
#[derive(Clone, Copy, Debug, PartialEq, Eq, Structural)]
pub struct PhragmenScore {
    /// Support of the least-backed winner; to be maximized.
    pub minimal_stake: ExtendedBalance,
    /// Sum of all winners' supports; to be maximized.
    pub sum_stake: ExtendedBalance,
    /// Sum of the squares of the supports; to be minimized.
    pub sum_stake_squared: ExtendedBalance,
}

/// Ways an election attempt can fail. The first three abort the whole attempt
/// (they do not depend on which key is used); `SigningFailed` only moves the
/// search to the next candidate key and is never the terminal outcome while
/// candidates remain.
#[derive(Clone, Copy, Debug, PartialEq, Eq, Structural)]
pub enum OffchainElectionError {
    /// No local signing key is among the authorized keys.
    NoSigningKey,
    /// The current candidate key refused or was unable to sign.
    SigningFailed,
    /// The election solver returned no result.
    ElectionFailed,
    /// A snapshot of validators or nominators is missing.
    SnapshotUnavailable,
    /// An assignment could not be expressed through snapshot indices.
    CompactFailed,
}

/// Sum of the fractional parts of a ratio distribution.
pub open spec fn ratio_sum(d: Seq<(AccountId, u32)>) -> int
    decreases d.len(),
{
    if d.len() == 0 {
        0
    } else {
        ratio_sum(d.drop_last()) + d.last().1
    }
}

/// Sum of the absolute weights of a staked distribution.
pub open spec fn weight_sum(d: Seq<(AccountId, ExtendedBalance)>) -> int
    decreases d.len(),
{
    if d.len() == 0 {
        0
    } else {
        weight_sum(d.drop_last()) + d.last().1
    }
}

/// Position of the first occurrence of `a` in `s`, or `-1` if absent.
pub open spec fn find_index(s: Seq<AccountId>, a: AccountId) -> int
    decreases s.len(),
{
    if s.len() == 0 {
        -1
    } else if s[0] == a {
        0
    } else {
        let r = find_index(s.drop_first(), a);
        if r < 0 {
            -1
        } else {
            r + 1
        }
    }
}

/// `find_index` returns either `-1` with no occurrence at all, or the first
/// position holding `a`.
pub proof fn lemma_find_index(s: Seq<AccountId>, a: AccountId)
    ensures
        find_index(s, a) == -1 ==> forall|j: int| 0 <= j < s.len() ==> s[j] != a,
        find_index(s, a) != -1 ==> {
            let r = find_index(s, a);
            &&& 0 <= r < s.len()
            &&& s[r] == a
            &&& forall|j: int| 0 <= j < r ==> s[j] != a
        },
    decreases s.len(),
{
    if s.len() > 0 && s[0] != a {
        let rest = s.drop_first();
        lemma_find_index(rest, a);
        assert(forall|j: int| 0 <= j < rest.len() ==> #[trigger] rest[j] == s[j + 1]);
        let r = find_index(rest, a);
        if r == -1 {
            assert forall|j: int| 0 <= j < s.len() implies s[j] != a by {
                if j > 0 {
                    assert(rest[j - 1] != a);
                }
            }
        } else {
            assert(s[r + 1] == rest[r]);
            assert forall|j: int| 0 <= j < r + 1 implies s[j] != a by {
                if j > 0 {
                    assert(rest[j - 1] != a);
                }
            }
        }
    }
}

/// Sum of parts across a concatenation split.
pub proof fn lemma_ratio_sum_push(d: Seq<(AccountId, u32)>, x: (AccountId, u32))
    ensures
        ratio_sum(d.push(x)) == ratio_sum(d) + x.1,
{
    assert(d.push(x).drop_last() =~= d);
    assert(d.push(x).last() == x);
}

/// Sum of weights across a push.
pub proof fn lemma_weight_sum_push(d: Seq<(AccountId, ExtendedBalance)>, x: (AccountId, ExtendedBalance))
    ensures
        weight_sum(d.push(x)) == weight_sum(d) + x.1,
{
    assert(d.push(x).drop_last() =~= d);
    assert(d.push(x).last() == x);
}

/// Every ratio distribution sums to something non-negative, and each entry is
/// bounded by the whole sum.
pub proof fn lemma_ratio_sum_bounds(d: Seq<(AccountId, u32)>)
    ensures
        ratio_sum(d) >= 0,
        forall|i: int| 0 <= i < d.len() ==> #[trigger] d[i].1 <= ratio_sum(d),
    decreases d.len(),
{
    if d.len() > 0 {
        lemma_ratio_sum_bounds(d.drop_last());
        assert(forall|i: int| 0 <= i < d.len() - 1 ==> d[i] == d.drop_last()[i]);
    }
}

/// Every staked distribution sums to something non-negative, and each entry is
/// bounded by the whole sum.
pub proof fn lemma_weight_sum_bounds(d: Seq<(AccountId, ExtendedBalance)>)
    ensures
        weight_sum(d) >= 0,
        forall|i: int| 0 <= i < d.len() ==> #[trigger] d[i].1 <= weight_sum(d),
    decreases d.len(),
{
    if d.len() > 0 {
        lemma_weight_sum_bounds(d.drop_last());
        assert(forall|i: int| 0 <= i < d.len() - 1 ==> d[i] == d.drop_last()[i]);
    }
}

/// A prefix of a ratio distribution sums to no more than the whole.
pub proof fn lemma_ratio_sum_take(d: Seq<(AccountId, u32)>, n: int)
    requires
        0 <= n <= d.len(),
    ensures
        ratio_sum(d.take(n)) <= ratio_sum(d),
        ratio_sum(d.take(n)) >= 0,
    decreases d.len() - n,
{
    lemma_ratio_sum_bounds(d.take(n));
    if n < d.len() {
        lemma_ratio_sum_take(d, n + 1);
        assert(d.take(n + 1).drop_last() =~= d.take(n));
        assert(ratio_sum(d.take(n + 1)) == ratio_sum(d.take(n)) + d[n].1);
    } else {
        assert(d.take(n) =~= d);
    }
}

/// A prefix of a staked distribution sums to no more than the whole.
pub proof fn lemma_weight_sum_take(d: Seq<(AccountId, ExtendedBalance)>, n: int)
    requires
        0 <= n <= d.len(),
    ensures
        weight_sum(d.take(n)) <= weight_sum(d),
        weight_sum(d.take(n)) >= 0,
    decreases d.len() - n,
{
    lemma_weight_sum_bounds(d.take(n));
    if n < d.len() {
        lemma_weight_sum_take(d, n + 1);
        assert(d.take(n + 1).drop_last() =~= d.take(n));
        assert(weight_sum(d.take(n + 1)) == weight_sum(d.take(n)) + d[n].1);
    } else {
        assert(d.take(n) =~= d);
    }
}

/// Scan a snapshot for the first position holding `a`.
pub fn position_of(s: &Vec<AccountId>, a: AccountId) -> (r: Option<usize>)
    ensures
        match r {
            Some(i) => i == find_index(s@, a) && i < s@.len() && s@[i as int] == a,
            None => find_index(s@, a) == -1,
        },
{
    proof {
        lemma_find_index(s@, a);
    }
    let n: usize = s.len();
    let mut i: usize = 0;
    while i < n
        invariant
            n == s@.len(),
            0 <= i <= n,
            forall|j: int| 0 <= j < i ==> s@[j] != a,
            find_index(s@, a) != -1 ==> {
                let r = find_index(s@, a);
                &&& 0 <= r < s@.len()
                &&& s@[r] == a
                &&& forall|j: int| 0 <= j < r ==> s@[j] != a
            },
            find_index(s@, a) == -1 ==> forall|j: int| 0 <= j < s@.len() ==> s@[j] != a,
        decreases n - i,
    {
        if s[i] == a {
            proof {
                let r = find_index(s@, a);
                if r == -1 {
                    assert(s@[i as int] != a);
                }
                if r < i {
                    assert(s@[r] != a);
                }
                if r > i {
                    assert(s@[i as int] != a);
                }
            }
            return Some(i);
        }
        i = i + 1;
    }
    proof {
        if find_index(s@, a) != -1 {
            let r = find_index(s@, a);
            assert(s@[r] != a);
        }
    }
    None
}

} // verus!
