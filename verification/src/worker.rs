//! The worker itself: the per-candidate pipeline tail that turns reduced
//! staked assignments into a signed-and-submitted solution, and the
//! orchestration that walks the candidate keys, aborting the whole search on
//! a fatal pipeline error and moving to the next key when only signing or
//! submission fails.

use vstd::prelude::*;

use crate::compact::{compact_ok, compact_model, entries_view, from_assignment, CompactSolution};
use crate::keys::{candidate_seq, find_candidates};
use crate::staked::{
    convert_and_reduce,
    distinct,
    into_assignment,
    part_of,
    ratio_targets,
    seq_subset,
    staked_targets,
};
use crate::support::{
    build_support_map,
    capped,
    evaluate_support,
    min_total,
    sum_squared,
    sum_total,
    support_total,
    totals_of,
};
use crate::types::{
    find_index,
    position_of,
    ratio_sum,
    weight_sum,
    AccountId,
    Assignment,
    ElectionResult,
    ExtendedBalance,
    NominatorIndex,
    OffchainElectionError,
    PhragmenScore,
    StakedAssignment,
    ValidatorIndex,
    ACCURACY,
    MAX_SCALABLE_STAKE,
};
use crate::wire::encode_signature_payload;

verus! {

/// Everything the submission call carries on chain.
pub struct SubmissionCall {
    /// The winners, as positions in the validator snapshot.
    pub winners: Vec<ValidatorIndex>,
    /// The index-compacted assignments.
    pub compact: CompactSolution,
    /// The claimed score of the solution.
    pub score: PhragmenScore,
    /// Position of the signing key in the authorized set.
    pub index: u32,
    /// Signature over the payload encoding of the other four fields.
    pub signature: Vec<u8>,
}

/// The computed solution for one candidate, ready to be signed.
pub struct PreparedSubmission {
    /// The winners, as positions in the validator snapshot.
    pub winners: Vec<ValidatorIndex>,
    /// The index-compacted assignments.
    pub compact: CompactSolution,
    /// The score of the solution.
    pub score: PhragmenScore,
}

/// Sum of the parts of a compact entry's edges.
pub open spec fn edge_parts_sum(e: Seq<(ValidatorIndex, u32)>) -> int
    decreases e.len(),
{
    if e.len() == 0 {
        0
    } else {
        edge_parts_sum(e.drop_last()) + e.last().1
    }
}

proof fn lemma_edge_parts_match(e: Seq<(ValidatorIndex, u32)>, d: Seq<(AccountId, u32)>)
    requires
        e.len() == d.len(),
        forall|j: int| 0 <= j < e.len() ==> (#[trigger] e[j]).1 == d[j].1,
    ensures
        edge_parts_sum(e) == ratio_sum(d),
    decreases e.len(),
{
    if e.len() > 0 {
        lemma_edge_parts_match(e.drop_last(), d.drop_last());
    }
}

/// The clamped total backing of each winner, in winner order.
pub open spec fn support_totals(s: Seq<StakedAssignment>, winners: Seq<AccountId>) -> Seq<
    ExtendedBalance,
> {
    Seq::new(winners.len(), |k: int| capped(support_total(s, winners[k])) as ExtendedBalance)
}

/// Whether every voter and target of a staked assignment set resolves to a
/// fitting snapshot index.
pub open spec fn staked_compactable(
    s: Seq<StakedAssignment>,
    nominators: Seq<AccountId>,
    validators: Seq<AccountId>,
) -> bool {
    forall|i: int|
        0 <= i < s.len() ==> {
            &&& 0 <= find_index(nominators, (#[trigger] s[i]).who) <= NominatorIndex::MAX
            &&& forall|j: int|
                0 <= j < s[i].distribution@.len() ==> 0 <= find_index(
                    validators,
                    (#[trigger] s[i].distribution@[j]).0,
                ) <= ValidatorIndex::MAX
        }
}

/// The pipeline tail after reduction: build the support map and score, fold
/// the reduced assignments back to ratio form, compact them through the
/// snapshots, and express the winners as validator indices. Succeeds exactly
/// when the reduced assignments resolve through the snapshots.
pub fn finalize_submission(
    winner_accounts: &Vec<AccountId>,
    reduced: &Vec<StakedAssignment>,
    nominators: &Vec<AccountId>,
    validators: &Vec<AccountId>,
) -> (r: Result<PreparedSubmission, OffchainElectionError>)
    requires
        forall|i: int|
            0 <= i < reduced@.len() ==> weight_sum((#[trigger] reduced@[i]).distribution@)
                <= MAX_SCALABLE_STAKE,
        forall|i: int|
            0 <= i < winner_accounts@.len() ==> 0 <= find_index(
                validators@,
                #[trigger] winner_accounts@[i],
            ) <= ValidatorIndex::MAX,
    ensures
        r.is_ok() == staked_compactable(reduced@, nominators@, validators@),
        !staked_compactable(reduced@, nominators@, validators@) ==> r == Result::<
            PreparedSubmission,
            OffchainElectionError,
        >::Err(OffchainElectionError::CompactFailed),
        match r {
            Result::Ok(ps) => {
                &&& ps.winners@.len() == winner_accounts@.len()
                &&& forall|i: int|
                    0 <= i < winner_accounts@.len() ==> (#[trigger] ps.winners@[i]) == find_index(
                        validators@,
                        winner_accounts@[i],
                    ) as ValidatorIndex
                &&& ps.score.minimal_stake == min_total(
                    support_totals(reduced@, winner_accounts@),
                )
                &&& ps.score.sum_stake == capped(
                    sum_total(support_totals(reduced@, winner_accounts@)),
                )
                &&& ps.score.sum_stake_squared == capped(
                    sum_squared(support_totals(reduced@, winner_accounts@)),
                )
                &&& ps.compact.entries@.len() == reduced@.len()
                &&& forall|i: int|
                    0 <= i < reduced@.len() ==> (#[trigger] ps.compact.entries@[i]).who_index
                        == find_index(nominators@, reduced@[i].who) as NominatorIndex
                &&& forall|i: int|
                    0 <= i < reduced@.len() ==> (#[trigger] ps.compact.entries@[i]).edges@.len()
                        == reduced@[i].distribution@.len()
                &&& forall|i: int, j: int|
                    0 <= i < reduced@.len() && 0 <= j < reduced@[i].distribution@.len()
                        ==> (#[trigger] ps.compact.entries@[i].edges@[j]).0 == find_index(
                        validators@,
                        reduced@[i].distribution@[j].0,
                    ) as ValidatorIndex
                &&& forall|i: int, j: int|
                    0 <= i < reduced@.len() && 0 <= j < reduced@[i].distribution@.len() - 1
                        && weight_sum(reduced@[i].distribution@) > 0
                        ==> (#[trigger] ps.compact.entries@[i].edges@[j]).1 == part_of(
                        reduced@[i].distribution@[j].1 as int,
                        weight_sum(reduced@[i].distribution@),
                    )
                &&& forall|i: int, j: int|
                    0 <= i < reduced@.len() && 0 <= j < reduced@[i].distribution@.len()
                        && weight_sum(reduced@[i].distribution@) == 0
                        ==> (#[trigger] ps.compact.entries@[i].edges@[j]).1 == 0
                &&& forall|i: int|
                    0 <= i < reduced@.len() && weight_sum(reduced@[i].distribution@) > 0
                        && reduced@[i].distribution@.len() >= 1 ==> edge_parts_sum(
                        (#[trigger] ps.compact.entries@[i]).edges@,
                    ) == ACCURACY
            },
            Result::Err(e) => e == OffchainElectionError::CompactFailed,
        },
{
    // Winners as validator indices.
    let wn: usize = winner_accounts.len();
    let mut widx: Vec<ValidatorIndex> = Vec::new();
    let mut i: usize = 0;
    while i < wn
        invariant
            wn == winner_accounts@.len(),
            0 <= i <= wn,
            forall|k: int|
                0 <= k < wn ==> 0 <= find_index(validators@, #[trigger] winner_accounts@[k])
                    <= ValidatorIndex::MAX,
            widx@.len() == i,
            forall|k: int|
                0 <= k < i ==> (#[trigger] widx@[k]) == find_index(
                    validators@,
                    winner_accounts@[k],
                ) as ValidatorIndex,
        decreases wn - i,
    {
        match position_of(validators, winner_accounts[i]) {
            Some(p) => {
                widx.push(p as ValidatorIndex);
            },
            None => {
                proof {
                    assert(find_index(validators@, winner_accounts@[i as int]) >= 0);
                }
                // Unreachable: the winners are resolvable by precondition.
                return Err(OffchainElectionError::CompactFailed);
            },
        }
        i = i + 1;
    }
    // Support map and score.
    let supports = build_support_map(winner_accounts, reduced);
    let score: PhragmenScore = evaluate_support(&supports);
    proof {
        assert(totals_of(supports@) =~= support_totals(reduced@, winner_accounts@));
    }
    // Back to ratio form.
    let rn: usize = reduced.len();
    let mut ratio: Vec<Assignment> = Vec::new();
    let mut i: usize = 0;
    while i < rn
        invariant
            rn == reduced@.len(),
            0 <= i <= rn,
            forall|k: int|
                0 <= k < rn ==> weight_sum((#[trigger] reduced@[k]).distribution@)
                    <= MAX_SCALABLE_STAKE,
            ratio@.len() == i,
            forall|k: int| 0 <= k < i ==> (#[trigger] ratio@[k]).who == reduced@[k].who,
            forall|k: int|
                0 <= k < i ==> (#[trigger] ratio@[k]).distribution@.len()
                    == reduced@[k].distribution@.len(),
            forall|k: int|
                0 <= k < i ==> ratio_targets((#[trigger] ratio@[k]).distribution@)
                    == staked_targets(reduced@[k].distribution@),
            forall|k: int, j: int|
                0 <= k < i && 0 <= j < reduced@[k].distribution@.len() - 1 && weight_sum(
                    reduced@[k].distribution@,
                ) > 0 ==> ((#[trigger] ratio@[k].distribution@[j])).1 == part_of(
                    reduced@[k].distribution@[j].1 as int,
                    weight_sum(reduced@[k].distribution@),
                ),
            forall|k: int, j: int|
                0 <= k < i && 0 <= j < reduced@[k].distribution@.len() && weight_sum(
                    reduced@[k].distribution@,
                ) == 0 ==> ((#[trigger] ratio@[k].distribution@[j])).1 == 0,
            forall|k: int|
                0 <= k < i && weight_sum(reduced@[k].distribution@) > 0
                    && reduced@[k].distribution@.len() >= 1 ==> ratio_sum(
                    (#[trigger] ratio@[k]).distribution@,
                ) == ACCURACY,
        decreases rn - i,
    {
        let a: Assignment = into_assignment(&reduced[i]);
        ratio.push(a);
        i = i + 1;
    }
    // Compact encode. The ratio form has exactly the accounts of the reduced
    // form, so compactability of one is compactability of the other.
    proof {
        assert forall|k: int, j: int|
            0 <= k < rn && 0 <= j < reduced@[k].distribution@.len() implies (
        #[trigger] ratio@[k].distribution@[j]).0 == reduced@[k].distribution@[j].0 by {
            assert(ratio_targets(ratio@[k].distribution@)[j] == staked_targets(
                reduced@[k].distribution@,
            )[j]);
        }
        if staked_compactable(reduced@, nominators@, validators@) {
            assert forall|i: int| 0 <= i < ratio@.len() implies {
                &&& 0 <= find_index(nominators@, (#[trigger] ratio@[i]).who)
                    <= NominatorIndex::MAX
                &&& forall|j: int|
                    0 <= j < ratio@[i].distribution@.len() ==> 0 <= find_index(
                        validators@,
                        (#[trigger] ratio@[i].distribution@[j]).0,
                    ) <= ValidatorIndex::MAX
            } by {
                assert(ratio@[i].who == reduced@[i].who);
                assert forall|j: int| 0 <= j < ratio@[i].distribution@.len() implies 0
                    <= find_index(validators@, (#[trigger] ratio@[i].distribution@[j]).0)
                    <= ValidatorIndex::MAX by {
                    assert(ratio@[i].distribution@[j].0 == reduced@[i].distribution@[j].0);
                }
            }
            assert(compact_ok(ratio@, nominators@, validators@));
        } else {
            let i = choose|i: int|
                0 <= i < reduced@.len() && !{
                    &&& 0 <= find_index(nominators@, (#[trigger] reduced@[i]).who)
                        <= NominatorIndex::MAX
                    &&& forall|j: int|
                        0 <= j < reduced@[i].distribution@.len() ==> 0 <= find_index(
                            validators@,
                            (#[trigger] reduced@[i].distribution@[j]).0,
                        ) <= ValidatorIndex::MAX
                };
            assert(ratio@[i].who == reduced@[i].who);
            if !(0 <= find_index(nominators@, reduced@[i].who) <= NominatorIndex::MAX) {
                assert(!compact_ok(ratio@, nominators@, validators@));
            } else {
                let j = choose|j: int|
                    0 <= j < reduced@[i].distribution@.len() && !(0 <= find_index(
                        validators@,
                        (#[trigger] reduced@[i].distribution@[j]).0,
                    ) <= ValidatorIndex::MAX);
                assert(ratio@[i].distribution@[j].0 == reduced@[i].distribution@[j].0);
                assert(!compact_ok(ratio@, nominators@, validators@));
            }
        }
        assert(compact_ok(ratio@, nominators@, validators@) == staked_compactable(
            reduced@,
            nominators@,
            validators@,
        ));
    }
    let compact: CompactSolution = match from_assignment(&ratio, nominators, validators) {
        Ok(c) => c,
        Err(_) => {
            return Err(OffchainElectionError::CompactFailed);
        },
    };
    proof {
        let m = compact_model(ratio@, nominators@, validators@);
        assert(compact_ok(ratio@, nominators@, validators@));
        assert(entries_view(compact.entries@) == m);
        assert(entries_view(compact.entries@).len() == compact.entries@.len());
        assert(m.len() == ratio@.len());
        assert(compact.entries@.len() == rn);
        assert forall|k: int| 0 <= k < rn implies {
            &&& (#[trigger] compact.entries@[k]).who_index == find_index(
                nominators@,
                reduced@[k].who,
            ) as NominatorIndex
            &&& compact.entries@[k].edges@.len() == reduced@[k].distribution@.len()
            &&& forall|j: int|
                0 <= j < reduced@[k].distribution@.len()
                    ==> (#[trigger] compact.entries@[k].edges@[j]).0 == find_index(
                    validators@,
                    reduced@[k].distribution@[j].0,
                ) as ValidatorIndex
            &&& forall|j: int|
                0 <= j < reduced@[k].distribution@.len() ==> (
                #[trigger] compact.entries@[k].edges@[j]).1 == ratio@[k].distribution@[j].1
        } by {
            assert(entries_view(compact.entries@)[k] == m[k]);
            assert(entries_view(compact.entries@)[k] == crate::compact::entry_view(
                compact.entries@[k],
            ));
            assert(m[k] == crate::compact::entry_of(ratio@[k], nominators@, validators@));
            assert(crate::compact::entry_view(compact.entries@[k]) == (
                compact.entries@[k].who_index,
                compact.entries@[k].edges@,
            ));
            assert(compact.entries@[k].edges@ == m[k].1);
            assert forall|j: int| 0 <= j < reduced@[k].distribution@.len() implies {
                &&& (#[trigger] compact.entries@[k].edges@[j]).0 == find_index(
                    validators@,
                    reduced@[k].distribution@[j].0,
                ) as ValidatorIndex
                &&& compact.entries@[k].edges@[j].1 == ratio@[k].distribution@[j].1
            } by {
                assert(compact.entries@[k].edges@[j] == m[k].1[j]);
                assert(m[k].1[j] == (
                    find_index(validators@, ratio@[k].distribution@[j].0) as ValidatorIndex,
                    ratio@[k].distribution@[j].1,
                ));
                assert(ratio@[k].distribution@[j].0 == reduced@[k].distribution@[j].0);
            }
        }
        assert forall|k: int|
            0 <= k < rn && weight_sum(reduced@[k].distribution@) > 0
                && reduced@[k].distribution@.len() >= 1 implies edge_parts_sum(
            (#[trigger] compact.entries@[k]).edges@,
        ) == ACCURACY by {
            lemma_edge_parts_match(compact.entries@[k].edges@, ratio@[k].distribution@);
        }
    }
    Ok(PreparedSubmission { winners: widx, compact, score })
}

/// The node's signing and submission facilities, as the worker sees them.
/// Whether a key at a given authorized position can sign, and whether a call
/// signed at that position is accepted by the pool, is the environment's
/// business; the worker only promises to follow the outcomes in order.
pub trait SubmissionEnv {
    /// Whether signing succeeds for the key at this authorized position.
    spec fn sign_ok(&self, pos: int) -> bool;

    /// Whether the pool accepts a call signed at this authorized position.
    spec fn submit_ok(&self, pos: int) -> bool;

    /// Sign the payload with the key at authorized position `pos`.
    fn sign(&self, pos: u32, key: AccountId, payload: &Vec<u8>) -> (r: Option<Vec<u8>>)
        ensures
            r.is_some() == self.sign_ok(pos as int),
    ;

    /// Hand the finished call to the submission channel.
    fn submit(&self, call: SubmissionCall) -> (r: bool)
        ensures
            r == self.submit_ok(call.index as int),
    ;
}

/// An environment whose outcomes are written down ahead of time, indexed by
/// authorized key position: the deterministic stand-in that drives the worker
/// in tests.
pub struct ScriptedEnv {
    /// Whether signing succeeds, per authorized position.
    pub sign_results: Vec<bool>,
    /// Whether submission succeeds, per authorized position.
    pub submit_results: Vec<bool>,
}

impl SubmissionEnv for ScriptedEnv {
    open spec fn sign_ok(&self, pos: int) -> bool {
        0 <= pos < self.sign_results@.len() && self.sign_results@[pos]
    }

    open spec fn submit_ok(&self, pos: int) -> bool {
        0 <= pos < self.submit_results@.len() && self.submit_results@[pos]
    }

    fn sign(&self, pos: u32, key: AccountId, payload: &Vec<u8>) -> (r: Option<Vec<u8>>) {
        if (pos as usize) < self.sign_results.len() && self.sign_results[pos as usize] {
            Some(Vec::new())
        } else {
            None
        }
    }

    fn submit(&self, call: SubmissionCall) -> (r: bool) {
        (call.index as usize) < self.submit_results.len() && self.submit_results[call.index
            as usize]
    }
}

/// Whether the candidate at position `p` of the candidate list gets both a
/// signature and an accepted submission from this environment.
pub open spec fn success_at<E: SubmissionEnv>(
    env: E,
    cands: Seq<(u32, AccountId)>,
    p: int,
) -> bool {
    env.sign_ok(cands[p].0 as int) && env.submit_ok(cands[p].0 as int)
}

/// The solver's assignments together with the voters' converted stakes, in
/// the shape the pipeline needs: one stake per assignment, full ratio sums,
/// distinct voters, distinct targets per voter, and sizes inside the index
/// and prefix ranges.
pub open spec fn assignments_well_formed(
    assignments: Seq<Assignment>,
    stakes: Seq<ExtendedBalance>,
) -> bool {
    &&& stakes.len() == assignments.len()
    &&& assignments.len() <= u32::MAX
    &&& forall|i: int|
        0 <= i < assignments.len() ==> 1 <= (#[trigger] assignments[i]).distribution@.len()
            <= u32::MAX
    &&& forall|i: int|
        0 <= i < assignments.len() ==> ratio_sum((#[trigger] assignments[i]).distribution@)
            == ACCURACY
    &&& forall|i: int| 0 <= i < stakes.len() ==> #[trigger] stakes[i] <= MAX_SCALABLE_STAKE
    &&& forall|i: int, j: int|
        0 <= i < j < assignments.len() ==> assignments[i].who != assignments[j].who
    &&& forall|i: int|
        0 <= i < assignments.len() ==> distinct(
            ratio_targets((#[trigger] assignments[i]).distribution@),
        )
}

/// Every winner the solver returned sits in the validator snapshot at a
/// position that fits a `ValidatorIndex`. The solver draws winners from the
/// snapshot, so a violation is an internal-consistency fault, not an input
/// the worker accepts.
pub open spec fn winners_resolvable(
    winners: Seq<(AccountId, ExtendedBalance)>,
    validators: Seq<AccountId>,
) -> bool {
    &&& winners.len() <= u32::MAX
    &&& forall|i: int|
        0 <= i < winners.len() ==> 0 <= find_index(validators, (#[trigger] winners[i]).0)
            <= ValidatorIndex::MAX
}

/// One worker invocation past the guard: walk the candidate keys in order;
/// for each, check the snapshots, take the solver's result, run the pipeline,
/// sign and submit. A missing snapshot, a missing election result or a
/// failed compaction aborts the whole search; a signing or submission
/// failure only moves to the next candidate. Returns the authorized position
/// of the first candidate whose submission was accepted, or the terminal
/// error.
pub fn compute_offchain_election<E: SubmissionEnv>(
    env: &E,
    authorized: &Vec<AccountId>,
    local_keys: &Vec<AccountId>,
    snapshot_validators: &Option<Vec<AccountId>>,
    snapshot_nominators: &Option<Vec<AccountId>>,
    election: &Option<ElectionResult>,
    stakes: &Vec<ExtendedBalance>,
) -> (r: Result<u32, OffchainElectionError>)
    requires
        authorized@.len() <= u32::MAX,
        (*election) matches Option::Some(e) ==> assignments_well_formed(e.assignments@, stakes@),
        (*election) matches Option::Some(e) ==> ((*snapshot_validators) matches Option::Some(v)
            ==> winners_resolvable(e.winners@, v@)),
    ensures
        candidate_seq(local_keys@, authorized@).len() == 0 ==> r == Result::<
            u32,
            OffchainElectionError,
        >::Err(OffchainElectionError::NoSigningKey),
        (candidate_seq(local_keys@, authorized@).len() > 0 && ((*snapshot_validators).is_none()
            || (*snapshot_nominators).is_none())) ==> r == Result::<
            u32,
            OffchainElectionError,
        >::Err(OffchainElectionError::SnapshotUnavailable),
        (candidate_seq(local_keys@, authorized@).len() > 0 && (*snapshot_validators).is_some()
            && (*snapshot_nominators).is_some() && (*election).is_none()) ==> r == Result::<
            u32,
            OffchainElectionError,
        >::Err(OffchainElectionError::ElectionFailed),
        r == Result::<u32, OffchainElectionError>::Err(OffchainElectionError::CompactFailed)
            ==> ((*election) matches Option::Some(e) && (*snapshot_validators) matches Option::Some(
            v,
        ) && (*snapshot_nominators) matches Option::Some(nm) && !compact_ok(
            e.assignments@,
            nm@,
            v@,
        )),
        ({
            &&& candidate_seq(local_keys@, authorized@).len() > 0
            &&& (*snapshot_validators) matches Option::Some(v)
            &&& (*snapshot_nominators) matches Option::Some(nm)
            &&& (*election) matches Option::Some(e)
            &&& compact_ok(e.assignments@, nm@, v@)
        }) ==> {
            let cands = candidate_seq(local_keys@, authorized@);
            match r {
                Result::Ok(pos) => exists|p: int|
                    0 <= p < cands.len() && #[trigger] success_at(*env, cands, p) && pos
                        == cands[p].0 && (forall|q: int|
                        0 <= q < p ==> !success_at(*env, cands, q)),
                Result::Err(e) => e == OffchainElectionError::NoSigningKey && forall|p: int|
                    0 <= p < cands.len() ==> !success_at(*env, cands, p),
            }
        },
{
    let candidates: Vec<(u32, AccountId)> = find_candidates(local_keys, authorized);
    let cn: usize = candidates.len();
    let mut p: usize = 0;
    while p < cn
        invariant
            candidates@ == candidate_seq(local_keys@, authorized@),
            cn == candidates@.len(),
            0 <= p <= cn,
            authorized@.len() <= u32::MAX,
            (*election) matches Option::Some(e) ==> assignments_well_formed(
                e.assignments@,
                stakes@,
            ),
            (*election) matches Option::Some(e) ==> ((*snapshot_validators)
                matches Option::Some(v) ==> winners_resolvable(e.winners@, v@)),
            p > 0 ==> (*snapshot_validators).is_some() && (*snapshot_nominators).is_some()
                && (*election).is_some(),
            forall|q: int| 0 <= q < p ==> !success_at(*env, candidates@, q),
        decreases cn - p,
    {
        // A missing snapshot or a failed election is fatal for every
        // candidate alike: abort the whole search.
        let vals: &Vec<AccountId> = match snapshot_validators {
            Some(v) => v,
            None => {
                return Err(OffchainElectionError::SnapshotUnavailable);
            },
        };
        let noms: &Vec<AccountId> = match snapshot_nominators {
            Some(v) => v,
            None => {
                return Err(OffchainElectionError::SnapshotUnavailable);
            },
        };
        let result: &ElectionResult = match election {
            Some(e) => e,
            None => {
                return Err(OffchainElectionError::ElectionFailed);
            },
        };
        // Winners as plain accounts; the solver's approval stake is dropped.
        let wn: usize = result.winners.len();
        let mut winner_accounts: Vec<AccountId> = Vec::new();
        let mut i: usize = 0;
        while i < wn
            invariant
                wn == result.winners@.len(),
                0 <= i <= wn,
                winner_accounts@.len() == i,
                forall|k: int|
                    0 <= k < i ==> #[trigger] winner_accounts@[k] == result.winners@[k].0,
            decreases wn - i,
        {
            let (w, _): (AccountId, ExtendedBalance) = result.winners[i];
            winner_accounts.push(w);
            i = i + 1;
        }
        let reduced: Vec<StakedAssignment> = convert_and_reduce(&result.assignments, stakes);
        proof {
            assert forall|k: int| 0 <= k < winner_accounts@.len() implies 0 <= find_index(
                vals@,
                #[trigger] winner_accounts@[k],
            ) <= ValidatorIndex::MAX by {
                assert(winner_accounts@[k] == result.winners@[k].0);
            }
            // Compactability of the solver's assignments carries to the
            // reduced set: the voters are the same and every reduced target
            // already occurs in the same voter's original assignment.
            if compact_ok(result.assignments@, noms@, vals@) {
                assert forall|k: int| 0 <= k < reduced@.len() implies {
                    &&& 0 <= find_index(noms@, (#[trigger] reduced@[k]).who)
                        <= NominatorIndex::MAX
                    &&& forall|j: int|
                        0 <= j < reduced@[k].distribution@.len() ==> 0 <= find_index(
                            vals@,
                            (#[trigger] reduced@[k].distribution@[j]).0,
                        ) <= ValidatorIndex::MAX
                } by {
                    assert(reduced@[k].who == result.assignments@[k].who);
                    assert forall|j: int| 0 <= j < reduced@[k].distribution@.len() implies 0
                        <= find_index(vals@, (#[trigger] reduced@[k].distribution@[j]).0)
                        <= ValidatorIndex::MAX by {
                        let t = reduced@[k].distribution@[j].0;
                        assert(staked_targets(reduced@[k].distribution@)[j] == t);
                        assert(seq_subset(
                            staked_targets(reduced@[k].distribution@),
                            ratio_targets(result.assignments@[k].distribution@),
                        ));
                        assert(ratio_targets(result.assignments@[k].distribution@).contains(t));
                        let q = choose|q: int|
                            0 <= q < ratio_targets(result.assignments@[k].distribution@).len()
                                && ratio_targets(result.assignments@[k].distribution@)[q] == t;
                        assert(result.assignments@[k].distribution@[q].0 == t);
                    }
                }
                assert(staked_compactable(reduced@, noms@, vals@));
            }
        }
        let prepared: PreparedSubmission = match finalize_submission(
            &winner_accounts,
            &reduced,
            noms,
            vals,
        ) {
            Ok(ps) => ps,
            Err(err) => {
                proof {
                    assert(!compact_ok(result.assignments@, noms@, vals@));
                }
                return Err(err);
            },
        };
        proof {
            assert forall|k: int| 0 <= k < prepared.compact.entries@.len() implies (
            #[trigger] prepared.compact.entries@[k]).edges@.len() <= u32::MAX by {
                assert(prepared.compact.entries@[k].edges@.len()
                    == reduced@[k].distribution@.len());
                assert(reduced@[k].distribution@.len()
                    <= result.assignments@[k].distribution@.len());
            }
        }
        let pos_u32: u32 = candidates[p].0;
        let key: AccountId = candidates[p].1;
        let payload: Vec<u8> = encode_signature_payload(
            &prepared.winners,
            &prepared.compact,
            &prepared.score,
            pos_u32,
        );
        match env.sign(pos_u32, key, &payload) {
            Some(sig) => {
                let call = SubmissionCall {
                    winners: prepared.winners,
                    compact: prepared.compact,
                    score: prepared.score,
                    index: pos_u32,
                    signature: sig,
                };
                if env.submit(call) {
                    // First accepted submission: the worker is done.
                    proof {
                        assert(success_at(*env, candidates@, p as int));
                    }
                    return Ok(pos_u32);
                }
                // The pool refused this candidate's call: try the next key.
                proof {
                    assert(!success_at(*env, candidates@, p as int));
                }
            },
            None => {
                // This key cannot sign: try the next one.
                proof {
                    assert(!success_at(*env, candidates@, p as int));
                }
            },
        }
        p = p + 1;
    }
    // No candidate key, or none whose submission was accepted.
    Err(OffchainElectionError::NoSigningKey)
}

} // verus!
