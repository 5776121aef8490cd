use offchain_election::keys::find_candidates;
use offchain_election::staked::convert_and_reduce;
use offchain_election::types::{Assignment, ElectionResult, OffchainElectionError};
use offchain_election::worker::{compute_offchain_election, finalize_submission, ScriptedEnv};

fn ratio(who: u64, distribution: Vec<(u64, u32)>) -> Assignment {
    Assignment { who, distribution }
}

fn small_election() -> ElectionResult {
    ElectionResult {
        winners: vec![(10, 1500), (30, 1000)],
        assignments: vec![
            ratio(100, vec![(10, 500_000_000), (30, 500_000_000)]),
            ratio(200, vec![(30, 1_000_000_000)]),
        ],
    }
}

fn env_all_ok(n: usize) -> ScriptedEnv {
    ScriptedEnv { sign_results: vec![true; n], submit_results: vec![true; n] }
}

#[test]
fn key_search_order_scenario() {
    // LocalKeySet [k3, k1] against AuthorizedKeySet [k1, k2, k3] yields
    // [(2, k3), (0, k1)], in that order.
    let authorized = vec![1, 2, 3];
    let local = vec![3, 1];
    let candidates = find_candidates(&local, &authorized);
    assert_eq!(candidates, vec![(2, 3), (0, 1)]);
}

#[test]
fn key_search_skips_unauthorized() {
    let authorized = vec![1, 2, 3];
    let local = vec![9, 2];
    assert_eq!(find_candidates(&local, &authorized), vec![(1, 2)]);
}

#[test]
fn key_search_empty_intersection() {
    let authorized = vec![1, 2, 3];
    let local = vec![7, 8];
    assert_eq!(find_candidates(&local, &authorized), Vec::new());
}

#[test]
fn worker_submits_with_first_candidate() {
    let env = env_all_ok(3);
    let r = compute_offchain_election(
        &env,
        &vec![1, 2, 3],
        &vec![3, 1],
        &Some(vec![10, 20, 30]),
        &Some(vec![100, 200]),
        &Some(small_election()),
        &vec![1000, 500],
    );
    // The first candidate is k3, at authorized position 2.
    assert_eq!(r, Ok(2));
}

#[test]
fn first_success_termination_scenario() {
    // Candidate 1 (position 2) fails signing; candidate 2 (position 0)
    // succeeds; a third authorized candidate exists but is never reached.
    let env = ScriptedEnv {
        sign_results: vec![true, true, false],
        submit_results: vec![true, true, true],
    };
    let r = compute_offchain_election(
        &env,
        &vec![1, 2, 3],
        &vec![3, 1, 2],
        &Some(vec![10, 20, 30]),
        &Some(vec![100, 200]),
        &Some(small_election()),
        &vec![1000, 500],
    );
    assert_eq!(r, Ok(0));
}

#[test]
fn failed_submission_advances_to_next_candidate() {
    // Signing works everywhere, but the pool refuses the call at position 2.
    let env = ScriptedEnv {
        sign_results: vec![true, true, true],
        submit_results: vec![true, true, false],
    };
    let r = compute_offchain_election(
        &env,
        &vec![1, 2, 3],
        &vec![3, 1],
        &Some(vec![10, 20, 30]),
        &Some(vec![100, 200]),
        &Some(small_election()),
        &vec![1000, 500],
    );
    assert_eq!(r, Ok(0));
}

#[test]
fn exhausted_candidates_is_no_signing_key() {
    let env = ScriptedEnv {
        sign_results: vec![false, false, false],
        submit_results: vec![true, true, true],
    };
    let r = compute_offchain_election(
        &env,
        &vec![1, 2, 3],
        &vec![3, 1],
        &Some(vec![10, 20, 30]),
        &Some(vec![100, 200]),
        &Some(small_election()),
        &vec![1000, 500],
    );
    assert_eq!(r, Err(OffchainElectionError::NoSigningKey));
}

#[test]
fn empty_candidate_list_is_no_signing_key() {
    let env = env_all_ok(3);
    let r = compute_offchain_election(
        &env,
        &vec![1, 2, 3],
        &Vec::new(),
        &Some(vec![10, 20, 30]),
        &Some(vec![100, 200]),
        &Some(small_election()),
        &vec![1000, 500],
    );
    assert_eq!(r, Err(OffchainElectionError::NoSigningKey));
}

#[test]
fn fatal_short_circuit_scenario() {
    // The solver returned nothing: the whole search aborts with
    // ElectionFailed, no matter how many candidates could have signed.
    let env = env_all_ok(3);
    let r = compute_offchain_election(
        &env,
        &vec![1, 2, 3],
        &vec![3, 1],
        &Some(vec![10, 20, 30]),
        &Some(vec![100, 200]),
        &None,
        &Vec::new(),
    );
    assert_eq!(r, Err(OffchainElectionError::ElectionFailed));
}

#[test]
fn missing_snapshot_is_fatal() {
    let env = env_all_ok(3);
    let r = compute_offchain_election(
        &env,
        &vec![1, 2, 3],
        &vec![3, 1],
        &None,
        &Some(vec![100, 200]),
        &Some(small_election()),
        &vec![1000, 500],
    );
    assert_eq!(r, Err(OffchainElectionError::SnapshotUnavailable));
    let r = compute_offchain_election(
        &env,
        &vec![1, 2, 3],
        &vec![3, 1],
        &Some(vec![10, 20, 30]),
        &None,
        &Some(small_election()),
        &vec![1000, 500],
    );
    assert_eq!(r, Err(OffchainElectionError::SnapshotUnavailable));
}

#[test]
fn unresolvable_voter_is_compact_failed() {
    // Voter 300 is not in the nominator snapshot, so the compaction cannot
    // express its assignment, which aborts the whole search.
    let env = env_all_ok(3);
    let election = ElectionResult {
        winners: vec![(10, 1000)],
        assignments: vec![ratio(300, vec![(10, 1_000_000_000)])],
    };
    let r = compute_offchain_election(
        &env,
        &vec![1, 2, 3],
        &vec![3, 1],
        &Some(vec![10, 20, 30]),
        &Some(vec![100, 200]),
        &Some(election),
        &vec![1000],
    );
    assert_eq!(r, Err(OffchainElectionError::CompactFailed));
}

#[test]
fn finalize_builds_winner_indices_and_score() {
    let e = small_election();
    let reduced = convert_and_reduce(&e.assignments, &vec![1000, 500]);
    let ps = finalize_submission(
        &vec![10, 30],
        &reduced,
        &vec![100, 200],
        &vec![10, 20, 30],
    )
    .unwrap();
    assert_eq!(ps.winners, vec![0, 2]);
    // Voter 100 backs 10 with 500 and 30 with 500; voter 200 backs 30 with
    // 500. Supports: 10 -> 500, 30 -> 1000.
    assert_eq!(ps.score.minimal_stake, 500);
    assert_eq!(ps.score.sum_stake, 1500);
    assert_eq!(ps.score.sum_stake_squared, 500 * 500 + 1000 * 1000);
    assert_eq!(ps.compact.entries.len(), 2);
    assert_eq!(ps.compact.entries[0].who_index, 0);
    assert_eq!(ps.compact.entries[1].who_index, 1);
}
