use offchain_election::compact::{decode_compact, from_assignment};
use offchain_election::staked::{convert_and_reduce, into_assignment, into_staked};
use offchain_election::support::{build_support_map, evaluate_support};
use offchain_election::types::{Assignment, OffchainElectionError, StakedAssignment, ACCURACY};

fn ratio(who: u64, distribution: Vec<(u64, u32)>) -> Assignment {
    Assignment { who, distribution }
}

#[test]
fn into_staked_conserves_stake() {
    // 1/3 : 2/3 split of 1000, rounding folded into the last edge.
    let a = ratio(100, vec![(10, 333_333_333), (30, 666_666_667)]);
    let s = into_staked(&a, 1000);
    assert_eq!(s.who, 100);
    assert_eq!(s.distribution[0], (10, 333));
    assert_eq!(s.distribution[1], (30, 667));
    let total: u128 = s.distribution.iter().map(|e| e.1).sum();
    assert_eq!(total, 1000);
}

#[test]
fn into_staked_even_split() {
    let a = ratio(100, vec![(10, 500_000_000), (30, 500_000_000)]);
    let s = into_staked(&a, 1000);
    assert_eq!(s.distribution, vec![(10, 500), (30, 500)]);
}

#[test]
fn into_assignment_parts_sum_to_one() {
    let s = StakedAssignment {
        who: 100,
        distribution: vec![(10, 1), (20, 1), (30, 1)],
    };
    let a = into_assignment(&s);
    assert_eq!(a.who, 100);
    assert_eq!(a.distribution[0], (10, 333_333_333));
    assert_eq!(a.distribution[1], (20, 333_333_333));
    // The last edge absorbs the rounding remainder.
    assert_eq!(a.distribution[2], (30, 333_333_334));
    let parts: u64 = a.distribution.iter().map(|e| e.1 as u64).sum();
    assert_eq!(parts, ACCURACY as u64);
}

#[test]
fn into_assignment_zero_total_stays_zero() {
    let s = StakedAssignment {
        who: 100,
        distribution: vec![(10, 0), (30, 0)],
    };
    let a = into_assignment(&s);
    assert_eq!(a.distribution, vec![(10, 0), (30, 0)]);
}

#[test]
fn stake_conservation_through_reduction() {
    // Two voters sharing two targets form a cycle, the case the reduction
    // pass exists to cancel. Each voter's total must survive it.
    let assignments = vec![
        ratio(100, vec![(10, 500_000_000), (30, 500_000_000)]),
        ratio(200, vec![(10, 500_000_000), (30, 500_000_000)]),
    ];
    let stakes: Vec<u128> = vec![1000, 600];
    let reduced = convert_and_reduce(&assignments, &stakes);
    assert_eq!(reduced.len(), 2);
    for (i, r) in reduced.iter().enumerate() {
        assert_eq!(r.who, assignments[i].who);
        let total: u128 = r.distribution.iter().map(|e| e.1).sum();
        assert_eq!(total, stakes[i]);
        // Winner closure: no edge may point outside the original targets.
        for (target, _) in &r.distribution {
            assert!(assignments[i].distribution.iter().any(|e| e.0 == *target));
        }
    }
    // The cycle is actually cancelled: at least one edge disappears.
    let edge_count: usize = reduced.iter().map(|r| r.distribution.len()).sum();
    assert!(edge_count < 4);
}

#[test]
fn support_map_totals_and_voters() {
    let winners = vec![10, 30];
    let staked = vec![
        StakedAssignment { who: 100, distribution: vec![(10, 500), (30, 500)] },
        StakedAssignment { who: 200, distribution: vec![(30, 500)] },
    ];
    let supports = build_support_map(&winners, &staked);
    assert_eq!(supports.len(), 2);
    assert_eq!(supports[0].who, 10);
    assert_eq!(supports[0].total, 500);
    assert_eq!(supports[0].voters, vec![(100, 500)]);
    assert_eq!(supports[1].who, 30);
    assert_eq!(supports[1].total, 1000);
    assert_eq!(supports[1].voters, vec![(100, 500), (200, 500)]);
}

#[test]
fn support_map_drops_non_winner_edges() {
    let winners = vec![10];
    let staked = vec![StakedAssignment { who: 100, distribution: vec![(10, 7), (99, 3)] }];
    let supports = build_support_map(&winners, &staked);
    assert_eq!(supports[0].total, 7);
    assert_eq!(supports[0].voters, vec![(100, 7)]);
}

#[test]
fn score_exact_values() {
    let winners = vec![10, 30];
    let staked = vec![
        StakedAssignment { who: 100, distribution: vec![(10, 500), (30, 500)] },
        StakedAssignment { who: 200, distribution: vec![(30, 500)] },
    ];
    let supports = build_support_map(&winners, &staked);
    let score = evaluate_support(&supports);
    assert_eq!(score.minimal_stake, 500);
    assert_eq!(score.sum_stake, 1500);
    assert_eq!(score.sum_stake_squared, 500 * 500 + 1000 * 1000);
}

#[test]
fn score_of_empty_support_map() {
    let supports = build_support_map(&Vec::new(), &Vec::new());
    let score = evaluate_support(&supports);
    assert_eq!(score.minimal_stake, u128::MAX);
    assert_eq!(score.sum_stake, 0);
    assert_eq!(score.sum_stake_squared, 0);
}

#[test]
fn score_saturates_on_huge_supports() {
    let winners = vec![10];
    let big: u128 = 1 << 120;
    let staked = vec![StakedAssignment { who: 100, distribution: vec![(10, big)] }];
    let supports = build_support_map(&winners, &staked);
    let score = evaluate_support(&supports);
    assert_eq!(score.minimal_stake, big);
    assert_eq!(score.sum_stake, big);
    // The square overflows and clamps.
    assert_eq!(score.sum_stake_squared, u128::MAX);
}

#[test]
fn compact_round_trip_scenario() {
    let nominators = vec![100, 200];
    let validators = vec![10, 20, 30];
    let assignments = vec![
        ratio(100, vec![(10, 400_000_000), (30, 600_000_000)]),
        ratio(200, vec![(30, 1_000_000_000)]),
    ];
    let compact = from_assignment(&assignments, &nominators, &validators).unwrap();
    assert_eq!(compact.entries.len(), 2);
    assert_eq!(compact.entries[0].who_index, 0);
    assert_eq!(compact.entries[0].edges, vec![(0, 400_000_000), (2, 600_000_000)]);
    assert_eq!(compact.entries[1].who_index, 1);
    assert_eq!(compact.entries[1].edges, vec![(2, 1_000_000_000)]);
    let decoded = decode_compact(&compact, &nominators, &validators).unwrap();
    assert_eq!(decoded.len(), 2);
    for (d, a) in decoded.iter().zip(assignments.iter()) {
        assert_eq!(d.who, a.who);
        assert_eq!(d.distribution, a.distribution);
    }
}

#[test]
fn compact_fails_on_unknown_nominator() {
    let nominators = vec![100];
    let validators = vec![10];
    let assignments = vec![ratio(999, vec![(10, 1_000_000_000)])];
    assert_eq!(
        from_assignment(&assignments, &nominators, &validators).unwrap_err(),
        OffchainElectionError::CompactFailed
    );
}

#[test]
fn compact_fails_on_unknown_validator() {
    let nominators = vec![100];
    let validators = vec![10];
    let assignments = vec![ratio(100, vec![(77, 1_000_000_000)])];
    assert_eq!(
        from_assignment(&assignments, &nominators, &validators).unwrap_err(),
        OffchainElectionError::CompactFailed
    );
}

#[test]
fn decode_fails_on_out_of_range_voter_index() {
    let nominators = vec![100];
    let validators = vec![10];
    let assignments = vec![ratio(100, vec![(10, 1_000_000_000)])];
    let mut compact = from_assignment(&assignments, &nominators, &validators).unwrap();
    compact.entries[0].who_index = 3;
    assert_eq!(
        decode_compact(&compact, &nominators, &validators).unwrap_err(),
        OffchainElectionError::CompactFailed
    );
}

#[test]
fn decode_fails_on_out_of_range_index() {
    let nominators = vec![100];
    let validators = vec![10];
    let assignments = vec![ratio(100, vec![(10, 1_000_000_000)])];
    let mut compact = from_assignment(&assignments, &nominators, &validators).unwrap();
    compact.entries[0].edges[0].0 = 5;
    assert_eq!(
        decode_compact(&compact, &nominators, &validators).unwrap_err(),
        OffchainElectionError::CompactFailed
    );
}
