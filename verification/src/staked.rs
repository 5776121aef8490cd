//! Conversion between ratio and staked assignments, and the edge-reduction
//! pass over the staked form.
//!
//! Scaling a ratio assignment multiplies each fractional part by the voter's
//! converted stake and rounds down; the rounding loss is folded into the last
//! edge, so the staked weights sum to exactly the voter's stake. Converting
//! back divides each weight by the voter's total and again folds the rounding
//! error into the last edge, so the parts sum to exactly `ACCURACY`.

use vstd::prelude::*;

use vstd::arithmetic::div_mod::{
    lemma_div_is_ordered,
    lemma_div_multiples_vanish,
    lemma_fundamental_div_mod,
    lemma_mod_bound,
};

use crate::types::{
    lemma_ratio_sum_bounds,
    lemma_ratio_sum_take,
    lemma_weight_sum_bounds,
    lemma_weight_sum_take,
    ratio_sum,
    weight_sum,
    AccountId,
    Assignment,
    ExtendedBalance,
    StakedAssignment,
    ACCURACY,
    MAX_SCALABLE_STAKE,
};

verus! {

/// The stake carried by one edge whose ratio is `parts / ACCURACY`, rounded
/// down.
pub open spec fn scaled_weight(parts: u32, stake: ExtendedBalance) -> int {
    (parts * stake) / (ACCURACY as int)
}

/// The fraction, in parts of `ACCURACY` rounded down, that `weight` is of
/// `total`.
pub open spec fn part_of(weight: int, total: int) -> int {
    (weight * ACCURACY) / total
}

/// The targets of a staked distribution, in edge order.
pub open spec fn staked_targets(d: Seq<(AccountId, ExtendedBalance)>) -> Seq<AccountId> {
    Seq::new(d.len(), |j: int| d[j].0)
}

/// The targets of a ratio distribution, in edge order.
pub open spec fn ratio_targets(d: Seq<(AccountId, u32)>) -> Seq<AccountId> {
    Seq::new(d.len(), |j: int| d[j].0)
}

/// Every account of `sub` also occurs in `sup`.
pub open spec fn seq_subset(sub: Seq<AccountId>, sup: Seq<AccountId>) -> bool {
    forall|j: int| 0 <= j < sub.len() ==> sup.contains(#[trigger] sub[j])
}

/// No account occurs twice.
pub open spec fn distinct(s: Seq<AccountId>) -> bool {
    forall|i: int, j: int| 0 <= i < j < s.len() ==> s[i] != s[j]
}

proof fn lemma_scale_product_bounded(p: int, stake: int)
    requires
        0 <= p <= ACCURACY,
        0 <= stake <= MAX_SCALABLE_STAKE,
    ensures
        p * stake <= u128::MAX,
{
    assert(p * stake <= ACCURACY * stake) by (nonlinear_arith)
        requires
            0 <= p <= ACCURACY,
            0 <= stake,
    ;
    assert(ACCURACY * stake <= ACCURACY * MAX_SCALABLE_STAKE) by (nonlinear_arith)
        requires
            stake <= MAX_SCALABLE_STAKE,
    ;
    lemma_fundamental_div_mod(u128::MAX as int, ACCURACY as int);
    lemma_mod_bound(u128::MAX as int, ACCURACY as int);
    assert(MAX_SCALABLE_STAKE == u128::MAX / 1_000_000_000);
}

/// Scale a ratio assignment to absolute stake, folding the rounding remainder
/// into the last edge so that the weights sum to exactly `stake`.
pub fn into_staked(a: &Assignment, stake: ExtendedBalance) -> (r: StakedAssignment)
    requires
        a.distribution@.len() >= 1,
        ratio_sum(a.distribution@) == ACCURACY,
        stake <= MAX_SCALABLE_STAKE,
    ensures
        r.who == a.who,
        r.distribution@.len() == a.distribution@.len(),
        staked_targets(r.distribution@) == ratio_targets(a.distribution@),
        forall|i: int|
            0 <= i < a.distribution@.len() - 1 ==> (#[trigger] r.distribution@[i]).1
                == scaled_weight(a.distribution@[i].1, stake),
        weight_sum(r.distribution@) == stake,
{
    let d = &a.distribution;
    let n: usize = d.len();
    let mut out: Vec<(AccountId, ExtendedBalance)> = Vec::new();
    let mut acc: ExtendedBalance = 0;
    let mut i: usize = 0;
    proof {
        lemma_ratio_sum_bounds(d@);
        assert(d@.take(0) =~= Seq::<(AccountId, u32)>::empty());
    }
    while i < n - 1
        invariant
            n == d@.len(),
            1 <= n,
            0 <= i <= n - 1,
            ratio_sum(d@) == ACCURACY,
            stake <= MAX_SCALABLE_STAKE,
            out@.len() == i,
            forall|j: int| 0 <= j < i ==> (#[trigger] out@[j]).0 == d@[j].0,
            forall|j: int| 0 <= j < i ==> (#[trigger] out@[j]).1 == scaled_weight(d@[j].1, stake),
            acc == weight_sum(out@),
            acc * ACCURACY <= ratio_sum(d@.take(i as int)) * stake,
            forall|j: int| 0 <= j < d@.len() ==> #[trigger] d@[j].1 <= ACCURACY,
        decreases n - 1 - i,
    {
        let (target, parts): (AccountId, u32) = d[i];
        proof {
            lemma_scale_product_bounded(parts as int, stake as int);
        }
        let w: ExtendedBalance = (parts as u128 * stake) / 1_000_000_000u128;
        proof {
            let ghost psum = ratio_sum(d@.take(i as int));
            lemma_ratio_sum_take(d@, i as int);
            lemma_ratio_sum_take(d@, i + 1);
            assert(d@.take(i + 1).drop_last() =~= d@.take(i as int));
            assert(ratio_sum(d@.take(i + 1)) == psum + parts);
            lemma_fundamental_div_mod(parts as int * stake as int, ACCURACY as int);
            lemma_mod_bound(parts as int * stake as int, ACCURACY as int);
            // w * ACCURACY <= parts * stake, hence the sum bound is kept.
            assert(w == scaled_weight(parts, stake));
            assert(w * ACCURACY <= parts * stake);
            assert((acc + w) * ACCURACY == acc * ACCURACY + w * ACCURACY) by (nonlinear_arith);
            assert((psum + parts) * stake == psum * stake + parts * stake) by (nonlinear_arith);
            // acc + w stays within u128: (acc + w) * ACCURACY <= ACCURACY * stake.
            assert(ratio_sum(d@.take(i + 1)) * stake <= ACCURACY * stake) by (nonlinear_arith)
                requires
                    ratio_sum(d@.take(i + 1)) <= ACCURACY,
                    stake >= 0,
            ;
            assert(acc + w <= stake) by (nonlinear_arith)
                requires
                    (acc + w) * ACCURACY <= ACCURACY * stake,
                    acc >= 0,
                    w >= 0,
            ;
            crate::types::lemma_weight_sum_push(out@, (target, w));
        }
        out.push((target, w));
        acc = acc + w;
        i = i + 1;
    }
    // The last edge absorbs the rounding remainder.
    proof {
        lemma_ratio_sum_take(d@, n - 1);
        assert(acc <= stake) by (nonlinear_arith)
            requires
                acc * ACCURACY <= ratio_sum(d@.take(n - 1)) * stake,
                ratio_sum(d@.take(n - 1)) <= ACCURACY,
                stake >= 0,
                acc >= 0,
        ;
    }
    let (last_target, _): (AccountId, u32) = d[n - 1];
    let last_w: ExtendedBalance = stake - acc;
    proof {
        crate::types::lemma_weight_sum_push(out@, (last_target, last_w));
    }
    out.push((last_target, last_w));
    proof {
        assert(staked_targets(out@) =~= ratio_targets(d@));
    }
    StakedAssignment { who: a.who, distribution: out }
}

/// Convert a staked assignment back to ratio form. With a positive total the
/// parts of all but the last edge round down and the last edge absorbs the
/// remainder, so the parts sum to exactly `ACCURACY`; a voter whose weights
/// are all zero keeps every part at zero.
pub fn into_assignment(sa: &StakedAssignment) -> (r: Assignment)
    requires
        weight_sum(sa.distribution@) <= MAX_SCALABLE_STAKE,
    ensures
        r.who == sa.who,
        r.distribution@.len() == sa.distribution@.len(),
        ratio_targets(r.distribution@) == staked_targets(sa.distribution@),
        weight_sum(sa.distribution@) == 0 ==> forall|i: int|
            0 <= i < r.distribution@.len() ==> (#[trigger] r.distribution@[i]).1 == 0,
        weight_sum(sa.distribution@) > 0 ==> forall|i: int|
            0 <= i < r.distribution@.len() - 1 ==> (#[trigger] r.distribution@[i]).1 == part_of(
                sa.distribution@[i].1 as int,
                weight_sum(sa.distribution@),
            ),
        weight_sum(sa.distribution@) > 0 && sa.distribution@.len() >= 1 ==> ratio_sum(
            r.distribution@,
        ) == ACCURACY,
{
    let d = &sa.distribution;
    let n: usize = d.len();
    proof {
        lemma_weight_sum_bounds(d@);
        assert(d@.take(0) =~= Seq::<(AccountId, ExtendedBalance)>::empty());
    }
    // First pass: the voter's total stake.
    let mut total: ExtendedBalance = 0;
    let mut i: usize = 0;
    while i < n
        invariant
            n == d@.len(),
            0 <= i <= n,
            weight_sum(d@) <= MAX_SCALABLE_STAKE,
            total == weight_sum(d@.take(i as int)),
        decreases n - i,
    {
        proof {
            lemma_weight_sum_take(d@, i + 1);
            assert(d@.take(i + 1).drop_last() =~= d@.take(i as int));
            assert(weight_sum(d@.take(i + 1)) == weight_sum(d@.take(i as int)) + d@[i as int].1);
        }
        total = total + d[i].1;
        i = i + 1;
    }
    proof {
        assert(d@.take(n as int) =~= d@);
    }
    let mut out: Vec<(AccountId, u32)> = Vec::new();
    if total == 0 {
        let mut i: usize = 0;
        while i < n
            invariant
                n == d@.len(),
                0 <= i <= n,
                out@.len() == i,
                forall|j: int| 0 <= j < i ==> (#[trigger] out@[j]).0 == d@[j].0,
                forall|j: int| 0 <= j < i ==> (#[trigger] out@[j]).1 == 0,
            decreases n - i,
        {
            let (target, _): (AccountId, ExtendedBalance) = d[i];
            out.push((target, 0u32));
            i = i + 1;
        }
        proof {
            assert(ratio_targets(out@) =~= staked_targets(d@));
        }
        return Assignment { who: sa.who, distribution: out };
    }
    // total > 0: all but the last edge round down; the last absorbs the rest.
    let mut psum: u32 = 0;
    let mut i: usize = 0;
    while i < n - 1
        invariant
            n == d@.len(),
            1 <= n,
            0 <= i <= n - 1,
            0 < total,
            total == weight_sum(d@),
            total <= MAX_SCALABLE_STAKE,
            out@.len() == i,
            forall|j: int| 0 <= j < i ==> (#[trigger] out@[j]).0 == d@[j].0,
            forall|j: int|
                0 <= j < i ==> (#[trigger] out@[j]).1 == part_of(d@[j].1 as int, total as int),
            psum == ratio_sum(out@),
            psum * total <= weight_sum(d@.take(i as int)) * ACCURACY,
            forall|j: int| 0 <= j < d@.len() ==> #[trigger] d@[j].1 <= weight_sum(d@),
        decreases n - 1 - i,
    {
        let (target, w): (AccountId, ExtendedBalance) = d[i];
        proof {
            lemma_scale_product_bounded(ACCURACY as int, total as int);
            assert(w * ACCURACY <= total * ACCURACY) by (nonlinear_arith)
                requires
                    0 <= w <= total,
            ;
        }
        let p128: ExtendedBalance = (w * 1_000_000_000u128) / total;
        proof {
            lemma_div_is_ordered(w as int * ACCURACY as int, total as int * ACCURACY as int, total as int);
            lemma_div_multiples_vanish(ACCURACY as int, total as int);
            assert(total as int * ACCURACY as int == total as int * ACCURACY as int);
            assert((total as int * ACCURACY as int) / (total as int) == ACCURACY);
            assert(p128 <= ACCURACY);
        }
        let p: u32 = p128 as u32;
        proof {
            assert(p == p128);
            let ghost wsum = weight_sum(d@.take(i as int));
            lemma_weight_sum_take(d@, i + 1);
            assert(d@.take(i + 1).drop_last() =~= d@.take(i as int));
            assert(weight_sum(d@.take(i + 1)) == wsum + w);
            lemma_fundamental_div_mod(w as int * ACCURACY as int, total as int);
            lemma_mod_bound(w as int * ACCURACY as int, total as int);
            assert(p * total <= w * ACCURACY);
            assert((psum + p) * total == psum * total + p * total) by (nonlinear_arith);
            assert((wsum + w) * ACCURACY == wsum * ACCURACY + w * ACCURACY) by (nonlinear_arith);
            crate::types::lemma_ratio_sum_push(out@, (target, p));
            assert(psum + p <= ACCURACY) by (nonlinear_arith)
                requires
                    (psum + p) * total <= weight_sum(d@.take(i + 1)) * ACCURACY,
                    weight_sum(d@.take(i + 1)) <= total,
                    0 < total,
                    psum >= 0,
                    p >= 0,
                    weight_sum(d@.take(i + 1)) >= 0,
            ;
        }
        out.push((target, p));
        psum = psum + p;
        i = i + 1;
    }
    proof {
        lemma_weight_sum_take(d@, n - 1);
        assert(psum <= ACCURACY) by (nonlinear_arith)
            requires
                psum * total <= weight_sum(d@.take(n - 1)) * ACCURACY,
                weight_sum(d@.take(n - 1)) <= total,
                0 < total,
                psum >= 0,
                weight_sum(d@.take(n - 1)) >= 0,
        ;
    }
    let (last_target, _): (AccountId, ExtendedBalance) = d[n - 1];
    let last_p: u32 = 1_000_000_000u32 - psum;
    proof {
        crate::types::lemma_ratio_sum_push(out@, (last_target, last_p));
    }
    out.push((last_target, last_p));
    proof {
        assert(ratio_targets(out@) =~= staked_targets(d@));
    }
    Assignment { who: sa.who, distribution: out }
}

/// Relies on `sp_npos_elections::reduce`: it removes circulations from the voting
/// graph in place, which cancels redundant edges "without changing the
/// overall backing of any of the elected candidates" while "preserving flow
/// demands over all vertices", so each voter keeps its identity, its total
/// weight, and votes only for targets it already voted for. It strictly
/// assumes the voters are distinct (it panics on a duplicate) and that no
/// distribution repeats a target; its cycle arithmetic is exact only while
/// each voter's total fits the weight type, so that is required too.
#[verifier::external_body]
fn reduce_call(staked: Vec<StakedAssignment>) -> (r: Vec<StakedAssignment>)
    requires
        forall|i: int, j: int|
            0 <= i < j < staked@.len() ==> staked@[i].who != staked@[j].who,
        forall|i: int|
            0 <= i < staked@.len() ==> weight_sum((#[trigger] staked@[i]).distribution@)
                <= u128::MAX,
        forall|i: int|
            0 <= i < staked@.len() ==> distinct(staked_targets(#[trigger] staked@[i].distribution@)),
    ensures
        r@.len() == staked@.len(),
        forall|i: int| 0 <= i < r@.len() ==> (#[trigger] r@[i]).who == staked@[i].who,
        forall|i: int|
            0 <= i < r@.len() ==> weight_sum((#[trigger] r@[i]).distribution@) == weight_sum(
                staked@[i].distribution@,
            ),
        forall|i: int|
            0 <= i < r@.len() ==> seq_subset(
                staked_targets((#[trigger] r@[i]).distribution@),
                staked_targets(staked@[i].distribution@),
            ),
        forall|i: int|
            0 <= i < r@.len() ==> (#[trigger] r@[i]).distribution@.len() <= staked@[i].distribution@.len(),
{
    let mut ext: Vec<sp_npos_elections::StakedAssignment<u64>> = staked
        .into_iter()
        .map(|a| sp_npos_elections::StakedAssignment { who: a.who, distribution: a.distribution })
        .collect();
    sp_npos_elections::reduce(&mut ext);
    ext.into_iter()
        .map(|a| StakedAssignment { who: a.who, distribution: a.distribution })
        .collect()
}

/// Scale every assignment by its voter's converted stake, then run the
/// edge-reduction pass. Each voter of the result keeps its place, carries
/// exactly its converted stake, and votes only for targets of its original
/// assignment.
pub fn convert_and_reduce(assignments: &Vec<Assignment>, stakes: &Vec<ExtendedBalance>) -> (r: Vec<
    StakedAssignment,
>)
    requires
        stakes@.len() == assignments@.len(),
        forall|i: int|
            0 <= i < assignments@.len() ==> (#[trigger] assignments@[i]).distribution@.len() >= 1,
        forall|i: int|
            0 <= i < assignments@.len() ==> ratio_sum((#[trigger] assignments@[i]).distribution@)
                == ACCURACY,
        forall|i: int| 0 <= i < stakes@.len() ==> #[trigger] stakes@[i] <= MAX_SCALABLE_STAKE,
        forall|i: int, j: int|
            0 <= i < j < assignments@.len() ==> assignments@[i].who != assignments@[j].who,
        forall|i: int|
            0 <= i < assignments@.len() ==> distinct(
                ratio_targets((#[trigger] assignments@[i]).distribution@),
            ),
    ensures
        r@.len() == assignments@.len(),
        forall|i: int| 0 <= i < r@.len() ==> (#[trigger] r@[i]).who == assignments@[i].who,
        forall|i: int|
            0 <= i < r@.len() ==> weight_sum((#[trigger] r@[i]).distribution@) == stakes@[i],
        forall|i: int|
            0 <= i < r@.len() ==> weight_sum((#[trigger] r@[i]).distribution@)
                <= MAX_SCALABLE_STAKE,
        forall|i: int|
            0 <= i < r@.len() ==> seq_subset(
                staked_targets((#[trigger] r@[i]).distribution@),
                ratio_targets(assignments@[i].distribution@),
            ),
        forall|i: int|
            0 <= i < r@.len() ==> (#[trigger] r@[i]).distribution@.len()
                <= assignments@[i].distribution@.len(),
{
    let n: usize = assignments.len();
    let mut staked: Vec<StakedAssignment> = Vec::new();
    let mut i: usize = 0;
    while i < n
        invariant
            n == assignments@.len(),
            n == stakes@.len(),
            0 <= i <= n,
            forall|k: int|
                0 <= k < n ==> (#[trigger] assignments@[k]).distribution@.len() >= 1,
            forall|k: int|
                0 <= k < n ==> ratio_sum((#[trigger] assignments@[k]).distribution@) == ACCURACY,
            forall|k: int| 0 <= k < n ==> #[trigger] stakes@[k] <= MAX_SCALABLE_STAKE,
            forall|k: int, j: int|
                0 <= k < j < n ==> assignments@[k].who != assignments@[j].who,
            forall|k: int|
                0 <= k < n ==> distinct(ratio_targets((#[trigger] assignments@[k]).distribution@)),
            staked@.len() == i,
            forall|k: int| 0 <= k < i ==> (#[trigger] staked@[k]).who == assignments@[k].who,
            forall|k: int|
                0 <= k < i ==> weight_sum((#[trigger] staked@[k]).distribution@) == stakes@[k],
            forall|k: int|
                0 <= k < i ==> staked_targets((#[trigger] staked@[k]).distribution@)
                    == ratio_targets(assignments@[k].distribution@),
        decreases n - i,
    {
        let sa: StakedAssignment = into_staked(&assignments[i], stakes[i]);
        staked.push(sa);
        i = i + 1;
    }
    let reduced: Vec<StakedAssignment> = reduce_call(staked);
    proof {
        assert forall|k: int| 0 <= k < reduced@.len() implies seq_subset(
            staked_targets(reduced@[k].distribution@),
            ratio_targets(assignments@[k].distribution@),
        ) by {
            assert(staked_targets(staked@[k].distribution@) == ratio_targets(
                assignments@[k].distribution@,
            ));
        }
    }
    reduced
}

/// Winner closure: reduction never introduces a vote for a new account, so if
/// every original target is a winner, every reduced target is a winner too.
pub proof fn lemma_winner_closure(
    reduced_targets: Seq<AccountId>,
    original_targets: Seq<AccountId>,
    winners: Seq<AccountId>,
)
    requires
        seq_subset(reduced_targets, original_targets),
        seq_subset(original_targets, winners),
    ensures
        seq_subset(reduced_targets, winners),
{
    assert forall|j: int| 0 <= j < reduced_targets.len() implies winners.contains(
        #[trigger] reduced_targets[j],
    ) by {
        let k = choose|k: int|
            0 <= k < original_targets.len() && original_targets[k] == reduced_targets[j];
        assert(winners.contains(original_targets[k]));
    }
}

} // verus!
