//! Support map and score: how much stake backs each winner, and the
//! three-part quality measure of a solution. Sums saturate at the top of
//! `ExtendedBalance`, as the on-chain evaluation does.

use vstd::prelude::*;

use vstd::arithmetic::div_mod::{lemma_fundamental_div_mod, lemma_mod_bound};

use crate::types::{AccountId, ExtendedBalance, PhragmenScore, StakedAssignment};

verus! {

/// An integer clamped to the top of `ExtendedBalance`.
pub open spec fn capped(x: int) -> int {
    if x > u128::MAX {
        u128::MAX as int
    } else {
        x
    }
}

/// The stake one distribution sends to target `w`.
pub open spec fn backing_for(d: Seq<(AccountId, ExtendedBalance)>, w: AccountId) -> int
    decreases d.len(),
{
    if d.len() == 0 {
        0
    } else {
        backing_for(d.drop_last(), w) + if d.last().0 == w {
            d.last().1 as int
        } else {
            0
        }
    }
}

/// The total stake all voters send to target `w`.
pub open spec fn support_total(s: Seq<StakedAssignment>, w: AccountId) -> int
    decreases s.len(),
{
    if s.len() == 0 {
        0
    } else {
        support_total(s.drop_last(), w) + backing_for(s.last().distribution@, w)
    }
}

/// The `(voter, stake)` pairs one distribution contributes to target `w`.
pub open spec fn voters_in(
    who: AccountId,
    d: Seq<(AccountId, ExtendedBalance)>,
    w: AccountId,
) -> Seq<(AccountId, ExtendedBalance)>
    decreases d.len(),
{
    if d.len() == 0 {
        Seq::empty()
    } else {
        voters_in(who, d.drop_last(), w) + if d.last().0 == w {
            seq![(who, d.last().1)]
        } else {
            Seq::empty()
        }
    }
}

/// All `(voter, stake)` pairs backing target `w`, in voter order.
pub open spec fn voters_for(s: Seq<StakedAssignment>, w: AccountId) -> Seq<
    (AccountId, ExtendedBalance),
>
    decreases s.len(),
{
    if s.len() == 0 {
        Seq::empty()
    } else {
        voters_for(s.drop_last(), w) + voters_in(s.last().who, s.last().distribution@, w)
    }
}

proof fn lemma_backing_nonneg(d: Seq<(AccountId, ExtendedBalance)>, w: AccountId)
    ensures
        backing_for(d, w) >= 0,
    decreases d.len(),
{
    if d.len() > 0 {
        lemma_backing_nonneg(d.drop_last(), w);
    }
}

proof fn lemma_support_total_nonneg(s: Seq<StakedAssignment>, w: AccountId)
    ensures
        support_total(s, w) >= 0,
    decreases s.len(),
{
    if s.len() > 0 {
        lemma_support_total_nonneg(s.drop_last(), w);
        lemma_backing_nonneg(s.last().distribution@, w);
    }
}

/// Clamping before or after an addition of non-negative terms ends the same.
proof fn lemma_capped_add(a: int, b: int)
    requires
        a >= 0,
        0 <= b <= u128::MAX,
    ensures
        capped(capped(a) + b) == capped(a + b),
{
}

/// Addition clamped to the top of `ExtendedBalance`.
pub fn saturating_add(a: ExtendedBalance, b: ExtendedBalance) -> (r: ExtendedBalance)
    ensures
        r == capped(a + b),
{
    if b <= u128::MAX - a {
        a + b
    } else {
        u128::MAX
    }
}

/// Multiplication clamped to the top of `ExtendedBalance`.
pub fn saturating_mul(a: ExtendedBalance, b: ExtendedBalance) -> (r: ExtendedBalance)
    ensures
        r == capped(a * b),
{
    if a == 0 {
        0
    } else if b <= u128::MAX / a {
        proof {
            lemma_fundamental_div_mod(u128::MAX as int, a as int);
            lemma_mod_bound(u128::MAX as int, a as int);
            assert(a * b <= u128::MAX) by (nonlinear_arith)
                requires
                    0 < a,
                    0 <= b,
                    b <= u128::MAX / a,
                    a * (u128::MAX / a) + (u128::MAX % a) == u128::MAX,
                    0 <= u128::MAX % a,
            ;
        }
        a * b
    } else {
        proof {
            lemma_fundamental_div_mod(u128::MAX as int, a as int);
            lemma_mod_bound(u128::MAX as int, a as int);
            assert(a * b > u128::MAX) by (nonlinear_arith)
                requires
                    0 < a,
                    b > u128::MAX / a,
                    a * (u128::MAX / a) + (u128::MAX % a) == u128::MAX,
                    u128::MAX % a < a,
            ;
        }
        u128::MAX
    }
}

/// One winner's backing: its account, the clamped total stake behind it, and
/// the contributing voters in order.
pub struct SupportEntry {
    /// The backed winner.
    pub who: AccountId,
    /// Total stake behind it, clamped to `ExtendedBalance`.
    pub total: ExtendedBalance,
    /// The `(voter, stake)` pairs that contribute to `total`.
    pub voters: Vec<(AccountId, ExtendedBalance)>,
}

/// Build the support map: one entry per winner, in winner order, holding the
/// winner's total backing and its backers. Edges pointing outside the winner
/// set contribute to no entry.
pub fn build_support_map(winners: &Vec<AccountId>, staked: &Vec<StakedAssignment>) -> (r: Vec<
    SupportEntry,
>)
    ensures
        r@.len() == winners@.len(),
        forall|k: int| 0 <= k < r@.len() ==> (#[trigger] r@[k]).who == winners@[k],
        forall|k: int|
            0 <= k < r@.len() ==> (#[trigger] r@[k]).total == capped(
                support_total(staked@, winners@[k]),
            ),
        forall|k: int|
            0 <= k < r@.len() ==> (#[trigger] r@[k]).voters@ == voters_for(staked@, winners@[k]),
{
    let mut out: Vec<SupportEntry> = Vec::new();
    let wn: usize = winners.len();
    let mut k: usize = 0;
    while k < wn
        invariant
            wn == winners@.len(),
            0 <= k <= wn,
            out@.len() == k,
            forall|q: int| 0 <= q < k ==> (#[trigger] out@[q]).who == winners@[q],
            forall|q: int|
                0 <= q < k ==> (#[trigger] out@[q]).total == capped(
                    support_total(staked@, winners@[q]),
                ),
            forall|q: int|
                0 <= q < k ==> (#[trigger] out@[q]).voters@ == voters_for(staked@, winners@[q]),
        decreases wn - k,
    {
        let w: AccountId = winners[k];
        let mut tot: ExtendedBalance = 0;
        let mut vs: Vec<(AccountId, ExtendedBalance)> = Vec::new();
        let sn: usize = staked.len();
        let mut i: usize = 0;
        proof {
            assert(staked@.take(0) =~= Seq::<StakedAssignment>::empty());
        }
        while i < sn
            invariant
                sn == staked@.len(),
                0 <= i <= sn,
                tot == capped(support_total(staked@.take(i as int), w)),
                vs@ == voters_for(staked@.take(i as int), w),
            decreases sn - i,
        {
            let who: AccountId = staked[i].who;
            let dn: usize = staked[i].distribution.len();
            let mut j: usize = 0;
            proof {
                let d = staked@[i as int].distribution@;
                assert(d.take(0) =~= Seq::<(AccountId, ExtendedBalance)>::empty());
                lemma_support_total_nonneg(staked@.take(i as int), w);
            }
            while j < dn
                invariant
                    sn == staked@.len(),
                    0 <= i < sn,
                    dn == staked@[i as int].distribution@.len(),
                    0 <= j <= dn,
                    who == staked@[i as int].who,
                    tot == capped(
                        support_total(staked@.take(i as int), w) + backing_for(
                            staked@[i as int].distribution@.take(j as int),
                            w,
                        ),
                    ),
                    vs@ == voters_for(staked@.take(i as int), w) + voters_in(
                        who,
                        staked@[i as int].distribution@.take(j as int),
                        w,
                    ),
                decreases dn - j,
            {
                let (target, weight): (AccountId, ExtendedBalance) = staked[i].distribution[j];
                proof {
                    let d = staked@[i as int].distribution@;
                    assert(d.take(j + 1).drop_last() =~= d.take(j as int));
                    assert(d.take(j + 1).last() == d[j as int]);
                    lemma_support_total_nonneg(staked@.take(i as int), w);
                    lemma_backing_nonneg(d.take(j as int), w);
                    if target == w {
                        lemma_capped_add(
                            support_total(staked@.take(i as int), w) + backing_for(
                                d.take(j as int),
                                w,
                            ),
                            weight as int,
                        );
                    }
                }
                if target == w {
                    tot = saturating_add(tot, weight);
                    vs.push((who, weight));
                    proof {
                        let d = staked@[i as int].distribution@;
                        assert(vs@ =~= voters_for(staked@.take(i as int), w) + voters_in(
                            who,
                            d.take(j + 1),
                            w,
                        ));
                    }
                } else {
                    proof {
                        let d = staked@[i as int].distribution@;
                        assert(vs@ =~= voters_for(staked@.take(i as int), w) + voters_in(
                            who,
                            d.take(j + 1),
                            w,
                        ));
                    }
                }
                j = j + 1;
            }
            proof {
                let d = staked@[i as int].distribution@;
                assert(d.take(dn as int) =~= d);
                assert(staked@.take(i + 1).drop_last() =~= staked@.take(i as int));
                assert(staked@.take(i + 1).last() == staked@[i as int]);
            }
            i = i + 1;
        }
        proof {
            assert(staked@.take(sn as int) =~= staked@);
        }
        out.push(SupportEntry { who: w, total: tot, voters: vs });
        k = k + 1;
    }
    out
}

/// The totals of a support map, in entry order.
pub open spec fn totals_of(s: Seq<SupportEntry>) -> Seq<ExtendedBalance> {
    Seq::new(s.len(), |i: int| s[i].total)
}

/// Least element of a totals sequence; the top of `ExtendedBalance` when the
/// sequence is empty.
pub open spec fn min_total(t: Seq<ExtendedBalance>) -> int
    decreases t.len(),
{
    if t.len() == 0 {
        u128::MAX as int
    } else {
        let m = min_total(t.drop_last());
        if t.last() < m {
            t.last() as int
        } else {
            m
        }
    }
}

/// Plain sum of a totals sequence.
pub open spec fn sum_total(t: Seq<ExtendedBalance>) -> int
    decreases t.len(),
{
    if t.len() == 0 {
        0
    } else {
        sum_total(t.drop_last()) + t.last()
    }
}

/// Sum of the clamped squares of a totals sequence.
pub open spec fn sum_squared(t: Seq<ExtendedBalance>) -> int
    decreases t.len(),
{
    if t.len() == 0 {
        0
    } else {
        sum_squared(t.drop_last()) + capped(t.last() * t.last())
    }
}

proof fn lemma_sum_total_nonneg(t: Seq<ExtendedBalance>)
    ensures
        sum_total(t) >= 0,
    decreases t.len(),
{
    if t.len() > 0 {
        lemma_sum_total_nonneg(t.drop_last());
    }
}

proof fn lemma_sum_squared_nonneg(t: Seq<ExtendedBalance>)
    ensures
        sum_squared(t) >= 0,
    decreases t.len(),
{
    if t.len() > 0 {
        lemma_sum_squared_nonneg(t.drop_last());
        assert(capped(t.last() * t.last()) >= 0) by (nonlinear_arith);
    }
}

/// Evaluate a support map into its score: the least backing, the clamped sum
/// of backings, and the clamped sum of their squares.
pub fn evaluate_support(supports: &Vec<SupportEntry>) -> (r: PhragmenScore)
    ensures
        r.minimal_stake == min_total(totals_of(supports@)),
        r.sum_stake == capped(sum_total(totals_of(supports@))),
        r.sum_stake_squared == capped(sum_squared(totals_of(supports@))),
{
    let mut min_support: ExtendedBalance = u128::MAX;
    let mut sum: ExtendedBalance = 0;
    let mut sum_sq: ExtendedBalance = 0;
    let n: usize = supports.len();
    let mut i: usize = 0;
    proof {
        assert(totals_of(supports@.take(0)) =~= Seq::<ExtendedBalance>::empty());
    }
    while i < n
        invariant
            n == supports@.len(),
            0 <= i <= n,
            min_support == min_total(totals_of(supports@.take(i as int))),
            sum == capped(sum_total(totals_of(supports@.take(i as int)))),
            sum_sq == capped(sum_squared(totals_of(supports@.take(i as int)))),
        decreases n - i,
    {
        let t: ExtendedBalance = supports[i].total;
        proof {
            let pre = totals_of(supports@.take(i as int));
            let cur = totals_of(supports@.take(i + 1));
            assert(cur.drop_last() =~= pre);
            assert(cur.last() == t);
            lemma_sum_total_nonneg(pre);
            lemma_sum_squared_nonneg(pre);
            lemma_capped_add(sum_total(pre), t as int);
            assert(capped(t as int * t as int) >= 0) by (nonlinear_arith);
            assert(capped(t as int * t as int) <= u128::MAX);
            lemma_capped_add(sum_squared(pre), capped(t as int * t as int));
        }
        sum = saturating_add(sum, t);
        let sq: ExtendedBalance = saturating_mul(t, t);
        sum_sq = saturating_add(sum_sq, sq);
        if t < min_support {
            min_support = t;
        }
        i = i + 1;
    }
    proof {
        assert(supports@.take(n as int) =~= supports@);
    }
    PhragmenScore { minimal_stake: min_support, sum_stake: sum, sum_stake_squared: sum_sq }
}

} // verus!
