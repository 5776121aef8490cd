//! Index-based compaction of ratio assignments. Accounts are replaced by
//! their positions in the per-period snapshots — the nominator snapshot for
//! voters, the validator snapshot for targets — which is what makes the wire
//! form small. Decoding maps the positions back through the same snapshots.

use vstd::prelude::*;

use crate::types::{
    find_index,
    lemma_find_index,
    position_of,
    AccountId,
    Assignment,
    NominatorIndex,
    OffchainElectionError,
    ValidatorIndex,
};

verus! {

/// One voter's assignment with every account replaced by its snapshot index.
#[derive(Debug)]
pub struct CompactEntry {
    /// Position of the voter in the nominator snapshot.
    pub who_index: NominatorIndex,
    /// `(validator index, parts)` pairs, in the assignment's edge order.
    pub edges: Vec<(ValidatorIndex, u32)>,
}

/// The index-compacted form of a whole set of ratio assignments.
#[derive(Debug)]
pub struct CompactSolution {
    /// One entry per assignment, in assignment order.
    pub entries: Vec<CompactEntry>,
}

/// The mathematical content of one compact entry.
pub open spec fn entry_view(e: CompactEntry) -> (NominatorIndex, Seq<(ValidatorIndex, u32)>) {
    (e.who_index, e.edges@)
}

/// The mathematical content of a compact solution.
pub open spec fn entries_view(s: Seq<CompactEntry>) -> Seq<
    (NominatorIndex, Seq<(ValidatorIndex, u32)>),
> {
    Seq::new(s.len(), |i: int| entry_view(s[i]))
}

/// Whether every voter and every target of `s` can be expressed through the
/// snapshots: present, and at a position that fits the index type.
pub open spec fn compact_ok(
    s: Seq<Assignment>,
    nominators: Seq<AccountId>,
    validators: Seq<AccountId>,
) -> bool {
    forall|i: int|
        0 <= i < s.len() ==> {
            &&& 0 <= find_index(nominators, (#[trigger] s[i]).who) <= NominatorIndex::MAX
            &&& forall|j: int|
                0 <= j < s[i].distribution@.len() ==> 0 <= find_index(
                    validators,
                    (#[trigger] s[i].distribution@[j]).0,
                ) <= ValidatorIndex::MAX
        }
}

/// The compact form of one assignment, through the snapshot indices.
pub open spec fn entry_of(
    a: Assignment,
    nominators: Seq<AccountId>,
    validators: Seq<AccountId>,
) -> (NominatorIndex, Seq<(ValidatorIndex, u32)>) {
    (
        find_index(nominators, a.who) as NominatorIndex,
        Seq::new(
            a.distribution@.len(),
            |j: int|
                (
                    find_index(validators, a.distribution@[j].0) as ValidatorIndex,
                    a.distribution@[j].1,
                ),
        ),
    )
}

/// The compact form of a whole set of assignments.
pub open spec fn compact_model(
    s: Seq<Assignment>,
    nominators: Seq<AccountId>,
    validators: Seq<AccountId>,
) -> Seq<(NominatorIndex, Seq<(ValidatorIndex, u32)>)> {
    Seq::new(s.len(), |i: int| entry_of(s[i], nominators, validators))
}

/// Whether every index of a compact solution points into the snapshots.
pub open spec fn decode_ok(
    m: Seq<(NominatorIndex, Seq<(ValidatorIndex, u32)>)>,
    nominators: Seq<AccountId>,
    validators: Seq<AccountId>,
) -> bool {
    forall|i: int|
        0 <= i < m.len() ==> {
            &&& (#[trigger] m[i]).0 < nominators.len()
            &&& forall|j: int| 0 <= j < m[i].1.len() ==> (#[trigger] m[i].1[j]).0
                < validators.len()
        }
}

/// The assignments a compact solution decodes to, as `(voter, edges)` pairs.
pub open spec fn decode_model(
    m: Seq<(NominatorIndex, Seq<(ValidatorIndex, u32)>)>,
    nominators: Seq<AccountId>,
    validators: Seq<AccountId>,
) -> Seq<(AccountId, Seq<(AccountId, u32)>)> {
    Seq::new(
        m.len(),
        |i: int|
            (
                nominators[m[i].0 as int],
                Seq::new(
                    m[i].1.len(),
                    |j: int| (validators[m[i].1[j].0 as int], m[i].1[j].1),
                ),
            ),
    )
}

/// Compact a set of ratio assignments against the snapshots. Succeeds exactly
/// when every voter and target resolves to a fitting index, and then yields
/// exactly the index image of the input; otherwise the compaction failed.
pub fn from_assignment(
    assignments: &Vec<Assignment>,
    nominators: &Vec<AccountId>,
    validators: &Vec<AccountId>,
) -> (r: Result<CompactSolution, OffchainElectionError>)
    ensures
        compact_ok(assignments@, nominators@, validators@) ==> match r {
            Result::Ok(c) => entries_view(c.entries@) == compact_model(
                assignments@,
                nominators@,
                validators@,
            ),
            Result::Err(_) => false,
        },
        !compact_ok(assignments@, nominators@, validators@) ==> r == Result::<
            CompactSolution,
            OffchainElectionError,
        >::Err(OffchainElectionError::CompactFailed),
{
    let n: usize = assignments.len();
    let mut entries: Vec<CompactEntry> = Vec::new();
    let mut i: usize = 0;
    while i < n
        invariant
            n == assignments@.len(),
            0 <= i <= n,
            entries@.len() == i,
            forall|k: int|
                0 <= k < i ==> entry_view(#[trigger] entries@[k]) == entry_of(
                    assignments@[k],
                    nominators@,
                    validators@,
                ),
            forall|k: int|
                0 <= k < i ==> {
                    &&& 0 <= find_index(nominators@, (#[trigger] assignments@[k]).who)
                        <= NominatorIndex::MAX
                    &&& forall|j: int|
                        0 <= j < assignments@[k].distribution@.len() ==> 0 <= find_index(
                            validators@,
                            (#[trigger] assignments@[k].distribution@[j]).0,
                        ) <= ValidatorIndex::MAX
                },
        decreases n - i,
    {
        let a = &assignments[i];
        let who_index: NominatorIndex = match position_of(nominators, a.who) {
            Some(p) => {
                if p > NominatorIndex::MAX as usize {
                    return Err(OffchainElectionError::CompactFailed);
                }
                p as NominatorIndex
            },
            None => {
                return Err(OffchainElectionError::CompactFailed);
            },
        };
        let dn: usize = a.distribution.len();
        let mut edges: Vec<(ValidatorIndex, u32)> = Vec::new();
        let mut j: usize = 0;
        while j < dn
            invariant
                0 <= i < assignments@.len(),
                dn == assignments@[i as int].distribution@.len(),
                0 <= j <= dn,
                edges@.len() == j,
                forall|q: int|
                    0 <= q < j ==> #[trigger] edges@[q] == (
                        find_index(
                            validators@,
                            assignments@[i as int].distribution@[q].0,
                        ) as ValidatorIndex,
                        assignments@[i as int].distribution@[q].1,
                    ),
                forall|q: int|
                    0 <= q < j ==> 0 <= find_index(
                        validators@,
                        (#[trigger] assignments@[i as int].distribution@[q]).0,
                    ) <= ValidatorIndex::MAX,
            decreases dn - j,
        {
            let (target, parts): (AccountId, u32) = assignments[i].distribution[j];
            match position_of(validators, target) {
                Some(p) => {
                    if p > ValidatorIndex::MAX as usize {
                        return Err(OffchainElectionError::CompactFailed);
                    }
                    edges.push((p as ValidatorIndex, parts));
                },
                None => {
                    return Err(OffchainElectionError::CompactFailed);
                },
            }
            j = j + 1;
        }
        proof {
            assert(entry_view(CompactEntry { who_index, edges }) == entry_of(
                assignments@[i as int],
                nominators@,
                validators@,
            )) by {
                assert(edges@ =~= entry_of(assignments@[i as int], nominators@, validators@).1);
            }
        }
        entries.push(CompactEntry { who_index, edges });
        i = i + 1;
    }
    proof {
        assert(entries_view(entries@) =~= compact_model(assignments@, nominators@, validators@));
    }
    Ok(CompactSolution { entries })
}

/// Decode a compact solution back to account form through the snapshots.
/// Succeeds exactly when every index points into its snapshot, and then
/// yields exactly the account image of the entries.
pub fn decode_compact(
    compact: &CompactSolution,
    nominators: &Vec<AccountId>,
    validators: &Vec<AccountId>,
) -> (r: Result<Vec<Assignment>, OffchainElectionError>)
    ensures
        decode_ok(entries_view(compact.entries@), nominators@, validators@) ==> match r {
            Result::Ok(v) => {
                let m = decode_model(entries_view(compact.entries@), nominators@, validators@);
                &&& v@.len() == m.len()
                &&& forall|i: int|
                    0 <= i < v@.len() ==> (#[trigger] v@[i]).who == m[i].0 && v@[i].distribution@
                        == m[i].1
            },
            Result::Err(_) => false,
        },
        !decode_ok(entries_view(compact.entries@), nominators@, validators@) ==> r == Result::<
            Vec<Assignment>,
            OffchainElectionError,
        >::Err(OffchainElectionError::CompactFailed),
{
    let ghost m = entries_view(compact.entries@);
    let n: usize = compact.entries.len();
    let mut out: Vec<Assignment> = Vec::new();
    let mut i: usize = 0;
    while i < n
        invariant
            n == compact.entries@.len(),
            m == entries_view(compact.entries@),
            0 <= i <= n,
            out@.len() == i,
            forall|k: int|
                0 <= k < i ==> (#[trigger] m[k]).0 < nominators@.len() && forall|j: int|
                    0 <= j < m[k].1.len() ==> (#[trigger] m[k].1[j]).0 < validators@.len(),
            forall|k: int|
                0 <= k < i ==> (#[trigger] out@[k]).who == decode_model(
                    m,
                    nominators@,
                    validators@,
                )[k].0 && out@[k].distribution@ == decode_model(m, nominators@, validators@)[k].1,
        decreases n - i,
    {
        proof {
            assert(m[i as int] == entry_view(compact.entries@[i as int]));
        }
        let who_index: NominatorIndex = compact.entries[i].who_index;
        if who_index as usize >= nominators.len() {
            proof {
                assert(m[i as int].0 >= nominators@.len());
            }
            return Err(OffchainElectionError::CompactFailed);
        }
        let who: AccountId = nominators[who_index as usize];
        let dn: usize = compact.entries[i].edges.len();
        let mut dist: Vec<(AccountId, u32)> = Vec::new();
        let mut j: usize = 0;
        while j < dn
            invariant
                0 <= i < compact.entries@.len(),
                m == entries_view(compact.entries@),
                m[i as int].1 == compact.entries@[i as int].edges@,
                dn == compact.entries@[i as int].edges@.len(),
                0 <= j <= dn,
                dist@.len() == j,
                forall|q: int|
                    0 <= q < j ==> (#[trigger] m[i as int].1[q]).0 < validators@.len(),
                forall|q: int|
                    0 <= q < j ==> #[trigger] dist@[q] == (
                        validators@[m[i as int].1[q].0 as int],
                        m[i as int].1[q].1,
                    ),
            decreases dn - j,
        {
            let (vi, parts): (ValidatorIndex, u32) = compact.entries[i].edges[j];
            if vi as usize >= validators.len() {
                proof {
                    assert(m[i as int].1[j as int].0 >= validators@.len());
                }
                return Err(OffchainElectionError::CompactFailed);
            }
            dist.push((validators[vi as usize], parts));
            j = j + 1;
        }
        proof {
            assert(dist@ =~= decode_model(m, nominators@, validators@)[i as int].1);
        }
        out.push(Assignment { who, distribution: dist });
        i = i + 1;
    }
    Ok(out)
}

/// Compaction round-trip: a set of assignments that compacts successfully
/// decodes, through the same snapshots, back to exactly the original voters,
/// targets and parts.
pub proof fn lemma_compact_round_trip(
    s: Seq<Assignment>,
    nominators: Seq<AccountId>,
    validators: Seq<AccountId>,
)
    requires
        compact_ok(s, nominators, validators),
    ensures
        decode_ok(compact_model(s, nominators, validators), nominators, validators),
        decode_model(compact_model(s, nominators, validators), nominators, validators).len()
            == s.len(),
        forall|i: int|
            0 <= i < s.len() ==> {
                let d = decode_model(compact_model(s, nominators, validators), nominators,
                validators)[i];
                d.0 == (#[trigger] s[i]).who && d.1 == s[i].distribution@
            },
{
    let m = compact_model(s, nominators, validators);
    assert forall|i: int| 0 <= i < m.len() implies (#[trigger] m[i]).0 < nominators.len()
        && forall|j: int| 0 <= j < m[i].1.len() ==> (#[trigger] m[i].1[j]).0
        < validators.len() by {
        lemma_find_index(nominators, s[i].who);
        assert forall|j: int| 0 <= j < m[i].1.len() implies (#[trigger] m[i].1[j]).0
            < validators.len() by {
            lemma_find_index(validators, s[i].distribution@[j].0);
        }
    }
    let d = decode_model(m, nominators, validators);
    assert forall|i: int| 0 <= i < s.len() implies d[i].0 == (#[trigger] s[i]).who && d[i].1
        == s[i].distribution@ by {
        lemma_find_index(nominators, s[i].who);
        assert forall|j: int| 0 <= j < s[i].distribution@.len() implies d[i].1[j] == s[i]
            .distribution@[j] by {
            lemma_find_index(validators, s[i].distribution@[j].0);
        }
        assert(d[i].1 =~= s[i].distribution@);
    }
}

} // verus!
