//! Signing-key search: walk the node's local signing identities and keep the
//! ones that also appear in the authorized key set, each paired with its
//! position there. The position is what the submission carries, so the chain
//! can check the signature against the key at that index.

use vstd::prelude::*;

use crate::types::{find_index, lemma_find_index, position_of, AccountId};

verus! {

/// The candidate list, in the order the worker tries them: local keys in
/// their own order, each resolved to its first position in the authorized
/// set; local keys absent from the authorized set are skipped.
pub open spec fn candidate_seq(local: Seq<AccountId>, authorized: Seq<AccountId>) -> Seq<
    (u32, AccountId),
>
    decreases local.len(),
{
    if local.len() == 0 {
        Seq::empty()
    } else {
        let rest = candidate_seq(local.drop_last(), authorized);
        let i = find_index(authorized, local.last());
        if i >= 0 {
            rest.push((i as u32, local.last()))
        } else {
            rest
        }
    }
}

/// Collect the candidate keys: every local key that is authorized, paired
/// with its position in the authorized set, in local-key order.
pub fn find_candidates(local: &Vec<AccountId>, authorized: &Vec<AccountId>) -> (r: Vec<
    (u32, AccountId),
>)
    requires
        authorized@.len() <= u32::MAX,
    ensures
        r@ == candidate_seq(local@, authorized@),
{
    let mut out: Vec<(u32, AccountId)> = Vec::new();
    let n: usize = local.len();
    let mut i: usize = 0;
    proof {
        assert(local@.take(0) =~= Seq::<AccountId>::empty());
    }
    while i < n
        invariant
            n == local@.len(),
            0 <= i <= n,
            authorized@.len() <= u32::MAX,
            out@ == candidate_seq(local@.take(i as int), authorized@),
        decreases n - i,
    {
        let k: AccountId = local[i];
        proof {
            let pre = local@.take(i as int);
            let cur = local@.take(i + 1);
            assert(cur.drop_last() =~= pre);
            assert(cur.last() == k);
            lemma_find_index(authorized@, k);
        }
        match position_of(authorized, k) {
            Some(p) => {
                out.push((p as u32, k));
            },
            None => {},
        }
        i = i + 1;
    }
    proof {
        assert(local@.take(n as int) =~= local@);
    }
    out
}

} // verus!
