//! Wire form of the signature payload. The chain checks the signature over
//! the exact byte encoding of `(winner indices, compact solution, score, key
//! position)`, so the bytes are pinned here down to the last one: integers in
//! little-endian order, every sequence prefixed with the standard compact
//! length. The leaf encodings come from the codec crate; this module glues
//! them together and proves the result is exactly the specified stream.

use vstd::prelude::*;

use crate::compact::{entries_view, CompactSolution};
use crate::types::{NominatorIndex, PhragmenScore, ValidatorIndex};

verus! {

/// The `n` little-endian bytes of `x`.
pub open spec fn le_bytes(x: int, n: nat) -> Seq<u8>
    decreases n,
{
    if n == 0 {
        Seq::empty()
    } else {
        seq![(x % 256) as u8] + le_bytes(x / 256, (n - 1) as nat)
    }
}

/// The compact (variable-length) encoding of a 32-bit count: two low mode
/// bits select one, two or four bytes holding `4x`, `4x + 1` or `4x + 2`, and
/// values past the four-byte range get a marker byte before their full four
/// little-endian bytes.
pub open spec fn scale_compact_u32(x: u32) -> Seq<u8> {
    if x < 64 {
        seq![(x * 4) as u8]
    } else if x < 16384 {
        le_bytes(4 * x + 1, 2)
    } else if x < 1073741824 {
        le_bytes(4 * x + 2, 4)
    } else {
        seq![3u8] + le_bytes(x as int, 4)
    }
}

/// Relies on `parity_scale_codec::Compact<u32>`'s `Encode` impl: one byte
/// `x << 2` below 64, two little-endian bytes `(x << 2) | 1` below `2^14`,
/// four little-endian bytes `(x << 2) | 2` below `2^30`, and a `0b11` marker
/// byte followed by the four little-endian bytes of `x` above that.
#[verifier::external_body]
fn encode_compact_len(x: u32) -> (r: Vec<u8>)
    ensures
        r@ == scale_compact_u32(x),
{
    parity_scale_codec::Encode::encode(&parity_scale_codec::Compact(x))
}

/// Relies on `parity_scale_codec`'s `Encode` impl for `u16`: the two
/// little-endian bytes of the value.
#[verifier::external_body]
fn encode_u16(x: u16) -> (r: Vec<u8>)
    ensures
        r@ == le_bytes(x as int, 2),
{
    parity_scale_codec::Encode::encode(&x)
}

/// Relies on `parity_scale_codec`'s `Encode` impl for `u32`: the four
/// little-endian bytes of the value.
#[verifier::external_body]
fn encode_u32(x: u32) -> (r: Vec<u8>)
    ensures
        r@ == le_bytes(x as int, 4),
{
    parity_scale_codec::Encode::encode(&x)
}

/// Relies on `parity_scale_codec`'s `Encode` impl for `u128`: the sixteen
/// little-endian bytes of the value.
#[verifier::external_body]
fn encode_u128(x: u128) -> (r: Vec<u8>)
    ensures
        r@ == le_bytes(x as int, 16),
{
    parity_scale_codec::Encode::encode(&x)
}

/// Concatenated two-byte encodings of a sequence of indices.
pub open spec fn winner_list_bytes(w: Seq<u16>) -> Seq<u8>
    decreases w.len(),
{
    if w.len() == 0 {
        Seq::empty()
    } else {
        winner_list_bytes(w.drop_last()) + le_bytes(w.last() as int, 2)
    }
}

/// Concatenated encodings of a sequence of `(validator index, parts)` edges.
pub open spec fn edge_list_bytes(e: Seq<(ValidatorIndex, u32)>) -> Seq<u8>
    decreases e.len(),
{
    if e.len() == 0 {
        Seq::empty()
    } else {
        edge_list_bytes(e.drop_last()) + le_bytes(e.last().0 as int, 2) + le_bytes(
            e.last().1 as int,
            4,
        )
    }
}

/// One compact entry on the wire: the voter index, then its length-prefixed
/// edge list.
pub open spec fn entry_bytes(v: (NominatorIndex, Seq<(ValidatorIndex, u32)>)) -> Seq<u8> {
    le_bytes(v.0 as int, 4) + scale_compact_u32(v.1.len() as u32) + edge_list_bytes(v.1)
}

/// Concatenated encodings of a sequence of compact entries.
pub open spec fn entry_list_bytes(m: Seq<(NominatorIndex, Seq<(ValidatorIndex, u32)>)>) -> Seq<u8>
    decreases m.len(),
{
    if m.len() == 0 {
        Seq::empty()
    } else {
        entry_list_bytes(m.drop_last()) + entry_bytes(m.last())
    }
}

/// A whole compact solution on the wire: length prefix, then the entries.
pub open spec fn compact_bytes(m: Seq<(NominatorIndex, Seq<(ValidatorIndex, u32)>)>) -> Seq<u8> {
    scale_compact_u32(m.len() as u32) + entry_list_bytes(m)
}

/// A score on the wire: its three balances, each sixteen bytes.
pub open spec fn score_bytes(s: PhragmenScore) -> Seq<u8> {
    le_bytes(s.minimal_stake as int, 16) + le_bytes(s.sum_stake as int, 16) + le_bytes(
        s.sum_stake_squared as int,
        16,
    )
}

/// The full signature payload: length-prefixed winner indices, the compact
/// solution, the score, and the candidate's key position.
pub open spec fn payload_bytes(
    winners: Seq<u16>,
    m: Seq<(NominatorIndex, Seq<(ValidatorIndex, u32)>)>,
    s: PhragmenScore,
    index: u32,
) -> Seq<u8> {
    scale_compact_u32(winners.len() as u32) + winner_list_bytes(winners) + compact_bytes(m)
        + score_bytes(s) + le_bytes(index as int, 4)
}

/// Append `b` to `out`.
fn push_bytes(out: &mut Vec<u8>, b: &Vec<u8>)
    ensures
        final (out)@ == old(out)@ + b@,
{
    let n: usize = b.len();
    let mut i: usize = 0;
    proof {
        assert(out@ =~= old(out)@ + b@.take(0));
    }
    while i < n
        invariant
            n == b@.len(),
            0 <= i <= n,
            out@ == old(out)@ + b@.take(i as int),
        decreases n - i,
    {
        out.push(b[i]);
        proof {
            assert(old(out)@ + b@.take(i as int) + seq![b@[i as int]] =~= old(out)@ + b@.take(
                i + 1,
            ));
        }
        i = i + 1;
    }
    proof {
        assert(b@.take(n as int) =~= b@);
    }
}

/// Encode the signature payload for one candidate: the winner indices, the
/// compact solution, the score and the candidate's position, in exactly the
/// wire order the chain verifies.
pub fn encode_signature_payload(
    winners: &Vec<ValidatorIndex>,
    compact: &CompactSolution,
    score: &PhragmenScore,
    index: u32,
) -> (r: Vec<u8>)
    requires
        winners@.len() <= u32::MAX,
        compact.entries@.len() <= u32::MAX,
        forall|i: int|
            0 <= i < compact.entries@.len() ==> (#[trigger] compact.entries@[i]).edges@.len()
                <= u32::MAX,
    ensures
        r@ == payload_bytes(winners@, entries_view(compact.entries@), *score, index),
{
    let mut out: Vec<u8> = Vec::new();
    // Winner indices.
    let len_bytes: Vec<u8> = encode_compact_len(winners.len() as u32);
    push_bytes(&mut out, &len_bytes);
    let wn: usize = winners.len();
    let mut i: usize = 0;
    proof {
        assert(winner_list_bytes(winners@.take(0)) =~= Seq::<u8>::empty());
        assert(out@ =~= scale_compact_u32(winners@.len() as u32) + winner_list_bytes(
            winners@.take(0),
        ));
    }
    while i < wn
        invariant
            wn == winners@.len(),
            wn <= u32::MAX,
            0 <= i <= wn,
            out@ == scale_compact_u32(winners@.len() as u32) + winner_list_bytes(
                winners@.take(i as int),
            ),
        decreases wn - i,
    {
        let b: Vec<u8> = encode_u16(winners[i]);
        push_bytes(&mut out, &b);
        proof {
            let pre = winners@.take(i as int);
            let cur = winners@.take(i + 1);
            assert(cur.drop_last() =~= pre);
            assert(cur.last() == winners@[i as int]);
        }
        i = i + 1;
    }
    proof {
        assert(winners@.take(wn as int) =~= winners@);
    }
    // Compact solution.
    let ghost m = entries_view(compact.entries@);
    let ghost after_winners = out@;
    let en: usize = compact.entries.len();
    let len_bytes: Vec<u8> = encode_compact_len(en as u32);
    push_bytes(&mut out, &len_bytes);
    let mut k: usize = 0;
    proof {
        assert(entry_list_bytes(m.take(0)) =~= Seq::<u8>::empty());
        assert(out@ =~= after_winners + scale_compact_u32(m.len() as u32) + entry_list_bytes(
            m.take(0),
        ));
    }
    while k < en
        invariant
            en == compact.entries@.len(),
            en <= u32::MAX,
            m == entries_view(compact.entries@),
            forall|q: int|
                0 <= q < compact.entries@.len() ==> (#[trigger] compact.entries@[q]).edges@.len()
                    <= u32::MAX,
            0 <= k <= en,
            out@ == after_winners + scale_compact_u32(m.len() as u32) + entry_list_bytes(
                m.take(k as int),
            ),
        decreases en - k,
    {
        proof {
            assert(m[k as int] == (compact.entries@[k as int].who_index, compact.entries@[k as int].edges@));
        }
        let ghost before_entry = out@;
        let b: Vec<u8> = encode_u32(compact.entries[k].who_index);
        push_bytes(&mut out, &b);
        let dn: usize = compact.entries[k].edges.len();
        let b: Vec<u8> = encode_compact_len(dn as u32);
        push_bytes(&mut out, &b);
        let ghost edges = compact.entries@[k as int].edges@;
        let mut j: usize = 0;
        proof {
            assert(edge_list_bytes(edges.take(0)) =~= Seq::<u8>::empty());
            assert(out@ =~= before_entry + le_bytes(m[k as int].0 as int, 4) + scale_compact_u32(
                edges.len() as u32,
            ) + edge_list_bytes(edges.take(0)));
        }
        while j < dn
            invariant
                0 <= k < compact.entries@.len(),
                edges == compact.entries@[k as int].edges@,
                dn == edges.len(),
                0 <= j <= dn,
                m == entries_view(compact.entries@),
                out@ == before_entry + le_bytes(m[k as int].0 as int, 4) + scale_compact_u32(
                    edges.len() as u32,
                ) + edge_list_bytes(edges.take(j as int)),
            decreases dn - j,
        {
            let (vi, parts): (ValidatorIndex, u32) = compact.entries[k].edges[j];
            let b: Vec<u8> = encode_u16(vi);
            push_bytes(&mut out, &b);
            let b: Vec<u8> = encode_u32(parts);
            push_bytes(&mut out, &b);
            proof {
                let pre = edges.take(j as int);
                let cur = edges.take(j + 1);
                assert(cur.drop_last() =~= pre);
                assert(cur.last() == edges[j as int]);
                assert(out@ =~= before_entry + le_bytes(m[k as int].0 as int, 4)
                    + scale_compact_u32(edges.len() as u32) + edge_list_bytes(cur));
            }
            j = j + 1;
        }
        proof {
            assert(edges.take(dn as int) =~= edges);
            assert(m[k as int].1 == edges);
            assert(out@ =~= before_entry + entry_bytes(m[k as int]));
            let pre = m.take(k as int);
            let cur = m.take(k + 1);
            assert(cur.drop_last() =~= pre);
            assert(cur.last() == m[k as int]);
            assert(out@ =~= after_winners + scale_compact_u32(m.len() as u32) + entry_list_bytes(
                cur,
            ));
        }
        k = k + 1;
    }
    proof {
        assert(m.take(en as int) =~= m);
    }
    // Score and key position.
    let b: Vec<u8> = encode_u128(score.minimal_stake);
    push_bytes(&mut out, &b);
    let b: Vec<u8> = encode_u128(score.sum_stake);
    push_bytes(&mut out, &b);
    let b: Vec<u8> = encode_u128(score.sum_stake_squared);
    push_bytes(&mut out, &b);
    let b: Vec<u8> = encode_u32(index);
    push_bytes(&mut out, &b);
    proof {
        assert(out@ =~= payload_bytes(winners@, m, *score, index));
    }
    out
}

} // verus!
