use offchain_election::compact::{CompactEntry, CompactSolution};
use offchain_election::types::PhragmenScore;
use offchain_election::wire::encode_signature_payload;

fn zero_score() -> PhragmenScore {
    PhragmenScore { minimal_stake: 0, sum_stake: 0, sum_stake_squared: 0 }
}

#[test]
fn empty_payload_layout() {
    let payload = encode_signature_payload(
        &Vec::new(),
        &CompactSolution { entries: Vec::new() },
        &zero_score(),
        7,
    );
    let mut expected: Vec<u8> = Vec::new();
    expected.push(0); // zero winners
    expected.push(0); // zero compact entries
    expected.extend(std::iter::repeat(0u8).take(48)); // three zero balances
    expected.extend([7, 0, 0, 0]); // key position
    assert_eq!(payload, expected);
}

#[test]
fn payload_bytes_exact() {
    let compact = CompactSolution {
        entries: vec![CompactEntry { who_index: 5, edges: vec![(3, 0x0102_0304)] }],
    };
    let score = PhragmenScore { minimal_stake: 1, sum_stake: 2, sum_stake_squared: 3 };
    let payload = encode_signature_payload(&vec![258], &compact, &score, 9);
    let mut expected: Vec<u8> = Vec::new();
    expected.push(4); // one winner, compact-encoded
    expected.extend([2, 1]); // winner index 258, little endian
    expected.push(4); // one compact entry
    expected.extend([5, 0, 0, 0]); // voter index
    expected.push(4); // one edge
    expected.extend([3, 0]); // target index
    expected.extend([4, 3, 2, 1]); // parts, little endian
    expected.push(1);
    expected.extend(std::iter::repeat(0u8).take(15));
    expected.push(2);
    expected.extend(std::iter::repeat(0u8).take(15));
    expected.push(3);
    expected.extend(std::iter::repeat(0u8).take(15));
    expected.extend([9, 0, 0, 0]); // key position
    assert_eq!(payload, expected);
}

#[test]
fn length_prefix_switches_to_two_bytes_at_64() {
    let winners: Vec<u16> = vec![0; 64];
    let payload = encode_signature_payload(
        &winners,
        &CompactSolution { entries: Vec::new() },
        &zero_score(),
        0,
    );
    // 64 << 2 | 0b01 = 257, little endian.
    assert_eq!(&payload[0..2], &[0x01, 0x01]);
    // 64 two-byte winner indices follow.
    assert_eq!(payload.len(), 2 + 128 + 1 + 48 + 4);
    // The single-byte form is used just below the boundary.
    let winners: Vec<u16> = vec![0; 63];
    let payload = encode_signature_payload(
        &winners,
        &CompactSolution { entries: Vec::new() },
        &zero_score(),
        0,
    );
    assert_eq!(payload[0], 63 << 2);
}

#[test]
fn length_prefix_matches_codec() {
    // The hand-written expectations above pin the same bytes the codec crate
    // produces for a compact length.
    for n in [0u32, 1, 63, 64, 300, 16383, 16384] {
        let ours = encode_signature_payload(
            &vec![0u16; n as usize],
            &CompactSolution { entries: Vec::new() },
            &zero_score(),
            0,
        );
        let prefix = parity_scale_codec::Encode::encode(&parity_scale_codec::Compact(n));
        assert_eq!(&ours[0..prefix.len()], &prefix[..]);
    }
}
