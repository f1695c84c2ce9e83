use parity_scale_codec::Encode;
use powerplay::block::{hash_state, BlockData, BLOCK_ENCODED_LEN};
use powerplay::collator::{find_predecessor, next_body, next_increment, produce_candidate, ProduceError};
use powerplay::digest::digest_eq;
use powerplay::head::{DecodeError, HeadData, HEAD_ENCODED_LEN};
use powerplay::history::HistoryStore;
use powerplay::transition::{execute, seal, StateMismatch};

const COMMIT_0: [u8; 32] = [
    1, 27, 77, 3, 221, 140, 1, 241, 4, 145, 67, 207, 156, 76, 129, 126, 75, 22, 127, 29, 27, 131,
    229, 198, 240, 241, 13, 137, 186, 30, 123, 206,
];

const COMMIT_3: [u8; 32] = [
    48, 68, 27, 162, 248, 174, 97, 26, 39, 14, 217, 247, 97, 52, 179, 59, 21, 248, 127, 87, 28, 91,
    210, 7, 49, 6, 117, 221, 67, 106, 197, 25,
];

const COMMIT_7: [u8; 32] = [
    4, 225, 139, 187, 103, 229, 238, 95, 250, 125, 105, 192, 38, 35, 200, 64, 69, 205, 96, 34, 184,
    46, 135, 57, 225, 91, 138, 248, 237, 29, 219, 160,
];

const GENESIS_HASH: [u8; 32] = [
    128, 77, 244, 124, 82, 109, 136, 139, 63, 82, 9, 29, 244, 226, 83, 200, 33, 233, 153, 30, 200,
    142, 52, 39, 34, 204, 72, 95, 218, 49, 116, 126,
];

fn sample_head() -> HeadData {
    let mut parent_hash = [0u8; 32];
    let mut post_state = [0u8; 32];
    for i in 0..32 {
        parent_hash[i] = i as u8;
        post_state[i] = 200 - i as u8;
    }
    HeadData { number: 0x0102_0304_0506_0708, parent_hash, post_state }
}

#[test]
fn genesis_is_the_fixed_constant() {
    let g = HeadData::genesis();
    assert_eq!(g.number, 0);
    assert_eq!(g.parent_hash, [0u8; 32]);
    assert_eq!(g.post_state, COMMIT_0);
    assert!(g.is_genesis());
    assert!(!sample_head().is_genesis());
    assert_eq!(BlockData::genesis(), BlockData { state: 0, add: 0 });
}

#[test]
fn genesis_commits_to_state_zero() {
    assert_eq!(hash_state(0), HeadData::genesis().post_state);
}

#[test]
fn hash_state_gives_keccak_of_little_endian_bytes() {
    assert_eq!(hash_state(0), COMMIT_0);
    assert_eq!(hash_state(3), COMMIT_3);
    assert_eq!(hash_state(7), COMMIT_7);
    assert_eq!(hash_state(3), tiny_keccak::keccak256(&3u64.to_le_bytes()));
    assert_ne!(hash_state(5), hash_state(6));
}

#[test]
fn genesis_round_trip() {
    let g = HeadData::genesis();
    let bytes = g.encode();
    assert_eq!(bytes.len(), HEAD_ENCODED_LEN);
    assert_eq!(bytes.len(), 72);
    let mut expected = vec![0u8; 40];
    expected.extend_from_slice(&COMMIT_0);
    assert_eq!(bytes, expected);
    assert_eq!(HeadData::decode(&bytes), Ok(g));
}

#[test]
fn genesis_hash_is_stable() {
    let g = HeadData::genesis();
    assert_eq!(g.hash(), GENESIS_HASH);
    assert_eq!(g.hash(), g.hash());
    assert_eq!(g.hash(), tiny_keccak::keccak256(&g.encode()));
}

#[test]
fn head_encoding_is_exact() {
    let h = sample_head();
    let bytes = h.encode();
    assert_eq!(&bytes[0..8], &[8u8, 7, 6, 5, 4, 3, 2, 1]);
    assert_eq!(&bytes[8..40], &h.parent_hash[..]);
    assert_eq!(&bytes[40..72], &h.post_state[..]);
    assert_eq!(HeadData::decode(&bytes), Ok(h));
}

#[test]
fn head_encoding_agrees_with_scale_codec() {
    let h = sample_head();
    assert_eq!(h.encode(), (h.number, h.parent_hash, h.post_state).encode());
    let b = BlockData { state: 77, add: u64::MAX };
    assert_eq!(b.encode(), (b.state, b.add).encode());
}

#[test]
fn head_hash_differs_from_its_input() {
    let h = sample_head();
    let digest = h.hash();
    assert_ne!(&digest[..], &h.encode()[..32]);
    assert_ne!(digest, HeadData::genesis().hash());
}

#[test]
fn decode_refuses_short_input() {
    assert_eq!(HeadData::decode(&[]), Err(DecodeError::TooShort));
    assert_eq!(HeadData::decode(&[0u8; 71]), Err(DecodeError::TooShort));
    assert_eq!(BlockData::decode(&[0u8; 15]), Err(DecodeError::TooShort));
}

#[test]
fn decode_leaves_trailing_bytes_unread() {
    let h = sample_head();
    let mut bytes = h.encode();
    bytes.extend_from_slice(&[9, 9, 9]);
    assert_eq!(HeadData::decode(&bytes), Ok(h));
}

#[test]
fn block_encoding_is_exact() {
    let b = BlockData { state: 0x0102, add: 3 };
    let bytes = b.encode();
    assert_eq!(bytes.len(), BLOCK_ENCODED_LEN);
    assert_eq!(bytes, vec![2u8, 1, 0, 0, 0, 0, 0, 0, 3, 0, 0, 0, 0, 0, 0, 0]);
    assert_eq!(BlockData::decode(&bytes), Ok(b));
}

#[test]
fn digest_eq_compares_every_byte() {
    let a = [7u8; 32];
    let mut b = [7u8; 32];
    assert!(digest_eq(&a, &b));
    b[31] = 8;
    assert!(!digest_eq(&a, &b));
}

#[test]
fn heads_are_equal_when_all_fields_are() {
    let h = sample_head();
    let mut other = h;
    assert!(h == other);
    other.number += 1;
    assert!(h != other);
    other = h;
    other.parent_hash[0] ^= 1;
    assert!(h != other);
    other = h;
    other.post_state[31] ^= 1;
    assert!(h != other);
}

#[test]
fn execute_is_deterministic() {
    let g = HeadData::genesis();
    let body = BlockData { state: 0, add: 3 };
    let first = execute(g.hash(), g, &body);
    let second = execute(g.hash(), g, &body);
    assert_eq!(first, second);
    assert!(first.is_ok());
}

#[test]
fn execute_rejects_mismatched_state() {
    let parent = HeadData { number: 4, parent_hash: [1u8; 32], post_state: hash_state(5) };
    let body = BlockData { state: 6, add: 1 };
    assert_eq!(execute(parent.hash(), parent, &body), Err(StateMismatch));
    let fitting = BlockData { state: 5, add: 1 };
    assert!(execute(parent.hash(), parent, &fitting).is_ok());
}

#[test]
fn execute_extends_the_chain() {
    let g = HeadData::genesis();
    let first = execute(g.hash(), g, &BlockData { state: 0, add: 3 }).unwrap();
    assert_eq!(first.number, 1);
    assert_eq!(first.parent_hash, g.hash());
    assert_eq!(first.parent_hash, GENESIS_HASH);
    assert_eq!(first.post_state, hash_state(3));
    assert_eq!(first.post_state, COMMIT_3);
    let second = execute(first.hash(), first, &BlockData { state: 3, add: 4 }).unwrap();
    assert_eq!(second.number, 2);
    assert_eq!(second.parent_hash, first.hash());
    assert_eq!(second.post_state, hash_state(7));
    assert_eq!(second.post_state, COMMIT_7);
}

#[test]
fn execute_wraps_round_at_the_largest_state() {
    assert_eq!(BlockData { state: u64::MAX, add: 1 }.post_state(), 0);
    assert_eq!(BlockData { state: u64::MAX, add: 5 }.post_state(), 4);
    assert_eq!(BlockData { state: u64::MAX, add: u64::MAX }.post_state(), u64::MAX - 1);
    assert_eq!(BlockData { state: 10, add: 5 }.post_state(), 15);
    let parent = HeadData { number: 9, parent_hash: [0u8; 32], post_state: hash_state(u64::MAX) };
    let child = execute(parent.hash(), parent, &BlockData { state: u64::MAX, add: 1 }).unwrap();
    assert_eq!(child.number, 10);
    assert_eq!(child.post_state, COMMIT_0);
}

#[test]
fn seal_decides_on_the_commitments_given() {
    let parent = HeadData { number: 41, parent_hash: [3u8; 32], post_state: [5u8; 32] };
    let child = seal([9u8; 32], &parent, &[5u8; 32], [6u8; 32]);
    assert_eq!(child, Ok(HeadData { number: 42, parent_hash: [9u8; 32], post_state: [6u8; 32] }));
    assert_eq!(seal([9u8; 32], &parent, &[4u8; 32], [6u8; 32]), Err(StateMismatch));
}

#[test]
fn next_increment_is_the_number_modulo_one_hundred() {
    assert_eq!(next_increment(0), 0);
    assert_eq!(next_increment(99), 99);
    assert_eq!(next_increment(100), 0);
    assert_eq!(next_increment(12345), 45);
    assert_eq!(next_increment(u64::MAX), 15);
}

#[test]
fn next_body_starts_where_the_last_ended() {
    let parent = HeadData { number: 207, parent_hash: [0u8; 32], post_state: [0u8; 32] };
    assert_eq!(next_body(&BlockData { state: 10, add: 5 }, &parent), BlockData { state: 15, add: 7 });
    assert_eq!(
        next_body(&BlockData { state: u64::MAX, add: 2 }, &parent),
        BlockData { state: 1, add: 7 }
    );
}

#[test]
fn history_store_records_and_overwrites() {
    let mut store = HistoryStore::new();
    assert_eq!(store.len(), 0);
    let h = sample_head();
    assert_eq!(store.get(&h), None);
    assert!(!store.contains(&h));
    store.insert(h, BlockData { state: 1, add: 2 });
    assert_eq!(store.len(), 1);
    assert_eq!(store.get(&h), Some(BlockData { state: 1, add: 2 }));
    assert!(store.contains(&h));
    let g = HeadData::genesis();
    store.insert(g, BlockData { state: 8, add: 9 });
    assert_eq!(store.len(), 2);
    store.insert(h, BlockData { state: 3, add: 4 });
    assert_eq!(store.len(), 2);
    assert_eq!(store.get(&h), Some(BlockData { state: 3, add: 4 }));
    assert_eq!(store.get(&g), Some(BlockData { state: 8, add: 9 }));
}

#[test]
fn predecessor_of_genesis_is_the_fixed_body() {
    let mut store = HistoryStore::new();
    let g = HeadData::genesis();
    assert_eq!(find_predecessor(&store, &g), Some(BlockData { state: 0, add: 0 }));
    store.insert(g, BlockData { state: 8, add: 9 });
    assert_eq!(find_predecessor(&store, &g), Some(BlockData { state: 0, add: 0 }));
    let h = sample_head();
    assert_eq!(find_predecessor(&store, &h), None);
    store.insert(h, BlockData { state: 1, add: 2 });
    assert_eq!(find_predecessor(&store, &h), Some(BlockData { state: 1, add: 2 }));
}

#[test]
fn produce_candidate_extends_genesis() {
    let mut store = HistoryStore::new();
    let g = HeadData::genesis();
    let (body_bytes, head_bytes) = produce_candidate(&mut store, &g.encode()).unwrap();
    let body = BlockData::decode(&body_bytes).unwrap();
    let head = HeadData::decode(&head_bytes).unwrap();
    assert_eq!(body_bytes.len(), 16);
    assert_eq!(head_bytes.len(), 72);
    assert_eq!(body, BlockData { state: 0, add: 0 });
    assert_eq!(head.number, 1);
    assert_eq!(head.parent_hash, GENESIS_HASH);
    assert_eq!(head.post_state, COMMIT_0);
    assert_eq!(store.len(), 1);
    assert_eq!(store.get(&head), Some(body));
}

#[test]
fn produce_candidate_follows_the_chain() {
    let mut store = HistoryStore::new();
    let mut parent = HeadData::genesis();
    let mut state: u64 = 0;
    for step in 0..5u64 {
        let (body_bytes, head_bytes) = produce_candidate(&mut store, &parent.encode()).unwrap();
        let body = BlockData::decode(&body_bytes).unwrap();
        let head = HeadData::decode(&head_bytes).unwrap();
        assert_eq!(body, BlockData { state, add: step });
        state += step;
        assert_eq!(head.number, step + 1);
        assert_eq!(head.parent_hash, parent.hash());
        assert_eq!(head.post_state, hash_state(state));
        assert_eq!(store.get(&head), Some(body));
        parent = head;
    }
    assert_eq!(state, 10);
    assert_eq!(store.len(), 5);
}

#[test]
fn produce_candidate_refuses_malformed_bytes() {
    let mut store = HistoryStore::new();
    assert_eq!(produce_candidate(&mut store, &[]), Err(ProduceError::InvalidHead));
    assert_eq!(produce_candidate(&mut store, &[0u8; 71]), Err(ProduceError::InvalidHead));
    assert_eq!(store.len(), 0);
}

#[test]
fn produce_candidate_reports_an_unknown_parent() {
    let mut store = HistoryStore::new();
    let stranger = sample_head();
    assert_eq!(produce_candidate(&mut store, &stranger.encode()), Err(ProduceError::MissingHistory));
    assert_eq!(store.len(), 0);
    assert_eq!(store.get(&stranger), None);
    let mut almost_genesis = HeadData::genesis();
    almost_genesis.number = 1;
    assert_eq!(
        produce_candidate(&mut store, &almost_genesis.encode()),
        Err(ProduceError::MissingHistory)
    );
    assert_eq!(store.len(), 0);
}

#[test]
fn produce_candidate_refuses_a_parent_that_does_not_fit() {
    let mut store = HistoryStore::new();
    let parent = HeadData { number: 3, parent_hash: [1u8; 32], post_state: hash_state(5) };
    store.insert(parent, BlockData { state: 2, add: 4 });
    assert_eq!(produce_candidate(&mut store, &parent.encode()), Err(ProduceError::InvalidHead));
    assert_eq!(store.len(), 1);
    assert_eq!(store.get(&parent), Some(BlockData { state: 2, add: 4 }));
}

#[test]
fn produce_candidate_refuses_the_last_sequence_number() {
    let mut store = HistoryStore::new();
    let parent = HeadData { number: u64::MAX, parent_hash: [1u8; 32], post_state: hash_state(5) };
    store.insert(parent, BlockData { state: 2, add: 3 });
    assert_eq!(produce_candidate(&mut store, &parent.encode()), Err(ProduceError::InvalidHead));
    assert_eq!(store.len(), 1);
    let below = HeadData { number: u64::MAX - 1, parent_hash: [1u8; 32], post_state: hash_state(5) };
    store.insert(below, BlockData { state: 2, add: 3 });
    let (body_bytes, head_bytes) = produce_candidate(&mut store, &below.encode()).unwrap();
    assert_eq!(BlockData::decode(&body_bytes), Ok(BlockData { state: 5, add: 14 }));
    assert_eq!(HeadData::decode(&head_bytes).unwrap().number, u64::MAX);
}

#[test]
fn produce_candidate_on_two_recorded_parents() {
    let mut store = HistoryStore::new();
    let one = HeadData { number: 10, parent_hash: [1u8; 32], post_state: hash_state(30) };
    let two = HeadData { number: 20, parent_hash: [2u8; 32], post_state: hash_state(50) };
    store.insert(one, BlockData { state: 25, add: 5 });
    store.insert(two, BlockData { state: 48, add: 2 });
    let (body_one, head_one) = produce_candidate(&mut store, &one.encode()).unwrap();
    let (body_two, head_two) = produce_candidate(&mut store, &two.encode()).unwrap();
    let child_one = HeadData::decode(&head_one).unwrap();
    let child_two = HeadData::decode(&head_two).unwrap();
    assert_ne!(child_one, child_two);
    assert_eq!(child_one.number, 11);
    assert_eq!(child_one.parent_hash, one.hash());
    assert_eq!(child_one.post_state, hash_state(40));
    assert_eq!(BlockData::decode(&body_one), Ok(BlockData { state: 30, add: 10 }));
    assert_eq!(child_two.number, 21);
    assert_eq!(child_two.parent_hash, two.hash());
    assert_eq!(child_two.post_state, hash_state(70));
    assert_eq!(BlockData::decode(&body_two), Ok(BlockData { state: 50, add: 20 }));
    assert_eq!(store.len(), 4);
    assert_eq!(store.get(&child_one), Some(BlockData { state: 30, add: 10 }));
    assert_eq!(store.get(&child_two), Some(BlockData { state: 50, add: 20 }));
}

#[test]
fn produce_candidate_twice_on_one_parent_overwrites() {
    let mut store = HistoryStore::new();
    let g = HeadData::genesis();
    let first = produce_candidate(&mut store, &g.encode()).unwrap();
    let second = produce_candidate(&mut store, &g.encode()).unwrap();
    assert_eq!(first, second);
    assert_eq!(store.len(), 1);
}
