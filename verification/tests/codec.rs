//! Decoder-level tests: word extraction, address words, the strict
//! payload shapes, hexadecimal parsing, and the real signature hashes.

use poa_ballot_stats::events::{
    decode_ballot_created, decode_full_set, decode_key_change, decode_pending, decode_vote,
};
use poa_ballot_stats::{
    parse_address, Address, BallotCreated, Error, KeyAction, RawEvent, SignatureSchema, U256, Vote,
};

fn addr(n: u32) -> Address {
    Address { hi: n, lo: n as u128 }
}

fn push_word(data: &mut Vec<u8>, w: &U256) {
    data.extend_from_slice(&w.hi.to_be_bytes());
    data.extend_from_slice(&w.lo.to_be_bytes());
}

fn string_data(text: &[u8]) -> Vec<u8> {
    let mut data = Vec::new();
    push_word(&mut data, &U256::from_u64(32));
    push_word(&mut data, &U256::from_u64(text.len() as u64));
    let mut chunk = text.to_vec();
    while chunk.len() % 32 != 0 {
        chunk.push(0);
    }
    data.extend_from_slice(&chunk);
    data
}

#[test]
fn test_parse_address() {
    let addr_str = "0x2b1dbc7390a65dc40f7d64d67ea11b4d627dd1bf";
    let addr = parse_address(addr_str).expect("parse address with 0x");
    let addr2 = parse_address(&addr_str[2..]).expect("parse address without 0x");
    assert_eq!(addr, addr2);
    assert_eq!(addr_str, &addr.to_hex());
}

#[test]
fn parse_address_rejects_malformed_strings() {
    assert!(parse_address("").is_none());
    assert!(parse_address("0x").is_none());
    assert!(parse_address("0x2b1d").is_none());
    assert!(parse_address("0x2b1dbc7390a65dc40f7d64d67ea11b4d627dd1bg").is_none());
    assert!(parse_address("2b1dbc7390a65dc40f7d64d67ea11b4d627dd1bf00").is_none());
    let upper = parse_address("0x2B1DBC7390A65DC40F7D64D67EA11B4D627DD1BF").expect("upper case");
    assert_eq!(upper.to_hex(), "0x2b1dbc7390a65dc40f7d64d67ea11b4d627dd1bf");
}

#[test]
fn address_word_round_trip() {
    let a = parse_address("0x2b1dbc7390a65dc40f7d64d67ea11b4d627dd1bf").expect("parse");
    let w = a.to_word();
    assert_eq!(Address::of_word(&w), Some(a));
    let dirty = U256 { hi: w.hi | (1u128 << 100), lo: w.lo };
    assert_eq!(Address::of_word(&dirty), None);
}

#[test]
fn key_change_decodes_each_action() {
    let sig = U256::from_u64(500);
    let key = addr(9);
    let topics = vec![sig, key.to_word()];
    let added = decode_key_change(&topics, &string_data(b"added"), &sig);
    assert_eq!(added, Some((KeyAction::Add, key)));
    let removed = decode_key_change(&topics, &string_data(b"removed"), &sig);
    assert_eq!(removed, Some((KeyAction::Remove, key)));
    let other = decode_key_change(&topics, &string_data(b"rotated"), &sig);
    assert_eq!(other, Some((KeyAction::Unknown, key)));
}

#[test]
fn key_change_is_strict_about_shape() {
    let sig = U256::from_u64(500);
    let key = addr(9);
    let good = string_data(b"added");
    assert!(decode_key_change(&vec![sig], &good, &sig).is_none());
    assert!(decode_key_change(&vec![sig, key.to_word()], &good, &U256::from_u64(501)).is_none());
    let mut bad_offset = good.clone();
    bad_offset[31] = 64;
    assert!(decode_key_change(&vec![sig, key.to_word()], &bad_offset, &sig).is_none());
    let mut truncated = good.clone();
    truncated.pop();
    assert!(decode_key_change(&vec![sig, key.to_word()], &truncated, &sig).is_none());
}

#[test]
fn ballot_created_decodes_from_topics_alone() {
    let sig = U256::from_u64(600);
    let creator = addr(5);
    let topics = vec![sig, U256::from_u64(42), U256::from_u64(3), creator.to_word()];
    let b = decode_ballot_created(&topics, &Vec::new(), &sig).expect("decode");
    assert_eq!(b.id, U256::from_u64(42));
    assert_eq!(b.ballot_type, U256::from_u64(3));
    assert_eq!(b.creator, creator);
    assert!(decode_ballot_created(&topics, &vec![0u8; 32], &sig).is_none());
    let log = RawEvent {
        block_number: 1,
        timestamp: 2,
        address: addr(1),
        topics,
        data: Vec::new(),
    };
    assert_eq!(BallotCreated::from_log(&log, &sig).expect("from_log"), b);
    let err = BallotCreated::from_log(&log, &U256::from_u64(601)).expect_err("wrong signature");
    assert_eq!(err, Error::UnexpectedLogParams);
}

#[test]
fn vote_layouts_differ_by_generation() {
    let sig = U256::from_u64(700);
    let voter = addr(8);
    let topics = vec![sig, U256::from_u64(42), voter.to_word()];
    let mut v2_data = Vec::new();
    push_word(&mut v2_data, &U256::from_u64(1));
    push_word(&mut v2_data, &U256::from_u64(12_345));
    let v2 = decode_vote(&topics, &v2_data, &sig, false).expect("current layout");
    assert_eq!(v2.id, U256::from_u64(42));
    assert_eq!(v2.decision, U256::from_u64(1));
    assert_eq!(v2.voter, voter);
    assert_eq!(v2.time, U256::from_u64(12_345));
    // The legacy layout carries no timestamp.
    let mut v1_data = Vec::new();
    push_word(&mut v1_data, &U256::from_u64(1));
    assert!(decode_vote(&topics, &v1_data, &sig, false).is_none());
    let v1 = decode_vote(&topics, &v1_data, &sig, true).expect("legacy layout");
    assert_eq!(v1.time, U256::from_u64(0));
    let log = RawEvent {
        block_number: 1,
        timestamp: 2,
        address: addr(1),
        topics,
        data: v2_data,
    };
    assert_eq!(Vote::from_log(&log, &sig, false).expect("from_log"), v2);
    assert!(Vote::from_log(&log, &sig, true).is_err());
}

#[test]
fn address_arrays_decode_strictly() {
    let sig = U256::from_u64(800);
    let a = addr(1);
    let b = addr(2);
    let mut data = Vec::new();
    push_word(&mut data, &U256::from_u64(32));
    push_word(&mut data, &U256::from_u64(2));
    push_word(&mut data, &a.to_word());
    push_word(&mut data, &b.to_word());
    let list = decode_full_set(&vec![sig], &data, &sig).expect("decode");
    assert_eq!(list, vec![a, b]);
    // A count that disagrees with the payload length is refused.
    let mut bad_count = data.clone();
    bad_count[63] = 3;
    assert!(decode_full_set(&vec![sig], &bad_count, &sig).is_none());
    // An address word with set upper bytes is refused.
    let mut dirty = data.clone();
    dirty[64] = 1;
    assert!(decode_full_set(&vec![sig], &dirty, &sig).is_none());
    let parent = U256::from_u64(55);
    let (ph, candidates) =
        decode_pending(&vec![sig, parent], &data, &sig).expect("pending decode");
    assert_eq!(ph, parent);
    assert_eq!(candidates, vec![a, b]);
    assert!(decode_pending(&vec![sig], &data, &sig).is_none());
}

#[test]
fn empty_address_array_decodes() {
    let sig = U256::from_u64(800);
    let mut data = Vec::new();
    push_word(&mut data, &U256::from_u64(32));
    push_word(&mut data, &U256::from_u64(0));
    let list = decode_full_set(&vec![sig], &data, &sig).expect("decode");
    assert!(list.is_empty());
}

#[test]
fn real_signature_hashes_are_distinct_per_layout() {
    // Computed by the ABI library from the event declarations: the
    // two ballot declarations are identical on purpose and collide,
    // every other pair differs.
    let s = SignatureSchema::poa_default();
    assert_eq!(s.ballot_v1, s.ballot_v2);
    let sigs = [s.key_change_v2, s.full_set_v2, s.ballot_v2, s.vote_v2, s.vote_v1, s.pending_v1];
    for i in 0..sigs.len() {
        for j in 0..sigs.len() {
            if i != j {
                assert_ne!(sigs[i], sigs[j]);
            }
        }
    }
    assert_ne!(s.vote_v2, U256::from_u64(0));
}

#[test]
fn error_messages_name_the_failure() {
    assert_eq!(Error::UnexpectedLogParams.message(), "Unexpected parameter types in log");
    assert!(Error::NoEventsFound.message().contains("No events found"));
}
