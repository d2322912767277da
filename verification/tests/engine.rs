//! End-to-end scenarios for the replay engine: classification,
//! voter-set tracking, ballot tallying, and the error taxonomy.

use poa_ballot_stats::{
    Address, ContractAddresses, ContractV1V2Addresses, Counter, Error, RawEvent, SignatureSchema,
    Step, U256, Validator, Version, VoterSetTracker,
};

fn addr(n: u32) -> Address {
    Address { hi: n, lo: n as u128 }
}

fn sig(n: u64) -> U256 {
    U256::from_u64(9_000 + n)
}

fn schema() -> SignatureSchema {
    SignatureSchema {
        key_change_v2: sig(1),
        full_set_v2: sig(2),
        ballot_v2: sig(3),
        vote_v2: sig(4),
        ballot_v1: sig(5),
        vote_v1: sig(6),
        pending_v1: sig(7),
    }
}

fn registry() -> ContractAddresses {
    ContractAddresses {
        v1: ContractV1V2Addresses {
            metadata_address: addr(11),
            keys_manager_address: addr(12),
            voting_to_change_keys_address: addr(13),
            poa_address: addr(14),
        },
        v2: ContractV1V2Addresses {
            metadata_address: addr(21),
            keys_manager_address: addr(22),
            voting_to_change_keys_address: addr(23),
            poa_address: addr(24),
        },
    }
}

fn counter() -> Counter {
    Counter::new(registry(), schema())
}

fn push_word(data: &mut Vec<u8>, w: &U256) {
    data.extend_from_slice(&w.hi.to_be_bytes());
    data.extend_from_slice(&w.lo.to_be_bytes());
}

fn addr_array_data(members: &[Address]) -> Vec<u8> {
    let mut data = Vec::new();
    push_word(&mut data, &U256::from_u64(32));
    push_word(&mut data, &U256::from_u64(members.len() as u64));
    for m in members {
        push_word(&mut data, &m.to_word());
    }
    data
}

fn string_data(text: &[u8]) -> Vec<u8> {
    let mut data = Vec::new();
    push_word(&mut data, &U256::from_u64(32));
    push_word(&mut data, &U256::from_u64(text.len() as u64));
    let mut chunk = text.to_vec();
    while chunk.len() % 32 != 0 {
        chunk.push(0);
    }
    data.extend_from_slice(&chunk);
    data
}

fn key_change_event(from: Address, key: Address, action: &[u8], block: u64) -> RawEvent {
    RawEvent {
        block_number: block,
        timestamp: 1_000 + block,
        address: from,
        topics: vec![schema().key_change_v2, key.to_word()],
        data: string_data(action),
    }
}

fn full_set_event(from: Address, members: &[Address], block: u64) -> RawEvent {
    RawEvent {
        block_number: block,
        timestamp: 1_000 + block,
        address: from,
        topics: vec![schema().full_set_v2],
        data: addr_array_data(members),
    }
}

fn pending_event(from: Address, candidates: &[Address], block: u64) -> RawEvent {
    RawEvent {
        block_number: block,
        timestamp: 1_000 + block,
        address: from,
        topics: vec![schema().pending_v1, U256::from_u64(77)],
        data: addr_array_data(candidates),
    }
}

fn ballot_event(from: Address, ballot_sig: U256, id: u64, block: u64) -> RawEvent {
    RawEvent {
        block_number: block,
        timestamp: 1_000 + block,
        address: from,
        topics: vec![ballot_sig, U256::from_u64(id), U256::from_u64(0), addr(99).to_word()],
        data: Vec::new(),
    }
}

fn vote_event(from: Address, vote_sig: U256, id: u64, voter: Address, block: u64) -> RawEvent {
    let mut data = Vec::new();
    push_word(&mut data, &U256::from_u64(1));
    push_word(&mut data, &U256::from_u64(2_000 + block));
    RawEvent {
        block_number: block,
        timestamp: 1_000 + block,
        address: from,
        topics: vec![vote_sig, U256::from_u64(id), voter.to_word()],
        data,
    }
}

fn members_of(c: &Counter) -> Vec<Address> {
    c.tracker.set.as_vec().clone()
}

#[test]
fn key_change_add_then_remove_restores_set() {
    let mut c = counter();
    let keys_mgr = addr(22);
    let a = addr(1);
    let b = addr(2);
    let step = c
        .process_event(&key_change_event(keys_mgr, a, b"added", 1))
        .expect("add a");
    assert!(matches!(step, Step::Applied));
    let before = members_of(&c);
    c.process_event(&key_change_event(keys_mgr, b, b"added", 2))
        .expect("add b");
    c.process_event(&key_change_event(keys_mgr, b, b"removed", 3))
        .expect("remove b");
    assert_eq!(before, members_of(&c));
    assert_eq!(before, vec![a]);
}

#[test]
fn unknown_key_change_action_is_a_no_op() {
    let mut c = counter();
    let keys_mgr = addr(22);
    c.process_event(&key_change_event(keys_mgr, addr(1), b"added", 1))
        .expect("add");
    let before = members_of(&c);
    let step = c
        .process_event(&key_change_event(keys_mgr, addr(5), b"swapped", 2))
        .expect("unknown action");
    assert!(matches!(step, Step::UnknownKeyAction));
    assert_eq!(before, members_of(&c));
}

#[test]
fn remove_of_absent_key_is_a_no_op() {
    let mut c = counter();
    let keys_mgr = addr(22);
    c.process_event(&key_change_event(keys_mgr, addr(1), b"added", 1))
        .expect("add");
    c.process_event(&key_change_event(keys_mgr, addr(9), b"removed", 2))
        .expect("remove absent");
    assert_eq!(members_of(&c), vec![addr(1)]);
}

#[test]
fn continuously_present_voter_is_eligible_for_every_ballot() {
    let mut c = counter();
    let voting = addr(23);
    let a = addr(1);
    c.process_event(&key_change_event(addr(22), a, b"added", 1))
        .expect("add");
    for i in 0..3u64 {
        let step = c
            .process_event(&ballot_event(voting, sig(3), 10 + i, 2 + i))
            .expect("ballot");
        match step {
            Step::FetchVotes { id, version } => {
                assert!(matches!(version, Version::V2));
                c.tally_votes(&id, version, &Vec::new()).expect("tally");
            }
            other => panic!("expected a vote fetch, got {:?}", step_name(&other)),
        }
    }
    assert_eq!(c.stats.ballots_eligible(&a), 3);
    assert_eq!(c.stats.ballots_voted(&a), 0);
}

fn step_name(step: &Step) -> &'static str {
    match step {
        Step::Applied => "Applied",
        Step::UnknownKeyAction => "UnknownKeyAction",
        Step::Ignored => "Ignored",
        Step::SkippedOldBallot => "SkippedOldBallot",
        Step::FetchVotes { .. } => "FetchVotes",
        Step::ResolveKeys { .. } => "ResolveKeys",
    }
}

#[test]
fn duplicate_vote_counts_once() {
    let mut c = counter();
    let voting = addr(23);
    let a = addr(1);
    c.process_event(&key_change_event(addr(22), a, b"added", 1))
        .expect("add");
    let step = c
        .process_event(&ballot_event(voting, sig(3), 7, 2))
        .expect("ballot");
    match step {
        Step::FetchVotes { id, version } => {
            let votes = vec![
                vote_event(voting, sig(4), 7, a, 3),
                vote_event(voting, sig(4), 7, a, 4),
            ];
            c.tally_votes(&id, version, &votes).expect("tally");
        }
        _ => panic!("expected a vote fetch"),
    }
    assert_eq!(c.stats.ballots_voted(&a), 1);
    assert_eq!(c.stats.ballots_eligible(&a), 1);
}

#[test]
fn full_set_ballot_and_vote_scenario() {
    // Stream: FullSetReplace{A,B}, BallotCreated{id=1}, Vote{1,A}.
    let mut c = counter();
    let a = addr(1);
    let b = addr(2);
    let step = c
        .process_event(&full_set_event(addr(24), &[a, b], 1))
        .expect("full set");
    assert!(matches!(step, Step::Applied));
    assert_eq!(members_of(&c), vec![a, b]);
    let step = c
        .process_event(&ballot_event(addr(23), sig(3), 1, 2))
        .expect("ballot");
    match step {
        Step::FetchVotes { id, version } => {
            let votes = vec![vote_event(addr(23), sig(4), 1, a, 3)];
            c.tally_votes(&id, version, &votes).expect("tally");
        }
        _ => panic!("expected a vote fetch"),
    }
    assert_eq!(c.stats.ballots_eligible(&a), 1);
    assert_eq!(c.stats.ballots_voted(&a), 1);
    assert_eq!(c.stats.ballots_eligible(&b), 1);
    assert_eq!(c.stats.ballots_voted(&b), 0);
}

#[test]
fn untracked_voter_is_folded_into_the_set() {
    // Voter C, untracked, votes on ballot 2: C is inserted and counted,
    // and the tracked voter B is eligible for the ballot too.
    let mut c = counter();
    let b = addr(2);
    let cv = addr(3);
    c.process_event(&full_set_event(addr(24), &[b], 1))
        .expect("full set");
    let step = c
        .process_event(&ballot_event(addr(23), sig(3), 2, 2))
        .expect("ballot");
    match step {
        Step::FetchVotes { id, version } => {
            let votes = vec![vote_event(addr(23), sig(4), 2, cv, 3)];
            let details = c.tally_votes(&id, version, &votes).expect("tally");
            assert_eq!(details.unexpected.as_vec().clone(), vec![cv]);
            assert_eq!(details.missed.as_vec().clone(), vec![b]);
            assert_eq!(details.expected.as_vec().clone(), Vec::<Address>::new());
        }
        _ => panic!("expected a vote fetch"),
    }
    assert!(members_of(&c).contains(&cv));
    assert_eq!(c.stats.ballots_eligible(&cv), 1);
    assert_eq!(c.stats.ballots_voted(&cv), 1);
    assert_eq!(c.stats.ballots_eligible(&b), 1);
    assert_eq!(c.stats.ballots_voted(&b), 0);
}

#[test]
fn well_formed_event_from_unregistered_address_is_dropped() {
    // Decodes fine under the newest schema, but the emitter is not in
    // the registry: no state mutation and no error.
    let mut c = counter();
    let stranger = addr(77);
    let step = c
        .process_event(&key_change_event(stranger, addr(1), b"added", 1))
        .expect("dropped, not an error");
    assert!(matches!(step, Step::Ignored));
    assert!(members_of(&c).is_empty());
    assert!(c.finish().is_err());
}

#[test]
fn unrecognized_event_is_fatal() {
    let mut c = counter();
    let raw = RawEvent {
        block_number: 1,
        timestamp: 1,
        address: addr(23),
        topics: vec![U256::from_u64(4_242)],
        data: Vec::new(),
    };
    let err = c.process_event(&raw).expect_err("no decoder takes this");
    assert_eq!(err, Error::UnexpectedLogParams);
}

#[test]
fn empty_stream_reports_no_events_found() {
    let c = counter();
    assert_eq!(c.finish().expect_err("nothing seen"), Error::NoEventsFound);
    let mut c2 = counter();
    c2.process_event(&key_change_event(addr(22), addr(1), b"added", 1))
        .expect("add");
    assert!(c2.finish().is_ok());
}

#[test]
fn colliding_ballot_signature_is_disambiguated_by_address() {
    // Both generations declare ballot creation identically, so give
    // them the same signature; the emitting address decides.
    let mut s = schema();
    s.ballot_v1 = s.ballot_v2;
    let mut c = Counter::new(registry(), s);
    let step = c
        .process_event(&ballot_event(addr(13), s.ballot_v2, 4, 2))
        .expect("legacy ballot");
    match step {
        Step::FetchVotes { version, .. } => assert!(matches!(version, Version::V1)),
        _ => panic!("expected a vote fetch"),
    }
    let step = c
        .process_event(&ballot_event(addr(23), s.ballot_v2, 5, 3))
        .expect("current ballot");
    match step {
        Step::FetchVotes { version, .. } => assert!(matches!(version, Version::V2)),
        _ => panic!("expected a vote fetch"),
    }
}

#[test]
fn cross_version_votes_do_not_leak() {
    let mut c = counter();
    let a = addr(1);
    c.process_event(&full_set_event(addr(24), &[a], 1))
        .expect("full set");
    let step = c
        .process_event(&ballot_event(addr(23), sig(3), 6, 2))
        .expect("ballot");
    match step {
        Step::FetchVotes { id, version } => {
            // A matching vote from the legacy voting instance must not
            // count for a current-generation ballot.
            let votes = vec![vote_event(addr(13), sig(4), 6, a, 3)];
            c.tally_votes(&id, version, &votes).expect("tally");
        }
        _ => panic!("expected a vote fetch"),
    }
    assert_eq!(c.stats.ballots_voted(&a), 0);
    assert_eq!(c.stats.ballots_eligible(&a), 1);
}

#[test]
fn votes_for_another_ballot_are_ignored() {
    let mut c = counter();
    let a = addr(1);
    c.process_event(&full_set_event(addr(24), &[a], 1))
        .expect("full set");
    let step = c
        .process_event(&ballot_event(addr(23), sig(3), 6, 2))
        .expect("ballot");
    match step {
        Step::FetchVotes { id, version } => {
            let votes = vec![vote_event(addr(23), sig(4), 8, a, 3)];
            c.tally_votes(&id, version, &votes).expect("tally");
        }
        _ => panic!("expected a vote fetch"),
    }
    assert_eq!(c.stats.ballots_voted(&a), 0);
}

#[test]
fn old_ballots_are_skipped() {
    let mut c = counter();
    c.set_start_block(100);
    let step = c
        .process_event(&ballot_event(addr(23), sig(3), 1, 5))
        .expect("too old by number");
    assert!(matches!(step, Step::SkippedOldBallot));
    let mut c2 = counter();
    c2.set_start_time(5_000);
    let step = c2
        .process_event(&ballot_event(addr(23), sig(3), 1, 5))
        .expect("too old by time");
    assert!(matches!(step, Step::SkippedOldBallot));
    assert!(c2.finish().is_ok(), "a skipped ballot still counts as a seen event");
}

#[test]
fn pending_set_is_resolved_one_event_late() {
    let mut c = counter();
    let poa_v1 = addr(14);
    let a = addr(1);
    let b = addr(2);
    let step = c
        .process_event(&pending_event(poa_v1, &[a, b], 1))
        .expect("first pending");
    assert!(matches!(step, Step::Applied));
    let step = c
        .process_event(&pending_event(poa_v1, &[addr(3)], 2))
        .expect("second pending");
    match step {
        Step::ResolveKeys { candidates } => {
            assert_eq!(candidates, vec![a, b]);
            // The caller resolves each candidate; one lookup failed
            // and returned the zero address, which is dropped.
            let resolved = vec![addr(8), Address { hi: 0, lo: 0 }];
            c.tracker.commit_resolved(&resolved);
        }
        _ => panic!("expected a resolution request"),
    }
    assert_eq!(members_of(&c), vec![addr(8)]);
}

#[test]
fn full_set_replace_deduplicates() {
    let mut c = counter();
    let a = addr(1);
    let b = addr(2);
    c.process_event(&full_set_event(addr(24), &[b, a, b], 1))
        .expect("full set");
    assert_eq!(members_of(&c), vec![a, b]);
}

#[test]
fn set_metadata_requires_a_tracked_entry() {
    let mut c = counter();
    let a = addr(1);
    assert!(!c.stats.set_metadata(
        &a,
        addr(50),
        Validator { first_name: "Ada".to_string(), last_name: "Lovelace".to_string() },
    ));
    c.process_event(&full_set_event(addr(24), &[a], 1))
        .expect("full set");
    let step = c
        .process_event(&ballot_event(addr(23), sig(3), 1, 2))
        .expect("ballot");
    if let Step::FetchVotes { id, version } = step {
        c.tally_votes(&id, version, &Vec::new()).expect("tally");
    }
    assert!(c.stats.set_metadata(
        &a,
        addr(50),
        Validator { first_name: "Ada".to_string(), last_name: "Lovelace".to_string() },
    ));
}

#[test]
fn enrichment_failures_are_non_fatal_and_record_nothing() {
    let mut c = counter();
    let a = addr(1);
    c.process_event(&full_set_event(addr(24), &[a], 1))
        .expect("full set");
    if let Step::FetchVotes { id, version } =
        c.process_event(&ballot_event(addr(23), sig(3), 1, 2)).expect("ballot")
    {
        c.tally_votes(&id, version, &Vec::new()).expect("tally");
    }
    let ada = || Validator { first_name: "Ada".to_string(), last_name: "Lovelace".to_string() };
    // A failed lookup, a zero mining key, and a missing identity all
    // leave the voter in the statistics, just without a report line.
    assert!(!c.enrich(&a, None, None));
    assert!(!c.enrich(&a, Some(Address { hi: 0, lo: 0 }), Some(ada())));
    assert!(!c.enrich(&a, Some(addr(50)), None));
    assert_eq!(c.stats.ballots_eligible(&a), 1);
    assert_eq!(c.stats.report_lines().len(), 0);
    // A resolved key and identity are recorded.
    assert!(c.enrich(&a, Some(addr(50)), Some(ada())));
    assert_eq!(c.stats.report_lines().len(), 1);
    // An untracked voter gets nothing recorded.
    assert!(!c.enrich(&addr(9), Some(addr(51)), Some(ada())));
}

#[test]
fn tally_rejects_undecodable_vote_from_own_instance() {
    let mut c = counter();
    c.process_event(&full_set_event(addr(24), &[addr(1)], 1))
        .expect("full set");
    let step = c
        .process_event(&ballot_event(addr(23), sig(3), 1, 2))
        .expect("ballot");
    match step {
        Step::FetchVotes { id, version } => {
            let bad = RawEvent {
                block_number: 3,
                timestamp: 1_003,
                address: addr(23),
                topics: vec![U256::from_u64(1)],
                data: Vec::new(),
            };
            let err = c
                .tally_votes(&id, version, &vec![bad])
                .expect_err("a voting-instance record that is no vote");
            assert_eq!(err, Error::UnexpectedLogParams);
        }
        _ => panic!("expected a vote fetch"),
    }
}

#[test]
fn replay_works_under_the_real_signature_hashes() {
    // The same scenario end to end, with the signatures the ABI
    // library computes from the real event declarations.
    let s = SignatureSchema::poa_default();
    let mut c = Counter::new(registry(), s);
    let a = addr(1);
    let b = addr(2);
    let full_set = RawEvent {
        block_number: 1,
        timestamp: 1_001,
        address: addr(24),
        topics: vec![s.full_set_v2],
        data: addr_array_data(&[a, b]),
    };
    c.process_event(&full_set).expect("full set");
    let ballot = RawEvent {
        block_number: 2,
        timestamp: 1_002,
        address: addr(23),
        topics: vec![s.ballot_v2, U256::from_u64(1), U256::from_u64(0), addr(99).to_word()],
        data: Vec::new(),
    };
    match c.process_event(&ballot).expect("ballot") {
        Step::FetchVotes { id, version } => {
            assert!(matches!(version, Version::V2));
            let mut data = Vec::new();
            push_word(&mut data, &U256::from_u64(1));
            push_word(&mut data, &U256::from_u64(3_000));
            let vote = RawEvent {
                block_number: 3,
                timestamp: 1_003,
                address: addr(23),
                topics: vec![s.vote_v2, U256::from_u64(1), a.to_word()],
                data,
            };
            c.tally_votes(&id, version, &vec![vote]).expect("tally");
        }
        _ => panic!("expected a vote fetch"),
    }
    assert_eq!(c.stats.ballots_eligible(&a), 1);
    assert_eq!(c.stats.ballots_voted(&a), 1);
    assert_eq!(c.stats.ballots_eligible(&b), 1);
    assert_eq!(c.stats.ballots_voted(&b), 0);
    assert!(c.finish().is_ok());
}

#[test]
fn staleness_is_an_hour_behind_now() {
    assert_eq!(poa_ballot_stats::counter::MAX_BLOCK_AGE, 3600);
    assert!(!poa_ballot_stats::counter::is_stale(10_000, 13_600));
    assert!(poa_ballot_stats::counter::is_stale(10_000, 13_601));
    assert!(!poa_ballot_stats::counter::is_stale(u64::MAX, u64::MAX));
    assert!(!poa_ballot_stats::counter::is_stale(0, 0));
}

#[test]
fn tracker_starts_empty() {
    let t = VoterSetTracker::new();
    assert_eq!(t.set.len(), 0);
    assert!(t.pending.is_none());
}

#[test]
fn key_action_decoding_reaches_the_tracker() {
    let mut c = counter();
    let keys_mgr = addr(22);
    c.process_event(&key_change_event(keys_mgr, addr(4), b"added", 1))
        .expect("add");
    c.process_event(&key_change_event(keys_mgr, addr(6), b"added", 2))
        .expect("add");
    c.process_event(&key_change_event(keys_mgr, addr(5), b"added", 3))
        .expect("add");
    // Deterministic ascending order, whatever the insertion order.
    assert_eq!(members_of(&c), vec![addr(4), addr(5), addr(6)]);
}
