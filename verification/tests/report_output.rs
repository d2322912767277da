//! Report and presentation tests: participation arithmetic, the
//! deterministic ordering, the rendered text, and the topic queries.

use poa_ballot_stats::report::{participation_level, ParticipationLevel};
use poa_ballot_stats::stats::votes_per_thousand;
use poa_ballot_stats::{
    Address, BallotCreated, HexBytes, HexList, SignatureSchema, Stats, TopicChoice, U256,
    Validator, VoterSet,
};

fn addr(n: u32) -> Address {
    Address { hi: n, lo: n as u128 }
}

fn validator(first: &str, last: &str) -> Validator {
    Validator { first_name: first.to_string(), last_name: last.to_string() }
}

fn stats_with(entries: &[(Address, u64, u64)]) -> Stats {
    // Builds the requested eligibility/vote counts one ballot at a
    // time, then enriches every voter.
    let mut stats = Stats::new();
    let max_ballots = entries.iter().map(|e| e.1).max().unwrap_or(0);
    for round in 0..max_ballots {
        let eligible: Vec<Address> =
            entries.iter().filter(|e| round < e.1).map(|e| e.0).collect();
        let voted: Vec<Address> =
            entries.iter().filter(|e| round < e.2).map(|e| e.0).collect();
        let set = VoterSet::from_vec(&eligible);
        stats.add_ballot(&set, &voted);
    }
    stats
}

#[test]
fn participation_of_never_eligible_voter_is_full() {
    // No eligible ballots means fully compliant by convention, and
    // never a division error.
    assert_eq!(votes_per_thousand(0, 0), 1000);
    assert_eq!(votes_per_thousand(1, 2), 500);
    assert_eq!(votes_per_thousand(2, 3), 666);
    assert_eq!(votes_per_thousand(3, 3), 1000);
    assert_eq!(votes_per_thousand(0, 7), 0);
}

#[test]
fn report_line_text_is_exact() {
    let a = addr(1);
    let mut stats = stats_with(&[(a, 2, 1)]);
    assert!(stats.set_metadata(&a, addr(50), validator("Ada", "Lovelace")));
    let text = stats.to_text();
    let expected = format!(
        "        Missed  Voting key   Mining key   Name\n    1/2, 50.0%  {}  {}  Ada Lovelace\n",
        a.to_hex(),
        addr(50).to_hex(),
    );
    assert_eq!(text, expected);
}

#[test]
fn unenriched_voters_stay_out_of_the_report() {
    let a = addr(1);
    let b = addr(2);
    let mut stats = stats_with(&[(a, 1, 1), (b, 1, 0)]);
    assert!(stats.set_metadata(&a, addr(50), validator("Ada", "Lovelace")));
    let lines = stats.report_lines();
    assert_eq!(lines.len(), 1);
    assert_eq!(lines[0].voting_address, a);
    assert_eq!(lines[0].mining_key, addr(50));
    assert_eq!(lines[0].name, "Ada Lovelace");
}

#[test]
fn report_orders_by_participation_then_misses_then_address() {
    let low = addr(3);
    let mid = addr(2);
    let high = addr(1);
    let tie_a = addr(4);
    let tie_b = addr(5);
    let mut stats = stats_with(&[
        (high, 2, 2),   // 1000 per thousand
        (mid, 2, 1),    // 500 per thousand, one miss
        (low, 4, 1),    // 250 per thousand
        (tie_a, 2, 1),  // ties with mid on participation and misses
        (tie_b, 4, 2),  // 500 per thousand but two misses
    ]);
    for v in [low, mid, high, tie_a, tie_b] {
        assert!(stats.set_metadata(&v, addr(90 + v.hi), validator("V", "X")));
    }
    let order: Vec<Address> =
        stats.report_lines().iter().map(|l| l.voting_address).collect();
    assert_eq!(order, vec![low, mid, tie_a, tie_b, high]);
}

#[test]
fn identical_streams_render_identical_reports() {
    let build = || {
        let a = addr(1);
        let b = addr(2);
        let mut stats = stats_with(&[(a, 3, 1), (b, 2, 2)]);
        stats.set_metadata(&a, addr(50), validator("Ada", "Lovelace"));
        stats.set_metadata(&b, addr(51), validator("Alan", "Turing"));
        stats.to_text()
    };
    let first = build();
    let second = build();
    assert_eq!(first.into_bytes(), second.into_bytes());
}

#[test]
fn ballots_and_votes_accumulate_per_voter() {
    let a = addr(1);
    let b = addr(2);
    let stats = stats_with(&[(a, 5, 2), (b, 3, 3)]);
    assert_eq!(stats.ballots_eligible(&a), 5);
    assert_eq!(stats.ballots_voted(&a), 2);
    assert_eq!(stats.ballots_eligible(&b), 3);
    assert_eq!(stats.ballots_voted(&b), 3);
    assert_eq!(stats.ballots_eligible(&addr(9)), 0);
}

#[test]
fn hex_bytes_shorten_long_strings() {
    let bytes: Vec<u8> = vec![0x2b, 0x1d, 0xbc, 0x73, 0x90, 0xd1, 0xbf];
    assert_eq!(HexBytes(&bytes).to_text(), "0x2b1d…d1bf");
    let two: Vec<u8> = vec![0xab, 0xcd];
    assert_eq!(HexBytes(&two).to_text(), "0xabcd…abcd");
}

#[test]
fn hex_list_joins_with_commas() {
    let a = parse("0x2b1dbc7390a65dc40f7d64d67ea11b4d627dd1bf");
    let b = parse("0x1234bc7390a65dc40f7d64d67ea11b4d6277cafe");
    assert_eq!(HexList(vec![a]).to_text(), "0x2b1d…d1bf");
    assert_eq!(HexList(vec![a, b]).to_text(), "0x2b1d…d1bf, 0x1234…cafe");
    assert_eq!(HexList(Vec::new()).to_text(), "");
}

fn parse(s: &str) -> Address {
    poa_ballot_stats::parse_address(s).expect("test address")
}

#[test]
fn participation_levels_follow_the_thresholds() {
    assert_eq!(participation_level(0), ParticipationLevel::Low);
    assert_eq!(participation_level(500), ParticipationLevel::Low);
    assert_eq!(participation_level(501), ParticipationLevel::Medium);
    assert_eq!(participation_level(750), ParticipationLevel::Medium);
    assert_eq!(participation_level(751), ParticipationLevel::High);
    assert_eq!(participation_level(999), ParticipationLevel::High);
    assert_eq!(participation_level(1000), ParticipationLevel::Full);
}

#[test]
fn report_of_empty_statistics_is_the_header_alone() {
    let stats = Stats::new();
    assert_eq!(stats.to_text(), "        Missed  Voting key   Mining key   Name\n");
    assert!(stats.report_lines().is_empty());
}

#[test]
fn wide_ratio_columns_are_not_truncated() {
    let a = addr(1);
    let mut stats = stats_with(&[(a, 1234, 34)]);
    assert!(stats.set_metadata(&a, addr(50), validator("Ada", "Lovelace")));
    let text = stats.to_text();
    // 34 of 1234 voted: 27 per thousand, so 97.3 percent missed.
    let expected = format!(
        "        Missed  Voting key   Mining key   Name\n1200/1234, 97.3%  {}  {}  Ada Lovelace\n",
        a.to_hex(),
        addr(50).to_hex(),
    );
    assert_eq!(text, expected);
}

#[test]
fn topic_union_merges_and_collapses() {
    let w1 = U256::from_u64(1);
    let w2 = U256::from_u64(2);
    match TopicChoice::This(w1).or(TopicChoice::This(w1)) {
        TopicChoice::This(w) => assert_eq!(w, w1),
        _ => panic!("a union of one word stays a single word"),
    }
    match TopicChoice::This(w1).or(TopicChoice::This(w2)) {
        TopicChoice::OneOf(v) => assert_eq!(v, vec![w1, w2]),
        _ => panic!("two words make a list"),
    }
    match TopicChoice::OneOf(vec![w1, w2]).or(TopicChoice::OneOf(vec![w2, w1])) {
        TopicChoice::OneOf(v) => assert_eq!(v, vec![w1, w2]),
        _ => panic!("duplicates are dropped"),
    }
    assert!(matches!(TopicChoice::Any.or(TopicChoice::This(w1)), TopicChoice::Any));
    assert!(matches!(TopicChoice::This(w1).or(TopicChoice::Any), TopicChoice::Any));
}

#[test]
fn vote_topic_filter_names_both_generations() {
    let schema = SignatureSchema {
        key_change_v2: U256::from_u64(1),
        full_set_v2: U256::from_u64(2),
        ballot_v2: U256::from_u64(3),
        vote_v2: U256::from_u64(4),
        ballot_v1: U256::from_u64(5),
        vote_v1: U256::from_u64(6),
        pending_v1: U256::from_u64(7),
    };
    let ballot = BallotCreated {
        id: U256::from_u64(42),
        ballot_type: U256::from_u64(0),
        creator: addr(1),
    };
    let q = ballot.vote_topic_filter(&schema);
    match q.topic0 {
        TopicChoice::OneOf(v) => assert_eq!(v, vec![schema.vote_v2, schema.vote_v1]),
        _ => panic!("both vote signatures"),
    }
    match q.topic1 {
        TopicChoice::This(w) => assert_eq!(w, U256::from_u64(42)),
        _ => panic!("the ballot id"),
    }
    assert!(matches!(q.topic2, TopicChoice::Any));
    assert!(matches!(q.topic3, TopicChoice::Any));
}
