//! The accumulating map from voting key to per-voter statistics.

use vstd::prelude::*;

use crate::addr::{addr_lt, lemma_addr_order_total, lemma_addr_order_trans, Address};
use crate::tracker::VoterSet;

verus! {

/// Durable identity of a participant, resolved during enrichment.
#[derive(Clone, Debug)]
pub struct Validator {
    pub first_name: String,
    pub last_name: String,
}

/// The count of ballots and cast votes, as well as metadata, for one voter.
#[derive(Clone, Debug)]
pub struct VoterStats {
    /// The number of ballots where this voter had a right to vote.
    pub ballots: u64,
    /// The number of votes cast by this voter.
    pub voted: u64,
    /// The validator metadata, if enrichment resolved it.
    pub validator: Option<Validator>,
    /// The mining key, if enrichment resolved it.
    pub mining_key: Option<Address>,
}

/// The statistics of a voter that no ballot has touched yet.
pub open spec fn empty_stat() -> VoterStats {
    VoterStats { ballots: 0, voted: 0, validator: None, mining_key: None }
}

/// Saturating increment: the counters never wrap around.
pub open spec fn bump(c: u64) -> u64 {
    if c == u64::MAX {
        c
    } else {
        (c + 1) as u64
    }
}

/// How one ballot changes one voter's statistics: an eligible voter's
/// ballot count rises by one, and their vote count too if they voted;
/// anyone else is untouched. Metadata never changes here.
pub open spec fn spec_after_ballot(st: VoterStats, eligible: bool, voted: bool) -> VoterStats {
    if eligible {
        VoterStats {
            ballots: bump(st.ballots),
            voted: if voted {
                bump(st.voted)
            } else {
                st.voted
            },
            ..st
        }
    } else {
        st
    }
}

/// The statistics recorded for `a`, reading absence as the empty record.
pub open spec fn stat_of(s: Seq<(Address, VoterStats)>, a: Address) -> VoterStats
    decreases s.len(),
{
    if s.len() == 0 {
        empty_stat()
    } else if s[0].0 == a {
        s[0].1
    } else {
        stat_of(s.drop_first(), a)
    }
}

/// Whether an entry for `a` exists at all.
pub open spec fn has_entry(s: Seq<(Address, VoterStats)>, a: Address) -> bool {
    exists|i: int| 0 <= i < s.len() && s[i].0 == a
}

/// Entry keys in strictly ascending order.
pub open spec fn keys_sorted(s: Seq<(Address, VoterStats)>) -> bool {
    forall|i: int, j: int| 0 <= i < j < s.len() ==> addr_lt(s[i].0, s[j].0)
}

/// Every record obeys the voter-statistics invariant: one cannot have
/// cast more votes than there were ballots to vote on.
pub open spec fn counts_bounded(s: Seq<(Address, VoterStats)>) -> bool {
    forall|i: int| 0 <= i < s.len() ==> (#[trigger] s[i]).1.voted <= s[i].1.ballots
}

/// Participation in votes per thousand ballots. A voter that was
/// never eligible is fully compliant by convention: a thousand per
/// thousand, never a division by zero.
pub open spec fn spec_participation(voted: u64, ballots: u64) -> int {
    if ballots == 0 {
        1000
    } else {
        (voted * 1000) / (ballots as int)
    }
}

/// Computes a voter's participation in votes per thousand.
pub fn votes_per_thousand(voted: u64, ballots: u64) -> (r: u64)
    requires
        voted <= ballots,
    ensures
        r == spec_participation(voted, ballots),
        r <= 1000,
        ballots == 0 ==> r == 1000,
{
    if ballots == 0 {
        1000
    } else {
        proof {
            assert((voted * 1000) <= (ballots * 1000));
            vstd::arithmetic::div_mod::lemma_div_is_ordered(
                voted * 1000,
                ballots * 1000,
                ballots as int,
            );
            vstd::arithmetic::div_mod::lemma_div_by_multiple(1000, ballots as int);
        }
        ((voted as u128) * 1000 / (ballots as u128)) as u64
    }
}

/// One voter's statistics after a run of consecutive ballots, each
/// given as the pair (was eligible, did vote), applied oldest first.
pub open spec fn spec_stat_after_ballots(st: VoterStats, flags: Seq<(bool, bool)>) -> VoterStats
    decreases flags.len(),
{
    if flags.len() == 0 {
        st
    } else {
        spec_after_ballot(
            spec_stat_after_ballots(st, flags.drop_last()),
            flags.last().0,
            flags.last().1,
        )
    }
}

/// Law: a voter continuously present across N ballots is counted
/// eligible for exactly N of them — each ballot adds exactly one to
/// their ballot count, as long as the counter cannot saturate.
pub proof fn lemma_continuous_eligibility(st: VoterStats, flags: Seq<(bool, bool)>)
    requires
        forall|i: int| 0 <= i < flags.len() ==> (#[trigger] flags[i]).0,
        st.ballots + flags.len() <= u64::MAX,
    ensures
        spec_stat_after_ballots(st, flags).ballots == st.ballots + flags.len(),
    decreases flags.len(),
{
    if flags.len() > 0 {
        assert(forall|i: int|
            0 <= i < flags.drop_last().len() ==> (#[trigger] flags.drop_last()[i]).0);
        lemma_continuous_eligibility(st, flags.drop_last());
        assert(flags.last().0);
    }
}

/// Law, from a fresh voter: continuously present across N ballots
/// means `ballots_eligible` is exactly N.
pub proof fn lemma_fresh_voter_eligibility(flags: Seq<(bool, bool)>)
    requires
        forall|i: int| 0 <= i < flags.len() ==> (#[trigger] flags[i]).0,
        flags.len() <= u64::MAX,
    ensures
        spec_stat_after_ballots(empty_stat(), flags).ballots == flags.len(),
{
    lemma_continuous_eligibility(empty_stat(), flags);
}

/// Law: replaying an identical (ballot, voter) vote twice changes
/// nothing — the votes of one ballot count as a set, so the vote count
/// rises by exactly one, not two.
pub proof fn lemma_duplicate_vote_counts_once(st: VoterStats, votes: Seq<Address>, x: Address)
    requires
        votes.contains(x),
        st.voted < u64::MAX,
    ensures
        forall|y: Address| votes.push(x).contains(y) <==> votes.contains(y),
        spec_after_ballot(st, true, votes.push(x).contains(x)).voted == st.voted + 1,
{
    assert forall|y: Address| votes.push(x).contains(y) implies votes.contains(y) by {
        let j = choose|j: int| 0 <= j < votes.push(x).len() && votes.push(x)[j] == y;
        if j < votes.len() {
            assert(votes[j] == y);
        }
    }
    assert forall|y: Address| votes.contains(y) implies votes.push(x).contains(y) by {
        let j = choose|j: int| 0 <= j < votes.len() && votes[j] == y;
        assert(votes.push(x)[j] == y);
    }
    assert(votes.push(x)[votes.len() as int] == x);
}

/// A map of vote counts and metadata, by voting key, kept as a vector
/// of entries strictly sorted by key so that iteration order — and with
/// it every report derived from it — is deterministic.
pub struct Stats {
    entries: Vec<(Address, VoterStats)>,
}

impl View for Stats {
    type V = Seq<(Address, VoterStats)>;

    closed spec fn view(&self) -> Seq<(Address, VoterStats)> {
        self.entries@
    }
}

proof fn lemma_stat_of_absent(s: Seq<(Address, VoterStats)>, a: Address)
    requires
        !has_entry(s, a),
    ensures
        stat_of(s, a) == empty_stat(),
    decreases s.len(),
{
    if s.len() > 0 {
        assert(s[0].0 != a);
        assert(forall|i: int|
            0 <= i < s.drop_first().len() ==> s.drop_first()[i] == s[i + 1]);
        lemma_stat_of_absent(s.drop_first(), a);
    }
}

proof fn lemma_stat_of_first(s: Seq<(Address, VoterStats)>, k: int, a: Address)
    requires
        0 <= k < s.len(),
        s[k].0 == a,
        forall|m: int| 0 <= m < k ==> s[m].0 != a,
    ensures
        stat_of(s, a) == s[k].1,
    decreases k,
{
    if k > 0 {
        assert(s[0].0 != a);
        lemma_stat_of_first(s.drop_first(), k - 1, a);
        assert(s.drop_first()[k - 1] == s[k]);
    }
}

/// With strictly sorted keys, an entry's position is its first (only)
/// occurrence, so `stat_of` reads exactly that entry.
proof fn lemma_stat_of_at(s: Seq<(Address, VoterStats)>, k: int)
    requires
        keys_sorted(s),
        0 <= k < s.len(),
    ensures
        stat_of(s, s[k].0) == s[k].1,
{
    assert forall|m: int| 0 <= m < k implies s[m].0 != s[k].0 by {
        assert(addr_lt(s[m].0, s[k].0));
    }
    lemma_stat_of_first(s, k, s[k].0);
}

/// Two well-formed statistics maps that record the same entries and
/// the same numbers for every voter are identical: the sorted-by-key
/// representation is canonical.
pub proof fn lemma_stats_canonical(x: Seq<(Address, VoterStats)>, y: Seq<(Address, VoterStats)>)
    requires
        keys_sorted(x),
        keys_sorted(y),
        forall|a: Address| has_entry(x, a) <==> has_entry(y, a),
        forall|a: Address| stat_of(x, a) == stat_of(y, a),
    ensures
        x == y,
    decreases x.len(),
{
    if x.len() == 0 {
        if y.len() > 0 {
            assert(has_entry(y, y[0].0));
            assert(x =~= y);
        } else {
            assert(x =~= y);
        }
    } else if y.len() == 0 {
        assert(has_entry(x, x[0].0));
        assert(x =~= y);
    } else {
        assert(has_entry(x, x[0].0));
        assert(has_entry(y, y[0].0));
        let i = choose|i: int| 0 <= i < x.len() && x[i].0 == y[0].0;
        let j = choose|j: int| 0 <= j < y.len() && y[j].0 == x[0].0;
        assert(x[0].0 == y[0].0) by {
            if i > 0 {
                assert(addr_lt(x[0].0, x[i].0));
            }
            if j > 0 {
                assert(addr_lt(y[0].0, y[j].0));
            }
            lemma_addr_order_total(x[0].0, y[0].0);
        }
        assert(x[0].1 == y[0].1) by {
            lemma_stat_of_at(x, 0);
            lemma_stat_of_at(y, 0);
        }
        let xt = x.drop_first();
        let yt = y.drop_first();
        assert(forall|k: int| 0 <= k < xt.len() ==> xt[k] == x[k + 1]);
        assert(forall|k: int| 0 <= k < yt.len() ==> yt[k] == y[k + 1]);
        assert(keys_sorted(xt));
        assert(keys_sorted(yt));
        assert forall|a: Address| has_entry(xt, a) implies has_entry(yt, a) by {
            let k = choose|k: int| 0 <= k < xt.len() && xt[k].0 == a;
            assert(x[k + 1].0 == a);
            assert(addr_lt(x[0].0, a));
            assert(has_entry(x, a));
            let m = choose|m: int| 0 <= m < y.len() && y[m].0 == a;
            assert(m != 0);
            assert(yt[m - 1].0 == a);
        }
        assert forall|a: Address| has_entry(yt, a) implies has_entry(xt, a) by {
            let k = choose|k: int| 0 <= k < yt.len() && yt[k].0 == a;
            assert(y[k + 1].0 == a);
            assert(addr_lt(y[0].0, a));
            assert(has_entry(y, a));
            let m = choose|m: int| 0 <= m < x.len() && x[m].0 == a;
            assert(m != 0);
            assert(xt[m - 1].0 == a);
        }
        assert forall|a: Address| stat_of(xt, a) == stat_of(yt, a) by {
            if a == x[0].0 {
                // Dropped in both tails: either both still have an
                // entry further on (impossible: keys are strict) or
                // both read the empty record.
                assert(!has_entry(xt, a)) by {
                    if has_entry(xt, a) {
                        let k = choose|k: int| 0 <= k < xt.len() && xt[k].0 == a;
                        assert(addr_lt(x[0].0, x[k + 1].0));
                    }
                }
                assert(!has_entry(yt, a));
                lemma_stat_of_absent(xt, a);
                lemma_stat_of_absent(yt, a);
            } else {
                assert(stat_of(x, a) == stat_of(xt, a));
                assert(stat_of(y, a) == stat_of(yt, a));
            }
        }
        lemma_stats_canonical(xt, yt);
        assert(x =~= seq![x[0]] + xt);
        assert(y =~= seq![y[0]] + yt);
        assert(x =~= y);
    }
}

impl Stats {
    /// Well-formedness: sorted unique keys, and sane counters.
    pub open spec fn inv(&self) -> bool {
        keys_sorted(self@) && counts_bounded(self@)
    }

    pub fn new() -> (r: Stats)
        ensures
            r.inv(),
            r@ =~= Seq::<(Address, VoterStats)>::empty(),
    {
        Stats { entries: Vec::new() }
    }

    /// The entries in ascending key order, for reporting and display.
    pub fn entries(&self) -> (v: &Vec<(Address, VoterStats)>)
        ensures
            v@ == self@,
    {
        &self.entries
    }

    /// The number of ballots `voter` was entitled to vote on.
    pub fn ballots_eligible(&self, voter: &Address) -> (n: u64)
        requires
            self.inv(),
        ensures
            n == stat_of(self@, *voter).ballots,
    {
        match self.find(voter) {
            Some(k) => self.entries[k].1.ballots,
            None => 0,
        }
    }

    /// The number of votes `voter` actually cast.
    pub fn ballots_voted(&self, voter: &Address) -> (n: u64)
        requires
            self.inv(),
        ensures
            n == stat_of(self@, *voter).voted,
    {
        match self.find(voter) {
            Some(k) => self.entries[k].1.voted,
            None => 0,
        }
    }

    /// Records one ballot for the single voter `v`: their ballot count
    /// rises by one, and their vote count too if `voted_flag` is set.
    /// Creates the entry if `v` had none yet.
    fn bump_entry(&mut self, v: Address, voted_flag: bool)
        requires
            old(self).inv(),
        ensures
            final(self).inv(),
            forall|a: Address|
                a != v ==> stat_of(final(self)@, a) == stat_of(old(self)@, a),
            stat_of(final(self)@, v) == spec_after_ballot(stat_of(old(self)@, v), true, voted_flag),
            forall|a: Address| has_entry(final(self)@, a) <==> has_entry(old(self)@, a) || a == v,
    {
        let n: usize = self.entries.len();
        let mut pos: usize = 0;
        while pos < n && self.entries[pos].0.less_than(&v)
            invariant
                pos <= n,
                n == self@.len(),
                self@ == old(self)@,
                forall|k: int| 0 <= k < pos ==> addr_lt(self@[k].0, v),
            decreases n - pos,
        {
            pos = pos + 1;
        }
        let ghost o = self@;
        if pos < n && self.entries[pos].0.hi == v.hi && self.entries[pos].0.lo == v.lo {
            // The voter already has an entry: rewrite it in place.
            let e = self.entries.remove(pos);
            let nb: u64 = if e.1.ballots == u64::MAX {
                e.1.ballots
            } else {
                e.1.ballots + 1
            };
            let nv: u64 = if voted_flag {
                if e.1.voted == u64::MAX {
                    e.1.voted
                } else {
                    e.1.voted + 1
                }
            } else {
                e.1.voted
            };
            let st = VoterStats {
                ballots: nb,
                voted: nv,
                validator: e.1.validator,
                mining_key: e.1.mining_key,
            };
            self.entries.insert(pos, (e.0, st));
            proof {
                let s = self@;
                assert(s =~= o.update(pos as int, (e.0, st)));
                assert(forall|i: int| 0 <= i < s.len() ==> s[i].0 == o[i].0);
                assert(o[pos as int].0 == v);
                assert(keys_sorted(s));
                assert(counts_bounded(s)) by {
                    assert(forall|i: int|
                        0 <= i < s.len() && i != pos ==> s[i] == o[i]);
                }
                assert(stat_of(s, v) == st) by {
                    assert(forall|m: int| 0 <= m < pos ==> addr_lt(o[m].0, v));
                    assert(forall|m: int| 0 <= m < pos ==> s[m].0 != v);
                    lemma_stat_of_first(s, pos as int, v);
                }
                assert(stat_of(o, v) == e.1) by {
                    lemma_stat_of_at(o, pos as int);
                }
                assert forall|a: Address| a != v implies stat_of(s, a) == stat_of(o, a) by {
                    if has_entry(o, a) {
                        let k = choose|k: int| 0 <= k < o.len() && o[k].0 == a;
                        assert(k != pos);
                        assert(s[k] == o[k]);
                        assert forall|m: int| 0 <= m < k implies o[m].0 != a by {
                            assert(addr_lt(o[m].0, o[k].0));
                        }
                        assert(forall|m: int| 0 <= m < k ==> s[m].0 != a);
                        lemma_stat_of_first(o, k, a);
                        lemma_stat_of_first(s, k, a);
                    } else {
                        assert(!has_entry(s, a));
                        lemma_stat_of_absent(o, a);
                        lemma_stat_of_absent(s, a);
                    }
                }
                assert forall|a: Address|
                    has_entry(s, a) <==> has_entry(o, a) || a == v by {
                    if has_entry(s, a) {
                        let k = choose|k: int| 0 <= k < s.len() && s[k].0 == a;
                        assert(o[k].0 == a);
                    }
                    if has_entry(o, a) {
                        let k = choose|k: int| 0 <= k < o.len() && o[k].0 == a;
                        assert(s[k].0 == a);
                    }
                }
            }
        } else {
            // No entry yet: insert one at the sort position.
            if pos < n {
                proof {
                    lemma_addr_order_total(self@[pos as int].0, v);
                }
            }
            let st = VoterStats {
                ballots: 1,
                voted: if voted_flag {
                    1
                } else {
                    0
                },
                validator: None,
                mining_key: None,
            };
            self.entries.insert(pos, (v, st));
            proof {
                let s = self@;
                assert(s.len() == o.len() + 1);
                assert(forall|m: int| 0 <= m < pos ==> s[m] == o[m]);
                assert(s[pos as int] == (v, st));
                assert(forall|m: int| pos < m < s.len() ==> s[m] == o[m - 1]);
                assert(forall|m: int| 0 <= m < pos ==> addr_lt(o[m].0, v));
                assert(pos < o.len() ==> addr_lt(v, o[pos as int].0));
                assert(keys_sorted(s)) by {
                    assert forall|i: int, j: int| 0 <= i < j < s.len() implies addr_lt(
                        s[i].0,
                        s[j].0,
                    ) by {
                        if j < pos {
                        } else if i < pos && j == pos {
                        } else if i == pos && j > pos {
                            if j - 1 > pos {
                                lemma_addr_order_trans(v, o[pos as int].0, o[j - 1].0);
                            }
                        } else if i < pos && j > pos {
                            if j - 1 > pos {
                                lemma_addr_order_trans(v, o[pos as int].0, o[j - 1].0);
                            }
                            lemma_addr_order_trans(s[i].0, v, s[j].0);
                        }
                    }
                }
                assert(stat_of(s, v) == st) by {
                    assert(forall|m: int| 0 <= m < pos ==> s[m].0 != v);
                    lemma_stat_of_first(s, pos as int, v);
                }
                assert(!has_entry(o, v)) by {
                    if has_entry(o, v) {
                        let k = choose|k: int| 0 <= k < o.len() && o[k].0 == v;
                        if k >= pos {
                            assert(pos < o.len());
                            if k > pos {
                                lemma_addr_order_trans(v, o[pos as int].0, o[k].0);
                            }
                        }
                    }
                }
                assert(stat_of(o, v) == empty_stat()) by {
                    lemma_stat_of_absent(o, v);
                }
                assert forall|a: Address| a != v implies stat_of(s, a) == stat_of(o, a) by {
                    if has_entry(o, a) {
                        let k = choose|k: int| 0 <= k < o.len() && o[k].0 == a;
                        assert forall|m: int| 0 <= m < k implies o[m].0 != a by {
                            assert(addr_lt(o[m].0, o[k].0));
                        }
                        lemma_stat_of_first(o, k, a);
                        if k < pos {
                            assert(s[k].0 == a);
                            assert(forall|m: int| 0 <= m < k ==> s[m].0 != a);
                            lemma_stat_of_first(s, k, a);
                        } else {
                            assert(s[k + 1] == o[k]);
                            assert forall|m: int| 0 <= m < k + 1 implies s[m].0 != a by {
                                if m < pos {
                                    assert(s[m] == o[m]);
                                } else if m == pos {
                                } else {
                                    assert(s[m] == o[m - 1]);
                                }
                            }
                            lemma_stat_of_first(s, k + 1, a);
                        }
                    } else {
                        assert(!has_entry(s, a)) by {
                            if has_entry(s, a) {
                                let k = choose|k: int| 0 <= k < s.len() && s[k].0 == a;
                                if k < pos {
                                    assert(o[k].0 == a);
                                } else if k > pos {
                                    assert(o[k - 1].0 == a);
                                }
                            }
                        }
                        lemma_stat_of_absent(o, a);
                        lemma_stat_of_absent(s, a);
                    }
                }
                assert forall|a: Address|
                    has_entry(s, a) <==> has_entry(o, a) || a == v by {
                    if has_entry(s, a) && a != v {
                        let k = choose|k: int| 0 <= k < s.len() && s[k].0 == a;
                        if k < pos {
                            assert(o[k].0 == a);
                        } else if k > pos {
                            assert(o[k - 1].0 == a);
                        }
                    }
                    if has_entry(o, a) {
                        let k = choose|k: int| 0 <= k < o.len() && o[k].0 == a;
                        if k < pos {
                            assert(s[k].0 == a);
                        } else {
                            assert(s[k + 1].0 == a);
                        }
                    }
                    assert(s[pos as int].0 == v);
                }
            }
        }
    }

    /// Adds a ballot: `voters` are the voting keys of everyone who was
    /// allowed to cast a vote, and `voted` are the ones that were
    /// actually cast. Every eligible voter's ballot count rises by one;
    /// an eligible voter's vote count rises by one exactly when their
    /// key occurs in `voted`, however many times it occurs there.
    pub fn add_ballot(&mut self, voters: &VoterSet, voted: &Vec<Address>)
        requires
            old(self).inv(),
            voters.inv(),
        ensures
            final(self).inv(),
            forall|a: Address|
                stat_of(final(self)@, a) == spec_after_ballot(
                    stat_of(old(self)@, a),
                    voters@.contains(a),
                    voted@.contains(a),
                ),
            forall|a: Address|
                has_entry(final(self)@, a) <==> has_entry(old(self)@, a) || voters@.contains(a),
    {
        let vs = voters.as_vec();
        let n: usize = vs.len();
        let mut i: usize = 0;
        while i < n
            invariant
                i <= n,
                n == vs@.len(),
                vs@ == voters@,
                voters.inv(),
                self.inv(),
                forall|a: Address|
                    stat_of(self@, a) == spec_after_ballot(
                        stat_of(old(self)@, a),
                        vs@.subrange(0, i as int).contains(a),
                        voted@.contains(a),
                    ),
                forall|a: Address|
                    has_entry(self@, a) <==> has_entry(old(self)@, a) || vs@.subrange(
                        0,
                        i as int,
                    ).contains(a),
            decreases n - i,
        {
            let v = vs[i];
            let did_vote = crate::addr::contains_address(voted, &v);
            let ghost pre = self@;
            self.bump_entry(v, did_vote);
            proof {
                let sub1 = vs@.subrange(0, i + 1);
                let sub0 = vs@.subrange(0, i as int);
                assert(sub1.drop_last() =~= sub0);
                assert(sub1.last() == v);
                assert(!sub0.contains(v)) by {
                    if sub0.contains(v) {
                        let j = choose|j: int| 0 <= j < sub0.len() && sub0[j] == v;
                        assert(addr_lt(vs@[j], vs@[i as int]));
                    }
                }
                assert forall|a: Address|
                    stat_of(self@, a) == spec_after_ballot(
                        stat_of(old(self)@, a),
                        sub1.contains(a),
                        voted@.contains(a),
                    ) by {
                    if a == v {
                        assert(stat_of(pre, v) == stat_of(old(self)@, v));
                        assert(sub1.contains(v)) by {
                            assert(sub1[i as int] == v);
                        }
                    } else {
                        assert(stat_of(self@, a) == stat_of(pre, a));
                        assert(sub1.contains(a) == sub0.contains(a)) by {
                            if sub1.contains(a) {
                                let j = choose|j: int| 0 <= j < sub1.len() && sub1[j] == a;
                                assert(j < i);
                                assert(sub0[j] == a);
                            }
                            if sub0.contains(a) {
                                let j = choose|j: int| 0 <= j < sub0.len() && sub0[j] == a;
                                assert(sub1[j] == a);
                            }
                        }
                    }
                }
                assert forall|a: Address|
                    has_entry(self@, a) <==> has_entry(old(self)@, a) || sub1.contains(a) by {
                    assert(has_entry(self@, a) <==> has_entry(pre, a) || a == v);
                    assert(sub1[i as int] == v);
                    if sub1.contains(a) && a != v {
                        let j = choose|j: int| 0 <= j < sub1.len() && sub1[j] == a;
                        assert(j < i);
                        assert(sub0[j] == a);
                    }
                    if sub0.contains(a) {
                        let j = choose|j: int| 0 <= j < sub0.len() && sub0[j] == a;
                        assert(sub1[j] == a);
                    }
                }
            }
            i = i + 1;
        }
        proof {
            assert(vs@.subrange(0, n as int) =~= vs@);
        }
    }

    /// Inserts metadata about a voter: the mining key and the
    /// `Validator` information. Returns whether the voter had an entry;
    /// nothing is recorded for an unknown voter.
    pub fn set_metadata(&mut self, voter: &Address, mining_key: Address, validator: Validator) -> (r:
        bool)
        requires
            old(self).inv(),
        ensures
            final(self).inv(),
            r == has_entry(old(self)@, *voter),
            !r ==> final(self)@ == old(self)@,
            forall|a: Address|
                a != *voter ==> stat_of(final(self)@, a) == stat_of(old(self)@, a),
            r ==> stat_of(final(self)@, *voter) == (VoterStats {
                ballots: stat_of(old(self)@, *voter).ballots,
                voted: stat_of(old(self)@, *voter).voted,
                validator: Some(validator),
                mining_key: Some(mining_key),
            }),
            forall|a: Address| has_entry(final(self)@, a) <==> has_entry(old(self)@, a),
    {
        match self.find(voter) {
            None => false,
            Some(k) => {
                let ghost o = self@;
                let e = self.entries.remove(k);
                let st = VoterStats {
                    ballots: e.1.ballots,
                    voted: e.1.voted,
                    validator: Some(validator),
                    mining_key: Some(mining_key),
                };
                self.entries.insert(k, (e.0, st));
                proof {
                    let s = self@;
                    assert(s =~= o.update(k as int, (e.0, st)));
                    assert(forall|i: int| 0 <= i < s.len() ==> s[i].0 == o[i].0);
                    assert(keys_sorted(s));
                    assert(counts_bounded(s)) by {
                        assert(forall|i: int|
                            0 <= i < s.len() && i != k ==> s[i] == o[i]);
                    }
                    assert(stat_of(o, *voter) == e.1) by {
                        lemma_stat_of_at(o, k as int);
                    }
                    assert(stat_of(s, *voter) == st) by {
                        lemma_stat_of_at(s, k as int);
                    }
                    assert forall|a: Address| a != *voter implies stat_of(s, a) == stat_of(
                        o,
                        a,
                    ) by {
                        if has_entry(o, a) {
                            let m = choose|m: int| 0 <= m < o.len() && o[m].0 == a;
                            assert(m != k);
                            assert(s[m] == o[m]);
                            assert forall|q: int| 0 <= q < m implies o[q].0 != a by {
                                assert(addr_lt(o[q].0, o[m].0));
                            }
                            assert(forall|q: int| 0 <= q < m ==> s[q].0 != a);
                            lemma_stat_of_first(o, m, a);
                            lemma_stat_of_first(s, m, a);
                        } else {
                            assert(!has_entry(s, a));
                            lemma_stat_of_absent(o, a);
                            lemma_stat_of_absent(s, a);
                        }
                    }
                    assert forall|a: Address| has_entry(s, a) <==> has_entry(o, a) by {
                        if has_entry(s, a) {
                            let m = choose|m: int| 0 <= m < s.len() && s[m].0 == a;
                            assert(o[m].0 == a);
                        }
                        if has_entry(o, a) {
                            let m = choose|m: int| 0 <= m < o.len() && o[m].0 == a;
                            assert(s[m].0 == a);
                        }
                    }
                }
                true
            },
        }
    }

    /// Finds the entry index of `voter`, if there is one.
    fn find(&self, voter: &Address) -> (r: Option<usize>)
        requires
            self.inv(),
        ensures
            match r {
                Some(k) => k < self@.len() && self@[k as int].0 == *voter && stat_of(
                    self@,
                    *voter,
                ) == self@[k as int].1 && has_entry(self@, *voter),
                None => !has_entry(self@, *voter) && stat_of(self@, *voter) == empty_stat(),
            },
    {
        let n: usize = self.entries.len();
        let mut i: usize = 0;
        while i < n
            invariant
                i <= n,
                n == self@.len(),
                self.inv(),
                forall|k: int| 0 <= k < i ==> self@[k].0 != *voter,
            decreases n - i,
        {
            let c = &self.entries[i];
            if c.0.hi == voter.hi && c.0.lo == voter.lo {
                proof {
                    lemma_stat_of_first(self@, i as int, *voter);
                }
                return Some(i);
            }
            i = i + 1;
        }
        proof {
            lemma_stat_of_absent(self@, *voter);
        }
        None
    }
}

} // verus!
