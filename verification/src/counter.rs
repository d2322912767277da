//! The vote counter: the stateful reducer that replays the event
//! stream, correlates ballots with their votes, and accumulates the
//! per-voter statistics. It computes only; every fetch is performed by
//! the caller, which hands the records in and carries actions out.

use vstd::prelude::*;

use crate::addr::{contains_address, Address, U256};
use crate::classify::{classify, spec_classify, Classification, ClassificationV, DomainEvent, DomainEventV};
use crate::contracts::{ContractAddresses, ContractKind, Version};
use crate::error::Error;
use crate::events::{decode_vote, spec_decode_vote_v1, spec_decode_vote_v2, KeyAction, RawEvent, Vote};
use crate::schema::SignatureSchema;
use crate::stats::{has_entry, spec_after_ballot, stat_of, Stats, Validator, VoterStats};
use crate::tracker::{VoterSet, VoterSetTracker};

verus! {

/// The maximum age in seconds of the latest block before the node is
/// considered out of sync.
pub const MAX_BLOCK_AGE: u64 = 60 * 60;

/// What the caller must do next after one record was processed.
#[derive(Debug)]
pub enum Step {
    /// The record was applied (or needed nothing): continue.
    Applied,
    /// A key change with an action string the engine does not know:
    /// nothing was applied, but the caller may want to warn.
    UnknownKeyAction,
    /// The record belongs to another deployment: continue.
    Ignored,
    /// A ballot below the configured block or time threshold: continue.
    SkippedOldBallot,
    /// A ballot was created: fetch its vote records and hand them to
    /// `tally_votes` with this id and version.
    FetchVotes { id: U256, version: Version },
    /// A pending candidate set was buffered and the previous one must
    /// be resolved: look every key up and hand the resolved addresses
    /// to `commit_resolved` on the tracker.
    ResolveKeys { candidates: Vec<Address> },
}

/// The mathematical content of a step.
pub ghost enum StepV {
    Applied,
    UnknownKeyAction,
    Ignored,
    SkippedOldBallot,
    FetchVotes { id: U256, version: Version },
    ResolveKeys { candidates: Seq<Address> },
}

impl View for Step {
    type V = StepV;

    open spec fn view(&self) -> StepV {
        match self {
            Step::Applied => StepV::Applied,
            Step::UnknownKeyAction => StepV::UnknownKeyAction,
            Step::Ignored => StepV::Ignored,
            Step::SkippedOldBallot => StepV::SkippedOldBallot,
            Step::FetchVotes { id, version } => StepV::FetchVotes {
                id: *id,
                version: *version,
            },
            Step::ResolveKeys { candidates } => StepV::ResolveKeys { candidates: candidates@ },
        }
    }
}

/// The diagnostic partition of one ballot's participation.
#[derive(Debug)]
pub struct BallotDetails {
    /// Tracked voters that did not vote.
    pub missed: VoterSet,
    /// Tracked voters that voted.
    pub expected: VoterSet,
    /// Voters that voted without being members (and were then folded
    /// into the members set).
    pub unexpected: VoterSet,
}

/// The vote signature a given generation uses.
pub open spec fn spec_vote_sig(schema: SignatureSchema, version: Version) -> U256 {
    match version {
        Version::V2 => schema.vote_v2,
        Version::V1 => schema.vote_v1,
    }
}

/// The vote a record decodes to under a given generation's layout.
pub open spec fn spec_decode_vote_for(log: RawEvent, schema: SignatureSchema, version: Version) -> Option<Vote> {
    match version {
        Version::V2 => spec_decode_vote_v2(log.topics@, log.data@, schema.vote_v2),
        Version::V1 => spec_decode_vote_v1(log.topics@, log.data@, schema.vote_v1),
    }
}

/// Whether a record was emitted by the voting instance of `version`.
pub open spec fn spec_vote_relevant(
    log: RawEvent,
    addrs: ContractAddresses,
    version: Version,
) -> bool {
    addrs.registered_spec(log.address, version, ContractKind::Voting)
}

/// A relevant record that does not decode as a vote: fatal.
pub open spec fn spec_bad_vote_log(
    log: RawEvent,
    schema: SignatureSchema,
    addrs: ContractAddresses,
    version: Version,
) -> bool {
    spec_vote_relevant(log, addrs, version) && spec_decode_vote_for(log, schema, version) is None
}

/// Whether every relevant record in the fetched batch decodes.
pub open spec fn spec_votes_ok(
    logs: Seq<RawEvent>,
    schema: SignatureSchema,
    addrs: ContractAddresses,
    version: Version,
) -> bool {
    forall|i: int|
        0 <= i < logs.len() ==> !spec_bad_vote_log(#[trigger] logs[i], schema, addrs, version)
}

/// Whether `x` cast a vote on ballot `id` within the fetched batch,
/// counting only records of the matching instance and generation.
pub open spec fn spec_voted(
    logs: Seq<RawEvent>,
    schema: SignatureSchema,
    addrs: ContractAddresses,
    version: Version,
    id: U256,
    x: Address,
) -> bool {
    exists|i: int|
        0 <= i < logs.len() && spec_vote_relevant(#[trigger] logs[i], addrs, version)
            && spec_decode_vote_for(logs[i], schema, version) is Some && spec_decode_vote_for(
            logs[i],
            schema,
            version,
        )->Some_0.id == id && spec_decode_vote_for(logs[i], schema, version)->Some_0.voter == x
}

/// A ballot below the configured block-number or block-time threshold
/// is skipped rather than tallied.
pub open spec fn spec_ballot_too_old(c: Counter, block_number: u64, timestamp: u64) -> bool {
    block_number < c.start_block || timestamp < c.start_time
}

/// A vote counter, which reads ballot statistics out of a replayed
/// governance event stream.
pub struct Counter {
    /// Whether the caller asked for verbose diagnostics.
    pub verbose: bool,
    /// The earliest block timestamp (seconds) taken into account.
    pub start_time: u64,
    /// The first block number taken into account.
    pub start_block: u64,
    /// The registry of deployed contract addresses.
    pub addrs: ContractAddresses,
    /// The event signatures of the known layouts.
    pub schema: SignatureSchema,
    /// The authorized voter set, with the legacy pending buffer.
    pub tracker: VoterSetTracker,
    /// The accumulating per-voter statistics.
    pub stats: Stats,
    /// Whether any registered event was seen at all.
    pub events_seen: bool,
}

impl Counter {
    pub open spec fn inv(&self) -> bool {
        self.tracker.inv() && self.stats.inv()
    }

    /// The configuration fields, which processing never changes.
    pub open spec fn same_config(&self, other: &Counter) -> bool {
        self.verbose == other.verbose && self.start_time == other.start_time && self.start_block
            == other.start_block && self.addrs == other.addrs && self.schema == other.schema
    }

    /// Creates a new vote counter over the given registry and schema.
    pub fn new(addrs: ContractAddresses, schema: SignatureSchema) -> (r: Counter)
        ensures
            r.inv(),
            !r.verbose,
            r.start_time == 0,
            r.start_block == 0,
            r.addrs == addrs,
            r.schema == schema,
            r.tracker.set@ =~= Seq::<Address>::empty(),
            r.tracker.pending_view() is None,
            r.stats@ =~= Seq::<(Address, crate::stats::VoterStats)>::empty(),
            !r.events_seen,
    {
        Counter {
            verbose: false,
            start_time: 0,
            start_block: 0,
            addrs,
            schema,
            tracker: VoterSetTracker::new(),
            stats: Stats::new(),
            events_seen: false,
        }
    }

    /// Enables verbose mode.
    pub fn set_verbose(&mut self)
        ensures
            *final(self) == (Counter { verbose: true, ..*old(self) }),
    {
        self.verbose = true;
    }

    /// Sets the first block to be taken into account, by creation time
    /// (seconds since the epoch).
    pub fn set_start_time(&mut self, start_time: u64)
        ensures
            *final(self) == (Counter { start_time, ..*old(self) }),
    {
        self.start_time = start_time;
    }

    /// Sets the first block to be taken into account, by number.
    pub fn set_start_block(&mut self, start_block: u64)
        ensures
            *final(self) == (Counter { start_block, ..*old(self) }),
    {
        self.start_block = start_block;
    }

    /// Whether a ballot at this block and time is below the thresholds.
    pub fn is_block_too_old(&self, block_number: u64, timestamp: u64) -> (r: bool)
        ensures
            r == spec_ballot_too_old(*self, block_number, timestamp),
    {
        block_number < self.start_block || timestamp < self.start_time
    }

    /// Processes one raw record of the main stream: classifies it and
    /// applies what it means, returning the action the caller must
    /// carry out before the next record. Records of foreign
    /// deployments change nothing; a record no decoder understands is
    /// fatal and changes nothing either.
    pub fn process_event(&mut self, raw: &RawEvent) -> (r: Result<Step, Error>)
        requires
            old(self).inv(),
        ensures
            final(self).inv(),
            final(self).same_config(old(self)),
            match spec_classify(raw@, old(self).schema, old(self).addrs) {
                ClassificationV::Unrecognized => {
                    &&& r is Err
                    &&& r->Err_0 == Error::UnexpectedLogParams
                    &&& *final(self) == *old(self)
                },
                ClassificationV::Dropped => {
                    &&& r is Ok
                    &&& r->Ok_0@ == StepV::Ignored
                    &&& *final(self) == *old(self)
                },
                ClassificationV::Recognized { version, event } => {
                    &&& r is Ok
                    &&& final(self).events_seen
                    &&& match event {
                        DomainEventV::KeyChange { action, key } => {
                            &&& r->Ok_0@ == (if action is Unknown {
                                StepV::UnknownKeyAction
                            } else {
                                StepV::Applied
                            })
                            &&& final(self).stats@ == old(self).stats@
                            &&& final(self).tracker.pending_view() == old(
                                self,
                            ).tracker.pending_view()
                            &&& (action is Add ==> forall|x: Address|
                                final(self).tracker.set@.contains(x) <==> old(
                                    self,
                                ).tracker.set@.contains(x) || x == key)
                            &&& (action is Remove ==> forall|x: Address|
                                final(self).tracker.set@.contains(x) <==> old(
                                    self,
                                ).tracker.set@.contains(x) && x != key)
                            &&& (action is Unknown ==> final(self).tracker.set@ == old(
                                self,
                            ).tracker.set@)
                        },
                        DomainEventV::FullSetReplace { new_set } => {
                            &&& r->Ok_0@ == StepV::Applied
                            &&& final(self).stats@ == old(self).stats@
                            &&& final(self).tracker.pending_view() == old(
                                self,
                            ).tracker.pending_view()
                            &&& forall|x: Address|
                                final(self).tracker.set@.contains(x) <==> new_set.contains(x)
                        },
                        DomainEventV::PendingSetInitiated { parent_hash: _, candidate_set } => {
                            &&& final(self).stats@ == old(self).stats@
                            &&& final(self).tracker.set@ == old(self).tracker.set@
                            &&& final(self).tracker.pending_view() == Some(candidate_set)
                            &&& match old(self).tracker.pending_view() {
                                Some(p) => r->Ok_0@ == (StepV::ResolveKeys { candidates: p }),
                                None => r->Ok_0@ == StepV::Applied,
                            }
                        },
                        DomainEventV::BallotCreated(b) => {
                            &&& final(self).stats@ == old(self).stats@
                            &&& final(self).tracker == old(self).tracker
                            &&& if spec_ballot_too_old(*old(self), raw@.block_number, raw@.timestamp) {
                                r->Ok_0@ == StepV::SkippedOldBallot
                            } else {
                                r->Ok_0@ == (StepV::FetchVotes { id: b.id, version })
                            }
                        },
                        DomainEventV::Vote(_) => {
                            &&& r->Ok_0@ == StepV::Applied
                            &&& final(self).stats@ == old(self).stats@
                            &&& final(self).tracker == old(self).tracker
                        },
                    }
                },
            },
    {
        let c = classify(raw, &self.schema, &self.addrs);
        match c {
            Classification::Unrecognized => Err(Error::UnexpectedLogParams),
            Classification::Dropped => Ok(Step::Ignored),
            Classification::Recognized { version, event } => {
                self.events_seen = true;
                match event {
                    DomainEvent::KeyChange { action, key } => {
                        self.tracker.apply_key_change(&action, key);
                        match action {
                            KeyAction::Unknown => Ok(Step::UnknownKeyAction),
                            _ => Ok(Step::Applied),
                        }
                    },
                    DomainEvent::FullSetReplace { new_set } => {
                        self.tracker.apply_full_set_replace(&new_set);
                        Ok(Step::Applied)
                    },
                    DomainEvent::PendingSetInitiated { parent_hash: _, candidate_set } => {
                        match self.tracker.begin_pending(candidate_set) {
                            Some(candidates) => Ok(Step::ResolveKeys { candidates }),
                            None => Ok(Step::Applied),
                        }
                    },
                    DomainEvent::BallotCreated(b) => {
                        if self.is_block_too_old(raw.block_number, raw.timestamp) {
                            Ok(Step::SkippedOldBallot)
                        } else {
                            Ok(Step::FetchVotes { id: b.id, version })
                        }
                    },
                    DomainEvent::Vote(_) => Ok(Step::Applied),
                }
            },
        }
    }

    /// Folds one ballot's fetched vote records into the tally.
    ///
    /// Only records emitted by the voting instance of the ballot's own
    /// generation count (no cross-version leakage); among those, only
    /// votes for this ballot id. A repeated vote by the same voter
    /// counts once. Voters not currently members are folded into the
    /// members set before eligibility is evaluated, so every voter of
    /// this ballot is eligible for it. Returns the diagnostic
    /// partition, computed against the members set as it stood before
    /// this ballot.
    pub fn tally_votes(&mut self, id: &U256, version: Version, vote_logs: &Vec<RawEvent>) -> (r:
        Result<BallotDetails, Error>)
        requires
            old(self).inv(),
        ensures
            final(self).inv(),
            final(self).same_config(old(self)),
            final(self).events_seen == old(self).events_seen,
            final(self).tracker.pending_view() == old(self).tracker.pending_view(),
            match r {
                Err(e) => {
                    &&& e == Error::UnexpectedLogParams
                    &&& !spec_votes_ok(vote_logs@, old(self).schema, old(self).addrs, version)
                    &&& *final(self) == *old(self)
                },
                Ok(details) => {
                    &&& spec_votes_ok(vote_logs@, old(self).schema, old(self).addrs, version)
                    &&& details.missed.inv()
                    &&& details.expected.inv()
                    &&& details.unexpected.inv()
                    &&& forall|x: Address|
                        details.missed@.contains(x) <==> old(self).tracker.set@.contains(x)
                            && !spec_voted(
                            vote_logs@,
                            old(self).schema,
                            old(self).addrs,
                            version,
                            *id,
                            x,
                        )
                    &&& forall|x: Address|
                        details.expected@.contains(x) <==> old(self).tracker.set@.contains(x)
                            && spec_voted(
                            vote_logs@,
                            old(self).schema,
                            old(self).addrs,
                            version,
                            *id,
                            x,
                        )
                    &&& forall|x: Address|
                        details.unexpected@.contains(x) <==> !old(self).tracker.set@.contains(x)
                            && spec_voted(
                            vote_logs@,
                            old(self).schema,
                            old(self).addrs,
                            version,
                            *id,
                            x,
                        )
                    &&& forall|x: Address|
                        final(self).tracker.set@.contains(x) <==> old(self).tracker.set@.contains(
                            x,
                        ) || spec_voted(
                            vote_logs@,
                            old(self).schema,
                            old(self).addrs,
                            version,
                            *id,
                            x,
                        )
                    &&& forall|a: Address|
                        stat_of(final(self).stats@, a) == spec_after_ballot(
                            stat_of(old(self).stats@, a),
                            old(self).tracker.set@.contains(a) || spec_voted(
                                vote_logs@,
                                old(self).schema,
                                old(self).addrs,
                                version,
                                *id,
                                a,
                            ),
                            spec_voted(
                                vote_logs@,
                                old(self).schema,
                                old(self).addrs,
                                version,
                                *id,
                                a,
                            ),
                        )
                    &&& forall|a: Address|
                        has_entry(final(self).stats@, a) <==> has_entry(old(self).stats@, a) || old(
                            self,
                        ).tracker.set@.contains(a) || spec_voted(
                            vote_logs@,
                            old(self).schema,
                            old(self).addrs,
                            version,
                            *id,
                            a,
                        )
                },
            },
    {
        let ghost g_schema = self.schema;
        let ghost g_addrs = self.addrs;
        let addrs = self.addrs;
        let legacy = match version {
            Version::V1 => true,
            Version::V2 => false,
        };
        let sig = match version {
            Version::V1 => self.schema.vote_v1,
            Version::V2 => self.schema.vote_v2,
        };
        assert(sig == spec_vote_sig(g_schema, version));

        // Collect the voters of this ballot, in record order.
        let n: usize = vote_logs.len();
        let mut voted: Vec<Address> = Vec::new();
        let mut i: usize = 0;
        while i < n
            invariant
                i <= n,
                n == vote_logs@.len(),
                *self == *old(self),
                old(self).inv(),
                sig == spec_vote_sig(g_schema, version),
                legacy == (version is V1),
                g_schema == old(self).schema,
                g_addrs == old(self).addrs,
                addrs == g_addrs,
                forall|k: int|
                    0 <= k < i ==> !spec_bad_vote_log(
                        #[trigger] vote_logs@[k],
                        g_schema,
                        g_addrs,
                        version,
                    ),
                forall|x: Address|
                    voted@.contains(x) <==> spec_voted(
                        vote_logs@.subrange(0, i as int),
                        g_schema,
                        g_addrs,
                        version,
                        *id,
                        x,
                    ),
            decreases n - i,
        {
            let ghost pre = voted@;
            let ghost sub0 = vote_logs@.subrange(0, i as int);
            let ghost sub1 = vote_logs@.subrange(0, i + 1);
            proof {
                assert(sub1.drop_last() =~= sub0);
                assert(sub1.last() == vote_logs@[i as int]);
                assert(forall|k: int| 0 <= k < i ==> sub1[k] == sub0[k]);
            }
            let log = &vote_logs[i];
            if addrs.is_registered(&log.address, version, ContractKind::Voting) {
                match decode_vote(&log.topics, &log.data, &sig, legacy) {
                    None => {
                        proof {
                            assert(spec_bad_vote_log(vote_logs@[i as int], g_schema, g_addrs, version));
                        }
                        return Err(Error::UnexpectedLogParams);
                    },
                    Some(v) => {
                        if v.id == *id {
                            voted.push(v.voter);
                        }
                    },
                }
            }
            proof {
                assert forall|x: Address|
                    voted@.contains(x) <==> spec_voted(
                        sub1,
                        g_schema,
                        g_addrs,
                        version,
                        *id,
                        x,
                    ) by {
                    let dec = spec_decode_vote_for(vote_logs@[i as int], g_schema, version);
                    let newly = spec_vote_relevant(vote_logs@[i as int], g_addrs, version)
                        && dec is Some && dec->Some_0.id == *id;
                    if spec_voted(sub1, g_schema, g_addrs, version, *id, x) {
                        let k = choose|k: int|
                            0 <= k < sub1.len() && spec_vote_relevant(
                                #[trigger] sub1[k],
                                g_addrs,
                                version,
                            ) && spec_decode_vote_for(sub1[k], g_schema, version) is Some
                                && spec_decode_vote_for(sub1[k], g_schema, version)->Some_0.id
                                == *id && spec_decode_vote_for(
                                sub1[k],
                                g_schema,
                                version,
                            )->Some_0.voter == x;
                        if k < i {
                            assert(spec_voted(sub0, g_schema, g_addrs, version, *id, x));
                            assert(pre.contains(x));
                            if voted@ != pre {
                                let m = choose|m: int| 0 <= m < pre.len() && pre[m] == x;
                                assert(voted@[m] == x);
                            }
                        } else {
                            assert(newly && dec->Some_0.voter == x);
                            assert(voted@.last() == x);
                        }
                    }
                    if voted@.contains(x) {
                        if pre.contains(x) {
                            assert(spec_voted(sub0, g_schema, g_addrs, version, *id, x));
                            let k = choose|k: int|
                                0 <= k < sub0.len() && spec_vote_relevant(
                                    #[trigger] sub0[k],
                                    g_addrs,
                                    version,
                                ) && spec_decode_vote_for(sub0[k], g_schema, version) is Some
                                    && spec_decode_vote_for(sub0[k], g_schema, version)->Some_0.id
                                    == *id && spec_decode_vote_for(
                                    sub0[k],
                                    g_schema,
                                    version,
                                )->Some_0.voter == x;
                            assert(sub1[k] == sub0[k]);
                            assert(spec_voted(sub1, g_schema, g_addrs, version, *id, x));
                        } else {
                            // x was pushed this iteration.
                            let m = choose|m: int| 0 <= m < voted@.len() && voted@[m] == x;
                            assert(m == voted@.len() - 1);
                            assert(newly && dec->Some_0.voter == x);
                            assert(sub1[i as int] == vote_logs@[i as int]);
                            assert(spec_voted(sub1, g_schema, g_addrs, version, *id, x));
                        }
                    }
                }
            }
            i = i + 1;
        }
        proof {
            assert(vote_logs@.subrange(0, n as int) =~= vote_logs@);
        }

        // The diagnostic partition, against the set as it stands now.
        let mut missed = VoterSet::new();
        let mut expected = VoterSet::new();
        let mut unexpected = VoterSet::new();
        {
            let members = self.tracker.set.as_vec();
            let tn: usize = members.len();
            let mut k: usize = 0;
            while k < tn
                invariant
                    k <= tn,
                    tn == members@.len(),
                    members@ == old(self).tracker.set@,
                    missed.inv(),
                    expected.inv(),
                    forall|x: Address|
                        missed@.contains(x) <==> members@.subrange(0, k as int).contains(x)
                            && !voted@.contains(x),
                    forall|x: Address|
                        expected@.contains(x) <==> members@.subrange(0, k as int).contains(x)
                            && voted@.contains(x),
                decreases tn - k,
            {
                let x = members[k];
                proof {
                    crate::tracker::lemma_subrange_extends(members@, k as int);
                }
                if contains_address(&voted, &x) {
                    expected.insert(x);
                } else {
                    missed.insert(x);
                }
                k = k + 1;
            }
            proof {
                assert(members@.subrange(0, tn as int) =~= members@);
            }
        }
        let vn: usize = voted.len();
        let mut j: usize = 0;
        while j < vn
            invariant
                j <= vn,
                vn == voted@.len(),
                *self == *old(self),
                old(self).inv(),
                unexpected.inv(),
                forall|x: Address|
                    unexpected@.contains(x) <==> voted@.subrange(0, j as int).contains(x) && !old(
                        self,
                    ).tracker.set@.contains(x),
            decreases vn - j,
        {
            let v = voted[j];
            proof {
                crate::tracker::lemma_subrange_extends(voted@, j as int);
            }
            if !self.tracker.set.contains(&v) {
                unexpected.insert(v);
            }
            j = j + 1;
        }
        proof {
            assert(voted@.subrange(0, vn as int) =~= voted@);
        }

        // Fold the unexpected voters into the members set, then count
        // the ballot against the set as it stands at this point.
        let mut j2: usize = 0;
        while j2 < vn
            invariant
                j2 <= vn,
                vn == voted@.len(),
                self.tracker.set.inv(),
                self.stats == old(self).stats,
                old(self).inv(),
                self.same_config(old(self)),
                self.events_seen == old(self).events_seen,
                self.tracker.pending_view() == old(self).tracker.pending_view(),
                forall|x: Address|
                    self.tracker.set@.contains(x) <==> old(self).tracker.set@.contains(x)
                        || voted@.subrange(0, j2 as int).contains(x),
            decreases vn - j2,
        {
            proof {
                crate::tracker::lemma_subrange_extends(voted@, j2 as int);
            }
            let v = voted[j2];
            self.tracker.set.insert(v);
            j2 = j2 + 1;
        }
        proof {
            assert(voted@.subrange(0, vn as int) =~= voted@);
        }
        let tracker_set = &self.tracker.set;
        crate::stats::Stats::add_ballot(&mut self.stats, tracker_set, &voted);
        proof {
            assert forall|a: Address|
                has_entry(self.stats@, a) <==> has_entry(old(self).stats@, a) || old(
                    self,
                ).tracker.set@.contains(a) || spec_voted(
                    vote_logs@,
                    g_schema,
                    g_addrs,
                    version,
                    *id,
                    a,
                ) by {
                assert(self.tracker.set@.contains(a) <==> old(self).tracker.set@.contains(a)
                    || voted@.contains(a));
                assert(voted@.contains(a) <==> spec_voted(
                    vote_logs@,
                    g_schema,
                    g_addrs,
                    version,
                    *id,
                    a,
                ));
                assert(has_entry(self.stats@, a) <==> has_entry(old(self).stats@, a)
                    || self.tracker.set@.contains(a));
            }
        }
        Ok(BallotDetails { missed, expected, unexpected })
    }

    /// Applies the outcome of one voter's enrichment lookups. A
    /// mining key that resolved to something other than the zero
    /// address, together with a resolved identity, is recorded; a
    /// failed lookup (`None`) or a zero key records nothing and is
    /// not an error — the voter simply stays without identity fields.
    /// Returns whether metadata was recorded.
    pub fn enrich(&mut self, voter: &Address, mining_key: Option<Address>, validator: Option<
        Validator,
    >) -> (r: bool)
        requires
            old(self).inv(),
        ensures
            final(self).inv(),
            final(self).same_config(old(self)),
            final(self).tracker == old(self).tracker,
            final(self).events_seen == old(self).events_seen,
            forall|a: Address|
                has_entry(final(self).stats@, a) <==> has_entry(old(self).stats@, a),
            forall|a: Address|
                a != *voter ==> stat_of(final(self).stats@, a) == stat_of(old(self).stats@, a),
            match (mining_key, validator) {
                (Some(k), Some(v)) => {
                    &&& r == (k != Address::zero_spec() && has_entry(old(self).stats@, *voter))
                    &&& r ==> stat_of(final(self).stats@, *voter) == (VoterStats {
                        ballots: stat_of(old(self).stats@, *voter).ballots,
                        voted: stat_of(old(self).stats@, *voter).voted,
                        validator: Some(v),
                        mining_key: Some(k),
                    })
                    &&& !r ==> final(self).stats@ == old(self).stats@
                },
                _ => !r && final(self).stats@ == old(self).stats@,
            },
    {
        match (mining_key, validator) {
            (Some(k), Some(v)) => {
                if k.is_zero() {
                    false
                } else {
                    self.stats.set_metadata(voter, k, v)
                }
            },
            _ => false,
        }
    }

    /// All registered events were replayed: report an empty stream.
    pub fn finish(&self) -> (r: Result<(), Error>)
        ensures
            r is Ok <==> self.events_seen,
            r is Err ==> r->Err_0 == Error::NoEventsFound,
    {
        if self.events_seen {
            Ok(())
        } else {
            Err(Error::NoEventsFound)
        }
    }
}

/// Whether the node's latest block is older than the freshness
/// threshold; a stale node only warrants a warning, never an error.
pub fn is_stale(latest_block_timestamp: u64, now: u64) -> (r: bool)
    ensures
        r == (latest_block_timestamp + MAX_BLOCK_AGE < now),
{
    (latest_block_timestamp as u128) + (MAX_BLOCK_AGE as u128) < (now as u128)
}

} // verus!
