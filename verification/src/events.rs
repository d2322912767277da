//! Raw log records, the typed domain events, and the decoders that
//! read an event payload out of a record's topics and data bytes.
//!
//! A decoder is strict about shape: a record decodes only if its
//! topic count, its leading topic, and its payload length all agree
//! with the event's layout, and every address word carries twelve
//! leading zero bytes.

use vstd::prelude::*;

use crate::addr::{word_at_spec, word_at, Address, U256};
use crate::error::Error;
use crate::schema::SignatureSchema;
use crate::util::{TopicChoice, TopicChoiceV, TopicQuery};

verus! {

/// The unit fetched from the log source: one raw, block-ordered record.
pub struct RawEvent {
    /// The number of the block the record was emitted in.
    pub block_number: u64,
    /// The timestamp of that block, in seconds.
    pub timestamp: u64,
    /// The emitting contract address.
    pub address: Address,
    /// The ordered 32-byte topics; the first is the event signature.
    pub topics: Vec<U256>,
    /// The payload bytes.
    pub data: Vec<u8>,
}

/// The mathematical content of a raw record.
pub ghost struct RawEventV {
    pub block_number: u64,
    pub timestamp: u64,
    pub address: Address,
    pub topics: Seq<U256>,
    pub data: Seq<u8>,
}

impl View for RawEvent {
    type V = RawEventV;

    open spec fn view(&self) -> RawEventV {
        RawEventV {
            block_number: self.block_number,
            timestamp: self.timestamp,
            address: self.address,
            topics: self.topics@,
            data: self.data@,
        }
    }
}

/// The direction of an incremental change to the authorized key set.
///
/// An action string other than the two known ones decodes to `Unknown`,
/// which the tracker applies as a no-op rather than failing the run.
#[derive(Clone, Copy, PartialEq, Eq, Structural, Debug)]
pub enum KeyAction {
    Add,
    Remove,
    Unknown,
}

/// An event that is logged when a new ballot is started.
#[derive(Clone, Copy, PartialEq, Eq, Structural, Debug)]
pub struct BallotCreated {
    /// The ballot ID.
    pub id: U256,
    /// The ballot type.
    pub ballot_type: U256,
    /// The creator's voting key.
    pub creator: Address,
}

/// An event that is logged whenever someone casts a vote in a ballot.
#[derive(Clone, Copy, PartialEq, Eq, Structural, Debug)]
pub struct Vote {
    /// The ballot ID.
    pub id: U256,
    /// The decision this vote is for.
    pub decision: U256,
    /// The voter's voting key.
    pub voter: Address,
    /// The timestamp of this vote; zero under the legacy layout, which
    /// does not carry one.
    pub time: U256,
}

/// The bytes of the action string `"added"`.
pub open spec fn added_lit() -> Seq<u8> {
    seq![0x61u8, 0x64u8, 0x64u8, 0x65u8, 0x64u8]
}

/// The bytes of the action string `"removed"`.
pub open spec fn removed_lit() -> Seq<u8> {
    seq![0x72u8, 0x65u8, 0x6du8, 0x6fu8, 0x76u8, 0x65u8, 0x64u8]
}

pub open spec fn action_of(bytes: Seq<u8>) -> KeyAction {
    if bytes == added_lit() {
        KeyAction::Add
    } else if bytes == removed_lit() {
        KeyAction::Remove
    } else {
        KeyAction::Unknown
    }
}

/// `l` rounded up to a multiple of the word size.
pub open spec fn pad32(l: int) -> int {
    ((l + 31) / 32) * 32
}

/// Layout of a key change: the signature topic, the key as an indexed
/// address topic, and a payload holding one string (offset word, length
/// word, padded bytes).
pub open spec fn spec_decode_key_change(topics: Seq<U256>, data: Seq<u8>, sig: U256) -> Option<
    (KeyAction, Address),
> {
    if topics.len() == 2 && topics[0] == sig && Address::word_is_address(topics[1]) && data.len()
        >= 64 && data.len() % 32 == 0 && word_at_spec(data, 0) == U256::from_u64_spec(32)
        && word_at_spec(data, 1).hi == 0 && word_at_spec(data, 1).lo <= data.len() - 64
        && data.len() == 64 + pad32(word_at_spec(data, 1).lo as int) {
        let l = word_at_spec(data, 1).lo as int;
        Some((action_of(data.subrange(64, 64 + l)), Address::of_word_spec(topics[1])))
    } else {
        None
    }
}

/// Layout of a ballot creation: the signature topic and three indexed
/// topics (id, ballot type, creator), with an empty payload. Both
/// protocol generations share this layout; their signatures tell them
/// apart, and where those collide the registry does.
pub open spec fn spec_decode_ballot_created(topics: Seq<U256>, data: Seq<u8>, sig: U256) -> Option<
    BallotCreated,
> {
    if topics.len() == 4 && topics[0] == sig && data.len() == 0 && Address::word_is_address(
        topics[3],
    ) {
        Some(
            BallotCreated {
                id: topics[1],
                ballot_type: topics[2],
                creator: Address::of_word_spec(topics[3]),
            },
        )
    } else {
        None
    }
}

/// Layout of a current-generation vote: the signature topic, the ballot
/// id and the voter as indexed topics, and a payload of two words
/// (decision, time).
pub open spec fn spec_decode_vote_v2(topics: Seq<U256>, data: Seq<u8>, sig: U256) -> Option<Vote> {
    if topics.len() == 3 && topics[0] == sig && Address::word_is_address(topics[2]) && data.len()
        == 64 {
        Some(
            Vote {
                id: topics[1],
                decision: word_at_spec(data, 0),
                voter: Address::of_word_spec(topics[2]),
                time: word_at_spec(data, 1),
            },
        )
    } else {
        None
    }
}

/// Layout of a legacy vote: as the current one, but the payload is a
/// single decision word and there is no timestamp.
pub open spec fn spec_decode_vote_v1(topics: Seq<U256>, data: Seq<u8>, sig: U256) -> Option<Vote> {
    if topics.len() == 3 && topics[0] == sig && Address::word_is_address(topics[2]) && data.len()
        == 32 {
        Some(
            Vote {
                id: topics[1],
                decision: word_at_spec(data, 0),
                voter: Address::of_word_spec(topics[2]),
                time: U256::zero_spec(),
            },
        )
    } else {
        None
    }
}

/// Layout of a payload holding one dynamic array of addresses: an
/// offset word, a count word, and one address word per member.
pub open spec fn spec_decode_addr_list(data: Seq<u8>) -> Option<Seq<Address>> {
    if data.len() >= 64 && data.len() % 32 == 0 && word_at_spec(data, 0) == U256::from_u64_spec(32)
        && word_at_spec(data, 1).hi == 0 && word_at_spec(data, 1).lo == (data.len() - 64) / 32 && (
    forall|k: int|
        0 <= k < (data.len() - 64) / 32 ==> Address::word_is_address(
            #[trigger] word_at_spec(data, 2 + k),
        )) {
        Some(
            Seq::new(
                ((data.len() - 64) / 32) as nat,
                |k: int| Address::of_word_spec(word_at_spec(data, 2 + k)),
            ),
        )
    } else {
        None
    }
}

/// Layout of a full replacement of the voter set: the signature topic
/// alone, and the new members as an address array in the payload.
pub open spec fn spec_decode_full_set(topics: Seq<U256>, data: Seq<u8>, sig: U256) -> Option<
    Seq<Address>,
> {
    if topics.len() == 1 && topics[0] == sig {
        spec_decode_addr_list(data)
    } else {
        None
    }
}

/// Layout of a legacy pending-set initiation: the signature topic, the
/// parent block hash as an indexed topic, and the candidate members as
/// an address array in the payload.
pub open spec fn spec_decode_pending(topics: Seq<U256>, data: Seq<u8>, sig: U256) -> Option<
    (U256, Seq<Address>),
> {
    if topics.len() == 2 && topics[0] == sig {
        match spec_decode_addr_list(data) {
            Some(list) => Some((topics[1], list)),
            None => None,
        }
    } else {
        None
    }
}

/// Copies `count` bytes starting at `start` out of a payload.
fn copy_range(data: &Vec<u8>, start: usize, count: usize) -> (r: Vec<u8>)
    requires
        start + count <= data@.len(),
    ensures
        r@ == data@.subrange(start as int, start + count),
{
    let len: usize = data.len();
    let mut r: Vec<u8> = Vec::new();
    let mut i: usize = 0;
    while i < count
        invariant
            i <= count,
            start + count <= len,
            len == data@.len(),
            r@ == data@.subrange(start as int, start + i),
        decreases count - i,
    {
        r.push(data[start + i]);
        proof {
            assert(data@.subrange(start as int, start + i + 1) =~= data@.subrange(
                start as int,
                start + i,
            ).push(data@[start + i]));
        }
        i = i + 1;
    }
    r
}

/// Reads an action string as a key-change action.
fn classify_action(b: &Vec<u8>) -> (r: KeyAction)
    ensures
        r == action_of(b@),
{
    if b.len() == 5 && b[0] == 0x61 && b[1] == 0x64 && b[2] == 0x64 && b[3] == 0x65 && b[4]
        == 0x64 {
        proof {
            assert(b@ =~= added_lit());
        }
        KeyAction::Add
    } else if b.len() == 7 && b[0] == 0x72 && b[1] == 0x65 && b[2] == 0x6d && b[3] == 0x6f && b[4]
        == 0x76 && b[5] == 0x65 && b[6] == 0x64 {
        proof {
            assert(b@ =~= removed_lit());
        }
        KeyAction::Remove
    } else {
        proof {
            if b@ == added_lit() {
                assert(b@.len() == 5);
                assert(b@[0] == 0x61 && b@[1] == 0x64 && b@[2] == 0x64 && b@[3] == 0x65 && b@[4]
                    == 0x64);
            }
            if b@ == removed_lit() {
                assert(b@.len() == 7);
                assert(b@[0] == 0x72 && b@[1] == 0x65 && b@[2] == 0x6d && b@[3] == 0x6f && b@[4]
                    == 0x76 && b@[5] == 0x65 && b@[6] == 0x64);
            }
        }
        KeyAction::Unknown
    }
}

/// Decodes an incremental key change, if the record has its shape.
pub fn decode_key_change(topics: &Vec<U256>, data: &Vec<u8>, sig: &U256) -> (r: Option<
    (KeyAction, Address),
>)
    ensures
        r == spec_decode_key_change(topics@, data@, *sig),
{
    if topics.len() != 2 {
        return None;
    }
    if !(topics[0] == *sig) {
        return None;
    }
    let key = match Address::of_word(&topics[1]) {
        Some(k) => k,
        None => { return None },
    };
    let len: usize = data.len();
    if len < 64 || len % 32 != 0 {
        return None;
    }
    let w0 = word_at(data, 0);
    if !(w0.hi == 0 && w0.lo == 32) {
        return None;
    }
    let w1 = word_at(data, 1);
    if w1.hi != 0 {
        return None;
    }
    if w1.lo > (len - 64) as u128 {
        return None;
    }
    let l: usize = w1.lo as usize;
    let padded: usize = ((l + 31) / 32) * 32;
    if padded > len - 64 {
        return None;
    }
    if len != 64 + padded {
        return None;
    }
    let action_bytes = copy_range(data, 64, l);
    let action = classify_action(&action_bytes);
    Some((action, key))
}

/// Decodes a ballot creation, if the record has its shape.
pub fn decode_ballot_created(topics: &Vec<U256>, data: &Vec<u8>, sig: &U256) -> (r: Option<
    BallotCreated,
>)
    ensures
        r == spec_decode_ballot_created(topics@, data@, *sig),
{
    if topics.len() != 4 {
        return None;
    }
    if !(topics[0] == *sig) {
        return None;
    }
    if data.len() != 0 {
        return None;
    }
    let creator = match Address::of_word(&topics[3]) {
        Some(c) => c,
        None => { return None },
    };
    Some(BallotCreated { id: topics[1], ballot_type: topics[2], creator })
}

/// Decodes a vote under the current or the legacy layout.
pub fn decode_vote(topics: &Vec<U256>, data: &Vec<u8>, sig: &U256, legacy: bool) -> (r: Option<
    Vote,
>)
    ensures
        !legacy ==> r == spec_decode_vote_v2(topics@, data@, *sig),
        legacy ==> r == spec_decode_vote_v1(topics@, data@, *sig),
{
    if topics.len() != 3 {
        return None;
    }
    if !(topics[0] == *sig) {
        return None;
    }
    let voter = match Address::of_word(&topics[2]) {
        Some(v) => v,
        None => { return None },
    };
    if legacy {
        if data.len() != 32 {
            return None;
        }
        Some(Vote { id: topics[1], decision: word_at(data, 0), voter, time: U256::zero() })
    } else {
        if data.len() != 64 {
            return None;
        }
        Some(Vote { id: topics[1], decision: word_at(data, 0), voter, time: word_at(data, 1) })
    }
}

/// Decodes a payload holding one dynamic array of addresses.
fn decode_addr_list(data: &Vec<u8>) -> (r: Option<Vec<Address>>)
    ensures
        match r {
            Some(list) => spec_decode_addr_list(data@) == Some(list@),
            None => spec_decode_addr_list(data@) is None,
        },
{
    let len: usize = data.len();
    if len < 64 || len % 32 != 0 {
        return None;
    }
    let w0 = word_at(data, 0);
    if !(w0.hi == 0 && w0.lo == 32) {
        return None;
    }
    let n: usize = (len - 64) / 32;
    let w1 = word_at(data, 1);
    if !(w1.hi == 0 && w1.lo == n as u128) {
        return None;
    }
    let mut out: Vec<Address> = Vec::new();
    let mut k: usize = 0;
    while k < n
        invariant
            k <= n,
            n == (data@.len() - 64) / 32,
            len == data@.len(),
            64 <= len,
            out@.len() == k,
            forall|m: int|
                0 <= m < k ==> Address::word_is_address(#[trigger] word_at_spec(data@, 2 + m))
                    && out@[m] == Address::of_word_spec(word_at_spec(data@, 2 + m)),
        decreases n - k,
    {
        assert(32 * (2 + k as int + 1) <= len);
        let w = word_at(data, 2 + k);
        match Address::of_word(&w) {
            Some(a) => { out.push(a) },
            None => {
                // An address word with set upper bytes: the whole
                // payload fails to decode.
                return None;
            },
        }
        k = k + 1;
    }
    proof {
        let n_int = (data@.len() - 64) / 32;
        assert(out@ =~= Seq::new(
            n_int as nat,
            |m: int| Address::of_word_spec(word_at_spec(data@, 2 + m)),
        ));
    }
    Some(out)
}

/// Decodes a full voter-set replacement, if the record has its shape.
pub fn decode_full_set(topics: &Vec<U256>, data: &Vec<u8>, sig: &U256) -> (r: Option<Vec<Address>>)
    ensures
        match r {
            Some(list) => spec_decode_full_set(topics@, data@, *sig) == Some(list@),
            None => spec_decode_full_set(topics@, data@, *sig) is None,
        },
{
    if topics.len() != 1 {
        return None;
    }
    if !(topics[0] == *sig) {
        return None;
    }
    decode_addr_list(data)
}

/// Decodes a legacy pending-set initiation, if the record has its shape.
pub fn decode_pending(topics: &Vec<U256>, data: &Vec<u8>, sig: &U256) -> (r: Option<
    (U256, Vec<Address>),
>)
    ensures
        match r {
            Some(p) => spec_decode_pending(topics@, data@, *sig) == Some((p.0, p.1@)),
            None => spec_decode_pending(topics@, data@, *sig) is None,
        },
{
    if topics.len() != 2 {
        return None;
    }
    if !(topics[0] == *sig) {
        return None;
    }
    match decode_addr_list(data) {
        Some(list) => Some((topics[1], list)),
        None => None,
    }
}

impl BallotCreated {
    /// Parses the record and returns a `BallotCreated`, if the record
    /// carries such an event under the given signature.
    pub fn from_log(log: &RawEvent, sig: &U256) -> (r: Result<BallotCreated, Error>)
        ensures
            match r {
                Ok(b) => spec_decode_ballot_created(log@.topics, log@.data, *sig) == Some(b),
                Err(e) => spec_decode_ballot_created(log@.topics, log@.data, *sig) is None && e
                    == Error::UnexpectedLogParams,
            },
    {
        match decode_ballot_created(&log.topics, &log.data, sig) {
            Some(b) => Ok(b),
            None => Err(Error::UnexpectedLogParams),
        }
    }

    /// Returns a topic filter to find the votes corresponding to this
    /// ballot: either generation's vote signature in the first topic,
    /// and this ballot's id in the second.
    pub fn vote_topic_filter(&self, schema: &SignatureSchema) -> (r: TopicQuery)
        ensures
            r@.topic0 == TopicChoiceV::OneOf(seq![schema.vote_v2, schema.vote_v1]),
            r@.topic1 == TopicChoiceV::This(self.id),
            r@.topic2 is Any,
            r@.topic3 is Any,
    {
        let mut sigs: Vec<U256> = Vec::new();
        sigs.push(schema.vote_v2);
        sigs.push(schema.vote_v1);
        proof {
            assert(sigs@ =~= seq![schema.vote_v2, schema.vote_v1]);
        }
        TopicQuery {
            topic0: TopicChoice::OneOf(sigs),
            topic1: TopicChoice::This(self.id),
            topic2: TopicChoice::Any,
            topic3: TopicChoice::Any,
        }
    }
}

impl Vote {
    /// Parses the record and returns a `Vote`, if the record carries
    /// such an event under the given signature and layout.
    pub fn from_log(log: &RawEvent, sig: &U256, legacy: bool) -> (r: Result<Vote, Error>)
        ensures
            match r {
                Ok(v) => if legacy {
                    spec_decode_vote_v1(log@.topics, log@.data, *sig) == Some(v)
                } else {
                    spec_decode_vote_v2(log@.topics, log@.data, *sig) == Some(v)
                },
                Err(e) => (if legacy {
                    spec_decode_vote_v1(log@.topics, log@.data, *sig) is None
                } else {
                    spec_decode_vote_v2(log@.topics, log@.data, *sig) is None
                }) && e == Error::UnexpectedLogParams,
            },
    {
        match decode_vote(&log.topics, &log.data, sig, legacy) {
            Some(v) => Ok(v),
            None => Err(Error::UnexpectedLogParams),
        }
    }
}

} // verus!
