//! The topic-0 signatures that identify each event layout. They are
//! Keccak-256 hashes of the event declarations, computed by the ABI
//! library; the classifier itself only ever compares them.

use vstd::prelude::*;

use crate::addr::U256;

verus! {

/// The parameter types an event signature is computed from.
#[derive(Clone, Copy, PartialEq, Eq, Structural, Debug)]
pub enum ParamKind {
    Addr,
    Uint,
    Str,
    Bytes32,
    AddrArray,
}

/// The 32-byte signature hash that the ABI library computes from an
/// event's name and parameter types; a function of those two alone.
pub uninterp spec fn signature_hash_of(name: Seq<char>, params: Seq<ParamKind>) -> U256;

/// Relies on ethabi::long_signature: the Keccak-256 signature hash of
/// an event depends on its name and parameter types alone.
#[verifier::external_body]
fn long_signature_hash(name: &str, params: &Vec<ParamKind>) -> (r: U256)
    ensures
        r == signature_hash_of(name@, params@),
{
    let kinds: Vec<ethabi::ParamType> = params.iter().map(|p| match p {
        ParamKind::Addr => ethabi::ParamType::Address,
        ParamKind::Uint => ethabi::ParamType::Uint(256),
        ParamKind::Str => ethabi::ParamType::String,
        ParamKind::Bytes32 => ethabi::ParamType::FixedBytes(32),
        ParamKind::AddrArray => ethabi::ParamType::Array(Box::new(ethabi::ParamType::Address)),
    }).collect();
    let h = ethabi::long_signature(name, &kinds);
    U256 {
        hi: u128::from_be_bytes(h.as_bytes()[..16].try_into().unwrap()),
        lo: u128::from_be_bytes(h.as_bytes()[16..].try_into().unwrap()),
    }
}

/// The topic-0 signature of each event layout the classifier knows,
/// one per protocol generation that emits it.
#[derive(Clone, Copy, PartialEq, Eq, Structural, Debug)]
pub struct SignatureSchema {
    pub key_change_v2: U256,
    pub full_set_v2: U256,
    pub ballot_v2: U256,
    pub vote_v2: U256,
    pub ballot_v1: U256,
    pub vote_v1: U256,
    pub pending_v1: U256,
}

impl SignatureSchema {
    /// The signatures of the governance events this engine replays.
    ///
    /// Both generations declare ballot creation with the same name and
    /// parameters, so those two signatures collide on purpose; the
    /// registry of contract addresses is what tells them apart.
    pub fn poa_default() -> (r: SignatureSchema)
        ensures
            r.key_change_v2 == signature_hash_of(
                "VotingKeyChanged"@,
                seq![ParamKind::Addr, ParamKind::Str],
            ),
            r.full_set_v2 == signature_hash_of("ChangeFinalized"@, seq![ParamKind::AddrArray]),
            r.ballot_v2 == signature_hash_of(
                "BallotCreated"@,
                seq![ParamKind::Uint, ParamKind::Uint, ParamKind::Addr],
            ),
            r.vote_v2 == signature_hash_of(
                "Vote"@,
                seq![ParamKind::Uint, ParamKind::Uint, ParamKind::Addr, ParamKind::Uint],
            ),
            r.ballot_v1 == r.ballot_v2,
            r.vote_v1 == signature_hash_of(
                "Vote"@,
                seq![ParamKind::Uint, ParamKind::Uint, ParamKind::Addr],
            ),
            r.pending_v1 == signature_hash_of(
                "InitiateChange"@,
                seq![ParamKind::Bytes32, ParamKind::AddrArray],
            ),
    {
        let mut key_change_params: Vec<ParamKind> = Vec::new();
        key_change_params.push(ParamKind::Addr);
        key_change_params.push(ParamKind::Str);
        assert(key_change_params@ =~= seq![ParamKind::Addr, ParamKind::Str]);

        let mut full_set_params: Vec<ParamKind> = Vec::new();
        full_set_params.push(ParamKind::AddrArray);
        assert(full_set_params@ =~= seq![ParamKind::AddrArray]);

        let mut ballot_params: Vec<ParamKind> = Vec::new();
        ballot_params.push(ParamKind::Uint);
        ballot_params.push(ParamKind::Uint);
        ballot_params.push(ParamKind::Addr);
        assert(ballot_params@ =~= seq![ParamKind::Uint, ParamKind::Uint, ParamKind::Addr]);

        let mut vote_v2_params: Vec<ParamKind> = Vec::new();
        vote_v2_params.push(ParamKind::Uint);
        vote_v2_params.push(ParamKind::Uint);
        vote_v2_params.push(ParamKind::Addr);
        vote_v2_params.push(ParamKind::Uint);
        assert(vote_v2_params@ =~= seq![
            ParamKind::Uint,
            ParamKind::Uint,
            ParamKind::Addr,
            ParamKind::Uint,
        ]);

        let mut vote_v1_params: Vec<ParamKind> = Vec::new();
        vote_v1_params.push(ParamKind::Uint);
        vote_v1_params.push(ParamKind::Uint);
        vote_v1_params.push(ParamKind::Addr);
        assert(vote_v1_params@ =~= seq![ParamKind::Uint, ParamKind::Uint, ParamKind::Addr]);

        let mut pending_params: Vec<ParamKind> = Vec::new();
        pending_params.push(ParamKind::Bytes32);
        pending_params.push(ParamKind::AddrArray);
        assert(pending_params@ =~= seq![ParamKind::Bytes32, ParamKind::AddrArray]);

        SignatureSchema {
            key_change_v2: long_signature_hash("VotingKeyChanged", &key_change_params),
            full_set_v2: long_signature_hash("ChangeFinalized", &full_set_params),
            ballot_v2: long_signature_hash("BallotCreated", &ballot_params),
            vote_v2: long_signature_hash("Vote", &vote_v2_params),
            ballot_v1: long_signature_hash("BallotCreated", &ballot_params),
            vote_v1: long_signature_hash("Vote", &vote_v1_params),
            pending_v1: long_signature_hash("InitiateChange", &pending_params),
        }
    }
}

} // verus!
