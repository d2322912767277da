//! The event classifier: decodes one raw record into one typed domain
//! event, trying the newest protocol generation first and accepting a
//! decoder's parse only when the emitting address is registered for
//! that decoder's generation and contract kind.

use vstd::prelude::*;

use crate::addr::{Address, U256};
use crate::contracts::{ContractAddresses, ContractKind, Version};
use crate::events::{
    decode_ballot_created, decode_full_set, decode_key_change, decode_pending, decode_vote,
    spec_decode_ballot_created, spec_decode_full_set, spec_decode_key_change, spec_decode_pending,
    spec_decode_vote_v1, spec_decode_vote_v2, BallotCreated, KeyAction, RawEvent, RawEventV, Vote,
};
use crate::schema::SignatureSchema;

verus! {

/// One typed governance event, the closed vocabulary of the replay.
pub enum DomainEvent {
    KeyChange { action: KeyAction, key: Address },
    FullSetReplace { new_set: Vec<Address> },
    PendingSetInitiated { parent_hash: U256, candidate_set: Vec<Address> },
    BallotCreated(BallotCreated),
    Vote(Vote),
}

/// The mathematical content of a domain event.
pub ghost enum DomainEventV {
    KeyChange { action: KeyAction, key: Address },
    FullSetReplace { new_set: Seq<Address> },
    PendingSetInitiated { parent_hash: U256, candidate_set: Seq<Address> },
    BallotCreated(BallotCreated),
    Vote(Vote),
}

impl View for DomainEvent {
    type V = DomainEventV;

    open spec fn view(&self) -> DomainEventV {
        match self {
            DomainEvent::KeyChange { action, key } => DomainEventV::KeyChange {
                action: *action,
                key: *key,
            },
            DomainEvent::FullSetReplace { new_set } => DomainEventV::FullSetReplace {
                new_set: new_set@,
            },
            DomainEvent::PendingSetInitiated { parent_hash, candidate_set } => DomainEventV::PendingSetInitiated {
                parent_hash: *parent_hash,
                candidate_set: candidate_set@,
            },
            DomainEvent::BallotCreated(b) => DomainEventV::BallotCreated(*b),
            DomainEvent::Vote(v) => DomainEventV::Vote(*v),
        }
    }
}

/// What classification found in a raw record.
pub enum Classification {
    /// The record decoded under some generation's layout and its
    /// emitter is registered for that generation: a real event.
    Recognized { version: Version, event: DomainEvent },
    /// The record decoded under some layout, but no decoder that
    /// parsed it found the emitter registered: the record belongs to
    /// another deployment and is silently discarded.
    Dropped,
    /// No decoder parsed the record: a schema this engine does not
    /// understand, which callers treat as fatal.
    Unrecognized,
}

/// The mathematical content of a classification.
pub ghost enum ClassificationV {
    Recognized { version: Version, event: DomainEventV },
    Dropped,
    Unrecognized,
}

impl View for Classification {
    type V = ClassificationV;

    open spec fn view(&self) -> ClassificationV {
        match self {
            Classification::Recognized { version, event } => ClassificationV::Recognized {
                version: *version,
                event: event@,
            },
            Classification::Dropped => ClassificationV::Dropped,
            Classification::Unrecognized => ClassificationV::Unrecognized,
        }
    }
}

/// Whether any decoder at all parses the record's shape.
pub open spec fn spec_parses_any(raw: RawEventV, schema: SignatureSchema) -> bool {
    spec_decode_key_change(raw.topics, raw.data, schema.key_change_v2) is Some
        || spec_decode_full_set(raw.topics, raw.data, schema.full_set_v2) is Some
        || spec_decode_ballot_created(raw.topics, raw.data, schema.ballot_v2) is Some
        || spec_decode_vote_v2(raw.topics, raw.data, schema.vote_v2) is Some
        || spec_decode_ballot_created(raw.topics, raw.data, schema.ballot_v1) is Some
        || spec_decode_vote_v1(raw.topics, raw.data, schema.vote_v1) is Some
        || spec_decode_pending(raw.topics, raw.data, schema.pending_v1) is Some
}

/// The classification of one raw record: the first decoder, in
/// priority order (newest generation first, legacy last), that both
/// parses the payload shape and finds the emitting address registered
/// for its generation and kind wins. A record that parses somewhere
/// but is registered nowhere is dropped; one that parses nowhere is
/// unrecognized.
pub open spec fn spec_classify(
    raw: RawEventV,
    schema: SignatureSchema,
    addrs: ContractAddresses,
) -> ClassificationV {
    let kc = spec_decode_key_change(raw.topics, raw.data, schema.key_change_v2);
    let fs = spec_decode_full_set(raw.topics, raw.data, schema.full_set_v2);
    let b2 = spec_decode_ballot_created(raw.topics, raw.data, schema.ballot_v2);
    let v2 = spec_decode_vote_v2(raw.topics, raw.data, schema.vote_v2);
    let b1 = spec_decode_ballot_created(raw.topics, raw.data, schema.ballot_v1);
    let v1 = spec_decode_vote_v1(raw.topics, raw.data, schema.vote_v1);
    let pd = spec_decode_pending(raw.topics, raw.data, schema.pending_v1);
    if kc is Some && addrs.registered_spec(raw.address, Version::V2, ContractKind::KeysManager) {
        ClassificationV::Recognized {
            version: Version::V2,
            event: DomainEventV::KeyChange { action: kc->Some_0.0, key: kc->Some_0.1 },
        }
    } else if fs is Some && addrs.registered_spec(
        raw.address,
        Version::V2,
        ContractKind::Consensus,
    ) {
        ClassificationV::Recognized {
            version: Version::V2,
            event: DomainEventV::FullSetReplace { new_set: fs->Some_0 },
        }
    } else if b2 is Some && addrs.registered_spec(raw.address, Version::V2, ContractKind::Voting) {
        ClassificationV::Recognized {
            version: Version::V2,
            event: DomainEventV::BallotCreated(b2->Some_0),
        }
    } else if v2 is Some && addrs.registered_spec(raw.address, Version::V2, ContractKind::Voting) {
        ClassificationV::Recognized { version: Version::V2, event: DomainEventV::Vote(v2->Some_0) }
    } else if b1 is Some && addrs.registered_spec(raw.address, Version::V1, ContractKind::Voting) {
        ClassificationV::Recognized {
            version: Version::V1,
            event: DomainEventV::BallotCreated(b1->Some_0),
        }
    } else if v1 is Some && addrs.registered_spec(raw.address, Version::V1, ContractKind::Voting) {
        ClassificationV::Recognized { version: Version::V1, event: DomainEventV::Vote(v1->Some_0) }
    } else if pd is Some && addrs.registered_spec(
        raw.address,
        Version::V1,
        ContractKind::Consensus,
    ) {
        ClassificationV::Recognized {
            version: Version::V1,
            event: DomainEventV::PendingSetInitiated {
                parent_hash: pd->Some_0.0,
                candidate_set: pd->Some_0.1,
            },
        }
    } else if spec_parses_any(raw, schema) {
        ClassificationV::Dropped
    } else {
        ClassificationV::Unrecognized
    }
}

/// Decodes one raw record into a typed domain event, if any decoder
/// parses it and its emitter is registered for that decoder.
pub fn classify(raw: &RawEvent, schema: &SignatureSchema, addrs: &ContractAddresses) -> (c:
    Classification)
    ensures
        c@ == spec_classify(raw@, *schema, *addrs),
{
    let mut parsed = false;
    match decode_key_change(&raw.topics, &raw.data, &schema.key_change_v2) {
        Some((action, key)) => {
            if addrs.is_registered(&raw.address, Version::V2, ContractKind::KeysManager) {
                return Classification::Recognized {
                    version: Version::V2,
                    event: DomainEvent::KeyChange { action, key },
                };
            }
            parsed = true;
        },
        None => {},
    }
    match decode_full_set(&raw.topics, &raw.data, &schema.full_set_v2) {
        Some(new_set) => {
            if addrs.is_registered(&raw.address, Version::V2, ContractKind::Consensus) {
                return Classification::Recognized {
                    version: Version::V2,
                    event: DomainEvent::FullSetReplace { new_set },
                };
            }
            parsed = true;
        },
        None => {},
    }
    match decode_ballot_created(&raw.topics, &raw.data, &schema.ballot_v2) {
        Some(b) => {
            if addrs.is_registered(&raw.address, Version::V2, ContractKind::Voting) {
                return Classification::Recognized {
                    version: Version::V2,
                    event: DomainEvent::BallotCreated(b),
                };
            }
            parsed = true;
        },
        None => {},
    }
    match decode_vote(&raw.topics, &raw.data, &schema.vote_v2, false) {
        Some(v) => {
            if addrs.is_registered(&raw.address, Version::V2, ContractKind::Voting) {
                return Classification::Recognized {
                    version: Version::V2,
                    event: DomainEvent::Vote(v),
                };
            }
            parsed = true;
        },
        None => {},
    }
    match decode_ballot_created(&raw.topics, &raw.data, &schema.ballot_v1) {
        Some(b) => {
            if addrs.is_registered(&raw.address, Version::V1, ContractKind::Voting) {
                return Classification::Recognized {
                    version: Version::V1,
                    event: DomainEvent::BallotCreated(b),
                };
            }
            parsed = true;
        },
        None => {},
    }
    match decode_vote(&raw.topics, &raw.data, &schema.vote_v1, true) {
        Some(v) => {
            if addrs.is_registered(&raw.address, Version::V1, ContractKind::Voting) {
                return Classification::Recognized {
                    version: Version::V1,
                    event: DomainEvent::Vote(v),
                };
            }
            parsed = true;
        },
        None => {},
    }
    match decode_pending(&raw.topics, &raw.data, &schema.pending_v1) {
        Some((parent_hash, candidate_set)) => {
            if addrs.is_registered(&raw.address, Version::V1, ContractKind::Consensus) {
                return Classification::Recognized {
                    version: Version::V1,
                    event: DomainEvent::PendingSetInitiated { parent_hash, candidate_set },
                };
            }
            parsed = true;
        },
        None => {},
    }
    if parsed {
        Classification::Dropped
    } else {
        Classification::Unrecognized
    }
}

} // verus!
