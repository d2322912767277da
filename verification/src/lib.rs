//! Replay-and-tally engine for governance participation auditing on a
//! permissioned ledger: it reconstructs the authorized voter set from
//! an event stream, correlates ballots with their votes, and reports
//! each participant's compliance deterministically.
//!
//! The engine only computes: callers fetch raw log records and perform
//! read-only lookups, hand plain values in, and carry the returned
//! actions out.

pub mod addr;
pub mod classify;
pub mod contracts;
pub mod counter;
pub mod error;
pub mod events;
pub mod report;
pub mod schema;
pub mod stats;
pub mod tracker;
pub mod util;

pub use addr::Address;
pub use addr::U256;
pub use classify::Classification;
pub use classify::DomainEvent;
pub use contracts::ContractAddresses;
pub use contracts::ContractKind;
pub use contracts::ContractV1V2Addresses;
pub use contracts::Version;
pub use counter::BallotDetails;
pub use counter::Counter;
pub use counter::Step;
pub use error::Error;
pub use events::BallotCreated;
pub use events::KeyAction;
pub use events::RawEvent;
pub use events::Vote;
pub use report::DisplayLine;
pub use schema::ParamKind;
pub use schema::SignatureSchema;
pub use stats::Stats;
pub use stats::Validator;
pub use stats::VoterStats;
pub use tracker::VoterSet;
pub use tracker::VoterSetTracker;
pub use util::parse_address;
pub use util::HexBytes;
pub use util::HexList;
pub use util::TopicChoice;
pub use util::TopicQuery;
