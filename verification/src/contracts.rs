//! The registry of deployed contract instances: which address belongs
//! to which protocol generation and contract kind.

use vstd::prelude::*;

use crate::addr::Address;

verus! {

/// A protocol generation. Newer generations are tried first when
/// classifying an event.
#[derive(Clone, Copy, PartialEq, Eq, Structural, Debug)]
pub enum Version {
    V1,
    V2,
}

/// The role a deployed contract plays within one protocol generation.
#[derive(Clone, Copy, PartialEq, Eq, Structural, Debug)]
pub enum ContractKind {
    KeysManager,
    Voting,
    Metadata,
    Consensus,
}

/// The contract addresses of one protocol generation.
#[derive(Clone, Copy, PartialEq, Eq, Structural, Debug)]
pub struct ContractV1V2Addresses {
    pub metadata_address: Address,
    pub keys_manager_address: Address,
    pub voting_to_change_keys_address: Address,
    pub poa_address: Address,
}

impl ContractV1V2Addresses {
    /// The address registered for the given contract kind.
    pub open spec fn addr_of(self, kind: ContractKind) -> Address {
        match kind {
            ContractKind::KeysManager => self.keys_manager_address,
            ContractKind::Voting => self.voting_to_change_keys_address,
            ContractKind::Metadata => self.metadata_address,
            ContractKind::Consensus => self.poa_address,
        }
    }
}

/// The full registry: one address group per protocol generation.
#[derive(Clone, Copy, PartialEq, Eq, Structural, Debug)]
pub struct ContractAddresses {
    pub v1: ContractV1V2Addresses,
    pub v2: ContractV1V2Addresses,
}

impl ContractAddresses {
    pub open spec fn group(self, version: Version) -> ContractV1V2Addresses {
        match version {
            Version::V1 => self.v1,
            Version::V2 => self.v2,
        }
    }

    /// Whether `addr` is the address registered for this version and kind.
    pub open spec fn registered_spec(self, addr: Address, version: Version, kind: ContractKind) -> bool {
        addr == self.group(version).addr_of(kind)
    }

    pub fn is_registered(&self, addr: &Address, version: Version, kind: ContractKind) -> (r: bool)
        ensures
            r == self.registered_spec(*addr, version, kind),
    {
        let group = match version {
            Version::V1 => &self.v1,
            Version::V2 => &self.v2,
        };
        let registered = match kind {
            ContractKind::KeysManager => &group.keys_manager_address,
            ContractKind::Voting => &group.voting_to_change_keys_address,
            ContractKind::Metadata => &group.metadata_address,
            ContractKind::Consensus => &group.poa_address,
        };
        *addr == *registered
    }

    /// Whether `addr` is a keys-manager instance of either generation.
    pub fn is_keys_manager(&self, addr: &Address) -> (r: bool)
        ensures
            r == (self.registered_spec(*addr, Version::V1, ContractKind::KeysManager)
                || self.registered_spec(*addr, Version::V2, ContractKind::KeysManager)),
    {
        *addr == self.v1.keys_manager_address || *addr == self.v2.keys_manager_address
    }

    /// Whether `addr` is a voting instance of either generation.
    pub fn is_voting(&self, addr: &Address) -> (r: bool)
        ensures
            r == (self.registered_spec(*addr, Version::V1, ContractKind::Voting)
                || self.registered_spec(*addr, Version::V2, ContractKind::Voting)),
    {
        *addr == self.v1.voting_to_change_keys_address
            || *addr == self.v2.voting_to_change_keys_address
    }

    /// Where `lookup` searches: newest generation first, and within one
    /// generation the keys manager, then voting, then metadata, then
    /// the consensus contract.
    pub open spec fn lookup_order() -> Seq<(Version, ContractKind)> {
        seq![
            (Version::V2, ContractKind::KeysManager),
            (Version::V2, ContractKind::Voting),
            (Version::V2, ContractKind::Metadata),
            (Version::V2, ContractKind::Consensus),
            (Version::V1, ContractKind::KeysManager),
            (Version::V1, ContractKind::Voting),
            (Version::V1, ContractKind::Metadata),
            (Version::V1, ContractKind::Consensus),
        ]
    }

    pub open spec fn lookup_spec(self, addr: Address) -> Option<(Version, ContractKind)> {
        self.lookup_from(addr, 0)
    }

    pub open spec fn lookup_from(self, addr: Address, i: int) -> Option<(Version, ContractKind)>
        decreases Self::lookup_order().len() - i,
    {
        if i < 0 || i >= Self::lookup_order().len() {
            None
        } else {
            let (version, kind) = Self::lookup_order()[i];
            if self.registered_spec(addr, version, kind) {
                Some((version, kind))
            } else {
                self.lookup_from(addr, i + 1)
            }
        }
    }

    /// Which deployment an address belongs to, if it is registered at
    /// all; an address registered more than once reports its place
    /// earliest in the lookup order.
    pub fn lookup(&self, addr: &Address) -> (r: Option<(Version, ContractKind)>)
        ensures
            r == self.lookup_spec(*addr),
    {
        proof {
            reveal_with_fuel(ContractAddresses::lookup_from, 9);
        }
        if *addr == self.v2.keys_manager_address {
            Some((Version::V2, ContractKind::KeysManager))
        } else if *addr == self.v2.voting_to_change_keys_address {
            Some((Version::V2, ContractKind::Voting))
        } else if *addr == self.v2.metadata_address {
            Some((Version::V2, ContractKind::Metadata))
        } else if *addr == self.v2.poa_address {
            Some((Version::V2, ContractKind::Consensus))
        } else if *addr == self.v1.keys_manager_address {
            Some((Version::V1, ContractKind::KeysManager))
        } else if *addr == self.v1.voting_to_change_keys_address {
            Some((Version::V1, ContractKind::Voting))
        } else if *addr == self.v1.metadata_address {
            Some((Version::V1, ContractKind::Metadata))
        } else if *addr == self.v1.poa_address {
            Some((Version::V1, ContractKind::Consensus))
        } else {
            None
        }
    }
}

} // verus!
