//! The state of the hackathon NFT contract: its version record, and
//! nothing else.

use vstd::prelude::*;
use crate::state::ContractVersion;

verus! {

/// What the hackathon NFT contract stores.
pub struct HackathonStore {
    contract_version: Option<ContractVersion>,
}

impl HackathonStore {
    /// The contract's name and version, once recorded.
    pub closed spec fn version(&self) -> Option<(Seq<char>, Seq<char>)> {
        match self.contract_version {
            Some(v) => Some((v.contract@, v.version@)),
            None => None,
        }
    }

    /// The state of a contract that has recorded nothing.
    pub fn new() -> (s: Self)
        ensures
            s.version() == None::<(Seq<char>, Seq<char>)>,
    {
        HackathonStore { contract_version: None }
    }

    /// Records the contract's name and version.
    pub fn set_contract_version(&mut self, contract: &str, version: &str)
        ensures
            final(self).version() == Some((contract@, version@)),
    {
        self.contract_version = Some(ContractVersion {
            contract: contract.to_owned(),
            version: version.to_owned(),
        });
    }
}

} // verus!
