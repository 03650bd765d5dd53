//! The errors that the contracts return.

use vstd::prelude::*;

verus! {

/// Why a contract refused a message.
#[derive(Debug)]
pub enum ContractError {
    /// The sender may not do this: it does not hold what the message names,
    /// or the contract accepts no such message.
    Unauthorized {},
}

} // verus!
