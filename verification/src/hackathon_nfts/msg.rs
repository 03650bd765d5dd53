//! The messages of the hackathon NFT contract.

use vstd::prelude::*;

verus! {

/// The message that sets the contract up.
#[derive(Debug)]
pub struct InstantiateMsg {}

/// A message to change the contract's state; the contract accepts none.
#[derive(Debug)]
pub struct ExecuteMsg {}

/// The questions that the contract answers.
#[derive(Debug)]
pub enum QueryMsg {
    /// How many of the token `token_id` the address `owner` holds.
    Balance { owner: String, token_id: String },
    /// Where the token `token_id` is described.
    TokenInfo { token_id: String },
}

/// The number of tokens held.
#[derive(Debug)]
pub struct BalanceResponse {
    pub balance: u128,
}

/// Where a token is described.
#[derive(Debug)]
pub struct TokenInfoResponse {
    pub url: String,
}

/// The answer to a query.
#[derive(Debug)]
pub enum QueryResponse {
    Balance(BalanceResponse),
    TokenInfo(TokenInfoResponse),
}

} // verus!
