//! The hackathon NFT contract: every address holds one token, every token
//! is described at the same address, and no message changes anything.

use vstd::prelude::*;
use crate::error::ContractError;
use crate::response::{ContractResponse, add_attribute, response_attributes,
    response_message_count, response_new};
use crate::hackathon_nfts::state::HackathonStore;
use crate::hackathon_nfts::msg::{BalanceResponse, ExecuteMsg, InstantiateMsg, QueryMsg,
    QueryResponse, TokenInfoResponse};

verus! {

/// The name under which the contract records its version.
pub const CONTRACT_NAME: &'static str = "pizzatown:hackathon_nfts";

/// Where every token is described.
pub const TOKEN_URL: &'static str = "https://www.terra.money/";

/// The answer to setting the contract up: the method, and no messages.
pub fn instantiate_response() -> (r: ContractResponse)
    ensures
        response_message_count(r) == 0,
        response_attributes(r) == seq![("method"@, "instantiate"@)],
{
    proof {
        reveal_strlit("method");
    }
    add_attribute(response_new(), "method", "instantiate")
}

/// Sets the contract up: records its name `CONTRACT_NAME` and `version`,
/// the only thing it stores, and answers with the method.
pub fn instantiate(store: &mut HackathonStore, version: &str, _msg: InstantiateMsg) -> (r: Result<
    ContractResponse,
    ContractError,
>)
    ensures
        r matches Ok(resp) && response_message_count(resp) == 0
            && response_attributes(resp) == seq![("method"@, "instantiate"@)],
        final(store).version() == Some((CONTRACT_NAME@, version@)),
{
    store.set_contract_version(CONTRACT_NAME, version);
    Ok(instantiate_response())
}

/// Every message is refused.
pub fn execute(_msg: ExecuteMsg) -> (r: Result<ContractResponse, ContractError>)
    ensures
        r matches Err(ContractError::Unauthorized {}),
{
    Err(ContractError::Unauthorized {})
}

/// Answers a query.
pub fn query(msg: QueryMsg) -> (r: QueryResponse)
    ensures
        msg is Balance ==> (r matches QueryResponse::Balance(b) && b.balance == 1),
        msg is TokenInfo ==> (r matches QueryResponse::TokenInfo(t) && t.url@ == TOKEN_URL@),
{
    match msg {
        QueryMsg::Balance { .. } => QueryResponse::Balance(query_balance()),
        QueryMsg::TokenInfo { .. } => QueryResponse::TokenInfo(query_token_info()),
    }
}

/// Every address holds one token.
pub fn query_balance() -> (r: BalanceResponse)
    ensures
        r.balance == 1,
{
    BalanceResponse { balance: 1 }
}

/// Every token is described at `TOKEN_URL`.
pub fn query_token_info() -> (r: TokenInfoResponse)
    ensures
        r.url@ == TOKEN_URL@,
{
    TokenInfoResponse { url: TOKEN_URL.to_owned() }
}

} // verus!
