//! The contract's responses: a `cosmwasm_std::Response`, built from
//! attributes.

use vstd::prelude::*;

verus! {

/// A response of a contract entry point. The chain's `Response` type is held
/// whole; what the contracts state of it is its attributes and the number of
/// messages it carries.
#[verifier::external_body]
pub struct ContractResponse {
    pub response: cosmwasm_std::Response,
}

/// The attributes that a response carries, as (key, value) pairs in order.
pub uninterp spec fn response_attributes(r: ContractResponse) -> Seq<(Seq<char>, Seq<char>)>;

/// The number of messages that a response asks the chain to run.
pub uninterp spec fn response_message_count(r: ContractResponse) -> nat;

/// `Response::new`: a response with no attributes and no messages (the
/// source builds it from `Default`, with empty vectors).
#[verifier::external_body]
pub(crate) fn response_new() -> (r: ContractResponse)
    ensures
        response_attributes(r) == Seq::<(Seq<char>, Seq<char>)>::empty(),
        response_message_count(r) == 0,
{
    ContractResponse { response: cosmwasm_std::Response::new() }
}

/// `Response::add_attribute`: pushes one attribute whose key and value are
/// the given strings, and leaves the messages as they were. `Attribute::new`
/// panics in debug builds on a key that starts with an underscore, so such
/// keys are left out.
#[verifier::external_body]
pub(crate) fn add_attribute(r: ContractResponse, key: &str, value: &str) -> (out: ContractResponse)
    requires
        key@.len() == 0 || key@[0] != '_',
    ensures
        response_attributes(out) == response_attributes(r).push((key@, value@)),
        response_message_count(out) == response_message_count(r),
{
    ContractResponse { response: r.response.add_attribute(key, value) }
}

} // verus!
