//! The messages that the Pizzatown contract accepts and the answers it gives.

use vstd::prelude::*;
use crate::state::{NftPieData, NftPizzaData};

verus! {

/// The message that sets the contract up.
#[derive(Debug)]
pub struct InstantiateMsg {}

/// The messages that change the contract's state.
#[derive(Debug)]
pub enum ExecuteMsg {
    /// Mint a random pizza for the sender (and, once, an airdrop pizza).
    MintPizza {},
    /// Combine two of the sender's pizzas into a random pie.
    MintPie { pizza_a_id: String, pizza_b_id: String },
}

/// The questions that the contract answers.
#[derive(Debug)]
pub enum QueryMsg {
    /// The NFTs that `address` owns.
    Inventory { address: String },
}

/// The NFTs of one address.
#[derive(Debug)]
pub struct InventoryResponse {
    pub address: String,
    pub pizzas: Vec<NftPizzaData>,
    pub pies: Vec<NftPieData>,
}

} // verus!
