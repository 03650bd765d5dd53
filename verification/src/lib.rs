//! A verified model of the Pizzatown NFT contracts: a game contract in which
//! players mint randomly generated pizza NFTs, receive a one-time airdrop
//! pizza when they hold a hackathon NFT, and combine two pizzas into a pie.

pub mod bytes;
pub mod storage;
pub mod utils;
pub mod state;
pub mod response;
pub mod error;
pub mod msg;
pub mod hackathon_nfts;
pub mod contract;
pub mod laws;
