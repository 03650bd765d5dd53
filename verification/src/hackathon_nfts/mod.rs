//! The hackathon NFT contract, whose holders are owed the pizza airdrop.

pub mod contract;
pub mod msg;
pub mod state;
