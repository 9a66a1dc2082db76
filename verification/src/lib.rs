//! Core of a proof-of-stake ledger: signed transactions, stake-weighted
//! proposer election, block production and the storage indexes behind them.

pub mod block;
pub mod blockchain;
pub mod codec;
pub mod config;
pub mod crypto;
pub mod election;
pub mod error;
pub mod node;
pub mod numeric;
pub mod stake;
pub mod storage;
pub mod system;
pub mod tx;
pub mod wallet;
