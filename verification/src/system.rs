//! The reserved names that stand where a wallet address would.

use vstd::prelude::*;

verus! {

/// The recipient of a transaction that stakes its amount.
pub const STAKE_WALLET: &'static str = "STAKE";

/// The recipient of a transaction that takes its amount out of the stake.
pub const UNSTAKE_WALLET: &'static str = "UNSTAKE";

/// The sender and the signature of the transactions of the genesis manifest.
pub const GENESIS: &'static str = "GENESIS";

} // verus!
