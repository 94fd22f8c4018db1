//! Core of a blockchain-node controller: transaction admission with a
//! bounded replay window, a bounded transaction pool, a chained system
//! configuration, and a fork tree with longest-chain finalization under a
//! block-delay buffer.
//!
//! All interaction with the surrounding services (storage, key management,
//! executor, consensus, network) happens outside this crate: callers load or
//! compute those values and pass them in, and every state transition here is
//! verified.

use vstd::prelude::*;

pub mod auth;
pub mod chain;
pub mod codec;
pub mod controller;
pub mod error;
pub mod genesis;
pub mod pool;
pub mod types;
pub mod util;
pub mod utxo_set;

verus! {

/// Depth of the replay-prevention window, in blocks; also the largest gap
/// `valid_until_block` may span above the current height.
pub const BLOCKLIMIT: u64 = 100;

} // verus!
