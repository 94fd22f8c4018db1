//! The genesis block: height zero, an empty body, and a configured
//! timestamp and previous hash.

use vstd::prelude::*;

use crate::types::{Block, BlockHeader};
use crate::util::copy_bytes;

verus! {

/// What the genesis block is built from.
pub struct GenesisBlock {
    pub timestamp: u64,
    pub prevhash: Vec<u8>,
}

impl GenesisBlock {
    /// A genesis description with the given timestamp and previous hash.
    pub fn new(timestamp: u64, prevhash: Vec<u8>) -> (r: GenesisBlock)
        ensures
            r.timestamp == timestamp,
            r.prevhash@ == prevhash@,
    {
        GenesisBlock { timestamp, prevhash }
    }

    /// The genesis block itself: height zero, no transactions, no proof.
    pub fn genesis_block(&self) -> (r: Block)
        ensures
            r@.version == 0,
            r@.header.height == 0,
            r@.header.prevhash == self.prevhash@,
            r@.header.timestamp == self.timestamp,
            r@.header.transactions_root.len() == 0,
            r@.header.proposer.len() == 0,
            r@.body.len() == 0,
            r@.proof.len() == 0,
    {
        Block {
            version: 0,
            header: BlockHeader {
                prevhash: copy_bytes(&self.prevhash),
                timestamp: self.timestamp,
                height: 0,
                transactions_root: Vec::new(),
                proposer: Vec::new(),
            },
            body: Vec::new(),
            proof: Vec::new(),
        }
    }
}

} // verus!
