//! The records that the cache stores for a block.

use vstd::prelude::*;

verus! {

/// What is known of one block. `block_timestamp` is the block's own time in
/// seconds; `update_time` is when the record entered the cache, in
/// microseconds since the Unix epoch.
#[derive(Clone, Debug, PartialEq, Eq)]
pub struct LatestBlockInfo {
    pub height: u32,
    pub state_root: String,
    pub block_hash: String,
    pub previous_hash: String,
    pub block_timestamp: i64,
    pub update_time: i64,
}

impl LatestBlockInfo {
    /// An equal record of its own.
    pub fn duplicate(&self) -> (r: LatestBlockInfo)
        ensures
            r == *self,
    {
        LatestBlockInfo {
            height: self.height,
            state_root: self.state_root.clone(),
            block_hash: self.block_hash.clone(),
            previous_hash: self.previous_hash.clone(),
            block_timestamp: self.block_timestamp,
            update_time: self.update_time,
        }
    }
}

/// The transactions of one block, with the time the list entered the cache.
#[derive(Clone, Debug, PartialEq, Eq)]
pub struct TransactionCache {
    /// Microseconds since the Unix epoch.
    pub create_time: i64,
    pub entries: Vec<String>,
}

impl Default for TransactionCache {
    /// No transactions, entered at the epoch.
    fn default() -> (c: TransactionCache)
        ensures
            c.create_time == 0,
            c.entries@.len() == 0,
    {
        TransactionCache { create_time: 0, entries: Vec::new() }
    }
}

} // verus!
