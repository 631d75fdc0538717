//! The block record that is pushed to the other side of the link.

use vstd::prelude::*;

verus! {

/// What is pushed for one block.
#[derive(Clone, Debug, PartialEq, Eq)]
pub struct SnarkOSBlockInfo {
    pub height: u32,
    pub state_root: String,
    pub block_hash: String,
    pub previous_hash: String,
    pub block_timestamp: i64,
}

/// The record of the block at `height` from what the block store gave for
/// it. Partial data is never forwarded: with one of the four parts missing
/// there is no record.
pub open spec fn spec_block_info(
    height: u32,
    block_hash: Option<String>,
    state_root: Option<String>,
    previous_hash: Option<String>,
    block_timestamp: Option<i64>,
) -> Option<SnarkOSBlockInfo> {
    if block_hash.is_some() && state_root.is_some() && previous_hash.is_some()
        && block_timestamp.is_some() {
        Some(
            SnarkOSBlockInfo {
                height,
                state_root: state_root.unwrap(),
                block_hash: block_hash.unwrap(),
                previous_hash: previous_hash.unwrap(),
                block_timestamp: block_timestamp.unwrap(),
            },
        )
    } else {
        None
    }
}

/// Assembles the record of the block at `height` from the four lookups in
/// the block store.
pub fn get_block_info_for_height(
    height: u32,
    block_hash: Option<String>,
    state_root: Option<String>,
    previous_hash: Option<String>,
    block_timestamp: Option<i64>,
) -> (r: Option<SnarkOSBlockInfo>)
    ensures
        r == spec_block_info(height, block_hash, state_root, previous_hash, block_timestamp),
{
    match (block_hash, state_root, previous_hash, block_timestamp) {
        (Some(block_hash), Some(state_root), Some(previous_hash), Some(block_timestamp)) => Some(
            SnarkOSBlockInfo { height, state_root, block_hash, previous_hash, block_timestamp },
        ),
        _ => None,
    }
}

} // verus!
