//! Well-known metadata keys.
use vstd::prelude::*;

verus! {

/// The key of the chain tip: `chain_tip`.
pub const CHAIN_TIP: [u8; 9] = [99, 104, 97, 105, 110, 95, 116, 105, 112];

/// The key of the genesis hash: `genesis_hash`.
pub const GENESIS_HASH: [u8; 12] = [103, 101, 110, 101, 115, 105, 115, 95, 104, 97, 115, 104];

/// The key of the block height: `block_height`.
pub const BLOCK_HEIGHT: [u8; 12] = [98, 108, 111, 99, 107, 95, 104, 101, 105, 103, 104, 116];

} // verus!
