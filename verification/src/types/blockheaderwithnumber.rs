//! A known header with its height, whether its body is stored, and the
//! work of the chain up to it.
use vstd::prelude::*;
use crate::packets::blockheader::BlockHeaderOwned;

verus! {

/// A header placed in the chain.
#[derive(Clone, Copy, Debug)]
pub struct BlockHeaderWithNumber {
    pub header: BlockHeaderOwned,
    /// Its height: the genesis header is at 0.
    pub number: u64,
    /// Whether its block has been downloaded and applied.
    pub fetched_full: bool,
    /// The work of the chain ending in it, as 32 little-endian bytes.
    pub total_work: [u8; 32],
}

} // verus!
