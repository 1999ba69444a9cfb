//! The genesis header of the main network.
use vstd::prelude::*;
use crate::packets::blockheader::{BlockHeaderOwned, spec_target, spec_header_hash_matches};
use super::compact::{spec_compact_target_bytes, byte_of};
use super::u256::{spec_le_value, lemma_le_value_zero};

verus! {

/// The bits of the genesis header: the easiest target.
pub const GENESIS_BITS: u32 = 0x1d00ffff;

/// The merkle root of the genesis block, in wire order.
pub const GENESIS_MERKLE_ROOT: [u8; 32] = [
    0x3b, 0xa3, 0xed, 0xfd, 0x7a, 0x7b, 0x12, 0xb2, 0x7a, 0xc7, 0x2c, 0x3e, 0x67, 0x76, 0x8f, 0x61,
    0x7f, 0xc8, 0x1b, 0xc3, 0x88, 0x8a, 0x51, 0x32, 0x3a, 0x9f, 0xb8, 0xaa, 0x4b, 0x1e, 0x5e, 0x4a,
];

/// The target of the genesis bits is not zero.
pub proof fn lemma_genesis_target_positive()
    ensures
        spec_target(GENESIS_BITS) > 0,
{
    let t = spec_compact_target_bytes(GENESIS_BITS);
    assert((0x00ffffu32 & 0xffu32) == 0xffu32) by (bit_vector);
    assert(byte_of(0x00ffffu32, 0) == 0xff);
    assert((GENESIS_BITS >> 24u32) == 29) by (bit_vector);
    assert((GENESIS_BITS & 0x007fffffu32) == 0x00ffffu32) by (bit_vector);
    assert(t[26] == 0xff);
    lemma_le_value_zero(t);
}

/// `h` is the genesis header of the main network, its hash included.
pub open spec fn spec_is_genesis(h: BlockHeaderOwned) -> bool {
    &&& h.version == 1
    &&& h.parent@ == Seq::new(32, |i: int| 0u8)
    &&& h.merkle_root == GENESIS_MERKLE_ROOT
    &&& h.timestamp == 1231006505
    &&& h.bits == GENESIS_BITS
    &&& h.nonce == 2083236893
    &&& h.txs_count == 0
    &&& spec_header_hash_matches(h@)
}

/// The genesis header of the main network.
pub fn genesis_header() -> (r: BlockHeaderOwned)
    ensures
        spec_is_genesis(r),
        spec_target(r.bits) > 0,
{
    proof {
        lemma_genesis_target_positive();
        vstd::array::axiom_spec_array_fill_for_copy_type::<u8, 32>(0u8);
    }
    let parent = [0u8; 32];
    assert(parent@ =~= Seq::new(32, |i: int| 0u8));
    BlockHeaderOwned::construct(1, parent, GENESIS_MERKLE_ROOT, 1231006505, GENESIS_BITS, 2083236893, 0)
}

} // verus!
