//! Bitcoin's compact encoding of a 256-bit target ("nBits").
use vstd::prelude::*;
use super::u256::{spec_le_value, u256_modulus, lemma_top_byte_small, lemma_low_byte_zero};

verus! {

broadcast use vstd::seq_lib::group_seq_properties;

/// The exponent of a compact target: how many bytes the target has.
pub open spec fn spec_compact_size(bits: u32) -> int {
    (bits >> 24u32) as int
}

/// The 23-bit mantissa of a compact target.
pub open spec fn spec_compact_word(bits: u32) -> u32 {
    bits & 0x007fffffu32
}

/// Byte `k` (0 is the lowest) of a 32-bit number.
pub open spec fn byte_of(w: u32, k: int) -> u8 {
    if k == 0 {
        (w & 0xff) as u8
    } else if k == 1 {
        ((w >> 8u32) & 0xff) as u8
    } else if k == 2 {
        ((w >> 16u32) & 0xff) as u8
    } else {
        0
    }
}

/// The little-endian bytes of the target that `bits` encodes: the mantissa
/// shifted up by `size - 3` bytes (bytes shifted past the top are lost),
/// or shifted down by `3 - size` bytes when `size` is below 3.
pub open spec fn spec_compact_target_bytes(bits: u32) -> Seq<u8> {
    let size = spec_compact_size(bits);
    let word = spec_compact_word(bits);
    if size <= 3 {
        let w = (word >> ((8 * (3 - size)) as u32)) as u32;
        Seq::new(32, |i: int| byte_of(w, i))
    } else {
        Seq::new(32, |i: int| if size - 3 <= i < size { byte_of(word, i - (size - 3)) } else { 0u8 })
    }
}

/// Byte `k` (0 is the lowest) of a 32-bit number.
fn exec_byte_of(w: u32, k: u32) -> (r: u8)
    ensures
        r == byte_of(w, k as int),
{
    if k == 0 {
        (w & 0xff) as u8
    } else if k == 1 {
        ((w >> 8u32) & 0xff) as u8
    } else if k == 2 {
        ((w >> 16u32) & 0xff) as u8
    } else {
        0
    }
}

/// Byte `i` of the target that `bits` encodes.
fn target_byte(bits: u32, i: u32) -> (r: u8)
    requires
        i < 32,
    ensures
        r == spec_compact_target_bytes(bits)[i as int],
{
    let size: u32 = bits >> 24u32;
    let word: u32 = bits & 0x007fffffu32;
    if size <= 3 {
        let w: u32 = word >> (8 * (3 - size));
        exec_byte_of(w, i)
    } else if size - 3 <= i && i < size {
        exec_byte_of(word, i - (size - 3))
    } else {
        0
    }
}

/// The target that `bits` encodes, as 32 little-endian bytes.
pub fn u256_from_compact(bits: u32) -> (r: [u8; 32])
    ensures
        r@ == spec_compact_target_bytes(bits),
{
    let mut r = [0u8; 32];
    let mut i: u32 = 0;
    while i < 32
        invariant
            i <= 32,
            forall|j: int| 0 <= j < i ==> #[trigger] r@[j] == spec_compact_target_bytes(bits)[j],
        decreases 32 - i,
    {
        r[i as usize] = target_byte(bits, i);
        i = i + 1;
    }
    assert(r@ =~= spec_compact_target_bytes(bits));
    r
}

/// No compact target is the largest 256-bit number: below size 4 the top
/// byte is zero, from size 4 on the lowest byte is.
pub proof fn lemma_compact_target_not_max(bits: u32)
    ensures
        spec_compact_target_bytes(bits).len() == 32,
        spec_le_value(spec_compact_target_bytes(bits)) + 1 < u256_modulus(),
{
    let t = spec_compact_target_bytes(bits);
    let size = spec_compact_size(bits);
    if size <= 3 {
        let w = (spec_compact_word(bits) >> ((8 * (3 - size)) as u32)) as u32;
        assert(t[31] == byte_of(w, 31));
        lemma_top_byte_small(t);
    } else {
        assert(t[0] == 0);
        lemma_low_byte_zero(t);
    }
}

} // verus!
