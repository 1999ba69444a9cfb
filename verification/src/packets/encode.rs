//! Appending fixed-width integers and byte strings to an output buffer.
use vstd::prelude::*;
use vstd::bytes::*;

verus! {

broadcast use vstd::seq_lib::group_seq_properties;

/// Big-endian bytes of a `u16`.
pub open spec fn spec_u16_to_be_bytes(x: u16) -> Seq<u8> {
    spec_u16_to_le_bytes(x).reverse()
}

/// Big-endian bytes of a `u32`.
pub open spec fn spec_u32_to_be_bytes(x: u32) -> Seq<u8> {
    spec_u32_to_le_bytes(x).reverse()
}

/// Big-endian bytes of a `u64`.
pub open spec fn spec_u64_to_be_bytes(x: u64) -> Seq<u8> {
    spec_u64_to_le_bytes(x).reverse()
}

/// The value of a big-endian `u16`.
pub open spec fn spec_u16_from_be_bytes(s: Seq<u8>) -> u16 {
    spec_u16_from_le_bytes(s.reverse())
}

/// The value of a big-endian `u32`.
pub open spec fn spec_u32_from_be_bytes(s: Seq<u8>) -> u32 {
    spec_u32_from_le_bytes(s.reverse())
}

/// The value of a big-endian `u64`.
pub open spec fn spec_u64_from_be_bytes(s: Seq<u8>) -> u64 {
    spec_u64_from_le_bytes(s.reverse())
}

pub proof fn lemma_reverse_reverse(s: Seq<u8>)
    ensures
        s.reverse().reverse() == s,
        s.reverse().len() == s.len(),
{
    assert(s.reverse().reverse() =~= s);
}

/// Every fixed-width encoding has its width, and decoding it gives the value back.
pub proof fn lemma_int_bytes_roundtrip()
    ensures
        forall|x: u16| #[trigger] spec_u16_to_le_bytes(x).len() == 2 && spec_u16_from_le_bytes(spec_u16_to_le_bytes(x)) == x,
        forall|x: u32| #[trigger] spec_u32_to_le_bytes(x).len() == 4 && spec_u32_from_le_bytes(spec_u32_to_le_bytes(x)) == x,
        forall|x: u64| #[trigger] spec_u64_to_le_bytes(x).len() == 8 && spec_u64_from_le_bytes(spec_u64_to_le_bytes(x)) == x,
        forall|x: u16| #[trigger] spec_u16_to_be_bytes(x).len() == 2 && spec_u16_from_be_bytes(spec_u16_to_be_bytes(x)) == x,
        forall|x: u32| #[trigger] spec_u32_to_be_bytes(x).len() == 4 && spec_u32_from_be_bytes(spec_u32_to_be_bytes(x)) == x,
        forall|x: u64| #[trigger] spec_u64_to_be_bytes(x).len() == 8 && spec_u64_from_be_bytes(spec_u64_to_be_bytes(x)) == x,
{
    lemma_auto_spec_u16_to_from_le_bytes();
    lemma_auto_spec_u32_to_from_le_bytes();
    lemma_auto_spec_u64_to_from_le_bytes();
    assert forall|x: u16| #[trigger] spec_u16_to_be_bytes(x).len() == 2 && spec_u16_from_be_bytes(spec_u16_to_be_bytes(x)) == x by {
        lemma_reverse_reverse(spec_u16_to_le_bytes(x));
    }
    assert forall|x: u32| #[trigger] spec_u32_to_be_bytes(x).len() == 4 && spec_u32_from_be_bytes(spec_u32_to_be_bytes(x)) == x by {
        lemma_reverse_reverse(spec_u32_to_le_bytes(x));
    }
    assert forall|x: u64| #[trigger] spec_u64_to_be_bytes(x).len() == 8 && spec_u64_from_be_bytes(spec_u64_to_be_bytes(x)) == x by {
        lemma_reverse_reverse(spec_u64_to_le_bytes(x));
    }
}

/// Appends `s` to `out`.
pub fn put_slice(out: &mut Vec<u8>, s: &[u8])
    ensures
        final(out)@ == old(out)@ + s@,
{
    let n = s.len();
    let mut i: usize = 0;
    while i < n
        invariant
            n == s@.len(),
            i <= n,
            out@ == old(out)@ + s@.take(i as int),
        decreases n - i,
    {
        out.push(s[i]);
        i = i + 1;
        assert(out@ =~= old(out)@ + s@.take(i as int));
    }
    assert(s@.take(n as int) =~= s@);
}

/// Appends `s` with its bytes in reverse order.
fn put_slice_reversed(out: &mut Vec<u8>, s: &[u8])
    ensures
        final(out)@ == old(out)@ + s@.reverse(),
{
    let n = s.len();
    let mut i: usize = n;
    while i > 0
        invariant
            n == s@.len(),
            i <= n,
            out@ == old(out)@ + s@.subrange(i as int, n as int).reverse(),
        decreases i,
    {
        i = i - 1;
        out.push(s[i]);
        assert(out@ =~= old(out)@ + s@.subrange(i as int, n as int).reverse());
    }
    assert(s@.subrange(0, n as int) =~= s@);
}

/// Appends one byte.
pub fn put_u8(out: &mut Vec<u8>, x: u8)
    ensures
        final(out)@ == old(out)@.push(x),
{
    out.push(x);
}

/// Appends a `u16` in little-endian order.
pub fn put_u16_le(out: &mut Vec<u8>, x: u16)
    ensures
        final(out)@ == old(out)@ + spec_u16_to_le_bytes(x),
{
    let b = u16_to_le_bytes(x);
    put_slice(out, b.as_slice());
}

/// Appends a `u16` in big-endian order.
pub fn put_u16(out: &mut Vec<u8>, x: u16)
    ensures
        final(out)@ == old(out)@ + spec_u16_to_be_bytes(x),
{
    let b = u16_to_le_bytes(x);
    put_slice_reversed(out, b.as_slice());
}

/// Appends a `u32` in little-endian order.
pub fn put_u32_le(out: &mut Vec<u8>, x: u32)
    ensures
        final(out)@ == old(out)@ + spec_u32_to_le_bytes(x),
{
    let b = u32_to_le_bytes(x);
    put_slice(out, b.as_slice());
}

/// Appends a `u64` in little-endian order.
pub fn put_u64_le(out: &mut Vec<u8>, x: u64)
    ensures
        final(out)@ == old(out)@ + spec_u64_to_le_bytes(x),
{
    let b = u64_to_le_bytes(x);
    put_slice(out, b.as_slice());
}

/// Appends a `u64` in big-endian order.
pub fn put_u64(out: &mut Vec<u8>, x: u64)
    ensures
        final(out)@ == old(out)@ + spec_u64_to_be_bytes(x),
{
    let b = u64_to_le_bytes(x);
    put_slice_reversed(out, b.as_slice());
}

} // verus!
