//! Bounds-checked reads of fixed-width fields out of a received byte buffer.
use vstd::prelude::*;
use vstd::bytes::*;
use super::encode::{spec_u16_from_be_bytes, spec_u32_from_be_bytes, spec_u64_from_be_bytes};

verus! {

broadcast use vstd::slice::group_slice_axioms;

/// Why a payload could not be decoded.
#[derive(Debug, Clone, Copy, PartialEq, Eq)]
pub enum ParseError {
    /// The buffer ends before the field that was being read.
    NotEnoughBytes,
    /// A block header whose hash does not meet its own target.
    InvalidHeader,
    /// An inventory vector with a type code that is not known.
    UnknownInventoryType(u32),
    /// An `addrv2` entry with a network id that is not known.
    InvalidNetworkId(u8),
    /// A transaction without inputs.
    NoTxIns,
    /// A block whose merkle tree holds a duplicated subtree.
    MerkleRootMutated,
    /// A block whose transactions do not hash to the header's merkle root.
    MerkleRootMismatch,
    /// A packet header announcing a payload above the size limit.
    PacketTooLarge,
}

/// `len` bytes starting at `offset` lie inside a buffer of `n` bytes.
pub open spec fn fits(n: int, offset: int, len: int) -> bool {
    0 <= offset && offset + len <= n
}

/// Reads out of a byte buffer; every read fails with `NotEnoughBytes`
/// exactly when the field does not lie inside the buffer.
pub trait Buffer<'a>: Sized {
    /// The bytes of the buffer.
    spec fn bytes(self) -> Seq<u8>;

    /// The 32 bytes starting at `offset`.
    fn get_hash(self, offset: usize) -> (r: Result<[u8; 32], ParseError>)
        ensures
            fits(self.bytes().len() as int, offset as int, 32) <==> r is Ok,
            r is Err ==> r == Err::<[u8; 32], ParseError>(ParseError::NotEnoughBytes),
            r matches Ok(h) ==> h@ == self.bytes().subrange(offset as int, offset + 32),
    ;

    /// A big-endian `u64` starting at `offset`.
    fn get_u64(self, offset: usize) -> (r: Result<u64, ParseError>)
        ensures
            fits(self.bytes().len() as int, offset as int, 8) <==> r is Ok,
            r is Err ==> r == Err::<u64, ParseError>(ParseError::NotEnoughBytes),
            r matches Ok(v) ==> v == spec_u64_from_be_bytes(self.bytes().subrange(offset as int, offset + 8)),
    ;

    /// A little-endian `u64` starting at `offset`.
    fn get_u64_le(self, offset: usize) -> (r: Result<u64, ParseError>)
        ensures
            fits(self.bytes().len() as int, offset as int, 8) <==> r is Ok,
            r is Err ==> r == Err::<u64, ParseError>(ParseError::NotEnoughBytes),
            r matches Ok(v) ==> v == spec_u64_from_le_bytes(self.bytes().subrange(offset as int, offset + 8)),
    ;

    /// A big-endian `u32` starting at `offset`.
    fn get_u32(self, offset: usize) -> (r: Result<u32, ParseError>)
        ensures
            fits(self.bytes().len() as int, offset as int, 4) <==> r is Ok,
            r is Err ==> r == Err::<u32, ParseError>(ParseError::NotEnoughBytes),
            r matches Ok(v) ==> v == spec_u32_from_be_bytes(self.bytes().subrange(offset as int, offset + 4)),
    ;

    /// A little-endian `u32` starting at `offset`.
    fn get_u32_le(self, offset: usize) -> (r: Result<u32, ParseError>)
        ensures
            fits(self.bytes().len() as int, offset as int, 4) <==> r is Ok,
            r is Err ==> r == Err::<u32, ParseError>(ParseError::NotEnoughBytes),
            r matches Ok(v) ==> v == spec_u32_from_le_bytes(self.bytes().subrange(offset as int, offset + 4)),
    ;

    /// A big-endian `u16` starting at `offset`.
    fn get_u16(self, offset: usize) -> (r: Result<u16, ParseError>)
        ensures
            fits(self.bytes().len() as int, offset as int, 2) <==> r is Ok,
            r is Err ==> r == Err::<u16, ParseError>(ParseError::NotEnoughBytes),
            r matches Ok(v) ==> v == spec_u16_from_be_bytes(self.bytes().subrange(offset as int, offset + 2)),
    ;

    /// A little-endian `u16` starting at `offset`.
    fn get_u16_le(self, offset: usize) -> (r: Result<u16, ParseError>)
        ensures
            fits(self.bytes().len() as int, offset as int, 2) <==> r is Ok,
            r is Err ==> r == Err::<u16, ParseError>(ParseError::NotEnoughBytes),
            r matches Ok(v) ==> v == spec_u16_from_le_bytes(self.bytes().subrange(offset as int, offset + 2)),
    ;

    /// Everything from `offset` to the end.
    fn with_offset(self, offset: usize) -> (r: Result<&'a [u8], ParseError>)
        ensures
            (offset <= self.bytes().len()) <==> r is Ok,
            r is Err ==> r == Err::<&'a [u8], ParseError>(ParseError::NotEnoughBytes),
            r matches Ok(s) ==> s@ == self.bytes().subrange(offset as int, self.bytes().len() as int),
    ;
}

/// The 16 bytes of `s` starting at `offset`.
pub fn get_array16(s: &[u8], offset: usize) -> (r: [u8; 16])
    requires
        offset + 16 <= s@.len(),
    ensures
        r@ == s@.subrange(offset as int, offset + 16),
{
    let mut h = [0u8; 16];
    let mut i: usize = 0;
    while i < 16
        invariant
            offset + 16 <= s@.len(),
            s@.len() == s.len(),
            i <= 16,
            forall|j: int| 0 <= j < i ==> h@[j] == s@[offset + j],
        decreases 16 - i,
    {
        assert(offset + i < s@.len());
        h[i] = s[offset + i];
        i = i + 1;
    }
    assert(h@ =~= s@.subrange(offset as int, offset + 16));
    h
}

/// The `n` bytes of `s` starting at `offset`, in reverse order.
fn reversed_range(s: &[u8], offset: usize, n: usize) -> (r: Vec<u8>)
    requires
        offset + n <= s@.len(),
    ensures
        r@ == s@.subrange(offset as int, offset + n).reverse(),
{
    let mut r: Vec<u8> = Vec::with_capacity(n);
    let mut i: usize = n;
    while i > 0
        invariant
            offset + n <= s@.len(),
            i <= n,
            r@ == s@.subrange(offset + i, offset + n).reverse(),
        decreases i,
    {
        i = i - 1;
        assert(offset + i < s.len());
        r.push(s[offset + i]);
        assert(r@ =~= s@.subrange(offset + i, offset + n).reverse());
    }
    r
}

impl<'a> Buffer<'a> for &'a [u8] {
    open spec fn bytes(self) -> Seq<u8> {
        self@
    }

    fn get_hash(self, offset: usize) -> (r: Result<[u8; 32], ParseError>) {
        if offset > self.len() || self.len() - offset < 32 {
            return Err(ParseError::NotEnoughBytes);
        }
        let mut h = [0u8; 32];
        let mut i: usize = 0;
        while i < 32
            invariant
                offset + 32 <= self@.len(),
                i <= 32,
                forall|j: int| 0 <= j < i ==> h@[j] == self@[offset + j],
            decreases 32 - i,
        {
            h[i] = self[offset + i];
            i = i + 1;
        }
        assert(h@ =~= self@.subrange(offset as int, offset + 32));
        Ok(h)
    }

    fn get_u64(self, offset: usize) -> (r: Result<u64, ParseError>) {
        if offset > self.len() || self.len() - offset < 8 {
            return Err(ParseError::NotEnoughBytes);
        }
        let b = reversed_range(self, offset, 8);
        Ok(u64_from_le_bytes(b.as_slice()))
    }

    fn get_u64_le(self, offset: usize) -> (r: Result<u64, ParseError>) {
        if offset > self.len() || self.len() - offset < 8 {
            return Err(ParseError::NotEnoughBytes);
        }
        Ok(u64_from_le_bytes(&self[offset..offset + 8]))
    }

    fn get_u32(self, offset: usize) -> (r: Result<u32, ParseError>) {
        if offset > self.len() || self.len() - offset < 4 {
            return Err(ParseError::NotEnoughBytes);
        }
        let b = reversed_range(self, offset, 4);
        Ok(u32_from_le_bytes(b.as_slice()))
    }

    fn get_u32_le(self, offset: usize) -> (r: Result<u32, ParseError>) {
        if offset > self.len() || self.len() - offset < 4 {
            return Err(ParseError::NotEnoughBytes);
        }
        Ok(u32_from_le_bytes(&self[offset..offset + 4]))
    }

    fn get_u16(self, offset: usize) -> (r: Result<u16, ParseError>) {
        if offset > self.len() || self.len() - offset < 2 {
            return Err(ParseError::NotEnoughBytes);
        }
        let b = reversed_range(self, offset, 2);
        Ok(u16_from_le_bytes(b.as_slice()))
    }

    fn get_u16_le(self, offset: usize) -> (r: Result<u16, ParseError>) {
        if offset > self.len() || self.len() - offset < 2 {
            return Err(ParseError::NotEnoughBytes);
        }
        Ok(u16_from_le_bytes(&self[offset..offset + 2]))
    }

    fn with_offset(self, offset: usize) -> (r: Result<&'a [u8], ParseError>) {
        if offset > self.len() {
            return Err(ParseError::NotEnoughBytes);
        }
        Ok(&self[offset..self.len()])
    }
}

} // verus!
