//! Block headers: 80 bytes of fields, then the transaction count.
use vstd::prelude::*;
use vstd::bytes::*;
use super::buffer::{Buffer, ParseError};
use super::encode::{put_u32_le, put_slice, lemma_int_bytes_roundtrip};
use super::varint::{
    VarInt, spec_varint_bytes, spec_parse_varint, serialize_varint, deserialize_varint,
    lemma_varint_roundtrip, lemma_parse_varint_len,
};
use super::packetpayload::{DeserializableBorrowed, Serializable};
use crate::util::crypto::{spec_sha256d, sha256d, spec_hex_lower, hex_encode};
use crate::util::compact::{spec_compact_target_bytes, u256_from_compact, lemma_compact_target_not_max};
use crate::util::u256::{spec_le_value, u256_modulus, u256_lt, u256_work_from_target};

verus! {

broadcast use vstd::seq_lib::group_seq_properties, vstd::slice::group_slice_axioms;

/// A block header. `hash` is not on the wire: it is the double SHA-256 of
/// the first 80 bytes, computed when the header is decoded or built.
pub struct BlockHeaderModel {
    pub version: u32,
    pub parent: Seq<u8>,
    pub merkle_root: Seq<u8>,
    pub timestamp: u32,
    pub bits: u32,
    pub nonce: u32,
    pub txs_count: u64,
    pub hash: Seq<u8>,
}

/// The 80 hashed bytes of a header.
pub open spec fn spec_header_fields_bytes(v: BlockHeaderModel) -> Seq<u8> {
    spec_u32_to_le_bytes(v.version) + v.parent + v.merkle_root + spec_u32_to_le_bytes(v.timestamp)
        + spec_u32_to_le_bytes(v.bits) + spec_u32_to_le_bytes(v.nonce)
}

/// The encoding of a header: its 80 bytes of fields, then its transaction count.
pub open spec fn spec_header_bytes(v: BlockHeaderModel) -> Seq<u8> {
    spec_header_fields_bytes(v) + spec_varint_bytes(v.txs_count)
}

/// The target that `bits` encodes, as a number.
pub open spec fn spec_target(bits: u32) -> nat {
    spec_le_value(spec_compact_target_bytes(bits))
}

/// A header hash meets its target when, read as a little-endian number, it is below it.
pub open spec fn spec_hash_meets_target(hash: Seq<u8>, bits: u32) -> bool {
    spec_le_value(hash) < spec_target(bits)
}

/// The work a header proves: the expected number of hashes needed to meet
/// its target `t`, `(2^256 - 1 - t) / (t + 1) + 1`.
pub open spec fn spec_work(bits: u32) -> nat {
    (u256_modulus() - 1 - spec_target(bits)) as nat / (spec_target(bits) + 1) + 1
}

/// The `hash` field of a header is the double SHA-256 of its 80 hashed bytes.
pub open spec fn spec_header_hash_matches(v: BlockHeaderModel) -> bool {
    v.hash == spec_sha256d(spec_header_fields_bytes(v))
}

/// Decoding a header; it is refused when its hash does not meet its target.
pub open spec fn spec_parse_block_header(s: Seq<u8>) -> Option<(BlockHeaderModel, int)> {
    if s.len() < 80 {
        None
    } else {
        match spec_parse_varint(s.subrange(80, s.len() as int)) {
            None => None,
            Some((txs_count, off)) => {
                let bits = spec_u32_from_le_bytes(s.subrange(72, 76));
                let hash = spec_sha256d(s.subrange(0, 80));
                if spec_hash_meets_target(hash, bits) {
                    Some((BlockHeaderModel {
                        version: spec_u32_from_le_bytes(s.subrange(0, 4)),
                        parent: s.subrange(4, 36),
                        merkle_root: s.subrange(36, 68),
                        timestamp: spec_u32_from_le_bytes(s.subrange(68, 72)),
                        bits,
                        nonce: spec_u32_from_le_bytes(s.subrange(76, 80)),
                        txs_count,
                        hash,
                    }, 80 + off))
                } else {
                    None
                }
            },
        }
    }
}

/// Decoding the encoding of a header gives it back, whatever follows it,
/// when its hash is the hash of its fields and meets its target.
pub proof fn lemma_block_header_roundtrip(v: BlockHeaderModel, rest: Seq<u8>)
    requires
        v.parent.len() == 32,
        v.merkle_root.len() == 32,
        spec_header_hash_matches(v),
        spec_hash_meets_target(v.hash, v.bits),
    ensures
        spec_header_fields_bytes(v).len() == 80,
        spec_parse_block_header(spec_header_bytes(v) + rest) == Some((v, spec_header_bytes(v).len() as int)),
{
    lemma_int_bytes_roundtrip();
    let f = spec_header_fields_bytes(v);
    let c = spec_varint_bytes(v.txs_count);
    let s = spec_header_bytes(v) + rest;
    assert(s =~= f + (c + rest));
    assert(s.subrange(0, 80) =~= f);
    assert(s.subrange(0, 4) =~= spec_u32_to_le_bytes(v.version));
    assert(s.subrange(4, 36) =~= v.parent);
    assert(s.subrange(36, 68) =~= v.merkle_root);
    assert(s.subrange(68, 72) =~= spec_u32_to_le_bytes(v.timestamp));
    assert(s.subrange(72, 76) =~= spec_u32_to_le_bytes(v.bits));
    assert(s.subrange(76, 80) =~= spec_u32_to_le_bytes(v.nonce));
    assert(s.subrange(80, s.len() as int) =~= c + rest);
    lemma_varint_roundtrip(v.txs_count, rest);
}

/// Whether `hash` meets the target of `bits`.
fn hash_meets_target(hash: &[u8; 32], bits: u32) -> (r: bool)
    ensures
        r == spec_hash_meets_target(hash@, bits),
{
    let target = u256_from_compact(bits);
    u256_lt(hash, &target)
}

/// The work of a header with compact target `bits`.
fn work_from_bits(bits: u32) -> (r: [u8; 32])
    requires
        spec_target(bits) > 0,
    ensures
        spec_le_value(r@) == spec_work(bits),
{
    let target = u256_from_compact(bits);
    proof {
        lemma_compact_target_not_max(bits);
    }
    u256_work_from_target(&target)
}

/// The hash with its bytes reversed, in lowercase hex, as block explorers show it.
fn human_hash_of(hash: &[u8; 32]) -> (r: String)
    ensures
        r@ == spec_hex_lower(hash@.reverse()),
{
    let mut h = [0u8; 32];
    let mut i: usize = 0;
    while i < 32
        invariant
            i <= 32,
            forall|j: int| 0 <= j < i ==> #[trigger] h@[j] == hash@[31 - j],
        decreases 32 - i,
    {
        h[i] = hash[31 - i];
        i = i + 1;
    }
    assert(h@ =~= hash@.reverse());
    hex_encode(h.as_slice())
}

/// A header decoded from a buffer.
#[derive(Clone, Copy, Debug)]
pub struct BlockHeaderBorrowed {
    pub version: u32,
    pub parent: [u8; 32],
    pub merkle_root: [u8; 32],
    pub timestamp: u32,
    pub bits: u32,
    pub nonce: u32,
    pub txs_count: VarInt,
    pub hash: [u8; 32],
}

impl Default for BlockHeaderBorrowed {
    fn default() -> (r: Self)
        ensures
            r.version == 0 && r.timestamp == 0 && r.bits == 0 && r.nonce == 0 && r.txs_count == 0,
    {
        BlockHeaderBorrowed {
            version: 0,
            parent: [0u8; 32],
            merkle_root: [0u8; 32],
            timestamp: 0,
            bits: 0,
            nonce: 0,
            txs_count: 0,
            hash: [0u8; 32],
        }
    }
}

impl View for BlockHeaderBorrowed {
    type V = BlockHeaderModel;

    open spec fn view(&self) -> BlockHeaderModel {
        BlockHeaderModel {
            version: self.version,
            parent: self.parent@,
            merkle_root: self.merkle_root@,
            timestamp: self.timestamp,
            bits: self.bits,
            nonce: self.nonce,
            txs_count: self.txs_count,
            hash: self.hash@,
        }
    }
}

impl<'a> DeserializableBorrowed<'a> for BlockHeaderBorrowed {
    open spec fn spec_deserialize(s: Seq<u8>) -> Option<(BlockHeaderModel, int)> {
        spec_parse_block_header(s)
    }

    proof fn lemma_deserialize_len(s: Seq<u8>) {
        if s.len() >= 80 {
            lemma_parse_varint_len(s.subrange(80, s.len() as int));
        }
    }

    fn deserialize_borrowed(&mut self, buffer: &'a [u8]) -> (r: Result<usize, ParseError>)
        ensures
            buffer@.len() < 80 ==> r == Err::<usize, ParseError>(ParseError::NotEnoughBytes),
            buffer@.len() >= 80 && spec_parse_varint(buffer@.subrange(80, buffer@.len() as int)) is Some
                && spec_parse_block_header(buffer@) is None ==> r == Err::<usize, ParseError>(ParseError::InvalidHeader),
    {
        let version = buffer.get_u32_le(0)?;
        let parent = buffer.get_hash(4)?;
        let merkle_root = buffer.get_hash(36)?;
        let timestamp = buffer.get_u32_le(68)?;
        let bits = buffer.get_u32_le(72)?;
        let nonce = buffer.get_u32_le(76)?;
        let (txs_count, offset) = deserialize_varint(buffer.with_offset(80)?)?;
        proof {
            lemma_parse_varint_len(buffer@.subrange(80, buffer@.len() as int));
        }
        let hash = sha256d(&buffer[0..80]);
        if !hash_meets_target(&hash, bits) {
            return Err(ParseError::InvalidHeader);
        }
        self.version = version;
        self.parent = parent;
        self.merkle_root = merkle_root;
        self.timestamp = timestamp;
        self.bits = bits;
        self.nonce = nonce;
        self.txs_count = txs_count;
        self.hash = hash;
        Ok(80 + offset)
    }
}

impl BlockHeaderBorrowed {
    /// The hash as block explorers show it: bytes reversed, lowercase hex.
    pub fn human_hash(&self) -> (r: String)
        ensures
            r@ == spec_hex_lower(self.hash@.reverse()),
    {
        human_hash_of(&self.hash)
    }

    /// The work this header proves.
    pub fn get_work(&self) -> (r: [u8; 32])
        requires
            spec_target(self.bits) > 0,
        ensures
            spec_le_value(r@) == spec_work(self.bits),
    {
        work_from_bits(self.bits)
    }

    /// Whether the hash meets the target of `bits`.
    pub fn is_valid(&self) -> (r: bool)
        ensures
            r == spec_hash_meets_target(self.hash@, self.bits),
    {
        hash_meets_target(&self.hash, self.bits)
    }
}

/// A header to be sent or kept.
#[derive(Clone, Copy, Debug)]
pub struct BlockHeaderOwned {
    pub version: u32,
    pub parent: [u8; 32],
    pub merkle_root: [u8; 32],
    pub timestamp: u32,
    pub bits: u32,
    pub nonce: u32,
    pub txs_count: VarInt,
    pub hash: [u8; 32],
}

impl View for BlockHeaderOwned {
    type V = BlockHeaderModel;

    open spec fn view(&self) -> BlockHeaderModel {
        BlockHeaderModel {
            version: self.version,
            parent: self.parent@,
            merkle_root: self.merkle_root@,
            timestamp: self.timestamp,
            bits: self.bits,
            nonce: self.nonce,
            txs_count: self.txs_count,
            hash: self.hash@,
        }
    }
}

impl BlockHeaderOwned {
    /// Appends the 80 hashed bytes of the header.
    fn serialize_fields(&self, stream: &mut Vec<u8>)
        ensures
            final(stream)@ == old(stream)@ + spec_header_fields_bytes(self@),
    {
        put_u32_le(stream, self.version);
        put_slice(stream, self.parent.as_slice());
        put_slice(stream, self.merkle_root.as_slice());
        put_u32_le(stream, self.timestamp);
        put_u32_le(stream, self.bits);
        put_u32_le(stream, self.nonce);
        assert(stream@ =~= old(stream)@ + spec_header_fields_bytes(self@));
    }
}

impl Serializable for BlockHeaderOwned {
    open spec fn spec_serialize(v: BlockHeaderModel) -> Seq<u8> {
        spec_header_bytes(v)
    }

    open spec fn spec_serializable(v: BlockHeaderModel) -> bool {
        true
    }

    fn serialize(&self, stream: &mut Vec<u8>) {
        self.serialize_fields(stream);
        serialize_varint(self.txs_count, stream);
        assert(stream@ =~= old(stream)@ + spec_header_bytes(self@));
    }
}

impl BlockHeaderOwned {
    /// Builds a header from its fields and computes its hash.
    pub fn construct(
        version: u32,
        parent: [u8; 32],
        merkle_root: [u8; 32],
        timestamp: u32,
        bits: u32,
        nonce: u32,
        txs_count: VarInt,
    ) -> (r: Self)
        ensures
            r.version == version && r.parent == parent && r.merkle_root == merkle_root,
            r.timestamp == timestamp && r.bits == bits && r.nonce == nonce && r.txs_count == txs_count,
            spec_header_hash_matches(r@),
    {
        let mut s = BlockHeaderOwned {
            version,
            parent,
            merkle_root,
            timestamp,
            bits,
            nonce,
            txs_count,
            hash: [0u8; 32],
        };
        let mut b: Vec<u8> = Vec::with_capacity(88);
        s.serialize_fields(&mut b);
        proof {
            lemma_int_bytes_roundtrip();
        }
        assert(b@ =~= spec_header_fields_bytes(s@));
        let hash = sha256d(b.as_slice());
        s.hash = hash;
        assert(spec_header_fields_bytes(s@) =~= b@);
        s
    }

    /// The hash as block explorers show it: bytes reversed, lowercase hex.
    pub fn human_hash(&self) -> (r: String)
        ensures
            r@ == spec_hex_lower(self.hash@.reverse()),
    {
        human_hash_of(&self.hash)
    }

    /// The work this header proves.
    pub fn get_work(&self) -> (r: [u8; 32])
        requires
            spec_target(self.bits) > 0,
        ensures
            spec_le_value(r@) == spec_work(self.bits),
    {
        work_from_bits(self.bits)
    }

    /// Whether the hash meets the target of `bits`.
    pub fn is_valid(&self) -> (r: bool)
        ensures
            r == spec_hash_meets_target(self.hash@, self.bits),
    {
        hash_meets_target(&self.hash, self.bits)
    }

    /// The owned copy of a decoded header.
    pub fn from(value: BlockHeaderBorrowed) -> (r: BlockHeaderOwned)
        ensures
            r@ == value@,
    {
        BlockHeaderOwned {
            version: value.version,
            parent: value.parent,
            merkle_root: value.merkle_root,
            timestamp: value.timestamp,
            bits: value.bits,
            nonce: value.nonce,
            txs_count: value.txs_count,
            hash: value.hash,
        }
    }
}

} // verus!
