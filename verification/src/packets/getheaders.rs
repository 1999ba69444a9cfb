//! The `getheaders` message: a block locator and a stop hash.
use vstd::prelude::*;
use vstd::bytes::*;
use super::buffer::{Buffer, ParseError};
use super::encode::{put_u32_le, put_slice, lemma_int_bytes_roundtrip};
use super::varint::{
    VarInt, spec_varint_bytes, spec_parse_varint, serialize_varint, deserialize_varint,
    lemma_varint_roundtrip, lemma_parse_varint_len,
};
use super::packetpayload::{DeserializableBorrowed, PacketPayload, Serializable};

verus! {

broadcast use vstd::seq_lib::group_seq_properties, vstd::slice::group_slice_axioms;

/// The command name of `getheaders`.
pub const GETHEADERS_COMMAND: [u8; 12] = [103, 101, 116, 104, 101, 97, 100, 101, 114, 115, 0, 0];

/// A `getheaders` message.
pub struct GetHeadersModel {
    pub version: u32,
    pub block_locator: Seq<Seq<u8>>,
    pub hash_stop: Seq<u8>,
}

/// Hashes written one after another.
pub open spec fn spec_concat_hashes(hs: Seq<Seq<u8>>) -> Seq<u8>
    decreases hs.len(),
{
    if hs.len() == 0 {
        Seq::empty()
    } else {
        spec_concat_hashes(hs.drop_last()) + hs.last()
    }
}

/// Decoding a `getheaders`: version, a varint count, that many 32-byte hashes, the stop hash.
pub open spec fn spec_parse_getheaders(s: Seq<u8>) -> Option<(GetHeadersModel, int)> {
    if s.len() < 4 {
        None
    } else {
        match spec_parse_varint(s.subrange(4, s.len() as int)) {
            None => None,
            Some((count, c)) => {
                let start = 4 + c;
                let end = start + 32 * count;
                if end + 32 <= s.len() {
                    Some((GetHeadersModel {
                        version: spec_u32_from_le_bytes(s.subrange(0, 4)),
                        block_locator: Seq::new(count as nat, |i: int| s.subrange(start + 32 * i, start + 32 * i + 32)),
                        hash_stop: s.subrange(end, end + 32),
                    }, end + 32))
                } else {
                    None
                }
            },
        }
    }
}

/// The encoding of a `getheaders`.
pub open spec fn spec_getheaders_bytes(v: GetHeadersModel) -> Seq<u8> {
    spec_u32_to_le_bytes(v.version) + spec_varint_bytes(v.block_locator.len() as u64)
        + spec_concat_hashes(v.block_locator) + v.hash_stop
}

proof fn lemma_concat_hashes(hs: Seq<Seq<u8>>)
    requires
        forall|i: int| 0 <= i < hs.len() ==> (#[trigger] hs[i]).len() == 32,
    ensures
        spec_concat_hashes(hs).len() == 32 * hs.len(),
        forall|i: int| 0 <= i < hs.len() ==> spec_concat_hashes(hs).subrange(32 * i, 32 * i + 32) == #[trigger] hs[i],
    decreases hs.len(),
{
    if hs.len() > 0 {
        let p = hs.drop_last();
        lemma_concat_hashes(p);
        let c = spec_concat_hashes(hs);
        assert forall|i: int| 0 <= i < hs.len() implies c.subrange(32 * i, 32 * i + 32) == #[trigger] hs[i] by {
            if i < hs.len() - 1 {
                assert(p[i] == hs[i]);
                assert(c.subrange(32 * i, 32 * i + 32) =~= spec_concat_hashes(p).subrange(32 * i, 32 * i + 32));
            } else {
                assert(c.subrange(32 * i, 32 * i + 32) =~= hs.last());
            }
        }
    }
}

/// Decoding the encoding of a `getheaders` gives it back, whatever follows it.
pub proof fn lemma_getheaders_roundtrip(v: GetHeadersModel, rest: Seq<u8>)
    requires
        v.block_locator.len() <= u64::MAX,
        forall|i: int| 0 <= i < v.block_locator.len() ==> (#[trigger] v.block_locator[i]).len() == 32,
        v.hash_stop.len() == 32,
    ensures
        spec_parse_getheaders(spec_getheaders_bytes(v) + rest) == Some((v, spec_getheaders_bytes(v).len() as int)),
{
    lemma_int_bytes_roundtrip();
    lemma_concat_hashes(v.block_locator);
    let a = spec_u32_to_le_bytes(v.version);
    let b = spec_varint_bytes(v.block_locator.len() as u64);
    let h = spec_concat_hashes(v.block_locator);
    let s = spec_getheaders_bytes(v) + rest;
    assert(s =~= a + (b + (h + (v.hash_stop + rest))));
    assert(s.subrange(0, 4) =~= a);
    lemma_varint_roundtrip(v.block_locator.len() as u64, h + v.hash_stop + rest);
    assert(s.subrange(4, s.len() as int) =~= b + (h + v.hash_stop + rest));
    let start: int = 4 + b.len() as int;
    let count = v.block_locator.len() as int;
    let parsed = Seq::new(count as nat, |i: int| s.subrange(start + 32 * i, start + 32 * i + 32));
    assert forall|i: int| 0 <= i < count implies parsed[i] == v.block_locator[i] by {
        assert(s.subrange(start + 32 * i, start + 32 * i + 32) =~= h.subrange(32 * i, 32 * i + 32));
    }
    assert(parsed =~= v.block_locator);
    assert(s.subrange(start + 32 * count, start + 32 * count + 32) =~= v.hash_stop);
}

/// A `getheaders` decoded from a buffer.
#[derive(Clone, Debug)]
pub struct GetHeadersBorrowed {
    pub version: u32,
    pub block_locator: Vec<[u8; 32]>,
    pub hash_stop: [u8; 32],
}

impl Default for GetHeadersBorrowed {
    fn default() -> (r: Self)
        ensures
            r.version == 0 && r.block_locator@.len() == 0,
    {
        GetHeadersBorrowed { version: 0, block_locator: Vec::new(), hash_stop: [0u8; 32] }
    }
}

impl View for GetHeadersBorrowed {
    type V = GetHeadersModel;

    open spec fn view(&self) -> GetHeadersModel {
        GetHeadersModel {
            version: self.version,
            block_locator: self.block_locator@.map_values(|h: [u8; 32]| h@),
            hash_stop: self.hash_stop@,
        }
    }
}

impl PacketPayload for GetHeadersBorrowed {
    open spec fn spec_command() -> Seq<u8> {
        GETHEADERS_COMMAND@
    }

    fn command(&self) -> (r: [u8; 12]) {
        GETHEADERS_COMMAND
    }
}

impl<'a> DeserializableBorrowed<'a> for GetHeadersBorrowed {
    open spec fn spec_deserialize(s: Seq<u8>) -> Option<(GetHeadersModel, int)> {
        spec_parse_getheaders(s)
    }

    proof fn lemma_deserialize_len(s: Seq<u8>) {
    }

    fn deserialize_borrowed(&mut self, buffer: &'a [u8]) -> (r: Result<usize, ParseError>) {
        let version = buffer.get_u32_le(0)?;
        let (length, c) = deserialize_varint(buffer.with_offset(4)?)?;
        proof {
            lemma_parse_varint_len(buffer@.subrange(4, buffer@.len() as int));
        }
        assert(buffer@.len() == buffer.len());
        let start = c + 4;
        let mut offset = start;
        let mut block_locator: Vec<[u8; 32]> = Vec::new();
        let mut i: u64 = 0;
        while i < length
            invariant
                buffer@.len() == buffer.len(),
                buffer@.len() >= 4,
                spec_parse_varint(buffer@.subrange(4, buffer@.len() as int)) == Some((length, c as int)),
                start == c + 4,
                start <= buffer@.len(),
                i <= length,
                offset == start + 32 * i,
                offset <= buffer@.len(),
                block_locator@.len() == i,
                forall|j: int| 0 <= j < i ==> (#[trigger] block_locator@[j])@ == buffer@.subrange(start + 32 * j, start + 32 * j + 32),
            decreases length - i,
        {
            let hash = buffer.get_hash(offset)?;
            block_locator.push(hash);
            offset = offset + 32;
            i = i + 1;
        }
        let hash_stop = buffer.get_hash(offset)?;
        self.version = version;
        self.block_locator = block_locator;
        self.hash_stop = hash_stop;
        assert(self.block_locator@.map_values(|h: [u8; 32]| h@) =~= Seq::new(length as nat, |i: int| buffer@.subrange(start + 32 * i, start + 32 * i + 32)));
        Ok(offset + 32)
    }
}

/// A `getheaders` to be sent.
#[derive(Clone, Debug)]
pub struct GetHeadersOwned {
    pub version: u32,
    pub block_locator: Vec<[u8; 32]>,
    pub hash_stop: [u8; 32],
}

impl View for GetHeadersOwned {
    type V = GetHeadersModel;

    open spec fn view(&self) -> GetHeadersModel {
        GetHeadersModel {
            version: self.version,
            block_locator: self.block_locator@.map_values(|h: [u8; 32]| h@),
            hash_stop: self.hash_stop@,
        }
    }
}

impl Serializable for GetHeadersOwned {
    open spec fn spec_serialize(v: GetHeadersModel) -> Seq<u8> {
        spec_getheaders_bytes(v)
    }

    open spec fn spec_serializable(v: GetHeadersModel) -> bool {
        true
    }

    fn serialize(&self, stream: &mut Vec<u8>) {
        put_u32_le(stream, self.version);
        serialize_varint(self.block_locator.len() as VarInt, stream);
        let ghost hs = self.block_locator@.map_values(|h: [u8; 32]| h@);
        let ghost start = stream@;
        let mut i: usize = 0;
        while i < self.block_locator.len()
            invariant
                i <= self.block_locator@.len(),
                hs == self.block_locator@.map_values(|h: [u8; 32]| h@),
                stream@ == start + spec_concat_hashes(hs.take(i as int)),
            decreases self.block_locator@.len() - i,
        {
            put_slice(stream, self.block_locator[i].as_slice());
            assert(hs.take(i + 1).drop_last() =~= hs.take(i as int));
            i = i + 1;
        }
        assert(hs.take(self.block_locator@.len() as int) =~= hs);
        put_slice(stream, self.hash_stop.as_slice());
        assert(stream@ =~= old(stream)@ + spec_getheaders_bytes(self@));
    }
}

impl GetHeadersOwned {
    /// The owned copy of a decoded `getheaders`.
    pub fn from(value: GetHeadersBorrowed) -> (r: GetHeadersOwned)
        ensures
            r@ == value@,
    {
        GetHeadersOwned { version: value.version, block_locator: value.block_locator, hash_stop: value.hash_stop }
    }
}

} // verus!
