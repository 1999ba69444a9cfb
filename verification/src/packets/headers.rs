//! The `headers` message: an array of entries.
use vstd::prelude::*;
use super::buffer::ParseError;
use super::blockheader::{
    BlockHeaderBorrowed, BlockHeaderOwned, BlockHeaderModel, lemma_block_header_roundtrip,
    spec_header_hash_matches, spec_hash_meets_target,
};
use super::packetpayload::{
    DeserializableBorrowed, PacketPayload, Serializable, deserialize_array, serialize_array,
    spec_deserialize_array, spec_serialize_array, lemma_deserialize_array_len, lemma_array_roundtrip,
    items_roundtrip,
};

verus! {

/// The command name of `headers`.
pub const HEADERS_COMMAND: [u8; 12] = [104, 101, 97, 100, 101, 114, 115, 0, 0, 0, 0, 0];

/// A run of block headers.
#[derive(Debug, Default)]
pub struct HeadersBorrowed {
    pub inner: Vec<BlockHeaderBorrowed>,
}

impl View for HeadersBorrowed {
    type V = Seq<BlockHeaderModel>;

    open spec fn view(&self) -> Seq<BlockHeaderModel> {
        self.inner@.map_values(|v: BlockHeaderBorrowed| v@)
    }
}

impl PacketPayload for HeadersBorrowed {
    open spec fn spec_command() -> Seq<u8> {
        HEADERS_COMMAND@
    }

    fn command(&self) -> (r: [u8; 12]) {
        HEADERS_COMMAND
    }
}

impl<'a> DeserializableBorrowed<'a> for HeadersBorrowed {
    open spec fn spec_deserialize(s: Seq<u8>) -> Option<(Seq<BlockHeaderModel>, int)> {
        spec_deserialize_array::<'a, BlockHeaderBorrowed>(s)
    }

    proof fn lemma_deserialize_len(s: Seq<u8>) {
        lemma_deserialize_array_len::<'a, BlockHeaderBorrowed>(s);
    }

    fn deserialize_borrowed(&mut self, buffer: &'a [u8]) -> (r: Result<usize, ParseError>) {
        let (deserialized, consumed) = deserialize_array::<BlockHeaderBorrowed>(buffer)?;
        self.inner = deserialized;
        Ok(consumed)
    }
}

/// A run of block headers.
#[derive(Debug, Default)]
pub struct HeadersOwned {
    pub inner: Vec<BlockHeaderOwned>,
}

impl View for HeadersOwned {
    type V = Seq<BlockHeaderModel>;

    open spec fn view(&self) -> Seq<BlockHeaderModel> {
        self.inner@.map_values(|v: BlockHeaderOwned| v@)
    }
}

impl Serializable for HeadersOwned {
    open spec fn spec_serialize(v: Seq<BlockHeaderModel>) -> Seq<u8> {
        spec_serialize_array::<BlockHeaderOwned>(v)
    }

    open spec fn spec_serializable(v: Seq<BlockHeaderModel>) -> bool {
        true
    }

    fn serialize(&self, stream: &mut Vec<u8>) {
        assert forall|i: int| 0 <= i < self.inner@.len() implies <BlockHeaderOwned as Serializable>::spec_serializable(#[trigger] self.inner@[i]@) by {
            assert(self@[i] == self.inner@[i]@);
        }
        serialize_array(self.inner.as_slice(), stream);
    }
}

impl HeadersOwned {
    /// The owned copy of a decoded `headers`.
    pub fn from(value: HeadersBorrowed) -> (r: HeadersOwned)
        ensures
            r@ == value@,
    {
        let mut inner: Vec<BlockHeaderOwned> = Vec::new();
        let mut i: usize = 0;
        while i < value.inner.len()
            invariant
                i <= value.inner@.len(),
                inner@.map_values(|v: BlockHeaderOwned| v@) == value.inner@.take(i as int).map_values(|v: BlockHeaderBorrowed| v@),
            decreases value.inner@.len() - i,
        {
            let ghost prev = inner@.map_values(|v: BlockHeaderOwned| v@);
            inner.push(BlockHeaderOwned::from(value.inner[i]));
            assert(inner@.map_values(|v: BlockHeaderOwned| v@) =~= prev.push(value.inner@[i as int]@));
            assert(value.inner@.take(i + 1).map_values(|v: BlockHeaderBorrowed| v@) =~= value.inner@.take(i as int).map_values(|v: BlockHeaderBorrowed| v@).push(value.inner@[i as int]@));
            i = i + 1;
        }
        assert(value.inner@.take(value.inner@.len() as int) =~= value.inner@);
        HeadersOwned { inner }
    }
}

/// Decoding the encoding of a `headers` gives back its entries, whatever follows it.
pub proof fn lemma_headers_roundtrip(items: Seq<BlockHeaderModel>, rest: Seq<u8>)
    requires
        items.len() <= u64::MAX,
        forall|i: int| 0 <= i < items.len() ==> ({ let v = #[trigger] items[i]; v.parent.len() == 32 && v.merkle_root.len() == 32 && spec_header_hash_matches(v) && spec_hash_meets_target(v.hash, v.bits) }),
    ensures
        <HeadersBorrowed as DeserializableBorrowed>::spec_deserialize(<HeadersOwned as Serializable>::spec_serialize(items) + rest)
            == Some((items, <HeadersOwned as Serializable>::spec_serialize(items).len() as int)),
{
    assert forall|i: int, r: Seq<u8>| 0 <= i < items.len() implies
        #[trigger] <BlockHeaderBorrowed as DeserializableBorrowed>::spec_deserialize(<BlockHeaderOwned as Serializable>::spec_serialize(items[i]) + r)
            == Some((items[i], <BlockHeaderOwned as Serializable>::spec_serialize(items[i]).len() as int)) by {
        lemma_block_header_roundtrip(items[i], r);
    }
    lemma_array_roundtrip::<BlockHeaderBorrowed, BlockHeaderOwned>(items, rest);
}

} // verus!
