//! The `getdata` message: an array of entries.
use vstd::prelude::*;
use super::buffer::ParseError;
use super::invvector::{InventoryVectorBorrowed, InventoryVectorOwned, InventoryVectorModel, lemma_inv_vector_roundtrip};
use super::packetpayload::{
    DeserializableBorrowed, PacketPayload, Serializable, deserialize_array, serialize_array,
    spec_deserialize_array, spec_serialize_array, lemma_deserialize_array_len, lemma_array_roundtrip,
    items_roundtrip,
};

verus! {

/// The command name of `getdata`.
pub const GETDATA_COMMAND: [u8; 12] = [103, 101, 116, 100, 97, 116, 97, 0, 0, 0, 0, 0];

/// Asks a peer for transactions or blocks.
#[derive(Debug, Default)]
pub struct GetDataBorrowed {
    pub inner: Vec<InventoryVectorBorrowed>,
}

impl View for GetDataBorrowed {
    type V = Seq<InventoryVectorModel>;

    open spec fn view(&self) -> Seq<InventoryVectorModel> {
        self.inner@.map_values(|v: InventoryVectorBorrowed| v@)
    }
}

impl PacketPayload for GetDataBorrowed {
    open spec fn spec_command() -> Seq<u8> {
        GETDATA_COMMAND@
    }

    fn command(&self) -> (r: [u8; 12]) {
        GETDATA_COMMAND
    }
}

impl<'a> DeserializableBorrowed<'a> for GetDataBorrowed {
    open spec fn spec_deserialize(s: Seq<u8>) -> Option<(Seq<InventoryVectorModel>, int)> {
        spec_deserialize_array::<'a, InventoryVectorBorrowed>(s)
    }

    proof fn lemma_deserialize_len(s: Seq<u8>) {
        lemma_deserialize_array_len::<'a, InventoryVectorBorrowed>(s);
    }

    fn deserialize_borrowed(&mut self, buffer: &'a [u8]) -> (r: Result<usize, ParseError>) {
        let (deserialized, consumed) = deserialize_array::<InventoryVectorBorrowed>(buffer)?;
        self.inner = deserialized;
        Ok(consumed)
    }
}

/// Asks a peer for transactions or blocks.
#[derive(Debug, Default)]
pub struct GetDataOwned {
    pub inner: Vec<InventoryVectorOwned>,
}

impl View for GetDataOwned {
    type V = Seq<InventoryVectorModel>;

    open spec fn view(&self) -> Seq<InventoryVectorModel> {
        self.inner@.map_values(|v: InventoryVectorOwned| v@)
    }
}

impl Serializable for GetDataOwned {
    open spec fn spec_serialize(v: Seq<InventoryVectorModel>) -> Seq<u8> {
        spec_serialize_array::<InventoryVectorOwned>(v)
    }

    open spec fn spec_serializable(v: Seq<InventoryVectorModel>) -> bool {
        true
    }

    fn serialize(&self, stream: &mut Vec<u8>) {
        assert forall|i: int| 0 <= i < self.inner@.len() implies <InventoryVectorOwned as Serializable>::spec_serializable(#[trigger] self.inner@[i]@) by {
            assert(self@[i] == self.inner@[i]@);
        }
        serialize_array(self.inner.as_slice(), stream);
    }
}

impl GetDataOwned {
    /// The owned copy of a decoded `getdata`.
    pub fn from(value: GetDataBorrowed) -> (r: GetDataOwned)
        ensures
            r@ == value@,
    {
        let mut inner: Vec<InventoryVectorOwned> = Vec::new();
        let mut i: usize = 0;
        while i < value.inner.len()
            invariant
                i <= value.inner@.len(),
                inner@.map_values(|v: InventoryVectorOwned| v@) == value.inner@.take(i as int).map_values(|v: InventoryVectorBorrowed| v@),
            decreases value.inner@.len() - i,
        {
            let ghost prev = inner@.map_values(|v: InventoryVectorOwned| v@);
            inner.push(InventoryVectorOwned::from(value.inner[i]));
            assert(inner@.map_values(|v: InventoryVectorOwned| v@) =~= prev.push(value.inner@[i as int]@));
            assert(value.inner@.take(i + 1).map_values(|v: InventoryVectorBorrowed| v@) =~= value.inner@.take(i as int).map_values(|v: InventoryVectorBorrowed| v@).push(value.inner@[i as int]@));
            i = i + 1;
        }
        assert(value.inner@.take(value.inner@.len() as int) =~= value.inner@);
        GetDataOwned { inner }
    }
}

/// Decoding the encoding of a `getdata` gives back its entries, whatever follows it.
pub proof fn lemma_getdata_roundtrip(items: Seq<InventoryVectorModel>, rest: Seq<u8>)
    requires
        items.len() <= u64::MAX,
        forall|i: int| 0 <= i < items.len() ==> ({ let v = #[trigger] items[i]; v.hash.len() == 32 }),
    ensures
        <GetDataBorrowed as DeserializableBorrowed>::spec_deserialize(<GetDataOwned as Serializable>::spec_serialize(items) + rest)
            == Some((items, <GetDataOwned as Serializable>::spec_serialize(items).len() as int)),
{
    assert forall|i: int, r: Seq<u8>| 0 <= i < items.len() implies
        #[trigger] <InventoryVectorBorrowed as DeserializableBorrowed>::spec_deserialize(<InventoryVectorOwned as Serializable>::spec_serialize(items[i]) + r)
            == Some((items[i], <InventoryVectorOwned as Serializable>::spec_serialize(items[i]).len() as int)) by {
        lemma_inv_vector_roundtrip(items[i], r);
    }
    lemma_array_roundtrip::<InventoryVectorBorrowed, InventoryVectorOwned>(items, rest);
}

} // verus!
