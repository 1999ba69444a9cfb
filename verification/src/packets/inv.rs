//! The `inv` message: an array of entries.
use vstd::prelude::*;
use super::buffer::ParseError;
use super::invvector::{InventoryVectorBorrowed, InventoryVectorOwned, InventoryVectorModel, lemma_inv_vector_roundtrip};
use super::packetpayload::{
    DeserializableBorrowed, PacketPayload, Serializable, deserialize_array, serialize_array,
    spec_deserialize_array, spec_serialize_array, lemma_deserialize_array_len, lemma_array_roundtrip,
    items_roundtrip,
};

verus! {

/// The command name of `inv`.
pub const INV_COMMAND: [u8; 12] = [105, 110, 118, 0, 0, 0, 0, 0, 0, 0, 0, 0];

/// Announces transactions or blocks.
#[derive(Debug, Default)]
pub struct InvBorrowed {
    pub inner: Vec<InventoryVectorBorrowed>,
}

impl View for InvBorrowed {
    type V = Seq<InventoryVectorModel>;

    open spec fn view(&self) -> Seq<InventoryVectorModel> {
        self.inner@.map_values(|v: InventoryVectorBorrowed| v@)
    }
}

impl PacketPayload for InvBorrowed {
    open spec fn spec_command() -> Seq<u8> {
        INV_COMMAND@
    }

    fn command(&self) -> (r: [u8; 12]) {
        INV_COMMAND
    }
}

impl<'a> DeserializableBorrowed<'a> for InvBorrowed {
    open spec fn spec_deserialize(s: Seq<u8>) -> Option<(Seq<InventoryVectorModel>, int)> {
        spec_deserialize_array::<'a, InventoryVectorBorrowed>(s)
    }

    proof fn lemma_deserialize_len(s: Seq<u8>) {
        lemma_deserialize_array_len::<'a, InventoryVectorBorrowed>(s);
    }

    fn deserialize_borrowed(&mut self, buffer: &'a [u8]) -> (r: Result<usize, ParseError>) {
        let (deserialized, consumed) = deserialize_array::<InventoryVectorBorrowed>(buffer)?;
        self.inner = deserialized;
        Ok(consumed)
    }
}

/// Announces transactions or blocks.
#[derive(Debug, Default)]
pub struct InvOwned {
    pub inner: Vec<InventoryVectorOwned>,
}

impl View for InvOwned {
    type V = Seq<InventoryVectorModel>;

    open spec fn view(&self) -> Seq<InventoryVectorModel> {
        self.inner@.map_values(|v: InventoryVectorOwned| v@)
    }
}

impl Serializable for InvOwned {
    open spec fn spec_serialize(v: Seq<InventoryVectorModel>) -> Seq<u8> {
        spec_serialize_array::<InventoryVectorOwned>(v)
    }

    open spec fn spec_serializable(v: Seq<InventoryVectorModel>) -> bool {
        true
    }

    fn serialize(&self, stream: &mut Vec<u8>) {
        assert forall|i: int| 0 <= i < self.inner@.len() implies <InventoryVectorOwned as Serializable>::spec_serializable(#[trigger] self.inner@[i]@) by {
            assert(self@[i] == self.inner@[i]@);
        }
        serialize_array(self.inner.as_slice(), stream);
    }
}

impl InvOwned {
    /// The owned copy of a decoded `inv`.
    pub fn from(value: InvBorrowed) -> (r: InvOwned)
        ensures
            r@ == value@,
    {
        let mut inner: Vec<InventoryVectorOwned> = Vec::new();
        let mut i: usize = 0;
        while i < value.inner.len()
            invariant
                i <= value.inner@.len(),
                inner@.map_values(|v: InventoryVectorOwned| v@) == value.inner@.take(i as int).map_values(|v: InventoryVectorBorrowed| v@),
            decreases value.inner@.len() - i,
        {
            let ghost prev = inner@.map_values(|v: InventoryVectorOwned| v@);
            inner.push(InventoryVectorOwned::from(value.inner[i]));
            assert(inner@.map_values(|v: InventoryVectorOwned| v@) =~= prev.push(value.inner@[i as int]@));
            assert(value.inner@.take(i + 1).map_values(|v: InventoryVectorBorrowed| v@) =~= value.inner@.take(i as int).map_values(|v: InventoryVectorBorrowed| v@).push(value.inner@[i as int]@));
            i = i + 1;
        }
        assert(value.inner@.take(value.inner@.len() as int) =~= value.inner@);
        InvOwned { inner }
    }
}

/// Decoding the encoding of a `inv` gives back its entries, whatever follows it.
pub proof fn lemma_inv_roundtrip(items: Seq<InventoryVectorModel>, rest: Seq<u8>)
    requires
        items.len() <= u64::MAX,
        forall|i: int| 0 <= i < items.len() ==> ({ let v = #[trigger] items[i]; v.hash.len() == 32 }),
    ensures
        <InvBorrowed as DeserializableBorrowed>::spec_deserialize(<InvOwned as Serializable>::spec_serialize(items) + rest)
            == Some((items, <InvOwned as Serializable>::spec_serialize(items).len() as int)),
{
    assert forall|i: int, r: Seq<u8>| 0 <= i < items.len() implies
        #[trigger] <InventoryVectorBorrowed as DeserializableBorrowed>::spec_deserialize(<InventoryVectorOwned as Serializable>::spec_serialize(items[i]) + r)
            == Some((items[i], <InventoryVectorOwned as Serializable>::spec_serialize(items[i]).len() as int)) by {
        lemma_inv_vector_roundtrip(items[i], r);
    }
    lemma_array_roundtrip::<InventoryVectorBorrowed, InventoryVectorOwned>(items, rest);
}

} // verus!
