//! The `addrv2` message: an array of entries.
use vstd::prelude::*;
use super::buffer::ParseError;
use super::netaddr::{NetAddrV2Borrowed, NetAddrV2Owned, NetAddrV2Model, lemma_netaddr_v2_roundtrip};
use super::packetpayload::{
    DeserializableBorrowed, PacketPayload, Serializable, deserialize_array, serialize_array,
    spec_deserialize_array, spec_serialize_array, lemma_deserialize_array_len, lemma_array_roundtrip,
    items_roundtrip,
};

verus! {

/// The command name of `addrv2`.
pub const ADDRV2_COMMAND: [u8; 12] = [97, 100, 100, 114, 118, 50, 0, 0, 0, 0, 0, 0];

/// A list of known peer addresses in the BIP 155 format.
#[derive(Debug, Default)]
pub struct AddrV2Borrowed<'a> {
    pub inner: Vec<NetAddrV2Borrowed<'a>>,
}

impl<'a> View for AddrV2Borrowed<'a> {
    type V = Seq<NetAddrV2Model>;

    open spec fn view(&self) -> Seq<NetAddrV2Model> {
        self.inner@.map_values(|v: NetAddrV2Borrowed<'a>| v@)
    }
}

impl<'a> PacketPayload for AddrV2Borrowed<'a> {
    open spec fn spec_command() -> Seq<u8> {
        ADDRV2_COMMAND@
    }

    fn command(&self) -> (r: [u8; 12]) {
        ADDRV2_COMMAND
    }
}

impl<'a> DeserializableBorrowed<'a> for AddrV2Borrowed<'a> {
    open spec fn spec_deserialize(s: Seq<u8>) -> Option<(Seq<NetAddrV2Model>, int)> {
        spec_deserialize_array::<'a, NetAddrV2Borrowed<'a>>(s)
    }

    proof fn lemma_deserialize_len(s: Seq<u8>) {
        lemma_deserialize_array_len::<'a, NetAddrV2Borrowed<'a>>(s);
    }

    fn deserialize_borrowed(&mut self, buffer: &'a [u8]) -> (r: Result<usize, ParseError>) {
        let (deserialized, consumed) = deserialize_array::<NetAddrV2Borrowed<'a>>(buffer)?;
        self.inner = deserialized;
        Ok(consumed)
    }
}

/// A list of known peer addresses in the BIP 155 format.
#[derive(Debug, Default)]
pub struct AddrV2Owned {
    pub inner: Vec<NetAddrV2Owned>,
}

impl View for AddrV2Owned {
    type V = Seq<NetAddrV2Model>;

    open spec fn view(&self) -> Seq<NetAddrV2Model> {
        self.inner@.map_values(|v: NetAddrV2Owned| v@)
    }
}

impl Serializable for AddrV2Owned {
    open spec fn spec_serialize(v: Seq<NetAddrV2Model>) -> Seq<u8> {
        spec_serialize_array::<NetAddrV2Owned>(v)
    }

    open spec fn spec_serializable(v: Seq<NetAddrV2Model>) -> bool {
        forall|i: int| 0 <= i < v.len() ==> #[trigger] v[i].address.len() + 9 <= usize::MAX
    }

    fn serialize(&self, stream: &mut Vec<u8>) {
        assert forall|i: int| 0 <= i < self.inner@.len() implies <NetAddrV2Owned as Serializable>::spec_serializable(#[trigger] self.inner@[i]@) by {
            assert(self@[i] == self.inner@[i]@);
        }
        serialize_array(self.inner.as_slice(), stream);
    }
}

impl AddrV2Owned {
    /// The owned copy of a decoded `addrv2`.
    pub fn from<'a>(value: AddrV2Borrowed<'a>) -> (r: AddrV2Owned)
        ensures
            r@ == value@,
    {
        let mut inner: Vec<NetAddrV2Owned> = Vec::new();
        let mut i: usize = 0;
        while i < value.inner.len()
            invariant
                i <= value.inner@.len(),
                inner@.map_values(|v: NetAddrV2Owned| v@) == value.inner@.take(i as int).map_values(|v: NetAddrV2Borrowed<'a>| v@),
            decreases value.inner@.len() - i,
        {
            let ghost prev = inner@.map_values(|v: NetAddrV2Owned| v@);
            inner.push(NetAddrV2Owned::from(value.inner[i]));
            assert(inner@.map_values(|v: NetAddrV2Owned| v@) =~= prev.push(value.inner@[i as int]@));
            assert(value.inner@.take(i + 1).map_values(|v: NetAddrV2Borrowed<'a>| v@) =~= value.inner@.take(i as int).map_values(|v: NetAddrV2Borrowed<'a>| v@).push(value.inner@[i as int]@));
            i = i + 1;
        }
        assert(value.inner@.take(value.inner@.len() as int) =~= value.inner@);
        AddrV2Owned { inner }
    }
}

/// Decoding the encoding of a `addrv2` gives back its entries, whatever follows it.
pub proof fn lemma_addrv2_roundtrip(items: Seq<NetAddrV2Model>, rest: Seq<u8>)
    requires
        items.len() <= u64::MAX,
        forall|i: int| 0 <= i < items.len() ==> ({ let v = #[trigger] items[i]; v.address.len() <= u64::MAX }),
    ensures
        <AddrV2Borrowed as DeserializableBorrowed>::spec_deserialize(<AddrV2Owned as Serializable>::spec_serialize(items) + rest)
            == Some((items, <AddrV2Owned as Serializable>::spec_serialize(items).len() as int)),
{
    assert forall|i: int, r: Seq<u8>| 0 <= i < items.len() implies
        #[trigger] <NetAddrV2Borrowed as DeserializableBorrowed>::spec_deserialize(<NetAddrV2Owned as Serializable>::spec_serialize(items[i]) + r)
            == Some((items[i], <NetAddrV2Owned as Serializable>::spec_serialize(items[i]).len() as int)) by {
        lemma_netaddr_v2_roundtrip(items[i], r);
    }
    lemma_array_roundtrip::<NetAddrV2Borrowed, NetAddrV2Owned>(items, rest);
}

} // verus!
