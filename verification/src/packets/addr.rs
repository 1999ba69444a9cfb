//! The `addr` message: an array of entries.
use vstd::prelude::*;
use super::buffer::ParseError;
use super::netaddr::{NetAddrBorrowed, NetAddrOwned, NetAddrModel, lemma_netaddr_roundtrip};
use super::packetpayload::{
    DeserializableBorrowed, PacketPayload, Serializable, deserialize_array, serialize_array,
    spec_deserialize_array, spec_serialize_array, lemma_deserialize_array_len, lemma_array_roundtrip,
    items_roundtrip,
};

verus! {

/// The command name of `addr`.
pub const ADDR_COMMAND: [u8; 12] = [97, 100, 100, 114, 0, 0, 0, 0, 0, 0, 0, 0];

/// A list of known peer addresses.
#[derive(Debug, Default)]
pub struct AddrBorrowed {
    pub inner: Vec<NetAddrBorrowed>,
}

impl View for AddrBorrowed {
    type V = Seq<NetAddrModel>;

    open spec fn view(&self) -> Seq<NetAddrModel> {
        self.inner@.map_values(|v: NetAddrBorrowed| v@)
    }
}

impl PacketPayload for AddrBorrowed {
    open spec fn spec_command() -> Seq<u8> {
        ADDR_COMMAND@
    }

    fn command(&self) -> (r: [u8; 12]) {
        ADDR_COMMAND
    }
}

impl<'a> DeserializableBorrowed<'a> for AddrBorrowed {
    open spec fn spec_deserialize(s: Seq<u8>) -> Option<(Seq<NetAddrModel>, int)> {
        spec_deserialize_array::<'a, NetAddrBorrowed>(s)
    }

    proof fn lemma_deserialize_len(s: Seq<u8>) {
        lemma_deserialize_array_len::<'a, NetAddrBorrowed>(s);
    }

    fn deserialize_borrowed(&mut self, buffer: &'a [u8]) -> (r: Result<usize, ParseError>) {
        let (deserialized, consumed) = deserialize_array::<NetAddrBorrowed>(buffer)?;
        self.inner = deserialized;
        Ok(consumed)
    }
}

/// A list of known peer addresses.
#[derive(Debug, Default)]
pub struct AddrOwned {
    pub inner: Vec<NetAddrOwned>,
}

impl View for AddrOwned {
    type V = Seq<NetAddrModel>;

    open spec fn view(&self) -> Seq<NetAddrModel> {
        self.inner@.map_values(|v: NetAddrOwned| v@)
    }
}

impl Serializable for AddrOwned {
    open spec fn spec_serialize(v: Seq<NetAddrModel>) -> Seq<u8> {
        spec_serialize_array::<NetAddrOwned>(v)
    }

    open spec fn spec_serializable(v: Seq<NetAddrModel>) -> bool {
        true
    }

    fn serialize(&self, stream: &mut Vec<u8>) {
        assert forall|i: int| 0 <= i < self.inner@.len() implies <NetAddrOwned as Serializable>::spec_serializable(#[trigger] self.inner@[i]@) by {
            assert(self@[i] == self.inner@[i]@);
        }
        serialize_array(self.inner.as_slice(), stream);
    }
}

impl AddrOwned {
    /// The owned copy of a decoded `addr`.
    pub fn from(value: AddrBorrowed) -> (r: AddrOwned)
        ensures
            r@ == value@,
    {
        let mut inner: Vec<NetAddrOwned> = Vec::new();
        let mut i: usize = 0;
        while i < value.inner.len()
            invariant
                i <= value.inner@.len(),
                inner@.map_values(|v: NetAddrOwned| v@) == value.inner@.take(i as int).map_values(|v: NetAddrBorrowed| v@),
            decreases value.inner@.len() - i,
        {
            let ghost prev = inner@.map_values(|v: NetAddrOwned| v@);
            inner.push(NetAddrOwned::from(value.inner[i]));
            assert(inner@.map_values(|v: NetAddrOwned| v@) =~= prev.push(value.inner@[i as int]@));
            assert(value.inner@.take(i + 1).map_values(|v: NetAddrBorrowed| v@) =~= value.inner@.take(i as int).map_values(|v: NetAddrBorrowed| v@).push(value.inner@[i as int]@));
            i = i + 1;
        }
        assert(value.inner@.take(value.inner@.len() as int) =~= value.inner@);
        AddrOwned { inner }
    }
}

/// Decoding the encoding of a `addr` gives back its entries, whatever follows it.
pub proof fn lemma_addr_roundtrip(items: Seq<NetAddrModel>, rest: Seq<u8>)
    requires
        items.len() <= u64::MAX,
        forall|i: int| 0 <= i < items.len() ==> ({ let v = #[trigger] items[i]; v.addr.len() == 16 }),
    ensures
        <AddrBorrowed as DeserializableBorrowed>::spec_deserialize(<AddrOwned as Serializable>::spec_serialize(items) + rest)
            == Some((items, <AddrOwned as Serializable>::spec_serialize(items).len() as int)),
{
    assert forall|i: int, r: Seq<u8>| 0 <= i < items.len() implies
        #[trigger] <NetAddrBorrowed as DeserializableBorrowed>::spec_deserialize(<NetAddrOwned as Serializable>::spec_serialize(items[i]) + r)
            == Some((items[i], <NetAddrOwned as Serializable>::spec_serialize(items[i]).len() as int)) by {
        lemma_netaddr_roundtrip(items[i], r);
    }
    lemma_array_roundtrip::<NetAddrBorrowed, NetAddrOwned>(items, rest);
}

} // verus!
