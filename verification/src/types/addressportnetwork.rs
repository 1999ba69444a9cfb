//! A peer's address: its network, address bytes and port.
use vstd::prelude::*;
use crate::packets::netaddr::NetworkId;

verus! {

/// The model of a peer address.
pub struct ApnModel {
    pub network_id: NetworkId,
    pub address: Seq<u8>,
    pub port: u16,
}

/// A peer address: 4 bytes for IPv4, 16 for IPv6, and whatever the
/// network uses for the others.
#[derive(Debug)]
pub struct AddressPortNetwork {
    pub network_id: NetworkId,
    pub address: Vec<u8>,
    pub port: u16,
}

impl View for AddressPortNetwork {
    type V = ApnModel;

    open spec fn view(&self) -> ApnModel {
        ApnModel { network_id: self.network_id, address: self.address@, port: self.port }
    }
}

/// Whether two byte strings are equal.
pub fn bytes_eq(a: &[u8], b: &[u8]) -> (r: bool)
    ensures
        r == (a@ == b@),
{
    if a.len() != b.len() {
        return false;
    }
    let mut i: usize = 0;
    while i < a.len()
        invariant
            a@.len() == b@.len(),
            i <= a@.len(),
            forall|j: int| 0 <= j < i ==> a@[j] == b@[j],
        decreases a@.len() - i,
    {
        if a[i] != b[i] {
            return false;
        }
        i = i + 1;
    }
    assert(a@ =~= b@);
    true
}

impl AddressPortNetwork {
    /// Whether both name the same peer.
    pub fn same_as(&self, other: &AddressPortNetwork) -> (r: bool)
        ensures
            r == (self@ == other@),
    {
        self.network_id == other.network_id && self.port == other.port
            && bytes_eq(self.address.as_slice(), other.address.as_slice())
    }

    /// A copy of this address.
    pub fn duplicate(&self) -> (r: AddressPortNetwork)
        ensures
            r@ == self@,
    {
        AddressPortNetwork {
            network_id: self.network_id,
            address: vstd::slice::slice_to_vec(self.address.as_slice()),
            port: self.port,
        }
    }
}

/// The models of a list of addresses.
pub open spec fn spec_apns_view(v: Seq<AddressPortNetwork>) -> Seq<ApnModel> {
    v.map_values(|a: AddressPortNetwork| a@)
}

/// The addresses a list holds, as a set.
pub open spec fn spec_apn_set(v: Seq<AddressPortNetwork>) -> Set<ApnModel> {
    Set::new(|m: ApnModel| exists|i: int| 0 <= i < v.len() && (#[trigger] v[i])@ == m)
}

/// Where `apn` is in `v`.
pub fn position_of(v: &Vec<AddressPortNetwork>, apn: &AddressPortNetwork) -> (r: Option<usize>)
    ensures
        match r {
            Some(i) => i < v@.len() && v@[i as int]@ == apn@,
            None => !spec_apn_set(v@).contains(apn@),
        },
{
    let mut i: usize = 0;
    while i < v.len()
        invariant
            i <= v@.len(),
            forall|j: int| 0 <= j < i ==> (#[trigger] v@[j])@ != apn@,
        decreases v@.len() - i,
    {
        if v[i].same_as(apn) {
            return Some(i);
        }
        i = i + 1;
    }
    None
}

} // verus!
