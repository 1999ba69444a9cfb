//! Network addresses as they appear in `version`, `addr` and `addrv2`.
use vstd::prelude::*;
use vstd::bytes::*;
use super::buffer::{Buffer, ParseError, get_array16};
use super::encode::{
    put_u8, put_u16, put_u32_le, put_u64_le, put_slice, spec_u16_to_be_bytes,
    spec_u16_from_be_bytes, lemma_int_bytes_roundtrip,
};
use super::varint::{
    VarInt, spec_varint_bytes, spec_parse_varint, serialize_varint, deserialize_varint,
    lemma_varint_roundtrip, lemma_parse_varint_len,
};
use super::varstr::{
    spec_varstr_bytes, spec_parse_varstr, serialize_varstr, deserialize_varstr,
    lemma_varstr_roundtrip, lemma_parse_varstr_len,
};
use super::packetpayload::{DeserializableBorrowed, Serializable};

verus! {

broadcast use vstd::seq_lib::group_seq_properties, vstd::slice::group_slice_axioms;

/// The network an `addrv2` entry belongs to (BIP 155).
#[derive(Clone, Copy, Debug, PartialEq, Eq, Structural)]
pub enum NetworkId {
    IPv4,
    IPv6,
    TorV2,
    TorV3,
    I2P,
    Cjdns,
}

impl Default for NetworkId {
    fn default() -> (r: Self)
        ensures
            r == NetworkId::IPv4,
    {
        NetworkId::IPv4
    }
}

/// The network with wire code `b`, if there is one.
pub open spec fn spec_network_id_from_u8(b: u8) -> Option<NetworkId> {
    if b == 1 {
        Some(NetworkId::IPv4)
    } else if b == 2 {
        Some(NetworkId::IPv6)
    } else if b == 3 {
        Some(NetworkId::TorV2)
    } else if b == 4 {
        Some(NetworkId::TorV3)
    } else if b == 5 {
        Some(NetworkId::I2P)
    } else if b == 6 {
        Some(NetworkId::Cjdns)
    } else {
        None
    }
}

/// The wire code of a network.
pub open spec fn spec_network_id_to_u8(n: NetworkId) -> u8 {
    match n {
        NetworkId::IPv4 => 1,
        NetworkId::IPv6 => 2,
        NetworkId::TorV2 => 3,
        NetworkId::TorV3 => 4,
        NetworkId::I2P => 5,
        NetworkId::Cjdns => 6,
    }
}

impl NetworkId {
    /// The network with wire code `b`, if there is one.
    pub fn from_u8(b: u8) -> (r: Option<NetworkId>)
        ensures
            r == spec_network_id_from_u8(b),
    {
        match b {
            1 => Some(NetworkId::IPv4),
            2 => Some(NetworkId::IPv6),
            3 => Some(NetworkId::TorV2),
            4 => Some(NetworkId::TorV3),
            5 => Some(NetworkId::I2P),
            6 => Some(NetworkId::Cjdns),
            _ => None,
        }
    }

    /// The wire code of this network.
    pub fn to_u8(&self) -> (r: u8)
        ensures
            r == spec_network_id_to_u8(*self),
    {
        match self {
            NetworkId::IPv4 => 1,
            NetworkId::IPv6 => 2,
            NetworkId::TorV2 => 3,
            NetworkId::TorV3 => 4,
            NetworkId::I2P => 5,
            NetworkId::Cjdns => 6,
        }
    }
}

/// An address without a timestamp, as in `version`: services, 16 address bytes, port.
pub struct NetAddrShortModel {
    pub services: u64,
    pub addr: Seq<u8>,
    pub port: u16,
}

/// Decoding a short address: 8 bytes of services (LE), 16 address bytes, a big-endian port.
pub open spec fn spec_parse_netaddr_short(s: Seq<u8>) -> Option<(NetAddrShortModel, int)> {
    if s.len() >= 26 {
        Some((NetAddrShortModel {
            services: spec_u64_from_le_bytes(s.subrange(0, 8)),
            addr: s.subrange(8, 24),
            port: spec_u16_from_be_bytes(s.subrange(24, 26)),
        }, 26))
    } else {
        None
    }
}

/// The encoding of a short address.
pub open spec fn spec_netaddr_short_bytes(v: NetAddrShortModel) -> Seq<u8> {
    spec_u64_to_le_bytes(v.services) + v.addr + spec_u16_to_be_bytes(v.port)
}

/// Decoding the encoding of a short address gives it back.
pub proof fn lemma_netaddr_short_roundtrip(v: NetAddrShortModel, rest: Seq<u8>)
    requires
        v.addr.len() == 16,
    ensures
        spec_netaddr_short_bytes(v).len() == 26,
        spec_parse_netaddr_short(spec_netaddr_short_bytes(v) + rest) == Some((v, 26int)),
{
    lemma_int_bytes_roundtrip();
    let s = spec_netaddr_short_bytes(v) + rest;
    assert(s.subrange(0, 8) =~= spec_u64_to_le_bytes(v.services));
    assert(s.subrange(8, 24) =~= v.addr);
    assert(s.subrange(24, 26) =~= spec_u16_to_be_bytes(v.port));
}

/// A short address decoded from a buffer.
#[derive(Clone, Copy, Debug)]
pub struct NetAddrShortBorrowed {
    pub services: u64,
    pub addr: [u8; 16],
    pub port: u16,
}

impl Default for NetAddrShortBorrowed {
    fn default() -> (r: Self)
        ensures
            r.services == 0 && r.addr@ == Seq::new(16, |i: int| 0u8) && r.port == 0,
    {
        NetAddrShortBorrowed { services: 0, addr: [0u8; 16], port: 0 }
    }
}

impl View for NetAddrShortBorrowed {
    type V = NetAddrShortModel;

    open spec fn view(&self) -> NetAddrShortModel {
        NetAddrShortModel { services: self.services, addr: self.addr@, port: self.port }
    }
}

impl<'a> DeserializableBorrowed<'a> for NetAddrShortBorrowed {
    open spec fn spec_deserialize(s: Seq<u8>) -> Option<(NetAddrShortModel, int)> {
        spec_parse_netaddr_short(s)
    }

    proof fn lemma_deserialize_len(s: Seq<u8>) {
    }

    fn deserialize_borrowed(&mut self, buffer: &'a [u8]) -> (r: Result<usize, ParseError>) {
        if buffer.len() < 24 {
            return Err(ParseError::NotEnoughBytes);
        }
        let services = buffer.get_u64_le(0)?;
        let addr = get_array16(buffer, 8);
        let port = buffer.get_u16(24)?;
        self.services = services;
        self.addr = addr;
        self.port = port;
        Ok(26)
    }
}

/// A short address to be sent.
#[derive(Clone, Copy, Debug, Default)]
pub struct NetAddrShortOwned {
    pub services: u64,
    pub addr: [u8; 16],
    pub port: u16,
}

impl View for NetAddrShortOwned {
    type V = NetAddrShortModel;

    open spec fn view(&self) -> NetAddrShortModel {
        NetAddrShortModel { services: self.services, addr: self.addr@, port: self.port }
    }
}

impl Serializable for NetAddrShortOwned {
    open spec fn spec_serialize(v: NetAddrShortModel) -> Seq<u8> {
        spec_netaddr_short_bytes(v)
    }

    open spec fn spec_serializable(v: NetAddrShortModel) -> bool {
        true
    }

    fn serialize(&self, stream: &mut Vec<u8>) {
        put_u64_le(stream, self.services);
        put_slice(stream, self.addr.as_slice());
        put_u16(stream, self.port);
        assert(stream@ =~= old(stream)@ + spec_netaddr_short_bytes(self@));
    }
}

impl NetAddrShortOwned {
    /// The owned copy of a decoded short address.
    pub fn from(value: NetAddrShortBorrowed) -> (r: NetAddrShortOwned)
        ensures
            r@ == value@,
    {
        NetAddrShortOwned { services: value.services, addr: value.addr, port: value.port }
    }
}

/// An address with a timestamp, as in `addr`: time, services, 16 address bytes, port.
pub struct NetAddrModel {
    pub services: u64,
    pub addr: Seq<u8>,
    pub time: u32,
    pub port: u16,
}

/// Decoding an address: time (LE u32), services (LE u64), 16 address bytes, a big-endian port.
pub open spec fn spec_parse_netaddr(s: Seq<u8>) -> Option<(NetAddrModel, int)> {
    if s.len() >= 30 {
        Some((NetAddrModel {
            time: spec_u32_from_le_bytes(s.subrange(0, 4)),
            services: spec_u64_from_le_bytes(s.subrange(4, 12)),
            addr: s.subrange(12, 28),
            port: spec_u16_from_be_bytes(s.subrange(28, 30)),
        }, 30))
    } else {
        None
    }
}

/// The encoding of an address.
pub open spec fn spec_netaddr_bytes(v: NetAddrModel) -> Seq<u8> {
    spec_u32_to_le_bytes(v.time) + spec_u64_to_le_bytes(v.services) + v.addr + spec_u16_to_be_bytes(v.port)
}

/// Decoding the encoding of an address gives it back.
pub proof fn lemma_netaddr_roundtrip(v: NetAddrModel, rest: Seq<u8>)
    requires
        v.addr.len() == 16,
    ensures
        spec_netaddr_bytes(v).len() == 30,
        spec_parse_netaddr(spec_netaddr_bytes(v) + rest) == Some((v, 30int)),
{
    lemma_int_bytes_roundtrip();
    let s = spec_netaddr_bytes(v) + rest;
    assert(s.subrange(0, 4) =~= spec_u32_to_le_bytes(v.time));
    assert(s.subrange(4, 12) =~= spec_u64_to_le_bytes(v.services));
    assert(s.subrange(12, 28) =~= v.addr);
    assert(s.subrange(28, 30) =~= spec_u16_to_be_bytes(v.port));
}

/// An address decoded from a buffer.
#[derive(Clone, Copy, Debug)]
pub struct NetAddrBorrowed {
    pub services: u64,
    pub addr: [u8; 16],
    pub time: u32,
    pub port: u16,
}

impl Default for NetAddrBorrowed {
    fn default() -> (r: Self)
        ensures
            r.services == 0 && r.addr@ == Seq::new(16, |i: int| 0u8) && r.time == 0 && r.port == 0,
    {
        NetAddrBorrowed { services: 0, addr: [0u8; 16], time: 0, port: 0 }
    }
}

impl View for NetAddrBorrowed {
    type V = NetAddrModel;

    open spec fn view(&self) -> NetAddrModel {
        NetAddrModel { services: self.services, addr: self.addr@, time: self.time, port: self.port }
    }
}

impl<'a> DeserializableBorrowed<'a> for NetAddrBorrowed {
    open spec fn spec_deserialize(s: Seq<u8>) -> Option<(NetAddrModel, int)> {
        spec_parse_netaddr(s)
    }

    proof fn lemma_deserialize_len(s: Seq<u8>) {
    }

    fn deserialize_borrowed(&mut self, buffer: &'a [u8]) -> (r: Result<usize, ParseError>) {
        if buffer.len() < 28 {
            return Err(ParseError::NotEnoughBytes);
        }
        let time = buffer.get_u32_le(0)?;
        let addr = get_array16(buffer, 12);
        let services = buffer.get_u64_le(4)?;
        let port = buffer.get_u16(28)?;
        self.time = time;
        self.addr = addr;
        self.services = services;
        self.port = port;
        Ok(30)
    }
}

/// An address to be sent.
#[derive(Clone, Copy, Debug, Default)]
pub struct NetAddrOwned {
    pub services: u64,
    pub addr: [u8; 16],
    pub time: u32,
    pub port: u16,
}

impl View for NetAddrOwned {
    type V = NetAddrModel;

    open spec fn view(&self) -> NetAddrModel {
        NetAddrModel { services: self.services, addr: self.addr@, time: self.time, port: self.port }
    }
}

impl Serializable for NetAddrOwned {
    open spec fn spec_serialize(v: NetAddrModel) -> Seq<u8> {
        spec_netaddr_bytes(v)
    }

    open spec fn spec_serializable(v: NetAddrModel) -> bool {
        true
    }

    fn serialize(&self, stream: &mut Vec<u8>) {
        put_u32_le(stream, self.time);
        put_u64_le(stream, self.services);
        put_slice(stream, self.addr.as_slice());
        put_u16(stream, self.port);
        assert(stream@ =~= old(stream)@ + spec_netaddr_bytes(self@));
    }
}

impl NetAddrOwned {
    /// The owned copy of a decoded address.
    pub fn from(value: NetAddrBorrowed) -> (r: NetAddrOwned)
        ensures
            r@ == value@,
    {
        NetAddrOwned { services: value.services, addr: value.addr, time: value.time, port: value.port }
    }
}

/// An `addrv2` entry: time, services (varint), network, address bytes (varstr), port.
pub struct NetAddrV2Model {
    pub address: Seq<u8>,
    pub services: u64,
    pub time: u32,
    pub port: u16,
    pub network_id: NetworkId,
}

/// Why an `addrv2` entry does not decode, or what it decodes to.
pub enum NetAddrV2Parse {
    Parsed(NetAddrV2Model, int),
    NotEnoughBytes,
    InvalidNetworkId(u8),
}

/// Decoding an `addrv2` entry.
pub open spec fn spec_parse_netaddr_v2_full(s: Seq<u8>) -> NetAddrV2Parse {
    if s.len() < 4 {
        NetAddrV2Parse::NotEnoughBytes
    } else {
        match spec_parse_varint(s.subrange(4, s.len() as int)) {
            None => NetAddrV2Parse::NotEnoughBytes,
            Some((services, c)) => {
                let off = 4 + c;
                if off >= s.len() {
                    NetAddrV2Parse::NotEnoughBytes
                } else {
                    match spec_network_id_from_u8(s[off]) {
                        None => NetAddrV2Parse::InvalidNetworkId(s[off]),
                        Some(network_id) => match spec_parse_varstr(s.subrange(off + 1, s.len() as int)) {
                            None => NetAddrV2Parse::NotEnoughBytes,
                            Some((address, d)) => {
                                let p = off + 1 + d;
                                if p + 2 <= s.len() {
                                    NetAddrV2Parse::Parsed(NetAddrV2Model {
                                        address,
                                        services,
                                        time: spec_u32_from_le_bytes(s.subrange(0, 4)),
                                        port: spec_u16_from_be_bytes(s.subrange(p, p + 2)),
                                        network_id,
                                    }, p + 2)
                                } else {
                                    NetAddrV2Parse::NotEnoughBytes
                                }
                            },
                        },
                    }
                }
            },
        }
    }
}

/// Decoding an `addrv2` entry, when it decodes.
pub open spec fn spec_parse_netaddr_v2(s: Seq<u8>) -> Option<(NetAddrV2Model, int)> {
    match spec_parse_netaddr_v2_full(s) {
        NetAddrV2Parse::Parsed(v, n) => Some((v, n)),
        _ => None,
    }
}

/// The encoding of an `addrv2` entry.
pub open spec fn spec_netaddr_v2_bytes(v: NetAddrV2Model) -> Seq<u8> {
    spec_u32_to_le_bytes(v.time) + spec_varint_bytes(v.services) + seq![spec_network_id_to_u8(v.network_id)]
        + spec_varstr_bytes(v.address) + spec_u16_to_be_bytes(v.port)
}

pub proof fn lemma_network_id_roundtrip(n: NetworkId)
    ensures
        spec_network_id_from_u8(spec_network_id_to_u8(n)) == Some(n),
{
}

/// Decoding the encoding of an `addrv2` entry gives it back.
pub proof fn lemma_netaddr_v2_roundtrip(v: NetAddrV2Model, rest: Seq<u8>)
    requires
        v.address.len() <= u64::MAX,
    ensures
        spec_parse_netaddr_v2(spec_netaddr_v2_bytes(v) + rest) == Some((v, spec_netaddr_v2_bytes(v).len() as int)),
{
    lemma_int_bytes_roundtrip();
    let a = spec_u32_to_le_bytes(v.time);
    let b = spec_varint_bytes(v.services);
    let c = seq![spec_network_id_to_u8(v.network_id)];
    let d = spec_varstr_bytes(v.address);
    let e = spec_u16_to_be_bytes(v.port);
    let s = spec_netaddr_v2_bytes(v) + rest;
    assert(s =~= a + (b + (c + (d + (e + rest)))));
    assert(s.subrange(0, 4) =~= a);
    lemma_varint_roundtrip(v.services, c + d + e + rest);
    assert(s.subrange(4, s.len() as int) =~= b + (c + d + e + rest));
    let off: int = 4 + b.len() as int;
    assert(s[off] == spec_network_id_to_u8(v.network_id));
    lemma_varstr_roundtrip(v.address, e + rest);
    assert(s.subrange(off + 1, s.len() as int) =~= d + (e + rest));
    let p: int = off + 1 + d.len() as int;
    assert(s.subrange(p, p + 2) =~= e);
}

/// An `addrv2` entry decoded from a buffer; the address bytes borrow from it.
#[derive(Clone, Copy, Debug, Default)]
pub struct NetAddrV2Borrowed<'a> {
    pub address: &'a [u8],
    pub services: VarInt,
    pub time: u32,
    pub port: u16,
    pub network_id: NetworkId,
}

impl<'a> View for NetAddrV2Borrowed<'a> {
    type V = NetAddrV2Model;

    open spec fn view(&self) -> NetAddrV2Model {
        NetAddrV2Model {
            address: self.address@,
            services: self.services,
            time: self.time,
            port: self.port,
            network_id: self.network_id,
        }
    }
}

impl<'a> NetAddrV2Borrowed<'a> {
    /// Decodes an `addrv2` entry, telling an unknown network apart from a short buffer.
    pub fn deserialize_checked(&mut self, buffer: &'a [u8]) -> (r: Result<usize, ParseError>)
        ensures
            match spec_parse_netaddr_v2_full(buffer@) {
                NetAddrV2Parse::Parsed(v, n) => r == Ok::<usize, ParseError>(n as usize) && final(self)@ == v,
                NetAddrV2Parse::NotEnoughBytes => r == Err::<usize, ParseError>(ParseError::NotEnoughBytes),
                NetAddrV2Parse::InvalidNetworkId(b) => r == Err::<usize, ParseError>(ParseError::InvalidNetworkId(b)),
            },
    {
        let time = buffer.get_u32_le(0)?;
        let (services, c) = deserialize_varint(buffer.with_offset(4)?)?;
        proof {
            lemma_parse_varint_len(buffer@.subrange(4, buffer@.len() as int));
        }
        let mut offset = c + 4;
        if offset >= buffer.len() {
            return Err(ParseError::NotEnoughBytes);
        }
        let raw_id = buffer[offset];
        let network_id = match NetworkId::from_u8(raw_id) {
            Some(n) => n,
            None => {
                return Err(ParseError::InvalidNetworkId(raw_id));
            },
        };
        offset = offset + 1;
        let (address, d) = deserialize_varstr(buffer.with_offset(offset)?)?;
        proof {
            lemma_parse_varstr_len(buffer@.subrange(offset as int, buffer@.len() as int));
        }
        offset = offset + d;
        let port = buffer.get_u16(offset)?;
        self.time = time;
        self.services = services;
        self.network_id = network_id;
        self.address = address;
        self.port = port;
        Ok(offset + 2)
    }
}

impl<'a> DeserializableBorrowed<'a> for NetAddrV2Borrowed<'a> {
    open spec fn spec_deserialize(s: Seq<u8>) -> Option<(NetAddrV2Model, int)> {
        spec_parse_netaddr_v2(s)
    }

    proof fn lemma_deserialize_len(s: Seq<u8>) {
        if s.len() >= 4 {
            lemma_parse_varint_len(s.subrange(4, s.len() as int));
            if let Some((_, c)) = spec_parse_varint(s.subrange(4, s.len() as int)) {
                let off = 4 + c;
                if off < s.len() {
                    lemma_parse_varstr_len(s.subrange(off + 1, s.len() as int));
                }
            }
        }
    }

    fn deserialize_borrowed(&mut self, buffer: &'a [u8]) -> (r: Result<usize, ParseError>) {
        proof {
            Self::lemma_deserialize_len(buffer@);
        }
        assert(buffer@.len() == buffer.len());
        self.deserialize_checked(buffer)
    }
}

/// An `addrv2` entry to be sent.
#[derive(Clone, Debug, Default)]
pub struct NetAddrV2Owned {
    pub address: Vec<u8>,
    pub services: VarInt,
    pub time: u32,
    pub port: u16,
    pub network_id: NetworkId,
}

impl View for NetAddrV2Owned {
    type V = NetAddrV2Model;

    open spec fn view(&self) -> NetAddrV2Model {
        NetAddrV2Model {
            address: self.address@,
            services: self.services,
            time: self.time,
            port: self.port,
            network_id: self.network_id,
        }
    }
}

impl Serializable for NetAddrV2Owned {
    open spec fn spec_serialize(v: NetAddrV2Model) -> Seq<u8> {
        spec_netaddr_v2_bytes(v)
    }

    open spec fn spec_serializable(v: NetAddrV2Model) -> bool {
        v.address.len() + 9 <= usize::MAX
    }

    fn serialize(&self, stream: &mut Vec<u8>) {
        put_u32_le(stream, self.time);
        serialize_varint(self.services, stream);
        put_u8(stream, self.network_id.to_u8());
        serialize_varstr(self.address.as_slice(), stream);
        put_u16(stream, self.port);
        assert(stream@ =~= old(stream)@ + spec_netaddr_v2_bytes(self@));
    }
}

impl NetAddrV2Owned {
    /// The owned copy of a decoded `addrv2` entry.
    pub fn from(value: NetAddrV2Borrowed<'_>) -> (r: NetAddrV2Owned)
        ensures
            r@ == value@,
    {
        NetAddrV2Owned {
            address: vstd::slice::slice_to_vec(value.address),
            services: value.services,
            time: value.time,
            port: value.port,
            network_id: value.network_id,
        }
    }
}

} // verus!
