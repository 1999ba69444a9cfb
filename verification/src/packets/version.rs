//! The `version` message that opens every connection.
use vstd::prelude::*;
use vstd::bytes::*;
use super::buffer::{Buffer, ParseError};
use super::encode::{put_u8, put_u32_le, put_u64_le, lemma_int_bytes_roundtrip};
use super::netaddr::{
    NetAddrShortBorrowed, NetAddrShortOwned, NetAddrShortModel, spec_parse_netaddr_short,
    spec_netaddr_short_bytes, lemma_netaddr_short_roundtrip,
};
use super::varstr::{
    spec_varstr_bytes, spec_parse_varstr, serialize_varstr, deserialize_varstr,
    lemma_varstr_roundtrip, lemma_parse_varstr_len,
};
use super::packetpayload::{DeserializableBorrowed, PacketPayload, Serializable};

verus! {

broadcast use vstd::seq_lib::group_seq_properties, vstd::slice::group_slice_axioms;

/// The command name of `version`.
pub const VERSION_COMMAND: [u8; 12] = [118, 101, 114, 115, 105, 111, 110, 0, 0, 0, 0, 0];

/// From this protocol version on, `version` ends with the relay flag.
pub const RELAY_FLAG_VERSION: u32 = 70001;

/// A `version` message.
pub struct VersionModel {
    pub services: u64,
    pub timestamp: u64,
    pub addrrecv: NetAddrShortModel,
    pub addrfrom: NetAddrShortModel,
    pub nonce: u64,
    pub user_agent: Seq<u8>,
    pub start_height: u32,
    pub version: u32,
    pub announce_relayed_transactions: bool,
}

/// Decoding a `version`: the relay flag is read when the protocol version
/// calls for it and the byte is there; otherwise it is `false`.
pub open spec fn spec_parse_version(s: Seq<u8>) -> Option<(VersionModel, int)> {
    if s.len() < 80 {
        None
    } else {
        match spec_parse_varstr(s.subrange(80, s.len() as int)) {
            None => None,
            Some((ua, off)) => if 84 + off <= s.len() {
                let version = spec_u32_from_le_bytes(s.subrange(0, 4));
                let has_flag = version >= RELAY_FLAG_VERSION && 84 + off < s.len();
                Some((VersionModel {
                    version,
                    services: spec_u64_from_le_bytes(s.subrange(4, 12)),
                    timestamp: spec_u64_from_le_bytes(s.subrange(12, 20)),
                    addrrecv: spec_parse_netaddr_short(s.subrange(20, s.len() as int)).unwrap().0,
                    addrfrom: spec_parse_netaddr_short(s.subrange(46, s.len() as int)).unwrap().0,
                    nonce: spec_u64_from_le_bytes(s.subrange(72, 80)),
                    user_agent: ua,
                    start_height: spec_u32_from_le_bytes(s.subrange(80 + off, 84 + off)),
                    announce_relayed_transactions: has_flag && s[84 + off] != 0,
                }, if has_flag { 85 + off } else { 84 + off }))
            } else {
                None
            },
        }
    }
}

/// The encoding of a `version`; the relay flag is written when the protocol version calls for it.
pub open spec fn spec_version_bytes(v: VersionModel) -> Seq<u8> {
    spec_u32_to_le_bytes(v.version) + spec_u64_to_le_bytes(v.services) + spec_u64_to_le_bytes(v.timestamp)
        + spec_netaddr_short_bytes(v.addrrecv) + spec_netaddr_short_bytes(v.addrfrom)
        + spec_u64_to_le_bytes(v.nonce) + spec_varstr_bytes(v.user_agent)
        + spec_u32_to_le_bytes(v.start_height)
        + if v.version >= RELAY_FLAG_VERSION { seq![if v.announce_relayed_transactions { 1u8 } else { 0u8 }] } else { Seq::empty() }
}

/// Decoding the encoding of a `version` gives it back, whatever follows it,
/// except that a relay flag set under a protocol version without one is lost.
pub proof fn lemma_version_roundtrip(v: VersionModel, rest: Seq<u8>)
    requires
        v.addrrecv.addr.len() == 16,
        v.addrfrom.addr.len() == 16,
        v.user_agent.len() <= u64::MAX,
        v.version >= RELAY_FLAG_VERSION || !v.announce_relayed_transactions,
    ensures
        (v.version >= RELAY_FLAG_VERSION || rest.len() == 0) ==>
            spec_parse_version(spec_version_bytes(v) + rest) == Some((v, spec_version_bytes(v).len() as int)),
{
    lemma_int_bytes_roundtrip();
    let a = spec_u32_to_le_bytes(v.version) + spec_u64_to_le_bytes(v.services) + spec_u64_to_le_bytes(v.timestamp);
    let r1 = spec_netaddr_short_bytes(v.addrrecv);
    let r2 = spec_netaddr_short_bytes(v.addrfrom);
    let n = spec_u64_to_le_bytes(v.nonce);
    let u = spec_varstr_bytes(v.user_agent);
    let h = spec_u32_to_le_bytes(v.start_height);
    let f: Seq<u8> = if v.version >= RELAY_FLAG_VERSION { seq![if v.announce_relayed_transactions { 1u8 } else { 0u8 }] } else { Seq::empty() };
    let s = spec_version_bytes(v) + rest;
    lemma_netaddr_short_roundtrip(v.addrrecv, r2 + n + u + h + f + rest);
    lemma_netaddr_short_roundtrip(v.addrfrom, n + u + h + f + rest);
    lemma_varstr_roundtrip(v.user_agent, h + f + rest);
    assert(s =~= a + (r1 + (r2 + (n + (u + (h + (f + rest)))))));
    assert(s.subrange(0, 4) =~= spec_u32_to_le_bytes(v.version));
    assert(s.subrange(4, 12) =~= spec_u64_to_le_bytes(v.services));
    assert(s.subrange(12, 20) =~= spec_u64_to_le_bytes(v.timestamp));
    assert(s.subrange(20, s.len() as int) =~= r1 + (r2 + n + u + h + f + rest));
    assert(s.subrange(46, s.len() as int) =~= r2 + (n + u + h + f + rest));
    assert(s.subrange(72, 80) =~= n);
    assert(s.subrange(80, s.len() as int) =~= u + (h + f + rest));
    let off = u.len() as int;
    assert(s.subrange(80 + off, 84 + off) =~= h);
    if v.version >= RELAY_FLAG_VERSION {
        assert(s[84 + off] == f[0]);
    }
}

/// A `version` decoded from a buffer; the user agent borrows from it.
#[derive(Clone, Copy, Debug, Default)]
pub struct VersionBorrowed<'a> {
    pub services: u64,
    pub timestamp: u64,
    pub addrrecv: NetAddrShortBorrowed,
    pub addrfrom: NetAddrShortBorrowed,
    pub nonce: u64,
    pub user_agent: &'a [u8],
    pub start_height: u32,
    pub version: u32,
    pub announce_relayed_transactions: bool,
}

impl<'a> View for VersionBorrowed<'a> {
    type V = VersionModel;

    open spec fn view(&self) -> VersionModel {
        VersionModel {
            services: self.services,
            timestamp: self.timestamp,
            addrrecv: self.addrrecv@,
            addrfrom: self.addrfrom@,
            nonce: self.nonce,
            user_agent: self.user_agent@,
            start_height: self.start_height,
            version: self.version,
            announce_relayed_transactions: self.announce_relayed_transactions,
        }
    }
}

impl<'a> PacketPayload for VersionBorrowed<'a> {
    open spec fn spec_command() -> Seq<u8> {
        VERSION_COMMAND@
    }

    fn command(&self) -> (r: [u8; 12]) {
        VERSION_COMMAND
    }
}

impl<'a> DeserializableBorrowed<'a> for VersionBorrowed<'a> {
    open spec fn spec_deserialize(s: Seq<u8>) -> Option<(VersionModel, int)> {
        spec_parse_version(s)
    }

    proof fn lemma_deserialize_len(s: Seq<u8>) {
        if s.len() >= 80 {
            lemma_parse_varstr_len(s.subrange(80, s.len() as int));
        }
    }

    fn deserialize_borrowed(&mut self, buffer: &'a [u8]) -> (r: Result<usize, ParseError>) {
        let version = buffer.get_u32_le(0)?;
        let services = buffer.get_u64_le(4)?;
        let timestamp = buffer.get_u64_le(12)?;
        let mut addrrecv = NetAddrShortBorrowed::default();
        addrrecv.deserialize_borrowed(buffer.with_offset(20)?)?;
        let mut addrfrom = NetAddrShortBorrowed::default();
        addrfrom.deserialize_borrowed(buffer.with_offset(46)?)?;
        let nonce = buffer.get_u64_le(72)?;
        let (ua, offset) = deserialize_varstr(buffer.with_offset(80)?)?;
        proof {
            lemma_parse_varstr_len(buffer@.subrange(80, buffer@.len() as int));
        }
        assert(buffer@.len() == buffer.len());
        assert(offset <= buffer@.len() - 80);
        let start_height = buffer.get_u32_le(80 + offset)?;
        self.version = version;
        self.services = services;
        self.timestamp = timestamp;
        self.addrrecv = addrrecv;
        self.addrfrom = addrfrom;
        self.nonce = nonce;
        self.user_agent = ua;
        self.start_height = start_height;
        if version >= RELAY_FLAG_VERSION && 84 + offset < buffer.len() {
            self.announce_relayed_transactions = buffer[84 + offset] != 0;
            return Ok(offset + 85);
        }
        self.announce_relayed_transactions = false;
        Ok(offset + 84)
    }
}

/// A `version` to be sent.
#[derive(Clone, Debug, Default)]
pub struct VersionOwned {
    pub services: u64,
    pub timestamp: u64,
    pub addrrecv: NetAddrShortOwned,
    pub addrfrom: NetAddrShortOwned,
    pub nonce: u64,
    pub user_agent: Vec<u8>,
    pub start_height: u32,
    pub version: u32,
    pub announce_relayed_transactions: bool,
}

impl View for VersionOwned {
    type V = VersionModel;

    open spec fn view(&self) -> VersionModel {
        VersionModel {
            services: self.services,
            timestamp: self.timestamp,
            addrrecv: self.addrrecv@,
            addrfrom: self.addrfrom@,
            nonce: self.nonce,
            user_agent: self.user_agent@,
            start_height: self.start_height,
            version: self.version,
            announce_relayed_transactions: self.announce_relayed_transactions,
        }
    }
}

impl Serializable for VersionOwned {
    open spec fn spec_serialize(v: VersionModel) -> Seq<u8> {
        spec_version_bytes(v)
    }

    open spec fn spec_serializable(v: VersionModel) -> bool {
        v.user_agent.len() + 9 <= usize::MAX
    }

    fn serialize(&self, stream: &mut Vec<u8>) {
        put_u32_le(stream, self.version);
        put_u64_le(stream, self.services);
        put_u64_le(stream, self.timestamp);
        self.addrrecv.serialize(stream);
        self.addrfrom.serialize(stream);
        put_u64_le(stream, self.nonce);
        serialize_varstr(self.user_agent.as_slice(), stream);
        put_u32_le(stream, self.start_height);
        if self.version >= RELAY_FLAG_VERSION {
            put_u8(stream, if self.announce_relayed_transactions { 1u8 } else { 0u8 });
        }
        assert(stream@ =~= old(stream)@ + spec_version_bytes(self@));
    }
}

impl VersionOwned {
    /// The owned copy of a decoded `version`.
    pub fn from(value: VersionBorrowed<'_>) -> (r: VersionOwned)
        ensures
            r@ == value@,
    {
        VersionOwned {
            services: value.services,
            timestamp: value.timestamp,
            addrrecv: NetAddrShortOwned::from(value.addrrecv),
            addrfrom: NetAddrShortOwned::from(value.addrfrom),
            nonce: value.nonce,
            user_agent: vstd::slice::slice_to_vec(value.user_agent),
            start_height: value.start_height,
            version: value.version,
            announce_relayed_transactions: value.announce_relayed_transactions,
        }
    }
}

} // verus!
