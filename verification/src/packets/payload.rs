//! Dispatching received payloads by command, and payloads to send.
use vstd::prelude::*;
use super::buffer::ParseError;
use super::packetpayload::{DeserializableBorrowed, Serializable};
use super::addr::{ADDR_COMMAND, AddrBorrowed, AddrOwned};
use super::addrv2::{ADDRV2_COMMAND, AddrV2Borrowed, AddrV2Owned};
use super::block::{BLOCK_COMMAND, BlockBorrowed, BlockOwned};
use super::getaddr::{GETADDR_COMMAND, GetAddr};
use super::getdata::{GETDATA_COMMAND, GetDataBorrowed, GetDataOwned};
use super::getheaders::{GETHEADERS_COMMAND, GetHeadersBorrowed, GetHeadersOwned};
use super::headers::{HEADERS_COMMAND, HeadersBorrowed, HeadersOwned};
use super::inv::{INV_COMMAND, InvBorrowed, InvOwned};
use super::ping::{PING_COMMAND, Ping};
use super::pong::{PONG_COMMAND, Pong};
use super::sendaddrv2::{SENDADDRV2_COMMAND, SendAddrV2};
use super::sendheaders::{SENDHEADERS_COMMAND, SendHeaders};
use super::tx::{TX_COMMAND, TxBorrowed, TxOwned};
use super::verack::{VERACK_COMMAND, VerAck};
use super::version::{VERSION_COMMAND, VersionBorrowed, VersionOwned};
use crate::util::crypto::{spec_sha256d, sha256d};
use super::blockheader::{spec_header_hash_matches, spec_hash_meets_target, spec_parse_block_header};
use super::block::{spec_tx_roundtrips, spec_tx_ids, lemma_block_roundtrip};
use super::tx::{TxModel, spec_tx_bytes, spec_parse_tx, lemma_tx_roundtrip};
use super::version::{RELAY_FLAG_VERSION, lemma_version_roundtrip};
use super::pong::lemma_pong_reencoding;
use super::ping::lemma_ping_roundtrip;
use super::inv::lemma_inv_roundtrip;
use super::addr::lemma_addr_roundtrip;
use super::addrv2::lemma_addrv2_roundtrip;
use super::headers::lemma_headers_roundtrip;
use super::getheaders::lemma_getheaders_roundtrip;
use crate::util::merkle::spec_merkle_root;

verus! {

// ---------------------------------------------------------------- dispatch

/// The checksum of a payload: the first four bytes, little-endian, of its double SHA-256.
pub open spec fn spec_checksum(body: Seq<u8>) -> u32 {
    vstd::bytes::spec_u32_from_le_bytes(spec_sha256d(body).subrange(0, 4))
}

/// The checksum of a payload.
pub fn checksum(body: &[u8]) -> (r: u32)
    ensures
        r == spec_checksum(body@),
{
    let h = sha256d(body);
    vstd::bytes::u32_from_le_bytes(&h[0..4])
}

/// A payload whose checksum is not the one its header gave.
#[derive(Debug, Clone, Copy, PartialEq, Eq)]
pub struct InvalidChecksum {
    pub reported_in_header: u32,
    pub calculated_from_body: u32,
}

/// Why a received payload was refused.
#[derive(Debug, Clone, Copy, PartialEq, Eq)]
pub enum PayloadError {
    InvalidChecksum(InvalidChecksum),
    Parse(ParseError),
}

/// A payload decoded from a received packet.
#[derive(Debug)]
pub enum ReceivedPayload<'a> {
    Ping(Ping),
    Inv(InvBorrowed),
    Version(VersionBorrowed<'a>),
    VerAck(VerAck),
    Addr(AddrBorrowed),
    AddrV2(AddrV2Borrowed<'a>),
    GetAddr(GetAddr),
    Pong(Pong),
    SendHeaders(SendHeaders),
    SendAddrV2(SendAddrV2),
    Tx(TxBorrowed<'a>),
    Block(BlockBorrowed<'a>),
    GetData(GetDataBorrowed),
    Headers(HeadersBorrowed),
    GetHeaders(GetHeadersBorrowed),
}

/// `s` decodes, as a `T`, to a value with model `v` (whatever follows it).
pub open spec fn spec_decodes<'a, T: DeserializableBorrowed<'a>>(s: Seq<u8>, v: T::V) -> bool {
    T::spec_deserialize(s) matches Some((m, _)) && m == v
}

impl<'a> ReceivedPayload<'a> {
    /// The command name the payload travels under.
    pub open spec fn spec_command_name(&self) -> Seq<u8> {
        match self {
            ReceivedPayload::Ping(_) => PING_COMMAND@,
            ReceivedPayload::Inv(_) => INV_COMMAND@,
            ReceivedPayload::Version(_) => VERSION_COMMAND@,
            ReceivedPayload::VerAck(_) => VERACK_COMMAND@,
            ReceivedPayload::Addr(_) => ADDR_COMMAND@,
            ReceivedPayload::AddrV2(_) => ADDRV2_COMMAND@,
            ReceivedPayload::GetAddr(_) => GETADDR_COMMAND@,
            ReceivedPayload::Pong(_) => PONG_COMMAND@,
            ReceivedPayload::SendHeaders(_) => SENDHEADERS_COMMAND@,
            ReceivedPayload::SendAddrV2(_) => SENDADDRV2_COMMAND@,
            ReceivedPayload::Tx(_) => TX_COMMAND@,
            ReceivedPayload::Block(_) => BLOCK_COMMAND@,
            ReceivedPayload::GetData(_) => GETDATA_COMMAND@,
            ReceivedPayload::Headers(_) => HEADERS_COMMAND@,
            ReceivedPayload::GetHeaders(_) => GETHEADERS_COMMAND@,
        }
    }

    /// The payload is what `s` decodes to.
    pub open spec fn spec_decoded_from(&self, s: Seq<u8>) -> bool {
        match self {
            ReceivedPayload::Ping(v) => spec_decodes::<Ping>(s, v@),
            ReceivedPayload::Inv(v) => spec_decodes::<InvBorrowed>(s, v@),
            ReceivedPayload::Version(v) => spec_decodes::<VersionBorrowed>(s, v@),
            ReceivedPayload::VerAck(v) => spec_decodes::<VerAck>(s, v@),
            ReceivedPayload::Addr(v) => spec_decodes::<AddrBorrowed>(s, v@),
            ReceivedPayload::AddrV2(v) => spec_decodes::<AddrV2Borrowed>(s, v@),
            ReceivedPayload::GetAddr(v) => spec_decodes::<GetAddr>(s, v@),
            ReceivedPayload::Pong(v) => spec_decodes::<Pong>(s, v@),
            ReceivedPayload::SendHeaders(v) => spec_decodes::<SendHeaders>(s, v@),
            ReceivedPayload::SendAddrV2(v) => spec_decodes::<SendAddrV2>(s, v@),
            ReceivedPayload::Tx(v) => spec_decodes::<TxBorrowed>(s, v@),
            ReceivedPayload::Block(v) => spec_decodes::<BlockBorrowed>(s, v@),
            ReceivedPayload::GetData(v) => spec_decodes::<GetDataBorrowed>(s, v@),
            ReceivedPayload::Headers(v) => spec_decodes::<HeadersBorrowed>(s, v@),
            ReceivedPayload::GetHeaders(v) => spec_decodes::<GetHeadersBorrowed>(s, v@),
        }
    }
}

/// Whether a payload under `command` is decoded at all: `getaddr`,
/// `getdata` and `notfound` are not, nor any command not listed here.
pub open spec fn spec_decoded_command(command: Seq<u8>) -> bool {
    command == VERSION_COMMAND@ || command == VERACK_COMMAND@ || command == PING_COMMAND@
        || command == PONG_COMMAND@ || command == SENDADDRV2_COMMAND@ || command == SENDHEADERS_COMMAND@
        || command == TX_COMMAND@ || command == BLOCK_COMMAND@ || command == ADDR_COMMAND@
        || command == ADDRV2_COMMAND@ || command == INV_COMMAND@ || command == HEADERS_COMMAND@
        || command == GETHEADERS_COMMAND@
}

/// Whether a payload under `command` decodes from `s` (one that is not
/// decoded at all always does).
pub open spec fn spec_payload_decodes(command: Seq<u8>, s: Seq<u8>) -> bool {
    if command == VERSION_COMMAND@ {
        VersionBorrowed::spec_deserialize(s) is Some
    } else if command == VERACK_COMMAND@ {
        VerAck::spec_deserialize(s) is Some
    } else if command == PING_COMMAND@ {
        Ping::spec_deserialize(s) is Some
    } else if command == PONG_COMMAND@ {
        Pong::spec_deserialize(s) is Some
    } else if command == SENDADDRV2_COMMAND@ {
        SendAddrV2::spec_deserialize(s) is Some
    } else if command == SENDHEADERS_COMMAND@ {
        SendHeaders::spec_deserialize(s) is Some
    } else if command == TX_COMMAND@ {
        TxBorrowed::spec_deserialize(s) is Some
    } else if command == BLOCK_COMMAND@ {
        BlockBorrowed::spec_deserialize(s) is Some
    } else if command == ADDR_COMMAND@ {
        AddrBorrowed::spec_deserialize(s) is Some
    } else if command == ADDRV2_COMMAND@ {
        AddrV2Borrowed::spec_deserialize(s) is Some
    } else if command == INV_COMMAND@ {
        InvBorrowed::spec_deserialize(s) is Some
    } else if command == HEADERS_COMMAND@ {
        HeadersBorrowed::spec_deserialize(s) is Some
    } else if command == GETHEADERS_COMMAND@ {
        GetHeadersBorrowed::spec_deserialize(s) is Some
    } else {
        true
    }
}

/// Whether two command names are the same.
fn same_command(a: &[u8; 12], b: &[u8; 12]) -> (r: bool)
    ensures
        r == (a@ == b@),
{
    let mut i: usize = 0;
    while i < 12
        invariant
            i <= 12,
            forall|j: int| 0 <= j < i ==> a@[j] == b@[j],
        decreases 12 - i,
    {
        if a[i] != b[i] {
            return false;
        }
        i = i + 1;
    }
    assert(a@ =~= b@);
    true
}

/// Decodes a `T` at the start of `buffer`, ignoring what follows it.
fn decode<'a, T: DeserializableBorrowed<'a> + Default>(buffer: &'a [u8]) -> (r: Result<T, PayloadError>)
    ensures
        r matches Ok(v) ==> spec_decodes::<T>(buffer@, v@),
        r is Err <==> T::spec_deserialize(buffer@) is None,
        r matches Err(e) ==> e is Parse,
{
    let mut v = T::default();
    match v.deserialize_borrowed(buffer) {
        Ok(_) => Ok(v),
        Err(e) => Err(PayloadError::Parse(e)),
    }
}

/// Checks a received payload against its checksum and decodes it by its
/// command; a command that is not decoded gives `None`. A wrong checksum
/// gives the checksum error; a payload that does not decode, the decoder's.
pub fn deserialize_payload<'a>(buffer: &'a [u8], checksum_in_header: u32, command: [u8; 12]) -> (r: Result<Option<ReceivedPayload<'a>>, PayloadError>)
    ensures
        spec_checksum(buffer@) != checksum_in_header ==> r == Err::<Option<ReceivedPayload<'a>>, PayloadError>(
            PayloadError::InvalidChecksum(InvalidChecksum {
                reported_in_header: checksum_in_header,
                calculated_from_body: spec_checksum(buffer@),
            }),
        ),
        spec_checksum(buffer@) == checksum_in_header ==> {
            &&& (r is Err <==> !spec_payload_decodes(command@, buffer@))
            &&& (r matches Err(e) ==> e is Parse)
            &&& (r == Ok::<Option<ReceivedPayload<'a>>, PayloadError>(None) <==> !spec_decoded_command(command@))
            &&& (r matches Ok(Some(p)) ==> p.spec_command_name() == command@ && p.spec_decoded_from(buffer@))
        },
{
    let shorthash = checksum(buffer);
    if shorthash != checksum_in_header {
        return Err(PayloadError::InvalidChecksum(InvalidChecksum {
            reported_in_header: checksum_in_header,
            calculated_from_body: shorthash,
        }));
    }
    if same_command(&command, &VERSION_COMMAND) {
        Ok(Some(ReceivedPayload::Version(decode::<VersionBorrowed<'a>>(buffer)?)))
    } else if same_command(&command, &VERACK_COMMAND) {
        Ok(Some(ReceivedPayload::VerAck(decode::<VerAck>(buffer)?)))
    } else if same_command(&command, &PING_COMMAND) {
        Ok(Some(ReceivedPayload::Ping(decode::<Ping>(buffer)?)))
    } else if same_command(&command, &PONG_COMMAND) {
        Ok(Some(ReceivedPayload::Pong(decode::<Pong>(buffer)?)))
    } else if same_command(&command, &SENDADDRV2_COMMAND) {
        Ok(Some(ReceivedPayload::SendAddrV2(decode::<SendAddrV2>(buffer)?)))
    } else if same_command(&command, &SENDHEADERS_COMMAND) {
        Ok(Some(ReceivedPayload::SendHeaders(decode::<SendHeaders>(buffer)?)))
    } else if same_command(&command, &TX_COMMAND) {
        Ok(Some(ReceivedPayload::Tx(decode::<TxBorrowed<'a>>(buffer)?)))
    } else if same_command(&command, &BLOCK_COMMAND) {
        Ok(Some(ReceivedPayload::Block(decode::<BlockBorrowed<'a>>(buffer)?)))
    } else if same_command(&command, &ADDR_COMMAND) {
        Ok(Some(ReceivedPayload::Addr(decode::<AddrBorrowed>(buffer)?)))
    } else if same_command(&command, &ADDRV2_COMMAND) {
        Ok(Some(ReceivedPayload::AddrV2(decode::<AddrV2Borrowed<'a>>(buffer)?)))
    } else if same_command(&command, &INV_COMMAND) {
        Ok(Some(ReceivedPayload::Inv(decode::<InvBorrowed>(buffer)?)))
    } else if same_command(&command, &HEADERS_COMMAND) {
        Ok(Some(ReceivedPayload::Headers(decode::<HeadersBorrowed>(buffer)?)))
    } else if same_command(&command, &GETHEADERS_COMMAND) {
        Ok(Some(ReceivedPayload::GetHeaders(decode::<GetHeadersBorrowed>(buffer)?)))
    } else {
        Ok(None)
    }
}

/// A payload to be sent.
#[derive(Debug)]
pub enum PayloadToSend {
    Ping(Ping),
    Inv(InvOwned),
    Version(VersionOwned),
    VerAck(VerAck),
    Addr(AddrOwned),
    AddrV2(AddrV2Owned),
    GetAddr(GetAddr),
    Pong(Pong),
    SendHeaders(SendHeaders),
    SendAddrV2(SendAddrV2),
    Tx(TxOwned),
    Block(BlockOwned),
    GetData(GetDataOwned),
    Headers(HeadersOwned),
    GetHeaders(GetHeadersOwned),
}

impl PayloadToSend {
    /// The encoding of the payload.
    pub open spec fn spec_bytes(&self) -> Seq<u8> {
        match self {
            PayloadToSend::Ping(v) => Ping::spec_serialize(v@),
            PayloadToSend::Inv(v) => InvOwned::spec_serialize(v@),
            PayloadToSend::Version(v) => VersionOwned::spec_serialize(v@),
            PayloadToSend::VerAck(v) => VerAck::spec_serialize(v@),
            PayloadToSend::Addr(v) => AddrOwned::spec_serialize(v@),
            PayloadToSend::AddrV2(v) => AddrV2Owned::spec_serialize(v@),
            PayloadToSend::GetAddr(v) => GetAddr::spec_serialize(v@),
            PayloadToSend::Pong(v) => Pong::spec_serialize(v@),
            PayloadToSend::SendHeaders(v) => SendHeaders::spec_serialize(v@),
            PayloadToSend::SendAddrV2(v) => SendAddrV2::spec_serialize(v@),
            PayloadToSend::Tx(v) => TxOwned::spec_serialize(v@),
            PayloadToSend::Block(v) => BlockOwned::spec_serialize(v@),
            PayloadToSend::GetData(v) => GetDataOwned::spec_serialize(v@),
            PayloadToSend::Headers(v) => HeadersOwned::spec_serialize(v@),
            PayloadToSend::GetHeaders(v) => GetHeadersOwned::spec_serialize(v@),
        }
    }

    /// Whether the payload's lengths fit its encoding.
    pub open spec fn spec_sendable(&self) -> bool {
        match self {
            PayloadToSend::Ping(v) => Ping::spec_serializable(v@),
            PayloadToSend::Inv(v) => InvOwned::spec_serializable(v@),
            PayloadToSend::Version(v) => VersionOwned::spec_serializable(v@),
            PayloadToSend::VerAck(v) => VerAck::spec_serializable(v@),
            PayloadToSend::Addr(v) => AddrOwned::spec_serializable(v@),
            PayloadToSend::AddrV2(v) => AddrV2Owned::spec_serializable(v@),
            PayloadToSend::GetAddr(v) => GetAddr::spec_serializable(v@),
            PayloadToSend::Pong(v) => Pong::spec_serializable(v@),
            PayloadToSend::SendHeaders(v) => SendHeaders::spec_serializable(v@),
            PayloadToSend::SendAddrV2(v) => SendAddrV2::spec_serializable(v@),
            PayloadToSend::Tx(v) => TxOwned::spec_serializable(v@),
            PayloadToSend::Block(v) => BlockOwned::spec_serializable(v@),
            PayloadToSend::GetData(v) => GetDataOwned::spec_serializable(v@),
            PayloadToSend::Headers(v) => HeadersOwned::spec_serializable(v@),
            PayloadToSend::GetHeaders(v) => GetHeadersOwned::spec_serializable(v@),
        }
    }

    /// The command name the payload travels under.
    pub open spec fn spec_command_name(&self) -> Seq<u8> {
        match self {
            PayloadToSend::Ping(_) => PING_COMMAND@,
            PayloadToSend::Inv(_) => INV_COMMAND@,
            PayloadToSend::Version(_) => VERSION_COMMAND@,
            PayloadToSend::VerAck(_) => VERACK_COMMAND@,
            PayloadToSend::Addr(_) => ADDR_COMMAND@,
            PayloadToSend::AddrV2(_) => ADDRV2_COMMAND@,
            PayloadToSend::GetAddr(_) => GETADDR_COMMAND@,
            PayloadToSend::Pong(_) => PONG_COMMAND@,
            PayloadToSend::SendHeaders(_) => SENDHEADERS_COMMAND@,
            PayloadToSend::SendAddrV2(_) => SENDADDRV2_COMMAND@,
            PayloadToSend::Tx(_) => TX_COMMAND@,
            PayloadToSend::Block(_) => BLOCK_COMMAND@,
            PayloadToSend::GetData(_) => GETDATA_COMMAND@,
            PayloadToSend::Headers(_) => HEADERS_COMMAND@,
            PayloadToSend::GetHeaders(_) => GETHEADERS_COMMAND@,
        }
    }

    /// Appends the encoding of the payload.
    pub fn serialize(&self, stream: &mut Vec<u8>)
        requires
            self.spec_sendable(),
        ensures
            final(stream)@ == old(stream)@ + self.spec_bytes(),
    {
        match self {
            PayloadToSend::Version(v) => v.serialize(stream),
            PayloadToSend::VerAck(v) => v.serialize(stream),
            PayloadToSend::Ping(v) => v.serialize(stream),
            PayloadToSend::Pong(v) => v.serialize(stream),
            PayloadToSend::SendHeaders(v) => v.serialize(stream),
            PayloadToSend::SendAddrV2(v) => v.serialize(stream),
            PayloadToSend::Tx(v) => v.serialize(stream),
            PayloadToSend::Block(v) => v.serialize(stream),
            PayloadToSend::Addr(v) => v.serialize(stream),
            PayloadToSend::AddrV2(v) => v.serialize(stream),
            PayloadToSend::GetAddr(v) => v.serialize(stream),
            PayloadToSend::GetData(v) => v.serialize(stream),
            PayloadToSend::Inv(v) => v.serialize(stream),
            PayloadToSend::Headers(v) => v.serialize(stream),
            PayloadToSend::GetHeaders(v) => v.serialize(stream),
        }
    }

    /// The command name the payload travels under.
    pub fn command(&self) -> (r: [u8; 12])
        ensures
            r@ == self.spec_command_name(),
    {
        match self {
            PayloadToSend::Version(_) => VERSION_COMMAND,
            PayloadToSend::VerAck(_) => VERACK_COMMAND,
            PayloadToSend::Ping(_) => PING_COMMAND,
            PayloadToSend::Pong(_) => PONG_COMMAND,
            PayloadToSend::SendHeaders(_) => SENDHEADERS_COMMAND,
            PayloadToSend::SendAddrV2(_) => SENDADDRV2_COMMAND,
            PayloadToSend::Tx(_) => TX_COMMAND,
            PayloadToSend::Block(_) => BLOCK_COMMAND,
            PayloadToSend::Addr(_) => ADDR_COMMAND,
            PayloadToSend::AddrV2(_) => ADDRV2_COMMAND,
            PayloadToSend::GetAddr(_) => GETADDR_COMMAND,
            PayloadToSend::GetData(_) => GETDATA_COMMAND,
            PayloadToSend::Inv(_) => INV_COMMAND,
            PayloadToSend::Headers(_) => HEADERS_COMMAND,
            PayloadToSend::GetHeaders(_) => GETHEADERS_COMMAND,
        }
    }
}

/// A payload whose fields fit their encodings, so that what is sent can be
/// read back: a transaction without witnesses and with inputs, carrying the
/// id of its encoding; a block whose header is consistent, meets its
/// target and counts its transactions, whose transactions are such, and
/// whose merkle tree is not mutated and has the header's root.
pub open spec fn spec_payload_reads_back(p: PayloadToSend) -> bool {
    match p {
        PayloadToSend::Inv(v) => v@.len() <= u64::MAX && forall|i: int| 0 <= i < v@.len() ==> (#[trigger] v@[i]).hash.len() == 32,
        PayloadToSend::Addr(v) => v@.len() <= u64::MAX && forall|i: int| 0 <= i < v@.len() ==> (#[trigger] v@[i]).addr.len() == 16,
        PayloadToSend::AddrV2(v) => v@.len() <= u64::MAX && forall|i: int| 0 <= i < v@.len() ==> (#[trigger] v@[i]).address.len() <= u64::MAX,
        PayloadToSend::Headers(v) => v@.len() <= u64::MAX && forall|i: int| 0 <= i < v@.len() ==> {
            let h = #[trigger] v@[i];
            h.parent.len() == 32 && h.merkle_root.len() == 32 && spec_header_hash_matches(h) && spec_hash_meets_target(h.hash, h.bits)
        },
        PayloadToSend::GetHeaders(v) => v@.block_locator.len() <= u64::MAX && v@.hash_stop.len() == 32
            && forall|i: int| 0 <= i < v@.block_locator.len() ==> (#[trigger] v@.block_locator[i]).len() == 32,
        PayloadToSend::Version(v) => v@.addrrecv.addr.len() == 16 && v@.addrfrom.addr.len() == 16
            && v@.user_agent.len() <= u64::MAX && (v@.version >= RELAY_FLAG_VERSION || !v@.announce_relayed_transactions),
        PayloadToSend::Tx(v) => spec_tx_roundtrips(v@),
        PayloadToSend::Block(v) => {
            let b = v@;
            &&& b.header.parent.len() == 32
            &&& b.header.merkle_root.len() == 32
            &&& spec_header_hash_matches(b.header)
            &&& spec_hash_meets_target(b.header.hash, b.header.bits)
            &&& b.header.txs_count == b.txs.len()
            &&& forall|i: int| 0 <= i < b.txs.len() ==> spec_tx_roundtrips(#[trigger] b.txs[i])
            &&& spec_merkle_root(spec_tx_ids(b.txs)) == (b.header.merkle_root, false)
        },
        _ => true,
    }
}

/// What the receiving side makes of the bytes of a payload sent under its
/// command: it decodes, to the very payload, except a `pong`, whose nonce is
/// written big-endian and read little-endian; `getaddr` and `getdata` are
/// not decoded at all.
pub proof fn lemma_payload_roundtrip(p: PayloadToSend)
    requires
        spec_payload_reads_back(p),
    ensures
        spec_payload_decodes(p.spec_command_name(), p.spec_bytes()),
        match p {
            PayloadToSend::Ping(v) => spec_decodes::<Ping>(p.spec_bytes(), v@),
            PayloadToSend::Pong(v) => spec_decodes::<Pong>(p.spec_bytes(),
                vstd::bytes::spec_u64_from_le_bytes(super::encode::spec_u64_to_be_bytes(v@))),
            PayloadToSend::Inv(v) => spec_decodes::<InvBorrowed>(p.spec_bytes(), v@),
            PayloadToSend::Version(v) => spec_decodes::<VersionBorrowed>(p.spec_bytes(), v@),
            PayloadToSend::VerAck(v) => spec_decodes::<VerAck>(p.spec_bytes(), v@),
            PayloadToSend::Addr(v) => spec_decodes::<AddrBorrowed>(p.spec_bytes(), v@),
            PayloadToSend::AddrV2(v) => spec_decodes::<AddrV2Borrowed>(p.spec_bytes(), v@),
            PayloadToSend::SendHeaders(v) => spec_decodes::<SendHeaders>(p.spec_bytes(), v@),
            PayloadToSend::SendAddrV2(v) => spec_decodes::<SendAddrV2>(p.spec_bytes(), v@),
            PayloadToSend::Tx(v) => spec_decodes::<TxBorrowed>(p.spec_bytes(), v@),
            PayloadToSend::Block(v) => spec_decodes::<BlockBorrowed>(p.spec_bytes(), v@),
            PayloadToSend::Headers(v) => spec_decodes::<HeadersBorrowed>(p.spec_bytes(), v@),
            PayloadToSend::GetHeaders(v) => spec_decodes::<GetHeadersBorrowed>(p.spec_bytes(), v@),
            PayloadToSend::GetAddr(_) => !spec_decoded_command(p.spec_command_name()),
            PayloadToSend::GetData(_) => !spec_decoded_command(p.spec_command_name()),
        },
{
    let e = Seq::<u8>::empty();
    let b = p.spec_bytes();
    assert(b + e =~= b);
    match p {
        PayloadToSend::Ping(v) => lemma_ping_roundtrip(v@, e),
        PayloadToSend::Pong(v) => lemma_pong_reencoding(v@, e),
        PayloadToSend::Inv(v) => lemma_inv_roundtrip(v@, e),
        PayloadToSend::Version(v) => lemma_version_roundtrip(v@, e),
        PayloadToSend::Addr(v) => lemma_addr_roundtrip(v@, e),
        PayloadToSend::AddrV2(v) => lemma_addrv2_roundtrip(v@, e),
        PayloadToSend::Headers(v) => lemma_headers_roundtrip(v@, e),
        PayloadToSend::GetHeaders(v) => lemma_getheaders_roundtrip(v@, e),
        PayloadToSend::Tx(v) => {
            lemma_tx_roundtrip(v@, e);
            assert(TxModel { hash: spec_sha256d(spec_tx_bytes(v@)), ..v@ } == v@);
        },
        PayloadToSend::Block(v) => lemma_block_roundtrip(v@, e),
        _ => {},
    }
}

} // verus!
