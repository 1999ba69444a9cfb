//! The 24-byte header in front of every payload, and framing a payload behind one.
use vstd::prelude::*;
use vstd::bytes::*;
use super::buffer::{Buffer, ParseError};
use super::encode::{put_u32_le, put_slice, lemma_int_bytes_roundtrip};
use super::payload::{PayloadToSend, spec_checksum};
use crate::util::crypto::{spec_sha256d, sha256d};

verus! {

broadcast use vstd::seq_lib::group_seq_properties, vstd::slice::group_slice_axioms;

/// The largest payload a packet may carry: 4 MiB.
pub const MAX_PACKET_SIZE: usize = 4194304;

/// The length of a packet header.
pub const PACKET_HEADER_SIZE: usize = 24;

/// A packet header: network magic, command name, payload length and checksum.
#[derive(Debug, Clone, Copy)]
pub struct PacketHeader {
    pub magic: u32,
    pub command: [u8; 12],
    pub length: u32,
    pub checksum: u32,
}

/// The model of a packet header.
pub struct PacketHeaderModel {
    pub magic: u32,
    pub command: Seq<u8>,
    pub length: u32,
    pub checksum: u32,
}

impl View for PacketHeader {
    type V = PacketHeaderModel;

    open spec fn view(&self) -> PacketHeaderModel {
        PacketHeaderModel { magic: self.magic, command: self.command@, length: self.length, checksum: self.checksum }
    }
}

/// Decoding a packet header: LE magic, 12-byte command, LE length, LE
/// checksum; refused when the length is above `MAX_PACKET_SIZE`.
pub open spec fn spec_parse_header(s: Seq<u8>) -> Result<PacketHeaderModel, ParseError> {
    if s.len() < 24 {
        Err(ParseError::NotEnoughBytes)
    } else {
        let length = spec_u32_from_le_bytes(s.subrange(16, 20));
        if length > MAX_PACKET_SIZE {
            Err(ParseError::PacketTooLarge)
        } else {
            Ok(PacketHeaderModel {
                magic: spec_u32_from_le_bytes(s.subrange(0, 4)),
                command: s.subrange(4, 16),
                length,
                checksum: spec_u32_from_le_bytes(s.subrange(20, 24)),
            })
        }
    }
}

/// Decodes the packet header at the start of `bytes`.
pub fn parse_header(bytes: &[u8]) -> (r: Result<PacketHeader, ParseError>)
    ensures
        match (r, spec_parse_header(bytes@)) {
            (Ok(h), Ok(m)) => h@ == m,
            (Err(e), Err(f)) => e == f,
            _ => false,
        },
{
    let magic = bytes.get_u32_le(0)?;
    if bytes.len() < 24 {
        return Err(ParseError::NotEnoughBytes);
    }
    let mut command = [0u8; 12];
    let mut i: usize = 0;
    while i < 12
        invariant
            i <= 12,
            bytes@.len() >= 24,
            forall|j: int| 0 <= j < i ==> command@[j] == bytes@[4 + j],
        decreases 12 - i,
    {
        command[i] = bytes[4 + i];
        i = i + 1;
    }
    assert(command@ =~= bytes@.subrange(4, 16));
    let length = bytes.get_u32_le(16)?;
    let checksum = bytes.get_u32_le(20)?;
    if length as usize > MAX_PACKET_SIZE {
        return Err(ParseError::PacketTooLarge);
    }
    Ok(PacketHeader { magic, command, length, checksum })
}

/// A whole packet: header, then payload.
pub open spec fn spec_frame(magic: u32, command: Seq<u8>, body: Seq<u8>) -> Seq<u8> {
    spec_u32_to_le_bytes(magic) + command + spec_u32_to_le_bytes(body.len() as u32)
        + spec_sha256d(body).subrange(0, 4) + body
}

/// The bytes to write for a payload: its header under `magic`, then the payload.
pub fn frame_packet(magic: u32, payload: &PayloadToSend) -> (r: Vec<u8>)
    requires
        payload.spec_sendable(),
        payload.spec_bytes().len() <= u32::MAX,
    ensures
        r@ == spec_frame(magic, payload.spec_command_name(), payload.spec_bytes()),
{
    let mut body: Vec<u8> = Vec::new();
    payload.serialize(&mut body);
    assert(body@ =~= payload.spec_bytes());
    let hash = sha256d(body.as_slice());
    let command = payload.command();
    let mut out: Vec<u8> = Vec::new();
    put_u32_le(&mut out, magic);
    put_slice(&mut out, command.as_slice());
    put_u32_le(&mut out, body.len() as u32);
    put_slice(&mut out, &hash[0..4]);
    put_slice(&mut out, body.as_slice());
    assert(out@ =~= spec_frame(magic, payload.spec_command_name(), payload.spec_bytes()));
    out
}

/// A framed packet's header decodes back to its magic, command, length and
/// checksum, the payload follows it, and the checksum is the payload's own.
pub proof fn lemma_frame_roundtrip(magic: u32, command: Seq<u8>, body: Seq<u8>)
    requires
        command.len() == 12,
        body.len() <= MAX_PACKET_SIZE,
        spec_sha256d(body).len() >= 4,
    ensures
        spec_parse_header(spec_frame(magic, command, body)) == Ok::<PacketHeaderModel, ParseError>(PacketHeaderModel {
            magic,
            command,
            length: body.len() as u32,
            checksum: spec_checksum(body),
        }),
        spec_frame(magic, command, body).subrange(24, 24 + body.len() as int) == body,
{
    lemma_int_bytes_roundtrip();
    let f = spec_frame(magic, command, body);
    let m = spec_u32_to_le_bytes(magic);
    let l = spec_u32_to_le_bytes(body.len() as u32);
    let c = spec_sha256d(body).subrange(0, 4);
    assert(f =~= m + command + l + c + body);
    assert(f.subrange(0, 4) =~= m);
    assert(f.subrange(4, 16) =~= command);
    assert(f.subrange(16, 20) =~= l);
    assert(f.subrange(20, 24) =~= c);
    assert(f.subrange(24, 24 + body.len() as int) =~= body);
}

} // verus!
