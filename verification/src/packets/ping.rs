//! The `ping` message: an 8-byte nonce.
use vstd::prelude::*;
use vstd::bytes::*;
use super::buffer::{Buffer, ParseError};
use super::encode::{put_u64_le, lemma_int_bytes_roundtrip};
use super::packetpayload::{DeserializableBorrowed, PacketPayload, Serializable};

verus! {

broadcast use vstd::seq_lib::group_seq_properties;

/// The command name of `ping`.
pub const PING_COMMAND: [u8; 12] = [112, 105, 110, 103, 0, 0, 0, 0, 0, 0, 0, 0];

/// Asks a peer to answer with a `pong` carrying the same nonce.
#[derive(Clone, Copy, Debug, Default)]
pub struct Ping {
    pub nonce: u64,
}

impl View for Ping {
    type V = u64;

    open spec fn view(&self) -> u64 {
        self.nonce
    }
}

impl PacketPayload for Ping {
    open spec fn spec_command() -> Seq<u8> {
        PING_COMMAND@
    }

    fn command(&self) -> (r: [u8; 12]) {
        PING_COMMAND
    }
}

impl<'a> DeserializableBorrowed<'a> for Ping {
    /// The nonce is read little-endian.
    open spec fn spec_deserialize(s: Seq<u8>) -> Option<(u64, int)> {
        if s.len() >= 8 {
            Some((spec_u64_from_le_bytes(s.subrange(0, 8)), 8))
        } else {
            None
        }
    }

    proof fn lemma_deserialize_len(s: Seq<u8>) {
    }

    fn deserialize_borrowed(&mut self, buffer: &'a [u8]) -> (r: Result<usize, ParseError>) {
        self.nonce = buffer.get_u64_le(0)?;
        Ok(8)
    }
}

impl Serializable for Ping {
    open spec fn spec_serialize(v: u64) -> Seq<u8> {
        spec_u64_to_le_bytes(v)
    }

    open spec fn spec_serializable(v: u64) -> bool {
        true
    }

    fn serialize(&self, stream: &mut Vec<u8>) {
        put_u64_le(stream, self.nonce);
    }
}

/// Decoding the encoding of a `ping` gives its nonce back.
pub proof fn lemma_ping_roundtrip(nonce: u64, rest: Seq<u8>)
    ensures
        <Ping as DeserializableBorrowed>::spec_deserialize(<Ping as Serializable>::spec_serialize(nonce) + rest) == Some((nonce, 8int)),
{
    lemma_int_bytes_roundtrip();
    let s = spec_u64_to_le_bytes(nonce) + rest;
    assert(s.subrange(0, 8) =~= spec_u64_to_le_bytes(nonce));
}

} // verus!
