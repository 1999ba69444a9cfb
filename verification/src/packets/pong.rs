//! The `pong` message: an 8-byte nonce.
use vstd::prelude::*;
use vstd::bytes::*;
use super::buffer::{Buffer, ParseError};
use super::encode::{put_u64, spec_u64_to_be_bytes};
use super::packetpayload::{DeserializableBorrowed, PacketPayload, Serializable};

verus! {

broadcast use vstd::seq_lib::group_seq_properties;

/// The command name of `pong`.
pub const PONG_COMMAND: [u8; 12] = [112, 111, 110, 103, 0, 0, 0, 0, 0, 0, 0, 0];

/// Answers a `ping`.
#[derive(Clone, Copy, Debug, Default)]
pub struct Pong {
    pub nonce: u64,
}

impl View for Pong {
    type V = u64;

    open spec fn view(&self) -> u64 {
        self.nonce
    }
}

impl PacketPayload for Pong {
    open spec fn spec_command() -> Seq<u8> {
        PONG_COMMAND@
    }

    fn command(&self) -> (r: [u8; 12]) {
        PONG_COMMAND
    }
}

impl<'a> DeserializableBorrowed<'a> for Pong {
    /// The nonce is read little-endian.
    open spec fn spec_deserialize(s: Seq<u8>) -> Option<(u64, int)> {
        if s.len() >= 8 {
            Some((spec_u64_from_le_bytes(s.subrange(0, 8)), 8))
        } else {
            None
        }
    }

    proof fn lemma_deserialize_len(s: Seq<u8>) {
    }

    fn deserialize_borrowed(&mut self, buffer: &'a [u8]) -> (r: Result<usize, ParseError>) {
        self.nonce = buffer.get_u64_le(0)?;
        Ok(8)
    }
}

impl Serializable for Pong {
    open spec fn spec_serialize(v: u64) -> Seq<u8> {
        spec_u64_to_be_bytes(v)
    }

    open spec fn spec_serializable(v: u64) -> bool {
        true
    }

    fn serialize(&self, stream: &mut Vec<u8>) {
        put_u64(stream, self.nonce);
    }
}

/// A `pong` is written big-endian but read little-endian: decoding the
/// encoding of a nonce gives the nonce with its bytes reversed.
pub proof fn lemma_pong_reencoding(nonce: u64, rest: Seq<u8>)
    ensures
        <Pong as DeserializableBorrowed>::spec_deserialize(<Pong as Serializable>::spec_serialize(nonce) + rest)
            == Some((spec_u64_from_le_bytes(spec_u64_to_be_bytes(nonce)), 8int)),
{
    super::encode::lemma_int_bytes_roundtrip();
    let s = spec_u64_to_be_bytes(nonce) + rest;
    assert(s.subrange(0, 8) =~= spec_u64_to_be_bytes(nonce));
}

} // verus!
