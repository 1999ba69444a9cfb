//! The `sendheaders` message, which has no payload.
use vstd::prelude::*;
use super::buffer::ParseError;
use super::packetpayload::{DeserializableBorrowed, PacketPayload, Serializable};

verus! {

/// The command name of `sendheaders`.
pub const SENDHEADERS_COMMAND: [u8; 12] = [115, 101, 110, 100, 104, 101, 97, 100, 101, 114, 115, 0];

/// Asks a peer to announce new blocks with `headers`.
#[derive(Clone, Copy, Debug, Default)]
pub struct SendHeaders {}

impl View for SendHeaders {
    type V = ();

    open spec fn view(&self) -> () {
        ()
    }
}

impl PacketPayload for SendHeaders {
    open spec fn spec_command() -> Seq<u8> {
        SENDHEADERS_COMMAND@
    }

    fn command(&self) -> (r: [u8; 12]) {
        SENDHEADERS_COMMAND
    }
}

impl<'a> DeserializableBorrowed<'a> for SendHeaders {
    open spec fn spec_deserialize(s: Seq<u8>) -> Option<((), int)> {
        Some(((), 0))
    }

    proof fn lemma_deserialize_len(s: Seq<u8>) {
    }

    fn deserialize_borrowed(&mut self, buffer: &'a [u8]) -> (r: Result<usize, ParseError>) {
        Ok(0)
    }
}

impl Serializable for SendHeaders {
    open spec fn spec_serialize(v: ()) -> Seq<u8> {
        Seq::empty()
    }

    open spec fn spec_serializable(v: ()) -> bool {
        true
    }

    fn serialize(&self, stream: &mut Vec<u8>) {
        assert(stream@ =~= old(stream)@ + Seq::<u8>::empty());
    }
}

} // verus!
