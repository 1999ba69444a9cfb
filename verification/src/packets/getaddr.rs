//! The `getaddr` message, which has no payload.
use vstd::prelude::*;
use super::buffer::ParseError;
use super::packetpayload::{DeserializableBorrowed, PacketPayload, Serializable};

verus! {

/// The command name of `getaddr`.
pub const GETADDR_COMMAND: [u8; 12] = [103, 101, 116, 97, 100, 100, 114, 0, 0, 0, 0, 0];

/// Asks a peer for addresses it knows.
#[derive(Clone, Copy, Debug, Default)]
pub struct GetAddr {}

impl View for GetAddr {
    type V = ();

    open spec fn view(&self) -> () {
        ()
    }
}

impl PacketPayload for GetAddr {
    open spec fn spec_command() -> Seq<u8> {
        GETADDR_COMMAND@
    }

    fn command(&self) -> (r: [u8; 12]) {
        GETADDR_COMMAND
    }
}

impl<'a> DeserializableBorrowed<'a> for GetAddr {
    open spec fn spec_deserialize(s: Seq<u8>) -> Option<((), int)> {
        Some(((), 0))
    }

    proof fn lemma_deserialize_len(s: Seq<u8>) {
    }

    fn deserialize_borrowed(&mut self, buffer: &'a [u8]) -> (r: Result<usize, ParseError>) {
        Ok(0)
    }
}

impl Serializable for GetAddr {
    open spec fn spec_serialize(v: ()) -> Seq<u8> {
        Seq::empty()
    }

    open spec fn spec_serializable(v: ()) -> bool {
        true
    }

    fn serialize(&self, stream: &mut Vec<u8>) {
        assert(stream@ =~= old(stream)@ + Seq::<u8>::empty());
    }
}

} // verus!
