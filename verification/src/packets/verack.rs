//! The `verack` message, which has no payload.
use vstd::prelude::*;
use super::buffer::ParseError;
use super::packetpayload::{DeserializableBorrowed, PacketPayload, Serializable};

verus! {

/// The command name of `verack`.
pub const VERACK_COMMAND: [u8; 12] = [118, 101, 114, 97, 99, 107, 0, 0, 0, 0, 0, 0];

/// Acknowledges a peer's `version`.
#[derive(Clone, Copy, Debug, Default)]
pub struct VerAck {}

impl View for VerAck {
    type V = ();

    open spec fn view(&self) -> () {
        ()
    }
}

impl PacketPayload for VerAck {
    open spec fn spec_command() -> Seq<u8> {
        VERACK_COMMAND@
    }

    fn command(&self) -> (r: [u8; 12]) {
        VERACK_COMMAND
    }
}

impl<'a> DeserializableBorrowed<'a> for VerAck {
    open spec fn spec_deserialize(s: Seq<u8>) -> Option<((), int)> {
        Some(((), 0))
    }

    proof fn lemma_deserialize_len(s: Seq<u8>) {
    }

    fn deserialize_borrowed(&mut self, buffer: &'a [u8]) -> (r: Result<usize, ParseError>) {
        Ok(0)
    }
}

impl Serializable for VerAck {
    open spec fn spec_serialize(v: ()) -> Seq<u8> {
        Seq::empty()
    }

    open spec fn spec_serializable(v: ()) -> bool {
        true
    }

    fn serialize(&self, stream: &mut Vec<u8>) {
        assert(stream@ =~= old(stream)@ + Seq::<u8>::empty());
    }
}

} // verus!
