//! The `sendaddrv2` message, which has no payload.
use vstd::prelude::*;
use super::buffer::ParseError;
use super::packetpayload::{DeserializableBorrowed, PacketPayload, Serializable};

verus! {

/// The command name of `sendaddrv2`.
pub const SENDADDRV2_COMMAND: [u8; 12] = [115, 101, 110, 100, 97, 100, 100, 114, 118, 50, 0, 0];

/// Tells a peer that `addrv2` is understood (BIP 155).
#[derive(Clone, Copy, Debug, Default)]
pub struct SendAddrV2 {}

impl View for SendAddrV2 {
    type V = ();

    open spec fn view(&self) -> () {
        ()
    }
}

impl PacketPayload for SendAddrV2 {
    open spec fn spec_command() -> Seq<u8> {
        SENDADDRV2_COMMAND@
    }

    fn command(&self) -> (r: [u8; 12]) {
        SENDADDRV2_COMMAND
    }
}

impl<'a> DeserializableBorrowed<'a> for SendAddrV2 {
    open spec fn spec_deserialize(s: Seq<u8>) -> Option<((), int)> {
        Some(((), 0))
    }

    proof fn lemma_deserialize_len(s: Seq<u8>) {
    }

    fn deserialize_borrowed(&mut self, buffer: &'a [u8]) -> (r: Result<usize, ParseError>) {
        Ok(0)
    }
}

impl Serializable for SendAddrV2 {
    open spec fn spec_serialize(v: ()) -> Seq<u8> {
        Seq::empty()
    }

    open spec fn spec_serializable(v: ()) -> bool {
        true
    }

    fn serialize(&self, stream: &mut Vec<u8>) {
        assert(stream@ =~= old(stream)@ + Seq::<u8>::empty());
    }
}

} // verus!
