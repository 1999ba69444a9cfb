//! The decisions taken while shaking hands with a peer.
use vstd::prelude::*;
use crate::packets::netaddr::NetAddrShortOwned;
use crate::packets::payload::{PayloadToSend, ReceivedPayload};
use crate::packets::pong::Pong;
use crate::packets::sendaddrv2::SendAddrV2;
use crate::packets::sendheaders::SendHeaders;
use crate::packets::verack::VerAck;
use crate::packets::version::VersionOwned;
use crate::util::random::random_u64;

verus! {

/// The protocol version this node speaks.
pub const PROTOCOL_VERSION: u32 = 70016;

/// The services this node announces: NODE_NETWORK and NODE_WITNESS.
pub const LOCAL_SERVICES: u64 = 9;

/// Peers above this version understand `sendaddrv2` (BIP 155).
pub const ADDRV2_MIN_VERSION: u32 = 70016;

/// Peers above this version understand `sendheaders` (BIP 130).
pub const SENDHEADERS_MIN_VERSION: u32 = 70012;

/// A peer that broke the order of the handshake.
#[derive(Debug, Clone, Copy, PartialEq, Eq)]
pub enum HandshakeError {
    /// The peer sent `version` more than once.
    VersionSentTwice,
    /// The peer sent `verack` before `version`.
    VerAckBeforeVersion,
}

/// An all-zero short address.
fn empty_addr() -> (r: NetAddrShortOwned)
    ensures
        r.services == 0 && r.port == 0,
        r.addr@ == Seq::new(16, |i: int| 0u8),
{
    proof {
        vstd::array::axiom_spec_array_fill_for_copy_type::<u8, 16>(0u8);
    }
    let addr = [0u8; 16];
    assert(addr@ =~= Seq::new(16, |i: int| 0u8));
    NetAddrShortOwned { services: 0, addr, port: 0 }
}

/// The `version` this node opens a handshake with, at time `timestamp`,
/// knowing headers up to `start_height`; its nonce is drawn at random.
pub fn handshake_version(timestamp: u64, start_height: u32) -> (r: VersionOwned)
    ensures
        r.services == LOCAL_SERVICES,
        r.timestamp == timestamp,
        r.user_agent@ == seq![115u8, 101, 109, 105, 107, 101, 107],
        r.version == PROTOCOL_VERSION,
        r.start_height == start_height,
        r.addrrecv.services == 0 && r.addrrecv.port == 0,
        r.addrfrom.services == 0 && r.addrfrom.port == 0,
        !r.announce_relayed_transactions,
{
    let nonce = random_u64();
    let user_agent: Vec<u8> = vec![115u8, 101, 109, 105, 107, 101, 107];
    assert(user_agent@ =~= seq![115u8, 101, 109, 105, 107, 101, 107]);
    VersionOwned {
        services: LOCAL_SERVICES,
        timestamp,
        nonce,
        user_agent,
        version: PROTOCOL_VERSION,
        addrrecv: empty_addr(),
        addrfrom: empty_addr(),
        start_height,
        announce_relayed_transactions: false,
    }
}

/// What answers the `verack` of a peer at version `v`: `sendaddrv2` when it
/// is above 70016, `verack`, then `sendheaders` when it is above 70012.
pub open spec fn spec_verack_replies(v: u32, out: Seq<PayloadToSend>) -> bool {
    let a: int = if v > ADDRV2_MIN_VERSION { 1 } else { 0 };
    &&& out.len() == a + 1 + (if v > SENDHEADERS_MIN_VERSION { 1int } else { 0 })
    &&& (v > ADDRV2_MIN_VERSION ==> out[0] is SendAddrV2)
    &&& out[a] is VerAck
    &&& (v > SENDHEADERS_MIN_VERSION ==> out[a + 1] is SendHeaders)
}

/// Takes one payload received during the handshake: records the peer's
/// `version`, answers a `ping`, and on `verack` ends the handshake with the
/// payloads to send back. Everything else is ignored.
pub fn handle_packet_during_handshaking(
    packet: &ReceivedPayload<'_>,
    success: &mut bool,
    remote_version: &mut Option<VersionOwned>,
) -> (r: Result<Option<Vec<PayloadToSend>>, HandshakeError>)
    ensures
        match *packet {
            ReceivedPayload::Version(v) => {
                &&& *final(success) == *old(success)
                &&& if (*old(remote_version)) is Some {
                    &&& r == Err::<Option<Vec<PayloadToSend>>, HandshakeError>(HandshakeError::VersionSentTwice)
                    &&& *final(remote_version) == *old(remote_version)
                } else {
                    &&& r matches Ok(None)
                    &&& ((*final(remote_version)) matches Some(n) && n@ == v@)
                }
            },
            ReceivedPayload::VerAck(_) => {
                &&& *final(remote_version) == *old(remote_version)
                &&& if (*old(remote_version)) is None {
                    &&& r == Err::<Option<Vec<PayloadToSend>>, HandshakeError>(HandshakeError::VerAckBeforeVersion)
                    &&& *final(success) == *old(success)
                } else {
                    &&& (r matches Ok(Some(out)) && spec_verack_replies((*old(remote_version)).unwrap().version, out@))
                    &&& *final(success)
                }
            },
            ReceivedPayload::Ping(p) => {
                &&& *final(remote_version) == *old(remote_version)
                &&& *final(success) == *old(success)
                &&& (r matches Ok(Some(out)) && out@.len() == 1 && (out@[0] matches PayloadToSend::Pong(q) && q.nonce == p.nonce))
            },
            _ => {
                &&& *final(remote_version) == *old(remote_version)
                &&& *final(success) == *old(success)
                &&& r matches Ok(None)
            },
        },
{
    match packet {
        ReceivedPayload::Version(v) => {
            if remote_version.is_some() {
                return Err(HandshakeError::VersionSentTwice);
            }
            let n = VersionOwned::from(*v);
            *remote_version = Some(n);
        },
        ReceivedPayload::VerAck(_) => {
            let rv_version = match remote_version {
                Some(rv) => rv.version,
                None => return Err(HandshakeError::VerAckBeforeVersion),
            };
            let mut res: Vec<PayloadToSend> = Vec::new();
            if rv_version > ADDRV2_MIN_VERSION {
                res.push(PayloadToSend::SendAddrV2(SendAddrV2 {}));
            }
            res.push(PayloadToSend::VerAck(VerAck {}));
            if rv_version > SENDHEADERS_MIN_VERSION {
                res.push(PayloadToSend::SendHeaders(SendHeaders {}));
            }
            *success = true;
            return Ok(Some(res));
        },
        ReceivedPayload::Ping(ping) => {
            let mut res: Vec<PayloadToSend> = Vec::new();
            res.push(PayloadToSend::Pong(Pong { nonce: ping.nonce }));
            return Ok(Some(res));
        },
        _ => {},
    }
    Ok(None)
}

} // verus!
