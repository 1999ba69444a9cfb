//! Requests queued for the peer and header tables.
use vstd::prelude::*;
use crate::types::addressportnetwork::AddressPortNetwork;
use crate::types::blockheaderwithnumber::BlockHeaderWithNumber;

verus! {

/// Store a peer first seen at `first_seen`.
pub struct InsertPeerRequest {
    pub apn: AddressPortNetwork,
    pub first_seen: u64,
}

/// Ban a peer from `banned_at` until `banned_until`, in seconds.
pub struct BanPeerRequest {
    pub apn: AddressPortNetwork,
    pub banned_at: u64,
    pub banned_until: u64,
}

/// Forget a peer.
pub struct DeletePeerRequest {
    pub apn: AddressPortNetwork,
}

/// Record the height a peer reached.
pub struct UpdatePeerBlockHeightRequest {
    pub apn: AddressPortNetwork,
    pub new_height: u32,
}

/// Record what a peer's `version` said.
pub struct UpdatePeerFromVersionRequest {
    pub apn: AddressPortNetwork,
    pub services: u64,
    pub block_height: u32,
    pub user_agent: Vec<u8>,
}

/// Store a header with its height.
#[derive(Debug, Clone, Copy)]
pub struct InsertHeaderRequest {
    pub parent: [u8; 32],
    pub merkle_root: [u8; 32],
    pub timestamp: u32,
    pub bits: u32,
    pub nonce: u32,
    pub version: u32,
    pub number: u64,
    pub hash: [u8; 32],
}

/// Peers are banned for two weeks, in seconds.
pub const BAN_PEER_DURATION_SECS: u64 = 1209600;

impl InsertHeaderRequest {
    /// The request that stores `header`.
    pub fn from_header(header: &BlockHeaderWithNumber) -> (r: InsertHeaderRequest)
        ensures
            r.parent == header.header.parent && r.merkle_root == header.header.merkle_root,
            r.timestamp == header.header.timestamp && r.bits == header.header.bits,
            r.nonce == header.header.nonce && r.version == header.header.version,
            r.number == header.number && r.hash == header.header.hash,
    {
        InsertHeaderRequest {
            parent: header.header.parent,
            merkle_root: header.header.merkle_root,
            timestamp: header.header.timestamp,
            bits: header.header.bits,
            nonce: header.header.nonce,
            version: header.header.version,
            number: header.number,
            hash: header.header.hash,
        }
    }
}

impl BanPeerRequest {
    /// The request that bans `apn` from `now` for `BAN_PEER_DURATION_SECS`.
    pub fn for_two_weeks(apn: AddressPortNetwork, now: u64) -> (r: BanPeerRequest)
        requires
            now + BAN_PEER_DURATION_SECS <= u64::MAX,
        ensures
            r.apn@ == apn@,
            r.banned_at == now,
            r.banned_until == now + BAN_PEER_DURATION_SECS,
    {
        BanPeerRequest { apn, banned_at: now, banned_until: now + BAN_PEER_DURATION_SECS }
    }
}

} // verus!
