//! The crawler's decisions: how long to wait before trying a peer again,
//! when to give up on it, and which addresses it learns from a peer.
use vstd::prelude::*;
use crate::packets::addr::AddrBorrowed;
use crate::packets::addrv2::AddrV2Borrowed;
use crate::packets::netaddr::NetworkId;
use crate::types::addressportnetwork::{AddressPortNetwork, ApnModel, spec_apns_view};

pub mod peertracker;

verus! {

broadcast use vstd::seq_lib::group_seq_properties, vstd::slice::group_slice_axioms;

/// After this many failures a peer is banned.
pub const MAX_FAILURES: u32 = 14;

/// Fewer packets than this over a connection count as a failure.
pub const MIN_PACKETS: u32 = 10;

/// A connection shorter than this many seconds counts as a failure.
pub const MIN_CONNECTION_SECS: u64 = 10;

/// `2^n`.
pub open spec fn pow2(n: nat) -> nat
    decreases n,
{
    if n == 0 {
        1
    } else {
        2 * pow2((n - 1) as nat)
    }
}

/// Seconds to wait before the next try at a peer that failed
/// `failed_times` times in a row: none at first, then `2^n` seconds up to
/// twelve failures, then two hours.
pub fn backoff_from_failed(failed_times: u32) -> (r: u64)
    ensures
        r == (if failed_times == 0 {
            0
        } else if failed_times <= 12 {
            pow2(failed_times as nat)
        } else {
            7200
        }),
{
    if failed_times == 0 {
        return 0;
    } else if failed_times <= 12 {
        let mut p: u64 = 1;
        let mut i: u32 = 0;
        while i < failed_times
            invariant
                i <= failed_times <= 12,
                p == pow2(i as nat),
                p <= 4096,
            decreases failed_times - i,
        {
            assert(pow2((i + 1) as nat) == 2 * pow2(i as nat));
            proof {
                if i < 12 {
                    lemma_pow2_bound(i as nat);
                }
            }
            p = p * 2;
            i = i + 1;
        }
        return p;
    }
    3600 * 2
}

proof fn lemma_pow2_bound(n: nat)
    requires
        n < 12,
    ensures
        pow2(n + 1) <= 4096,
    decreases n,
{
    reveal_with_fuel(pow2, 13);
}

/// What went wrong with a connection, as far as the crawler cares.
#[derive(Debug, Clone, Copy, PartialEq, Eq, Structural)]
pub enum CrawlError {
    /// The peer sent a payload whose checksum was wrong.
    InvalidChecksum,
    /// Anything else.
    Other,
}

/// How a crawl of a peer went.
#[derive(Debug, Clone, Copy)]
pub struct CrawlResult {
    pub should_insta_ban: bool,
    pub connect_handshake_error: Option<CrawlError>,
    pub packets_received_total: u32,
    pub connection_time_secs: u64,
}

/// Why a crawl counts as failed.
#[derive(Debug, Clone, Copy, PartialEq, Eq, Structural)]
pub enum FailReason {
    ConnectHandshakeFailed(CrawlError),
    InvalidChecksum,
    InstaBan,
    TooFewPackets(u32),
    TooShort(u64),
}

/// Judges a finished crawl. A failed connect or handshake counts once, or
/// bans outright when a checksum was wrong; a wrong checksum later, or a
/// requested ban, bans outright; too few packets or too short a connection
/// fail without counting; otherwise the failure count starts over.
pub fn evaluate_crawl_result(result: &CrawlResult, disconnect_reason: CrawlError, failed_times: &mut u32) -> (r: Option<FailReason>)
    requires
        *old(failed_times) <= u32::MAX - MAX_FAILURES,
    ensures
        match result.connect_handshake_error {
            Some(e) => {
                &&& r == Some(FailReason::ConnectHandshakeFailed(e))
                &&& *final(failed_times) == *old(failed_times) + (if e == CrawlError::InvalidChecksum { MAX_FAILURES } else { 1 })
            },
            None => if disconnect_reason == CrawlError::InvalidChecksum {
                r == Some(FailReason::InvalidChecksum) && *final(failed_times) == MAX_FAILURES
            } else if result.should_insta_ban {
                r == Some(FailReason::InstaBan) && *final(failed_times) == MAX_FAILURES
            } else if result.packets_received_total < MIN_PACKETS {
                r == Some(FailReason::TooFewPackets(result.packets_received_total)) && *final(failed_times) == *old(failed_times)
            } else if result.connection_time_secs < MIN_CONNECTION_SECS {
                r == Some(FailReason::TooShort(result.connection_time_secs)) && *final(failed_times) == *old(failed_times)
            } else {
                r is None && *final(failed_times) == 0
            },
        },
{
    match result.connect_handshake_error {
        Some(e) => {
            match e {
                CrawlError::InvalidChecksum => {
                    *failed_times = *failed_times + MAX_FAILURES;
                },
                CrawlError::Other => {
                    *failed_times = *failed_times + 1;
                },
            }
            return Some(FailReason::ConnectHandshakeFailed(e));
        },
        None => {},
    }
    match disconnect_reason {
        CrawlError::InvalidChecksum => {
            *failed_times = MAX_FAILURES;
            return Some(FailReason::InvalidChecksum);
        },
        CrawlError::Other => {},
    }
    if result.should_insta_ban {
        *failed_times = MAX_FAILURES;
        return Some(FailReason::InstaBan);
    }
    if result.packets_received_total < MIN_PACKETS {
        return Some(FailReason::TooFewPackets(result.packets_received_total));
    }
    if result.connection_time_secs < MIN_CONNECTION_SECS {
        return Some(FailReason::TooShort(result.connection_time_secs));
    }
    *failed_times = 0;
    None
}

/// Only IPv4 and IPv6 peers are crawled; others are banned at once.
pub fn is_crawlable(network_id: NetworkId) -> (r: bool)
    ensures
        r == (network_id == NetworkId::IPv4 || network_id == NetworkId::IPv6),
{
    match network_id {
        NetworkId::IPv4 => true,
        NetworkId::IPv6 => true,
        _ => false,
    }
}

/// Whether 16 address bytes are an IPv4 address mapped into IPv6 (`::ffff:a.b.c.d`).
pub open spec fn spec_is_ipv4_mapped(a: Seq<u8>) -> bool {
    a.len() == 16 && (forall|i: int| 0 <= i < 10 ==> a[i] == 0) && a[10] == 0xff && a[11] == 0xff
}

/// The peer a 16-byte address and port name: IPv4 when it is a mapped
/// IPv4 address, IPv6 otherwise.
pub open spec fn spec_apn_of_16(a: Seq<u8>, port: u16) -> ApnModel {
    if spec_is_ipv4_mapped(a) {
        ApnModel { network_id: NetworkId::IPv4, address: a.subrange(12, 16), port }
    } else {
        ApnModel { network_id: NetworkId::IPv6, address: a, port }
    }
}

/// The peer a 16-byte address and port name.
fn apn_of_16(a: &[u8], port: u16) -> (r: AddressPortNetwork)
    requires
        a@.len() == 16,
    ensures
        r@ == spec_apn_of_16(a@, port),
{
    let mut mapped = a[10] == 0xff && a[11] == 0xff;
    let mut i: usize = 0;
    while i < 10
        invariant
            a@.len() == 16,
            i <= 10,
            mapped == (a@[10] == 0xff && a@[11] == 0xff && forall|j: int| 0 <= j < i ==> a@[j] == 0),
        decreases 10 - i,
    {
        if a[i] != 0 {
            mapped = false;
        }
        i = i + 1;
    }
    if mapped {
        AddressPortNetwork { network_id: NetworkId::IPv4, address: vstd::slice::slice_to_vec(&a[12..16]), port }
    } else {
        AddressPortNetwork { network_id: NetworkId::IPv6, address: vstd::slice::slice_to_vec(a), port }
    }
}

/// The peers an `addr` message names, in order.
pub fn apns_from_addr(addys: &AddrBorrowed) -> (r: Vec<AddressPortNetwork>)
    ensures
        spec_apns_view(r@) == addys.inner@.map_values(|a: crate::packets::netaddr::NetAddrBorrowed| spec_apn_of_16(a.addr@, a.port)),
{
    let ghost want = addys.inner@.map_values(|a: crate::packets::netaddr::NetAddrBorrowed| spec_apn_of_16(a.addr@, a.port));
    let mut apns: Vec<AddressPortNetwork> = Vec::new();
    let mut i: usize = 0;
    while i < addys.inner.len()
        invariant
            i <= addys.inner@.len(),
            want == addys.inner@.map_values(|a: crate::packets::netaddr::NetAddrBorrowed| spec_apn_of_16(a.addr@, a.port)),
            spec_apns_view(apns@) == want.take(i as int),
        decreases addys.inner@.len() - i,
    {
        let addy = &addys.inner[i];
        let apn = apn_of_16(addy.addr.as_slice(), addy.port);
        apns.push(apn);
        assert(want.take(i + 1) =~= want.take(i as int).push(want[i as int]));
        assert(spec_apns_view(apns@) =~= want.take(i + 1));
        i = i + 1;
    }
    assert(want.take(i as int) =~= want);
    apns
}

/// The peer an `addrv2` entry names, if the crawler can use it: an IPv4
/// entry of 4 bytes, or an IPv6 entry of 16 bytes (a mapped IPv4 address
/// counting as IPv4).
pub open spec fn spec_apn_of_v2(network_id: NetworkId, address: Seq<u8>, port: u16) -> Option<ApnModel> {
    if network_id == NetworkId::IPv4 && address.len() == 4 {
        Some(ApnModel { network_id: NetworkId::IPv4, address, port })
    } else if network_id == NetworkId::IPv6 && address.len() == 16 {
        Some(spec_apn_of_16(address, port))
    } else {
        None
    }
}

/// The peers usable entries of an `addrv2` list name, in order.
pub open spec fn spec_apns_from_addrv2(entries: Seq<crate::packets::netaddr::NetAddrV2Model>) -> Seq<ApnModel>
    decreases entries.len(),
{
    if entries.len() == 0 {
        Seq::empty()
    } else {
        let e = entries.last();
        let rest = spec_apns_from_addrv2(entries.drop_last());
        match spec_apn_of_v2(e.network_id, e.address, e.port) {
            Some(m) => rest.push(m),
            None => rest,
        }
    }
}

/// The peers an `addrv2` message names that the crawler can use, in order.
pub fn apns_from_addrv2(addys: &AddrV2Borrowed) -> (r: Vec<AddressPortNetwork>)
    ensures
        spec_apns_view(r@) == spec_apns_from_addrv2(addys@),
{
    let mut apns: Vec<AddressPortNetwork> = Vec::new();
    let mut i: usize = 0;
    while i < addys.inner.len()
        invariant
            i <= addys.inner@.len(),
            spec_apns_view(apns@) == spec_apns_from_addrv2(addys@.take(i as int)),
        decreases addys.inner@.len() - i,
    {
        let addy = &addys.inner[i];
        let ghost prev = spec_apns_view(apns@);
        assert(addys@.take(i + 1).drop_last() =~= addys@.take(i as int));
        assert(addys@.take(i + 1).last() == addy@);
        if addy.network_id == NetworkId::IPv4 && addy.address.len() == 4 {
            apns.push(AddressPortNetwork {
                network_id: NetworkId::IPv4,
                address: vstd::slice::slice_to_vec(addy.address),
                port: addy.port,
            });
            assert(spec_apns_view(apns@) =~= prev.push(spec_apn_of_v2(addy@.network_id, addy@.address, addy@.port).unwrap()));
        } else if addy.network_id == NetworkId::IPv6 && addy.address.len() == 16 {
            apns.push(apn_of_16(addy.address, addy.port));
            assert(spec_apns_view(apns@) =~= prev.push(spec_apn_of_v2(addy@.network_id, addy@.address, addy@.port).unwrap()));
        }
        i = i + 1;
    }
    assert(addys@.take(i as int) =~= addys@);
    apns
}

} // verus!
