use bitlens::db::writes::{sort_records, write_analyzed_txs_records};
use bitlens::addrman::{get_alive_peer, AddrMan, OnlineList};
use bitlens::api::address::{parse_address, Address};
use bitlens::crawler::peertracker::{get_all_connected_peers, is_connected_now, ConnectedPeers, TrackedConnection};
use bitlens::crawler::{apns_from_addr, apns_from_addrv2, backoff_from_failed, evaluate_crawl_result, is_crawlable, CrawlError, CrawlResult, FailReason};
use bitlens::db::batched::{BanPeerRequest, InsertHeaderRequest};
use bitlens::db::rocksdb::{
    address_continue_range, address_range, amend_value, decode_address_entry, decode_tx_spend,
    deserialize_block_tx_entries, deserialize_transaction_outputs, serialize_block_tx_entries, spend_value,
    summarize_address_entries, DbError, SerializedTx,
};
use bitlens::miners::{compile_regexes, get_page_data, miner_for_coinbase, ChainBlock, Miner, Miners};
use bitlens::packets::addr::AddrBorrowed;
use bitlens::packets::addrv2::AddrV2Borrowed;
use bitlens::packets::netaddr::{NetAddrBorrowed, NetAddrV2Borrowed, NetworkId};
use bitlens::packets::packetpayload::Serializable;
use bitlens::packets::tx::TxOutOwned;
use bitlens::types::addressportnetwork::AddressPortNetwork;

fn apn(a: u8, port: u16) -> AddressPortNetwork {
    AddressPortNetwork { network_id: NetworkId::IPv4, address: vec![10, 0, 0, a], port }
}

#[test]
fn backoff_doubles_then_caps() {
    assert_eq!(backoff_from_failed(0), 0);
    assert_eq!(backoff_from_failed(1), 2);
    assert_eq!(backoff_from_failed(5), 32);
    assert_eq!(backoff_from_failed(12), 4096);
    assert_eq!(backoff_from_failed(13), 7200);
}

fn result(packets: u32, secs: u64) -> CrawlResult {
    CrawlResult { should_insta_ban: false, connect_handshake_error: None, packets_received_total: packets, connection_time_secs: secs }
}

#[test]
fn crawl_results_are_judged() {
    let mut failed = 3;
    let mut r = result(100, 100);
    r.connect_handshake_error = Some(CrawlError::Other);
    assert_eq!(evaluate_crawl_result(&r, CrawlError::Other, &mut failed), Some(FailReason::ConnectHandshakeFailed(CrawlError::Other)));
    assert_eq!(failed, 4);
    r.connect_handshake_error = Some(CrawlError::InvalidChecksum);
    evaluate_crawl_result(&r, CrawlError::Other, &mut failed);
    assert_eq!(failed, 18);
    let mut failed = 2;
    assert_eq!(evaluate_crawl_result(&result(100, 100), CrawlError::InvalidChecksum, &mut failed), Some(FailReason::InvalidChecksum));
    assert_eq!(failed, 14);
    let mut failed = 2;
    let mut ban = result(100, 100);
    ban.should_insta_ban = true;
    assert_eq!(evaluate_crawl_result(&ban, CrawlError::Other, &mut failed), Some(FailReason::InstaBan));
    assert_eq!(failed, 14);
    let mut failed = 2;
    assert_eq!(evaluate_crawl_result(&result(9, 100), CrawlError::Other, &mut failed), Some(FailReason::TooFewPackets(9)));
    assert_eq!(evaluate_crawl_result(&result(10, 9), CrawlError::Other, &mut failed), Some(FailReason::TooShort(9)));
    assert_eq!(failed, 2);
    assert_eq!(evaluate_crawl_result(&result(10, 10), CrawlError::Other, &mut failed), None);
    assert_eq!(failed, 0);
}

#[test]
fn only_ip_networks_are_crawled() {
    assert!(is_crawlable(NetworkId::IPv4));
    assert!(is_crawlable(NetworkId::IPv6));
    assert!(!is_crawlable(NetworkId::TorV3));
}

#[test]
fn addresses_from_addr_and_addrv2() {
    let mut mapped = [0u8; 16];
    mapped[10] = 0xff;
    mapped[11] = 0xff;
    mapped[12..].copy_from_slice(&[1, 2, 3, 4]);
    let v6 = [0x20u8, 1, 0xd, 0xb8, 0, 0, 0, 0, 0, 0, 0, 0, 0, 0, 0, 1];
    let addr = AddrBorrowed {
        inner: vec![
            NetAddrBorrowed { services: 1, addr: mapped, time: 0, port: 8333 },
            NetAddrBorrowed { services: 1, addr: v6, time: 0, port: 18333 },
        ],
    };
    let apns = apns_from_addr(&addr);
    assert_eq!(apns.len(), 2);
    assert_eq!(apns[0].network_id, NetworkId::IPv4);
    assert_eq!(apns[0].address, vec![1, 2, 3, 4]);
    assert_eq!(apns[0].port, 8333);
    assert_eq!(apns[1].network_id, NetworkId::IPv6);
    assert_eq!(apns[1].address, v6.to_vec());
    let tor = [7u8; 32];
    let v2 = AddrV2Borrowed {
        inner: vec![
            NetAddrV2Borrowed { address: &[9, 9, 9, 9], services: 0, time: 0, port: 1, network_id: NetworkId::IPv4 },
            NetAddrV2Borrowed { address: &tor, services: 0, time: 0, port: 2, network_id: NetworkId::TorV3 },
            NetAddrV2Borrowed { address: &mapped, services: 0, time: 0, port: 3, network_id: NetworkId::IPv6 },
            NetAddrV2Borrowed { address: &[1, 2, 3], services: 0, time: 0, port: 4, network_id: NetworkId::IPv4 },
        ],
    };
    let apns = apns_from_addrv2(&v2);
    assert_eq!(apns.len(), 2);
    assert_eq!(apns[0].address, vec![9, 9, 9, 9]);
    assert_eq!(apns[1].network_id, NetworkId::IPv4);
    assert_eq!(apns[1].address, vec![1, 2, 3, 4]);
    assert_eq!(apns[1].port, 3);
}

#[test]
fn tracked_connections_come_and_go() {
    let mut peers = ConnectedPeers::new();
    assert!(!is_connected_now(&peers, &apn(1, 8333)));
    let c = TrackedConnection::new(apn(1, 8333), &mut peers);
    assert!(is_connected_now(&peers, &apn(1, 8333)));
    assert!(!is_connected_now(&peers, &apn(1, 8334)));
    c.release(&mut peers);
    assert!(!is_connected_now(&peers, &apn(1, 8333)));
}

#[test]
fn all_connected_peers_are_listed() {
    let mut peers = ConnectedPeers::new();
    assert!(get_all_connected_peers(&peers).is_empty());
    let a = TrackedConnection::new(apn(1, 8333), &mut peers);
    let b = TrackedConnection::new(apn(2, 8333), &mut peers);
    let listed = get_all_connected_peers(&peers);
    assert_eq!(listed.len(), 2);
    assert_eq!(listed[0].address, vec![10, 0, 0, 1]);
    assert_eq!(listed[1].address, vec![10, 0, 0, 2]);
    a.release(&mut peers);
    let listed = get_all_connected_peers(&peers);
    assert_eq!(listed.len(), 1);
    assert_eq!(listed[0].address, vec![10, 0, 0, 2]);
    b.release(&mut peers);
    assert!(get_all_connected_peers(&peers).is_empty());
}

#[test]
fn addrman_learns_new_peers_once() {
    let mut m = AddrMan::start(vec![apn(1, 1)]);
    assert_eq!(m.get_peers_to_check().len(), 1);
    assert!(m.get_peers_to_check().is_empty());
    let fresh = m.peers_seen(vec![apn(1, 1), apn(2, 1), apn(2, 1), apn(3, 1)]);
    assert_eq!(fresh.len(), 2);
    assert_eq!(fresh[0].address, vec![10, 0, 0, 2]);
    assert_eq!(fresh[1].address, vec![10, 0, 0, 3]);
    assert_eq!(m.known.len(), 3);
    assert_eq!(m.get_peers_to_check().len(), 2);
}

#[test]
fn alive_peers_by_time_and_services() {
    let mut online = OnlineList::new(180);
    assert!(get_alive_peer(&online, None, 1000).is_none());
    online.peer_online(apn(1, 1), 1, 1000);
    online.peer_online(apn(2, 1), 9, 1000);
    online.peer_online(apn(1, 1), 1, 1100);
    assert_eq!(online.peers.len(), 2);
    let witness = get_alive_peer(&online, Some(8), 1100).unwrap();
    assert_eq!(witness.address, vec![10, 0, 0, 2]);
    assert!(get_alive_peer(&online, None, 1200).is_some());
    // apn(2) was last seen at 1000: gone after 1180; apn(1) stays until 1280
    let any = get_alive_peer(&online, None, 1250).unwrap();
    assert_eq!(any.address, vec![10, 0, 0, 1]);
    assert!(get_alive_peer(&online, Some(8), 1250).is_none());
}

#[test]
fn block_tx_entries_roundtrip() {
    let txs = [
        SerializedTx { hash: [1u8; 32], analyzed_tx: None, tx_outs: None, spent_txos: None, address_amends: None, fee: 10, txouts_sum: 500, size_wus: 800 },
        SerializedTx { hash: [2u8; 32], analyzed_tx: None, tx_outs: None, spent_txos: None, address_amends: None, fee: 0, txouts_sum: 7, size_wus: 4 },
    ];
    let bytes = serialize_block_tx_entries(&txs);
    assert_eq!(bytes.len(), 1 + 2 * 52);
    let back = deserialize_block_tx_entries(&bytes).unwrap();
    assert_eq!(back.len(), 2);
    assert_eq!(back[0].hash, [1u8; 32]);
    assert_eq!(back[0].value_sats, 500);
    assert_eq!(back[0].fee_sats, 10);
    assert_eq!(back[1].size_wus, 4);
    assert!(matches!(deserialize_block_tx_entries(&[]), Err(DbError::DataEmpty)));
    assert!(matches!(deserialize_block_tx_entries(&bytes[..60]), Err(DbError::Parse(_))));
}

#[test]
fn stored_outputs_decode() {
    let outs = vec![TxOutOwned { value: 5, script: vec![0x51] }, TxOutOwned { value: 6, script: vec![] }];
    let mut bytes = vec![2u8];
    for o in &outs {
        o.serialize(&mut bytes);
    }
    let back = deserialize_transaction_outputs(&bytes).unwrap();
    assert_eq!(back.len(), 2);
    assert_eq!(back[0].script, vec![0x51]);
    assert_eq!(back[1].value, 6);
    assert!(matches!(deserialize_transaction_outputs(&[]), Err(DbError::DataEmpty)));
}

#[test]
fn spends_and_address_history_layouts() {
    let v = spend_value(&[4u8; 32], &[5u8; 32]);
    let mut key = vec![9u8; 32];
    key.extend_from_slice(&7u32.to_le_bytes());
    assert_eq!(decode_tx_spend(&key, &v), (7, [4u8; 32], [5u8; 32]));
    let (start, end) = address_range(b"addr", 100, 200);
    let mut s = b"addr".to_vec();
    s.extend_from_slice(&(u64::MAX - 200).to_be_bytes());
    let mut e = b"addr".to_vec();
    e.extend_from_slice(&(u64::MAX - 100).to_be_bytes());
    assert_eq!((start, end), (s.clone(), e));
    let (start, end) = address_continue_range(b"addr", &[6u8; 32], 200);
    s.extend_from_slice(&[6u8; 32]);
    assert_eq!(start, s);
    let mut e = b"addr".to_vec();
    e.extend_from_slice(&u64::MAX.to_be_bytes());
    assert_eq!(end, e);
    let value = amend_value(&[8u8; 32], -42);
    let mut k = b"addr".to_vec();
    k.extend_from_slice(&(u64::MAX - 300).to_be_bytes());
    k.extend_from_slice(&[6u8; 32]);
    assert_eq!(decode_address_entry(&k, &value), ([6u8; 32], [8u8; 32], -42));
}

#[test]
fn address_history_totals() {
    let entry = |ts: u64, delta: i64, tag: u8| {
        let mut k = b"ab".to_vec();
        k.extend_from_slice(&(u64::MAX - ts).to_be_bytes());
        k.extend_from_slice(&[tag; 32]);
        (k, amend_value(&[tag; 32], delta))
    };
    let entries = vec![entry(300, -5, 1), entry(200, 20, 2), entry(100, 7, 3)];
    let d = summarize_address_entries(&entries, 2, 2);
    assert_eq!(d.total_txs, 3);
    assert_eq!(d.transactions.len(), 2);
    assert_eq!(d.transactions[1].2, 20);
    assert_eq!(d.total_spent, 5);
    assert_eq!(d.total_received, 27);
    assert_eq!(d.first_seen, 100);
}

#[test]
fn requests_for_the_peer_and_header_tables() {
    let r = BanPeerRequest::for_two_weeks(apn(1, 1), 1000);
    assert_eq!(r.banned_until, 1000 + 1209600);
    let c = bitlens::chainman::chain::Chain::default();
    let h = InsertHeaderRequest::from_header(&c.top_header);
    assert_eq!(h.number, 0);
    assert_eq!(h.hash, c.top_header.header.hash);
}

#[test]
fn addresses_are_recognised() {
    let (b, a) = parse_address("1A1zP1eP5QGefi2DMPTfTL5SLmv7DivfNa".to_string()).unwrap();
    assert_eq!(b, hex::decode("62e907b15cbf27d5425399ebf6f0fb50ebb88f18").unwrap());
    assert!(matches!(a, Address::P2PKH { .. }));
    assert_eq!(a.to_string(), "1A1zP1eP5QGefi2DMPTfTL5SLmv7DivfNa");
    let (b, a) = parse_address("36MjimMJHwQkrTKrKyw4KepHsd975kSGTs".to_string()).unwrap();
    assert_eq!(b, vec![0x33u8; 20]);
    assert!(matches!(a, Address::P2SH { .. }));
    let (b, a) = parse_address("bc1qw508d6qejxtdg4y5r3zarvary0c5xw7kv8f3t4".to_string()).unwrap();
    assert_eq!(b, hex::decode("751e76e8199196d454941c45d1b3a323f1433bd6").unwrap());
    assert!(matches!(a, Address::P2WSH { .. }));
    let (b, a) = parse_address("bc1qyg3zyg3zyg3zyg3zyg3zyg3zyg3zyg3zyg3zyg3zyg3zyg3zyg3qrkjgc9".to_string()).unwrap();
    assert_eq!(b, vec![0x22u8; 32]);
    assert!(matches!(a, Address::P2WPKH { .. }));
    let (b, a) = parse_address("bc1pzyg3zyg3zyg3zyg3zyg3zyg3zyg3zyg3zyg3zyg3zyg3zyg3zygs64v5e4".to_string()).unwrap();
    assert_eq!(b, vec![0x11u8; 32]);
    assert!(matches!(a, Address::Taproot { .. }));
    assert!(parse_address("tb1qw508d6qejxtdg4y5r3zarvary0c5xw7kxpjzsx".to_string()).is_none());
    let key = format!("02{}", "ab".repeat(32));
    let (b, a) = parse_address(key.clone()).unwrap();
    assert_eq!(b.len(), 33);
    assert!(matches!(a, Address::P2PKShort { .. }));
    let (b, a) = parse_address(format!("04{}", "cd".repeat(64))).unwrap();
    assert_eq!(b.len(), 65);
    assert!(matches!(a, Address::P2PKFull { .. }));
    assert!(parse_address("abcd".to_string()).is_none());
    assert!(parse_address("not an address".to_string()).is_none());
}

fn miners_config() -> Vec<(String, Miner)> {
    vec![
        ("binance".to_string(), Miner { display_name: "Binance".to_string(), icon: None, regexes: vec!["binance".to_string()] }),
        ("f2pool".to_string(), Miner { display_name: "F2Pool".to_string(), icon: None, regexes: vec!["f2pool".to_string(), "七彩神仙鱼".to_string()] }),
    ]
}

#[test]
fn coinbases_are_matched_case_insensitively() {
    let rules = compile_regexes(&miners_config()).unwrap();
    assert_eq!(miner_for_coinbase(&rules, b"/BINANCE/mined"), Some(0));
    assert_eq!(miner_for_coinbase(&rules, b"hello F2Pool"), Some(1));
    assert_eq!(miner_for_coinbase(&rules, b"solo"), None);
    let bad = vec![("x".to_string(), Miner { display_name: "X".to_string(), icon: None, regexes: vec!["(".to_string()] })];
    assert!(compile_regexes(&bad).is_err());
}

#[test]
fn miner_statistics_over_recent_blocks() {
    let rules = compile_regexes(&miners_config()).unwrap();
    let mut m = Miners::new(rules);
    let week = 7 * 24 * 3600;
    let blocks = vec![
        ChainBlock { hash: [1u8; 32], number: 1, timestamp: 10 * week, coinbase: b"binance".to_vec() },
        ChainBlock { hash: [2u8; 32], number: 2, timestamp: 12 * week, coinbase: b"nobody".to_vec() },
        ChainBlock { hash: [3u8; 32], number: 3, timestamp: 13 * week, coinbase: b"Binance".to_vec() },
        ChainBlock { hash: [4u8; 32], number: 4, timestamp: 14 * week, coinbase: b"f2pool".to_vec() },
    ];
    bitlens::miners::callback_after_headers_loaded(&mut m, &blocks, 0);
    assert_eq!(m.block_miners.len(), 4);
    assert_eq!(m.block_miners[1].1, "unknown");
    assert_eq!(m.block_miners[2].1, "binance");
    // recent: at or after week 12
    assert_eq!(m.recent_blocks.len(), 3);
    assert_eq!(m.recent_blocks[0].miner_name, "UNKNOWN");
    assert_eq!(m.recent_blocks[1].miner_name, "Binance");
    assert_eq!(m.recent_blocks[1].coinbase_ascii, "Binance");
    let counts: Vec<(String, u64)> = m.recent_blocks_mined_by_miners_counts.iter().map(|(a, b)| (a.clone(), *b)).collect();
    assert_eq!(counts, vec![("unknown".to_string(), 1), ("binance".to_string(), 1), ("f2pool".to_string(), 1)]);
    assert_eq!(m.blocks_mined_by_miners[1].1, vec![[1u8; 32], [3u8; 32]]);
    assert_eq!(get_page_data(&m), r#"{"recentBlocks":[],"recentShares":[]}"#);
    let shares = m.recent_share_counts();
    assert_eq!(shares, vec![
        ("unknown".to_string(), "UNKNOWN".to_string(), 1),
        ("binance".to_string(), "Binance".to_string(), 1),
        ("f2pool".to_string(), "F2Pool".to_string(), 1),
    ]);
    m.set_page_data("{}".to_string());
    assert_eq!(get_page_data(&m), "{}");
    assert_eq!(m.recent_blocks.len(), 3);
    let (id, name, mined, total) = m.get_miner_for_block_and_share(&[3u8; 32]).unwrap();
    assert_eq!((id.as_str(), name.as_str(), mined, total), ("binance", "Binance", 1, 3));
    let (id, name, _, _) = m.get_miner_for_block_and_share(&[2u8; 32]).unwrap();
    assert_eq!((id.as_str(), name.as_str()), ("unknown", "UNKNOWN"));
    assert!(m.get_miner_for_block_and_share(&[9u8; 32]).is_none());
    let fewer = vec![
        ChainBlock { hash: [1u8; 32], number: 1, timestamp: 10 * week, coinbase: b"binance".to_vec() },
        ChainBlock { hash: [2u8; 32], number: 2, timestamp: 12 * week, coinbase: b"nobody".to_vec() },
    ];
    bitlens::miners::callback_chain_reorg(&mut m, &fewer, 0);
    assert_eq!(m.block_miners.len(), 2);
    // recent: at or after week 10; a second reorg to the same chain gives the same blocks
    assert_eq!(m.recent_blocks.len(), 2);
    let first: Vec<(u64, String)> = m.recent_blocks.iter().map(|b| (b.number, b.coinbase_ascii.clone())).collect();
    bitlens::miners::callback_chain_reorg(&mut m, &fewer, 0);
    let second: Vec<(u64, String)> = m.recent_blocks.iter().map(|b| (b.number, b.coinbase_ascii.clone())).collect();
    assert_eq!(first, second);
    assert_eq!(first, vec![(1, "binance".to_string()), (2, "nobody".to_string())]);
    let shares = m.recent_share_counts();
    assert_eq!(shares, vec![("unknown".to_string(), "UNKNOWN".to_string(), 1), ("binance".to_string(), "Binance".to_string(), 1)]);
}

#[test]
fn coinbase_text_replaces_invalid_bytes() {
    let rules = compile_regexes(&miners_config()).unwrap();
    let mut m = Miners::new(rules);
    let blocks = vec![ChainBlock { hash: [1u8; 32], number: 1, timestamp: 3 * 7 * 24 * 3600, coinbase: vec![b'a', 0xff, b'b'] }];
    bitlens::miners::callback_after_headers_loaded(&mut m, &blocks, 0);
    assert_eq!(m.recent_blocks[0].coinbase_ascii, "a\u{fffd}b");
}

#[test]
fn chain_extension_updates_recent_blocks() {
    let rules = compile_regexes(&miners_config()).unwrap();
    let mut m = Miners::new(rules);
    let week = 7 * 24 * 3600;
    let first = vec![
        ChainBlock { hash: [1u8; 32], number: 1, timestamp: 10 * week, coinbase: b"binance".to_vec() },
        ChainBlock { hash: [2u8; 32], number: 2, timestamp: 11 * week, coinbase: b"nobody".to_vec() },
    ];
    bitlens::miners::callback_after_headers_loaded(&mut m, &first, 0);
    assert_eq!(m.recent_blocks.len(), 2);
    let more = vec![ChainBlock { hash: [3u8; 32], number: 3, timestamp: 12 * week + 1, coinbase: b"F2POOL".to_vec() }];
    m.callback_chain_extended(&more);
    // block 1 (week 10) is no longer recent, block 2 (week 11) still is
    assert_eq!(m.recent_blocks.len(), 2);
    assert_eq!(m.recent_blocks[0].hash, [2u8; 32]);
    assert_eq!(m.recent_blocks[1].miner_id, "f2pool");
    let counts: Vec<u64> = m.recent_blocks_mined_by_miners_counts.iter().map(|(_, c)| *c).collect();
    assert_eq!(counts, vec![1, 0, 1]);
    assert_eq!(m.block_miners.len(), 3);
    assert_eq!(m.blocks_mined_by_miners[2].1, vec![[3u8; 32]]);
}

fn stats_snapshot(m: &Miners) -> (Vec<([u8; 32], String)>, Vec<(String, Vec<[u8; 32]>)>, Vec<(String, u64)>, Vec<(u64, String, String)>) {
    (
        m.block_miners.clone(),
        m.blocks_mined_by_miners.clone(),
        m.recent_blocks_mined_by_miners_counts.clone(),
        m.recent_blocks.iter().map(|b| (b.number, b.miner_id.clone(), b.coinbase_ascii.clone())).collect(),
    )
}

#[test]
fn extension_agrees_with_recalculation() {
    let week = 7 * 24 * 3600;
    let block = |n: u8, t: u64, cb: &[u8]| ChainBlock { hash: [n; 32], number: n as u64, timestamp: t, coinbase: cb.to_vec() };
    let first = vec![block(1, 10 * week, b"binance"), block(2, 11 * week, b"nobody"), block(3, 11 * week + 5, b"f2pool")];
    let more = vec![block(4, 12 * week + 1, b"F2POOL"), block(5, 13 * week, b"binance")];
    let mut extended = Miners::new(compile_regexes(&miners_config()).unwrap());
    bitlens::miners::callback_after_headers_loaded(&mut extended, &first, 0);
    extended.callback_chain_extended(&more);
    let all: Vec<ChainBlock> = first
        .iter()
        .chain(more.iter())
        .map(|b| ChainBlock { hash: b.hash, number: b.number, timestamp: b.timestamp, coinbase: b.coinbase.clone() })
        .collect();
    let mut again = Miners::new(compile_regexes(&miners_config()).unwrap());
    bitlens::miners::callback_chain_reorg(&mut again, &all, 0);
    assert_eq!(stats_snapshot(&extended), stats_snapshot(&again));
    assert_eq!(extended.recent_blocks.len(), 4);
}

#[test]
fn store_records_are_sorted_and_merged() {
    let sorted = sort_records(vec![(vec![3u8], vec![0u8]), (vec![1u8, 2], vec![1u8]), (vec![1u8], vec![2u8]), (vec![], vec![3u8])]);
    let keys: Vec<Vec<u8>> = sorted.iter().map(|r| r.0.clone()).collect();
    assert_eq!(keys, vec![vec![], vec![1u8], vec![1u8, 2], vec![3u8]]);
    let spent = [[7u8; 36]];
    let amends: [(&[u8], i64); 3] = [(b"addrA", 5), (b"addrA", -2), (b"addrB", 1)];
    let tx = |h: u8, outs: &'static [u8]| SerializedTx {
        hash: [h; 32],
        analyzed_tx: Some(b"an"),
        tx_outs: Some(outs),
        spent_txos: None,
        address_amends: None,
        fee: 1,
        txouts_sum: 2,
        size_wus: 3,
    };
    let mut t1 = tx(9, b"o9");
    t1.spent_txos = Some(&spent);
    t1.address_amends = Some(&amends);
    let t2 = tx(4, b"o4");
    let t3 = tx(9, b"o9");
    let blocks = [[0xaau8; 32], [0x11u8; 32]];
    let txs = vec![vec![t1, t2], vec![t3]];
    let w = write_analyzed_txs_records(&blocks, &txs);
    assert_eq!(w.block_txs.len(), 2);
    assert_eq!(w.block_txs[0].0, vec![0x11u8; 32]);
    assert_eq!(w.block_txs[1].1.len(), 1 + 2 * 52);
    // every transaction is written, the two sharing a hash included
    assert_eq!(w.txouts.len(), 3);
    assert_eq!(w.txouts[0], (vec![4u8; 32], b"o4".to_vec()));
    assert_eq!(w.txouts[1], (vec![9u8; 32], b"o9".to_vec()));
    assert_eq!(w.txouts[2], (vec![9u8; 32], b"o9".to_vec()));
    assert_eq!(w.txs.len(), 3);
    let spends = w.spends.unwrap();
    assert_eq!(spends.len(), 1);
    let mut v = vec![9u8; 32];
    v.extend_from_slice(&[0xaau8; 32]);
    assert_eq!(spends[0], (vec![7u8; 36], v));
    let amends = w.address_amends.unwrap();
    assert_eq!(amends.len(), 2);
    assert_eq!(amends[0].0, b"addrA".to_vec());
    assert_eq!(&amends[0].1[32..], &3i64.to_le_bytes());
    assert_eq!(&amends[1].1[32..], &1i64.to_le_bytes());
}
