use bitlens::api::search::{search_in_chain, search_response, SearchLookup};
use bitlens::chainman::keepup::{plan_dependencies, Dependency};
use bitlens::chainman::deps::{assemble_dependencies, DepRef};
use bitlens::packets::block::BlockOwned;
use bitlens::packets::tx::{TxInOwned, TxOutOwned, TxOwned};
use bitlens::chainman::blocksync::{find_next_best_job, job_to_getdata, MasterState};
use bitlens::chainman::chain::{get_header_by_hash, get_top_header_hash, need_ihd, Chain, ChainError, HeaderApplicationResult};
use bitlens::chainman::keepup::{block_totals, plan_block_jobs, take_job_for_block, FrontPageDataUpdateStrategy};
use bitlens::packets::blockheader::{BlockHeaderBorrowed, BlockHeaderOwned};
use bitlens::types::blockheaderwithnumber::BlockHeaderWithNumber;
use bitlens::packets::invvector::InventoryVectorType;
use bitlens::packets::payload::PayloadToSend;
use bitlens::util::genesis::genesis_header;
use bitlens::util::pow::{calculate_next_work_required, compact_from_u256};

fn child(parent: &BlockHeaderOwned, tag: u8) -> BlockHeaderOwned {
    BlockHeaderOwned::construct(1, parent.hash, [tag; 32], parent.timestamp + 600, 0x1d00ffff, tag as u32, 0)
}

#[test]
fn default_chain_follows_genesis() {
    let c = Chain::default();
    assert_eq!(get_top_header_hash(&c), genesis_header().hash);
    assert_eq!(c.top_header.number, 0);
    assert_eq!(c.calculate_downloaded_blocks(), 0);
    assert_eq!(c.get_top_downloaded_block_hash(), None);
    assert!(get_header_by_hash(&c, genesis_header().hash).is_some());
    assert!(get_header_by_hash(&c, [1u8; 32]).is_none());
}

#[test]
fn extension_fork_and_errors() {
    let mut c = Chain::default();
    let g = genesis_header();
    let a1 = child(&g, 1);
    let a2 = child(&a1, 2);
    assert_eq!(c.validate_and_apply_header_inner(a1, false), Ok(Some(vec![a1.hash])));
    // twice the work of one header at the easiest target, 0x100010001
    let mut two = [0u8; 32];
    two[0] = 2;
    two[2] = 2;
    two[4] = 2;
    assert_eq!(c.top_header.total_work, two);
    assert_eq!(c.validate_and_apply_header_inner(a2, false), Ok(Some(vec![a2.hash])));
    assert_eq!(c.top_header.number, 2);
    // already known
    assert_eq!(c.validate_and_apply_header_inner(a2, false), Ok(None));
    // unknown parent
    let orphan = child(&child(&g, 9), 10);
    assert_eq!(c.validate_and_apply_header_inner(orphan, false), Err(ChainError::MissingParent));
    // wrong bits
    let bad = BlockHeaderOwned::construct(1, a2.hash, [3; 32], a2.timestamp + 600, 0x1c00ffff, 3, 0);
    assert_eq!(
        c.validate_and_apply_header_inner(bad, false),
        Err(ChainError::InvalidDifficultyTransition { expected: 0x1d00ffff, got: 0x1c00ffff })
    );
    // a competing branch: less work first, then as much work as the tip,
    // which does not take over; then more work, which does
    let b1 = child(&g, 21);
    let b2 = child(&b1, 22);
    let b3 = child(&b2, 23);
    assert_eq!(c.validate_and_apply_header_inner(b1, false), Ok(None));
    assert_eq!(c.top_header.header.hash, a2.hash);
    assert_eq!(c.validate_and_apply_header_inner(b2, false), Ok(None));
    assert_eq!(c.top_header.header.hash, a2.hash);
    assert_eq!(c.validate_and_apply_header_inner(b3, false), Ok(Some(vec![b1.hash, b2.hash, b3.hash])));
    assert_eq!(c.top_header.header.hash, b3.hash);
    assert_eq!(c.top_header.number, 3);
    assert_eq!(c.known_headers.len(), 6);
}

fn borrowed(h: &BlockHeaderOwned) -> BlockHeaderBorrowed {
    let mut b = BlockHeaderBorrowed::default();
    b.version = h.version;
    b.parent = h.parent;
    b.merkle_root = h.merkle_root;
    b.timestamp = h.timestamp;
    b.bits = h.bits;
    b.nonce = h.nonce;
    b.txs_count = h.txs_count;
    b.hash = h.hash;
    b
}

#[test]
fn a_header_list_stops_at_the_first_error() {
    let mut c = Chain::default();
    let g = genesis_header();
    let a1 = child(&g, 1);
    let a2 = child(&a1, 2);
    let orphan = child(&child(&g, 9), 10);
    let a3 = child(&a2, 3);
    let list = vec![borrowed(&a1), borrowed(&a2), borrowed(&orphan), borrowed(&a3)];
    assert_eq!(c.validate_and_apply_headers(&list), Err(ChainError::MissingParent));
    assert_eq!(c.known_headers.len(), 3);
    assert_eq!(c.top_header.header.hash, a2.hash);
    assert!(get_header_by_hash(&c, a3.hash).is_none());
    let rest = vec![borrowed(&a2), borrowed(&a3)];
    assert_eq!(c.validate_and_apply_headers(&rest), Ok(()));
    assert_eq!(c.top_header.header.hash, a3.hash);
    assert_eq!(c.known_headers.len(), 4);
}

#[test]
fn headersync_only_moves_the_tip() {
    let mut c = Chain::default();
    let g = genesis_header();
    let a1 = child(&g, 1);
    assert_eq!(c.validate_and_apply_header_inner(a1, true), Ok(None));
    assert_eq!(c.top_header.header.hash, a1.hash);
}

fn long_chain(n: usize) -> (Chain, Vec<BlockHeaderOwned>) {
    let mut c = Chain::default();
    let mut headers = vec![genesis_header()];
    for i in 0..n {
        let h = child(headers.last().unwrap(), (i + 1) as u8);
        c.validate_and_apply_header_inner(h, true).unwrap();
        headers.push(h);
    }
    (c, headers)
}

#[test]
fn ancestors_and_locator() {
    let (c, hs) = long_chain(15);
    assert_eq!(c.top_header.number, 15);
    let top = c.top_header;
    assert_eq!(c.get_ancestor(&top, 4).unwrap().header.hash, hs[4].hash);
    assert_eq!(c.get_ancestor(&top, 20).unwrap().header.hash, hs[15].hash);
    // a header not known itself, whose parent is
    let extra = BlockHeaderWithNumber { header: child(&hs[15], 99), number: 16, fetched_full: false, total_work: [0u8; 32] };
    assert_eq!(c.get_ancestor(&extra, 4).unwrap().header.hash, hs[4].hash);
    assert_eq!(c.get_ancestor(&extra, 16).unwrap().header.hash, extra.header.hash);
    let stray = BlockHeaderWithNumber { header: child(&child(&hs[0], 50), 51), number: 3, fetched_full: false, total_work: [0u8; 32] };
    assert!(c.get_ancestor(&stray, 1).is_none());
    match c.build_get_headers() {
        PayloadToSend::GetHeaders(g) => {
            let heights = [15, 14, 13, 12, 11, 10, 9, 8, 7, 6, 4, 0];
            assert_eq!(g.block_locator.len(), heights.len());
            for (h, k) in g.block_locator.iter().zip(heights) {
                assert_eq!(*h, hs[k].hash);
            }
            assert_eq!(g.version, 70016);
            assert_eq!(g.hash_stop, [0u8; 32]);
        }
        _ => panic!("getheaders expected"),
    }
}

#[test]
fn downloads_are_counted_from_the_tip_down() {
    let (mut c, hs) = long_chain(5);
    assert_eq!(c.get_block_hashes_to_download(0).unwrap(), (hs.iter().map(|h| h.hash).collect::<Vec<_>>(), 0));
    assert_eq!(c.get_block_hashes_to_download(6), None);
    let n = c.mark_as_downloaded(&[hs[0].hash, hs[1].hash, hs[2].hash]);
    assert_eq!(n, 3);
    assert_eq!(c.calculate_downloaded_blocks(), 3);
    assert_eq!(c.get_top_downloaded_block_hash(), Some(hs[2].hash));
    assert_eq!(c.get_block_hashes_to_download(3).unwrap(), (vec![hs[3].hash, hs[4].hash, hs[5].hash], 3));
    let n = c.mark_as_downloaded(&[hs[3].hash, hs[4].hash, hs[5].hash]);
    assert_eq!(n, 6);
    assert!(c.top_header.fetched_full);
}

#[test]
fn need_ihd_after_a_day() {
    let c = Chain::default();
    let t = c.top_header.header.timestamp as u64;
    assert!(!need_ihd(&c, t + 24 * 3600));
    assert!(need_ihd(&c, t + 24 * 3600 + 1));
    assert!(!need_ihd(&c, 0));
}

#[test]
fn most_work_chain_updates() {
    let mut c = Chain::default();
    let g = genesis_header().hash;
    c.update_most_work_chain(&HeaderApplicationResult { removed_blocks: vec![g], added_blocks: vec![[1u8; 32], [2u8; 32], [1u8; 32]] });
    let mut set = c.most_work_chain.clone();
    set.sort();
    set.dedup();
    assert_eq!(set, vec![[1u8; 32], [2u8; 32]]);
}

#[test]
fn load_header_places_stored_headers() {
    let mut c = Chain::default();
    let g = genesis_header();
    let a1 = child(&g, 1);
    let a2 = child(&a1, 2);
    assert!(c.load_header(g, 0, true));
    assert!(c.top_header.fetched_full);
    assert!(c.load_header(a1, 1, true));
    assert!(!c.load_header(child(&a2, 3), 3, false));
    assert!(!c.load_header(a2, 5, false));
    assert!(c.load_header(a2, 2, false));
    assert_eq!(c.top_header.header.hash, a2.hash);
    assert_eq!(c.calculate_downloaded_blocks(), 2);
}

#[test]
fn retarget_vectors() {
    assert_eq!(calculate_next_work_required(1262152739, 1261130161, 0x1d00ffff), 0x1d00d86a);
    assert_eq!(calculate_next_work_required(1233061996, 1231006505, 0x1d00ffff), 0x1d00ffff);
    assert_eq!(calculate_next_work_required(1279297671, 1279008237, 0x1c05a3f4), 0x1c0168fd);
    assert_eq!(calculate_next_work_required(1269211443, 1263163443, 0x1c387f6f), 0x1d00e1fd);
}

#[test]
fn compact_encoding() {
    let mut t = [0u8; 32];
    assert_eq!(compact_from_u256(&t), 0);
    t[0] = 0x12;
    assert_eq!(compact_from_u256(&t), 0x01120000);
    t[0] = 0x80;
    assert_eq!(compact_from_u256(&t), 0x02008000);
    let mut t = [0u8; 32];
    t[26] = 0xff;
    t[27] = 0xff;
    assert_eq!(compact_from_u256(&t), 0x1d00ffff);
}

#[test]
fn next_job_prefers_stale_then_new_blocks() {
    let missing = vec![[1u8; 32], [2u8; 32], [3u8; 32]];
    let mut times = vec![0u64; 3];
    let mut nnaf = 0usize;
    assert_eq!(find_next_best_job(0, &mut nnaf, &mut times, &missing, 100, true, 5000), Some(([1u8; 32], 100)));
    assert_eq!((nnaf, times.clone()), (1, vec![5000, 0, 0]));
    assert_eq!(find_next_best_job(0, &mut nnaf, &mut times, &missing, 100, true, 5500), Some(([2u8; 32], 101)));
    // block 100 has waited more than two seconds: asked again
    assert_eq!(find_next_best_job(0, &mut nnaf, &mut times, &missing, 100, true, 7001), Some(([1u8; 32], 100)));
    assert_eq!(times[0], 7001);
    // may not advance: the block waited for longest
    assert_eq!(find_next_best_job(0, &mut nnaf, &mut times, &missing, 100, false, 7100), Some(([2u8; 32], 101)));
    assert_eq!(nnaf, 2);
    // everything asked for: the next block to apply
    let mut nnaf = 3usize;
    let mut times = vec![9000u64, 9000, 9000];
    assert_eq!(find_next_best_job(1, &mut nnaf, &mut times, &missing, 100, true, 9001), Some(([2u8; 32], 101)));
    assert_eq!(find_next_best_job(3, &mut nnaf, &mut times, &missing, 100, true, 9001), None);
}

#[test]
fn a_request_is_not_stale_at_exactly_two_seconds() {
    let missing = vec![[1u8; 32], [2u8; 32]];
    let mut times = vec![5000u64, 0];
    let mut nnaf = 1usize;
    assert_eq!(find_next_best_job(0, &mut nnaf, &mut times, &missing, 100, true, 7000), Some(([2u8; 32], 101)));
    assert_eq!((nnaf, times.clone()), (2, vec![5000, 7000]));
    assert_eq!(find_next_best_job(0, &mut nnaf, &mut times, &missing, 100, true, 7001), Some(([1u8; 32], 100)));
}

#[test]
fn a_block_not_yet_asked_for_is_kept() {
    let mut s: MasterState<&str> = MasterState::new(vec![[1u8; 32], [2u8; 32], [3u8; 32]], 10);
    assert!(s.receive_block("c", 12).is_empty());
    assert_eq!(s.backlog, vec![("c", 12)]);
    assert_eq!(s.receive_block("a", 10), vec![("a", 10)]);
    assert_eq!(s.receive_block("b", 11), vec![("b", 11), ("c", 12)]);
    assert_eq!((s.next_to_apply, s.next_never_asked_for), (3, 0));
    assert!(s.backlog.is_empty());
}

#[test]
fn received_blocks_are_applied_in_order() {
    let mut s: MasterState<&str> = MasterState::new(vec![[1u8; 32], [2u8; 32], [3u8; 32], [4u8; 32]], 10);
    s.next_never_asked_for = 4;
    assert!(s.receive_block("c", 12).is_empty());
    assert!(s.receive_block("d", 13).is_empty());
    assert!(s.receive_block("d", 13).is_empty());
    assert_eq!(s.backlog, vec![("d", 13), ("c", 12)]);
    assert_eq!(s.receive_block("a", 10), vec![("a", 10)]);
    assert!(s.receive_block("a", 10).is_empty());
    assert_eq!(s.receive_block("b", 11), vec![("b", 11), ("c", 12), ("d", 13)]);
    assert_eq!(s.next_to_apply, 4);
    assert!(s.backlog.is_empty());
    assert!(s.can_advance());
}

#[test]
fn getdata_for_a_job() {
    match job_to_getdata([5u8; 32]) {
        PayloadToSend::GetData(g) => {
            assert_eq!(g.inner.len(), 1);
            assert_eq!(g.inner[0].inv_type, InventoryVectorType::WitnessBlock);
            assert_eq!(g.inner[0].hash, [5u8; 32]);
        }
        _ => panic!("getdata expected"),
    }
}

#[test]
fn block_jobs_after_a_new_tip() {
    let one = plan_block_jobs(100, &vec![[1u8; 32]]);
    assert_eq!(one, vec![(100, [1u8; 32], FrontPageDataUpdateStrategy::Append)]);
    let fork = plan_block_jobs(100, &vec![[1u8; 32], [2u8; 32], [3u8; 32]]);
    assert_eq!(fork, vec![
        (98, [1u8; 32], FrontPageDataUpdateStrategy::RegenerateFromScratch),
        (99, [2u8; 32], FrontPageDataUpdateStrategy::Append),
        (100, [3u8; 32], FrontPageDataUpdateStrategy::Append),
    ]);
    let mut queue = fork.clone();
    assert_eq!(take_job_for_block(&mut queue, &[2u8; 32]), None);
    assert_eq!(take_job_for_block(&mut queue, &[1u8; 32]), Some((98, FrontPageDataUpdateStrategy::RegenerateFromScratch)));
    assert_eq!(queue.len(), 2);
}

#[test]
fn statistics_cover_fifteen_days() {
    let mut c = Chain::default();
    let g = genesis_header();
    // one header per day
    let mut hs = vec![g];
    for i in 0..20u32 {
        let p = *hs.last().unwrap();
        let h = BlockHeaderOwned::construct(1, p.hash, [i as u8; 32], p.timestamp + 86400, 0x1d00ffff, i, 0);
        c.validate_and_apply_header_inner(h, true).unwrap();
        hs.push(h);
    }
    let (hashes, stamps, now) = c.relevant_blocks(&hs[20].hash);
    let (window, days) = c.stats_days(&hs[20].hash);
    assert_eq!(window, hashes);
    assert_eq!(days, bitlens::chainman::chain::day_groups(&stamps, now));
    assert!(!days.is_empty());
    assert_eq!(now, hs[20].timestamp);
    assert_eq!(hashes.len(), 16);
    assert_eq!(hashes[0], hs[20].hash);
    assert_eq!(hashes[15], hs[5].hash);
    assert_eq!(stamps[15], hs[5].timestamp);
    let groups = bitlens::chainman::chain::day_groups(&[200_000, 180_000, 100_000, 90_000], 200_000);
    // the day of 200000 starts at 172800: 100000 is older, closing [0, 2)
    assert_eq!(groups, vec![(172_800, 0, 2)]);
    // thirty blocks a thousand seconds apart, early in the epoch
    let stamps: Vec<u32> = (0..30).map(|k| 2_000_000 - 1000 * k).collect();
    assert_eq!(bitlens::chainman::chain::day_groups(&stamps, 2_000_000), vec![(1_987_200, 0, 13)]);
    // on the first day nothing is older than the cutoff
    assert_eq!(bitlens::chainman::chain::day_groups(&[50, 0], 100), vec![]);
}

#[test]
fn dependencies_of_a_block() {
    let coinbase = TxOwned {
        version: 1,
        locktime: 0,
        txins: vec![TxInOwned { prevout_hash: [0u8; 32], prevout_index: 0xffffffff, sequence: 0, sig_script: vec![1] }],
        txouts: vec![TxOutOwned { value: 50, script: vec![] }],
        witness_data: None,
        hash: [1u8; 32],
    };
    let spender = TxOwned {
        version: 1,
        locktime: 0,
        txins: vec![
            TxInOwned { prevout_hash: [1u8; 32], prevout_index: 0, sequence: 0, sig_script: vec![] },
            TxInOwned { prevout_hash: [9u8; 32], prevout_index: 3, sequence: 0, sig_script: vec![] },
        ],
        txouts: vec![],
        witness_data: None,
        hash: [2u8; 32],
    };
    let block = BlockOwned { header: genesis_header(), txs: vec![coinbase, spender] };
    let deps = plan_dependencies(&block);
    assert_eq!(deps.len(), 2);
    assert!(matches!(deps[0], Dependency::InBlock { tx: 0, output: 0 }));
    assert!(matches!(deps[1], Dependency::FromStore { hash, index: 3 } if hash == [9u8; 32]));
}

#[test]
fn worker_results_and_jobs() {
    let mut s: MasterState<u8> = MasterState::new(vec![[1u8; 32], [2u8; 32], [3u8; 32]], 5);
    assert_eq!(s.pull_first_job(1000), Some(([1u8; 32], 5)));
    assert_eq!(s.pull_first_job(1000), Some(([2u8; 32], 6)));
    let (flushed, job) = s.handle_result(1, 5, 1100);
    assert_eq!(flushed, vec![(1, 5)]);
    assert_eq!(job, Some(([3u8; 32], 7)));
    assert!(s.has_request_waiting());
}

#[test]
fn dependencies_come_from_current_previous_then_disk() {
    let current = vec![([1u8; 32], 2usize), ([2u8; 32], 1)];
    let previous = vec![([2u8; 32], 5usize), ([3u8; 32], 3)];
    let txins = vec![
        vec![([0u8; 32], 0xffffffffu32)],
        vec![([1u8; 32], 1u32), ([2u8; 32], 0), ([3u8; 32], 2), ([9u8; 32], 7), ([8u8; 32], 0)],
        vec![([9u8; 32], 1u32)],
    ];
    let (deps, used) = assemble_dependencies(&txins, &current, &previous, 3);
    assert_eq!(used, 3);
    assert_eq!(deps[0], vec![]);
    assert_eq!(deps[1], vec![
        DepRef::Current { tx: 0, output: 1 },
        DepRef::Current { tx: 1, output: 0 },
        DepRef::Previous { tx: 1, output: 2 },
        DepRef::Disk { index: 0 },
        DepRef::Disk { index: 1 },
    ]);
    assert_eq!(deps[2], vec![DepRef::Disk { index: 2 }]);
}

#[test]
fn block_totals_add_fees_and_volume() {
    assert_eq!(block_totals(&vec![]), (0, 0, 0));
    assert_eq!(block_totals(&vec![(0, 5_000_000_000), (1_000, 20_000), (250, 7)]), (1_250, 5_000_020_007, 3));
}

#[test]
fn search_by_number_and_hash() {
    let (c, hs) = long_chain(5);
    assert_eq!(bitlens::chainman::chain::get_hash_by_number(&c, 3), Some(hs[3].hash));
    assert_eq!(bitlens::chainman::chain::get_hash_by_number(&c, 6), None);
    match search_in_chain(&c, "3".to_string()) {
        SearchLookup::Block(h) => assert_eq!(h, hs[3].hash),
        _ => panic!("block expected"),
    }
    assert!(matches!(search_in_chain(&c, "9".to_string()), SearchLookup::Nothing));
    let shown = |h: [u8; 32]| {
        let mut r = h;
        r.reverse();
        hex::encode(r)
    };
    match search_in_chain(&c, shown(hs[2].hash)) {
        SearchLookup::Block(h) => assert_eq!(h, hs[2].hash),
        _ => panic!("block expected"),
    }
    match search_in_chain(&c, shown([7u8; 32])) {
        SearchLookup::Transaction(h) => assert_eq!(h, [7u8; 32]),
        _ => panic!("transaction lookup expected"),
    }
    assert!(matches!(search_in_chain(&c, "hello".to_string()), SearchLookup::Nothing));
    let r = search_response(SearchLookup::Transaction([7u8; 32]), false, true);
    assert_eq!((r.address, r.block_hash, r.tx_hash), (None, None, Some([7u8; 32])));
    let r = search_response(SearchLookup::Transaction([7u8; 32]), false, false);
    assert_eq!((r.address, r.block_hash, r.tx_hash), (None, None, None));
    let r = search_response(SearchLookup::Block([1u8; 32]), false, false);
    assert_eq!(r.block_hash, Some([1u8; 32]));
}
