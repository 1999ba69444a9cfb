//! Extending the pools statistics with new blocks agrees with computing
//! them again from the whole chain.
use vstd::prelude::*;
use super::{
    Miners, MinerRules, ChainBlock, RecentBlock, MINER_PERCENTAGE_OVER_LAST_SECONDS, spec_recent, spec_recent_count,
    spec_blocks_of, spec_stats_of, spec_chain_extended, spec_recent_after, spec_slot_id, spec_slot, spec_stale_prefix,
    spec_popped_in_slot, spec_count_ids, spec_id_slot, lemma_first_match_range,
};

verus! {

broadcast use vstd::seq_lib::group_seq_properties;

/// The timestamps of `blocks` never go down.
pub open spec fn spec_timestamps_sorted(blocks: Seq<ChainBlock>) -> bool {
    forall|i: int, j: int| 0 <= i <= j < blocks.len() ==> blocks[i].timestamp <= blocks[j].timestamp
}

/// No two pool slots share an id: the configured ids differ from each
/// other and from the unknown pool's.
pub open spec fn spec_slot_ids_distinct(rules: Seq<MinerRules>) -> bool {
    forall|j: int, k: int| 0 <= j <= rules.len() && 0 <= k <= rules.len() && j != k
        ==> spec_slot_id(rules, j) != spec_slot_id(rules, k)
}

/// How many entries of `r` are in slot `k`.
pub open spec fn spec_slot_count(r: Seq<(Seq<u8>, u64, int, u64, Seq<u8>)>, k: int) -> nat
    decreases r.len(),
{
    if r.len() == 0 {
        0
    } else {
        spec_slot_count(r.drop_last(), k) + if r.last().2 == k { 1nat } else { 0 }
    }
}

proof fn lemma_concat(rules: Seq<MinerRules>, b: Seq<ChainBlock>, m: Seq<ChainBlock>, after: u64)
    ensures
        spec_recent(rules, b + m, after) == spec_recent(rules, b, after) + spec_recent(rules, m, after),
        forall|k: int| #[trigger] spec_recent_count(rules, b + m, after, k)
            == spec_recent_count(rules, b, after, k) + spec_recent_count(rules, m, after, k),
        forall|k: int| #[trigger] spec_blocks_of(rules, b + m, k) == spec_blocks_of(rules, b, k) + spec_blocks_of(rules, m, k),
    decreases m.len(),
{
    if m.len() == 0 {
        assert(b + m =~= b);
        assert(spec_recent(rules, b, after) + spec_recent(rules, m, after) =~= spec_recent(rules, b, after));
        assert forall|k: int| #[trigger] spec_blocks_of(rules, b + m, k) == spec_blocks_of(rules, b, k) + spec_blocks_of(rules, m, k) by {
            assert(spec_blocks_of(rules, b, k) + spec_blocks_of(rules, m, k) =~= spec_blocks_of(rules, b, k));
        }
    } else {
        lemma_concat(rules, b, m.drop_last(), after);
        assert((b + m).drop_last() =~= b + m.drop_last());
        assert((b + m).last() == m.last());
        let x = m.last();
        if x.timestamp >= after {
            assert(spec_recent(rules, b + m, after) =~= spec_recent(rules, b, after) + spec_recent(rules, m, after));
        } else {
            assert(spec_recent(rules, b + m, after) =~= spec_recent(rules, b, after) + spec_recent(rules, m, after));
        }
        assert forall|k: int| #[trigger] spec_blocks_of(rules, b + m, k) == spec_blocks_of(rules, b, k) + spec_blocks_of(rules, m, k) by {
            assert(spec_blocks_of(rules, b + m.drop_last(), k) == spec_blocks_of(rules, b, k) + spec_blocks_of(rules, m.drop_last(), k));
            if spec_slot(rules, x.coinbase@) == k {
                assert(spec_blocks_of(rules, b + m, k) =~= spec_blocks_of(rules, b, k) + spec_blocks_of(rules, m, k));
            } else {
                assert(spec_blocks_of(rules, b + m, k) =~= spec_blocks_of(rules, b, k) + spec_blocks_of(rules, m, k));
            }
        }
        assert forall|k: int| #[trigger] spec_recent_count(rules, b + m, after, k)
            == spec_recent_count(rules, b, after, k) + spec_recent_count(rules, m, after, k) by {
            assert(spec_recent_count(rules, b + m.drop_last(), after, k)
                == spec_recent_count(rules, b, after, k) + spec_recent_count(rules, m.drop_last(), after, k));
        }
    }
}

/// A pool's count of recent blocks is the number of recent entries in its slot.
proof fn lemma_count_is_slot_count(rules: Seq<MinerRules>, b: Seq<ChainBlock>, after: u64, k: int)
    ensures
        spec_recent_count(rules, b, after, k) == spec_slot_count(spec_recent(rules, b, after), k),
    decreases b.len(),
{
    if b.len() > 0 {
        lemma_count_is_slot_count(rules, b.drop_last(), after, k);
        let r = spec_recent(rules, b.drop_last(), after);
        if b.last().timestamp >= after {
            let x = (b.last().hash@, b.last().number, spec_slot(rules, b.last().coinbase@), b.last().timestamp, b.last().coinbase@);
            assert(r.push(x).drop_last() =~= r);
        }
    }
}

proof fn lemma_slot_count_concat(r1: Seq<(Seq<u8>, u64, int, u64, Seq<u8>)>, r2: Seq<(Seq<u8>, u64, int, u64, Seq<u8>)>, k: int)
    ensures
        spec_slot_count(r1 + r2, k) == spec_slot_count(r1, k) + spec_slot_count(r2, k),
    decreases r2.len(),
{
    if r2.len() == 0 {
        assert(r1 + r2 =~= r1);
    } else {
        lemma_slot_count_concat(r1, r2.drop_last(), k);
        assert((r1 + r2).drop_last() =~= r1 + r2.drop_last());
    }
}

/// Every recent entry is at or after `after`, no later than `top` when no
/// block is, and in a slot of the configuration.
proof fn lemma_entries_bounded(rules: Seq<MinerRules>, b: Seq<ChainBlock>, after: u64, top: u64)
    requires
        forall|j: int| 0 <= j < b.len() ==> (#[trigger] b[j]).timestamp <= top,
    ensures
        forall|i: int| 0 <= i < spec_recent(rules, b, after).len() ==> {
            let e = #[trigger] spec_recent(rules, b, after)[i];
            after <= e.3 <= top && 0 <= e.2 <= rules.len()
        },
    decreases b.len(),
{
    if b.len() > 0 {
        assert forall|j: int| 0 <= j < b.drop_last().len() implies (#[trigger] b.drop_last()[j]).timestamp <= top by {
            assert(b.drop_last()[j] == b[j]);
        }
        lemma_entries_bounded(rules, b.drop_last(), after, top);
        lemma_first_match_range(rules, b.last().coinbase@);
        assert(b.last() == b[b.len() - 1]);
        let rest = spec_recent(rules, b.drop_last(), after);
        let r = spec_recent(rules, b, after);
        assert forall|i: int| 0 <= i < r.len() implies {
            let e = #[trigger] r[i];
            after <= e.3 <= top && 0 <= e.2 <= rules.len()
        } by {
            if i < rest.len() {
                assert(r[i] == rest[i]);
            }
        }
    }
}

/// Raising the cutoff from `a1` to `a2` over blocks in time order drops a
/// prefix of the recent entries, all of them before `a2`.
proof fn lemma_raise_cutoff(rules: Seq<MinerRules>, b: Seq<ChainBlock>, a1: u64, a2: u64)
    requires
        spec_timestamps_sorted(b),
        b.len() == 0 || a1 <= a2,
    ensures
        ({
            let r1 = spec_recent(rules, b, a1);
            let r2 = spec_recent(rules, b, a2);
            let q = r1.len() - r2.len();
            &&& 0 <= q <= r1.len()
            &&& r1.skip(q) == r2
            &&& forall|i: int| 0 <= i < q ==> (#[trigger] r1[i]).3 < a2
        }),
    decreases b.len(),
{
    if b.len() > 0 {
        let bp = b.drop_last();
        let x = b.last();
        assert(spec_timestamps_sorted(bp)) by {
            assert forall|i: int, j: int| 0 <= i <= j < bp.len() implies bp[i].timestamp <= bp[j].timestamp by {
                assert(bp[i] == b[i] && bp[j] == b[j]);
            }
        }
        lemma_raise_cutoff(rules, bp, a1, a2);
        let r1p = spec_recent(rules, bp, a1);
        let r2p = spec_recent(rules, bp, a2);
        let e = (x.hash@, x.number, spec_slot(rules, x.coinbase@), x.timestamp, x.coinbase@);
        if x.timestamp >= a2 {
            let qp = r1p.len() - r2p.len();
            assert(r1p.push(e).skip(qp) =~= r1p.skip(qp).push(e));
        } else if x.timestamp >= a1 {
            assert forall|j: int| 0 <= j < bp.len() implies (#[trigger] bp[j]).timestamp <= x.timestamp by {
                assert(bp[j] == b[j]);
                assert(x == b[b.len() - 1]);
            }
            lemma_entries_bounded(rules, bp, a2, x.timestamp);
            lemma_entries_bounded(rules, bp, a1, x.timestamp);
            if r2p.len() > 0 {
                assert(a2 <= r2p[0].3 <= x.timestamp);
            }
            assert(r2p.len() == 0);
            let r1 = r1p.push(e);
            assert(r1.skip(r1.len() as int) =~= Seq::<(Seq<u8>, u64, int, u64, Seq<u8>)>::empty());
            assert forall|i: int| 0 <= i < r1.len() implies (#[trigger] r1[i]).3 < a2 by {
                if i < r1p.len() {
                    assert(r1[i] == r1p[i]);
                }
            }
        }
    }
}

/// The stale prefix of a list whose first `q` entries are before `a`, and
/// whose next one is not, is `q` long.
proof fn lemma_stale_prefix_len(s: Seq<RecentBlock>, a: u64, q: int)
    requires
        0 <= q <= s.len(),
        forall|i: int| 0 <= i < q ==> (#[trigger] s[i]).timestamp < a,
        q < s.len() ==> s[q].timestamp >= a,
    ensures
        spec_stale_prefix(s, a) == q,
    decreases q,
{
    if q > 0 {
        assert(s[0].timestamp < a);
        assert forall|i: int| 0 <= i < q - 1 implies (#[trigger] s.drop_first()[i]).timestamp < a by {
            assert(s.drop_first()[i] == s[i + 1]);
        }
        if q - 1 < s.drop_first().len() {
            assert(s.drop_first()[q - 1] == s[q]);
        }
        lemma_stale_prefix_len(s.drop_first(), a, q - 1);
    }
}

/// A slot id is found at its own slot when no two slots share an id.
proof fn lemma_id_found(ids: Seq<Seq<char>>, s: int)
    requires
        0 <= s < ids.len(),
        forall|j: int, k: int| 0 <= j < ids.len() && 0 <= k < ids.len() && j != k ==> ids[j] != ids[k],
    ensures
        spec_id_slot(ids, ids[s]) == Some(s),
    decreases ids.len(),
{
    let d = ids.drop_last();
    if s < ids.len() - 1 {
        assert(d[s] == ids[s]);
        assert forall|j: int, k: int| 0 <= j < d.len() && 0 <= k < d.len() && j != k implies d[j] != d[k] by {
            assert(d[j] == ids[j] && d[k] == ids[k]);
        }
        lemma_id_found(d, s);
    } else {
        lemma_id_absent(d, ids[s]);
    }
}

/// An id in none of the slots is found in none.
proof fn lemma_id_absent(ids: Seq<Seq<char>>, id: Seq<char>)
    requires
        forall|j: int| 0 <= j < ids.len() ==> ids[j] != id,
    ensures
        spec_id_slot(ids, id) is None,
    decreases ids.len(),
{
    if ids.len() > 0 {
        assert forall|j: int| 0 <= j < ids.drop_last().len() implies ids.drop_last()[j] != id by {
            assert(ids.drop_last()[j] == ids[j]);
        }
        lemma_id_absent(ids.drop_last(), id);
    }
}

/// Popping the first `p` recent blocks takes from each slot its entries among them.
proof fn lemma_popped(ids: Seq<Seq<char>>, rules: Seq<MinerRules>, old_recent: Seq<RecentBlock>,
    r1: Seq<(Seq<u8>, u64, int, u64, Seq<u8>)>, p: int, k: int)
    requires
        ids.len() == rules.len() + 1,
        forall|j: int| 0 <= j < ids.len() ==> #[trigger] ids[j] == spec_slot_id(rules, j),
        spec_slot_ids_distinct(rules),
        old_recent.len() == r1.len(),
        0 <= p <= r1.len(),
        forall|i: int| 0 <= i < r1.len() ==> 0 <= (#[trigger] r1[i]).2 <= rules.len()
            && old_recent[i].miner_id@ == spec_slot_id(rules, r1[i].2),
    ensures
        spec_popped_in_slot(ids, old_recent.take(p), k) == spec_slot_count(r1.take(p), k),
    decreases p,
{
    if p > 0 {
        lemma_popped(ids, rules, old_recent, r1, p - 1, k);
        assert(old_recent.take(p).drop_last() =~= old_recent.take(p - 1));
        assert(r1.take(p).drop_last() =~= r1.take(p - 1));
        assert(old_recent.take(p).last() == old_recent[p - 1]);
        assert(r1.take(p).last() == r1[p - 1]);
        let s = r1[p - 1].2;
        assert forall|j: int, l: int| 0 <= j < ids.len() && 0 <= l < ids.len() && j != l implies ids[j] != ids[l] by {
            assert(ids[j] == spec_slot_id(rules, j) && ids[l] == spec_slot_id(rules, l));
        }
        assert(ids[s] == spec_slot_id(rules, s));
        lemma_id_found(ids, s);
    }
}

/// Extending the statistics of `blocks` with the blocks `more` gives the
/// statistics of `blocks` followed by `more`, as computing them again
/// would: the same attributions, per-pool lists, recent blocks and counts.
/// This holds when the blocks' timestamps never go down and no two pool
/// slots share an id.
pub proof fn law_extension_matches_recalculation(
    old: Miners,
    new: Miners,
    rules: Seq<MinerRules>,
    blocks: Seq<ChainBlock>,
    more: Seq<ChainBlock>,
    now: u64,
)
    requires
        old.rules_regexes@ == rules,
        blocks.len() > 0 ==> blocks.last().timestamp >= MINER_PERCENTAGE_OVER_LAST_SECONDS,
        spec_stats_of(old, rules, blocks, now),
        more.len() > 0,
        more.last().timestamp >= MINER_PERCENTAGE_OVER_LAST_SECONDS,
        spec_chain_extended(old, new, more),
        spec_timestamps_sorted(blocks + more),
        spec_slot_ids_distinct(rules),
    ensures
        new.rules_regexes@ == rules,
        spec_stats_of(new, rules, blocks + more, now),
{
    let all = blocks + more;
    let a1 = spec_recent_after(blocks, now);
    let a2 = spec_recent_after(more, 0);
    assert(all.last() == more.last());
    assert(spec_recent_after(all, now) == a2);
    assert(spec_timestamps_sorted(blocks)) by {
        assert forall|i: int, j: int| 0 <= i <= j < blocks.len() implies blocks[i].timestamp <= blocks[j].timestamp by {
            assert(all[i] == blocks[i] && all[j] == blocks[j]);
        }
    }
    if blocks.len() > 0 {
        assert(all[blocks.len() - 1] == blocks.last());
        assert(all[all.len() - 1] == more.last());
    }
    lemma_concat(rules, blocks, more, a2);
    lemma_raise_cutoff(rules, blocks, a1, a2);
    let r1 = spec_recent(rules, blocks, a1);
    let r2 = spec_recent(rules, blocks, a2);
    let added = spec_recent(rules, more, a2);
    let q = r1.len() - r2.len();
    let old_recent = old.recent_blocks@;
    // the stale prefix is the entries dropped by the later cutoff
    lemma_entries_bounded(rules, blocks, a2, u64::MAX);
    lemma_entries_bounded(rules, blocks, a1, u64::MAX);
    if q < r1.len() {
        assert(r1[q] == r2[0]);
    }
    lemma_stale_prefix_len(old_recent, a2, q);
    let p = spec_stale_prefix(old_recent, a2);
    assert(p == q);
    // recent blocks
    assert forall|i: int| 0 <= i < spec_recent(rules, all, a2).len() implies {
        let rb = #[trigger] new.recent_blocks@[i];
        let m = spec_recent(rules, all, a2)[i];
        &&& rb.hash@ == m.0
        &&& rb.number == m.1
        &&& rb.miner_id@ == spec_slot_id(rules, m.2)
        &&& rb.miner_name@ == super::spec_slot_name(rules, m.2)
        &&& rb.timestamp == m.3
        &&& rb.coinbase_ascii@ == super::spec_utf8_lossy(m.4)
    } by {
        if i < r2.len() {
            assert(new.recent_blocks@[i] == new.recent_blocks@.subrange(0, old_recent.len() - p)[i]);
            assert(old_recent.skip(p)[i] == old_recent[p + i]);
            assert(r1.skip(q)[i] == r1[q + i]);
            assert(spec_recent(rules, all, a2)[i] == r2[i]);
        } else {
            assert(spec_recent(rules, all, a2)[i] == added[i - r2.len()]);
            assert(new.recent_blocks@[old_recent.len() - p + (i - r2.len())] == new.recent_blocks@[i]);
        }
    }
    // attributions
    assert forall|i: int| 0 <= i < all.len() implies (#[trigger] new.block_miners@[i]).0 == all[i].hash
        && new.block_miners@[i].1@ == spec_slot_id(rules, spec_slot(rules, all[i].coinbase@)) by {
        if i < blocks.len() {
            assert(new.block_miners@[i] == new.block_miners@.subrange(0, old.block_miners@.len() as int)[i]);
            assert(all[i] == blocks[i]);
        } else {
            assert(all[i] == more[i - blocks.len()]);
            assert(new.block_miners@[old.block_miners@.len() + (i - blocks.len())] == new.block_miners@[i]);
        }
    }
    // per-pool lists
    assert forall|k: int| 0 <= k <= rules.len() implies (#[trigger] new.blocks_mined_by_miners@[k]).0@ == spec_slot_id(rules, k)
        && crate::util::merkle::spec_hashes_view(new.blocks_mined_by_miners@[k].1@) == spec_blocks_of(rules, all, k) by {
        assert(spec_blocks_of(rules, all, k) == spec_blocks_of(rules, blocks, k) + spec_blocks_of(rules, more, k));
    }
    // counts
    let ids = spec_count_ids(old.recent_blocks_mined_by_miners_counts@);
    assert forall|i: int| 0 <= i < r1.len() implies 0 <= (#[trigger] r1[i]).2 <= rules.len()
        && old_recent[i].miner_id@ == spec_slot_id(rules, r1[i].2) by {
    }
    assert forall|j: int| 0 <= j < ids.len() implies #[trigger] ids[j] == spec_slot_id(rules, j) by {
        assert(ids[j] == old.recent_blocks_mined_by_miners_counts@[j].0@);
    }
    assert forall|k: int| 0 <= k <= rules.len() implies (#[trigger] new.recent_blocks_mined_by_miners_counts@[k]).0@ == spec_slot_id(rules, k)
        && new.recent_blocks_mined_by_miners_counts@[k].1 == spec_recent_count(rules, all, a2, k) by {
        lemma_popped(ids, rules, old_recent, r1, p, k);
        lemma_count_is_slot_count(rules, blocks, a1, k);
        lemma_count_is_slot_count(rules, blocks, a2, k);
        assert(r1 =~= r1.take(q) + r1.skip(q));
        lemma_slot_count_concat(r1.take(q), r1.skip(q), k);
        assert(spec_recent_count(rules, all, a2, k) == spec_recent_count(rules, blocks, a2, k) + spec_recent_count(rules, more, a2, k));
    }
}

/// What the statistics say, as plain values: each block's pool, each
/// pool's blocks, each pool's count of recent blocks, and the recent blocks.
pub open spec fn spec_stats_view(m: Miners) -> (
    Seq<(Seq<u8>, Seq<char>)>,
    Seq<(Seq<char>, Seq<Seq<u8>>)>,
    Seq<(Seq<char>, u64)>,
    Seq<(Seq<u8>, u64, Seq<char>, Seq<char>, u64, Seq<char>)>,
) {
    (
        m.block_miners@.map_values(|e: ([u8; 32], String)| (e.0@, e.1@)),
        m.blocks_mined_by_miners@.map_values(|e: (String, Vec<[u8; 32]>)| (e.0@, crate::util::merkle::spec_hashes_view(e.1@))),
        m.recent_blocks_mined_by_miners_counts@.map_values(|e: (String, u64)| (e.0@, e.1)),
        m.recent_blocks@.map_values(|b: RecentBlock|
            (b.hash@, b.number, b.miner_id@, b.miner_name@, b.timestamp, b.coinbase_ascii@)),
    )
}

/// Statistics computed from the same rules and blocks are the same: so
/// recomputing them after a reorganisation, twice in a row, gives what
/// computing them once gave.
pub proof fn law_recalculation_is_determined(m1: Miners, m2: Miners, rules: Seq<MinerRules>, blocks: Seq<ChainBlock>, now: u64)
    requires
        spec_stats_of(m1, rules, blocks, now),
        spec_stats_of(m2, rules, blocks, now),
    ensures
        spec_stats_view(m1) == spec_stats_view(m2),
{
    let v1 = spec_stats_view(m1);
    let v2 = spec_stats_view(m2);
    assert(v1.0 =~= v2.0);
    assert forall|k: int| 0 <= k < v1.1.len() implies v1.1[k] == v2.1[k] by {
        assert(m1.blocks_mined_by_miners@[k].0@ == spec_slot_id(rules, k));
        assert(m2.blocks_mined_by_miners@[k].0@ == spec_slot_id(rules, k));
    }
    assert(v1.1 =~= v2.1);
    assert forall|k: int| 0 <= k < v1.2.len() implies v1.2[k] == v2.2[k] by {
        assert(m1.recent_blocks_mined_by_miners_counts@[k].0@ == spec_slot_id(rules, k));
        assert(m2.recent_blocks_mined_by_miners_counts@[k].0@ == spec_slot_id(rules, k));
    }
    assert(v1.2 =~= v2.2);
    assert(v1.3 =~= v2.3);
}

} // verus!
