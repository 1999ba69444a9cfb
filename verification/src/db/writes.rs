//! What a batch of analyzed blocks writes to the store: every record as a
//! key and a value, each table's records sorted by key as the store's
//! bulk loading wants them.
use vstd::prelude::*;
use super::rocksdb::{SerializedTx, spec_entry_of, spec_block_txs_bytes, serialize_block_tx_entries, amend_value, spec_amend_value};
use crate::packets::encode::put_slice;

verus! {

broadcast use vstd::seq_lib::group_seq_properties, vstd::seq_lib::group_to_multiset_ensures,
    vstd::multiset::group_multiset_axioms;

/// Byte strings in lexicographic order: by their first differing byte, a
/// proper prefix first.
pub open spec fn spec_bytes_lt(a: Seq<u8>, b: Seq<u8>) -> bool
    decreases a.len(),
{
    if a.len() == 0 {
        b.len() > 0
    } else if b.len() == 0 {
        false
    } else if a[0] != b[0] {
        a[0] < b[0]
    } else {
        spec_bytes_lt(a.drop_first(), b.drop_first())
    }
}

/// The order is strict and total.
pub proof fn lemma_bytes_lt_order(a: Seq<u8>, b: Seq<u8>, c: Seq<u8>)
    ensures
        !spec_bytes_lt(a, a),
        a != b ==> (spec_bytes_lt(a, b) || spec_bytes_lt(b, a)),
        spec_bytes_lt(a, b) ==> !spec_bytes_lt(b, a),
        spec_bytes_lt(a, b) && spec_bytes_lt(b, c) ==> spec_bytes_lt(a, c),
    decreases a.len(),
{
    if a.len() > 0 && b.len() > 0 && c.len() > 0 {
        lemma_bytes_lt_order(a.drop_first(), b.drop_first(), c.drop_first());
    } else if a.len() > 0 && b.len() > 0 {
        lemma_bytes_lt_order(a.drop_first(), b.drop_first(), b.drop_first());
    } else if a.len() > 0 {
        lemma_bytes_lt_order(a.drop_first(), a.drop_first(), a.drop_first());
    }
    if a.len() > 0 && b.len() > 0 && a != b && a[0] == b[0] {
        assert(a =~= seq![a[0]] + a.drop_first());
        assert(b =~= seq![b[0]] + b.drop_first());
    }
    if a.len() == 0 && b.len() == 0 {
        assert(a =~= b);
    }
}

/// Whether `a` comes before `b`.
pub fn bytes_lt(a: &[u8], b: &[u8]) -> (r: bool)
    ensures
        r == spec_bytes_lt(a@, b@),
{
    let mut i: usize = 0;
    while i < a.len() && i < b.len()
        invariant
            i <= a@.len() && i <= b@.len(),
            spec_bytes_lt(a@, b@) == spec_bytes_lt(a@.skip(i as int), b@.skip(i as int)),
        decreases a@.len() - i,
    {
        assert(a@.skip(i as int).drop_first() =~= a@.skip(i + 1));
        assert(b@.skip(i as int).drop_first() =~= b@.skip(i + 1));
        if a[i] != b[i] {
            return a[i] < b[i];
        }
        i = i + 1;
    }
    a.len() < b.len()
}

/// A record of the store: a key and a value.
pub type Record = (Vec<u8>, Vec<u8>);

/// The bytes of a list of records.
pub open spec fn spec_records_view(v: Seq<Record>) -> Seq<(Seq<u8>, Seq<u8>)> {
    v.map_values(|r: Record| (r.0@, r.1@))
}

/// Records sorted by key (records with equal keys in any order).
pub open spec fn spec_sorted_by_key(v: Seq<(Seq<u8>, Seq<u8>)>) -> bool {
    forall|i: int, j: int| 0 <= i < j < v.len() ==> !spec_bytes_lt(#[trigger] v[j].0, #[trigger] v[i].0)
}

/// Sorts records by key, keeping every record.
pub fn sort_records(records: Vec<Record>) -> (r: Vec<Record>)
    ensures
        spec_sorted_by_key(spec_records_view(r@)),
        spec_records_view(r@).to_multiset() == spec_records_view(records@).to_multiset(),
{
    let ghost input = spec_records_view(records@);
    let mut src = records;
    let mut out: Vec<Record> = Vec::new();
    let ghost taken: Seq<(Seq<u8>, Seq<u8>)> = Seq::empty();
    while src.len() > 0
        invariant
            spec_sorted_by_key(spec_records_view(out@)),
            input.to_multiset() == spec_records_view(out@).to_multiset().add(spec_records_view(src@).to_multiset()),
        decreases src@.len(),
    {
        let ghost src_before = spec_records_view(src@);
        let x = src.pop().unwrap();
        let ghost xv = (x.0@, x.1@);
        assert(src_before =~= spec_records_view(src@).push(xv));
        let mut p: usize = 0;
        while p < out.len() && !bytes_lt(x.0.as_slice(), out[p].0.as_slice())
            invariant
                p <= out@.len(),
                xv == (x.0@, x.1@),
                forall|k: int| 0 <= k < p ==> !spec_bytes_lt(xv.0, (#[trigger] spec_records_view(out@)[k]).0),
            decreases out@.len() - p,
        {
            assert(spec_records_view(out@)[p as int].0 == out@[p as int].0@);
            p = p + 1;
        }
        let ghost ov = spec_records_view(out@);
        out.insert(p, x);
        proof {
            let nv = spec_records_view(out@);
            assert(nv =~= ov.insert(p as int, xv));
            let sv = spec_records_view(src@);
            vstd::seq_lib::to_multiset_insert(ov, p as int, xv);
            vstd::seq_lib::to_multiset_build(sv, xv);
            assert(nv.to_multiset().add(sv.to_multiset()) =~= ov.to_multiset().add(src_before.to_multiset()));
            assert forall|i: int, j: int| 0 <= i < j < nv.len() implies !spec_bytes_lt(#[trigger] nv[j].0, #[trigger] nv[i].0) by {
                if j < p {
                    assert(nv[i] == ov[i] && nv[j] == ov[j]);
                } else if j == p {
                    assert(nv[i] == ov[i]);
                    lemma_bytes_lt_order(ov[i].0, xv.0, xv.0);
                } else if i < p {
                    assert(nv[i] == ov[i] && nv[j] == ov[j - 1]);
                } else if i == p {
                    assert(nv[j] == ov[j - 1]);
                    assert(p < ov.len());
                    assert(spec_bytes_lt(xv.0, ov[p as int].0));
                    lemma_bytes_lt_order(ov[j - 1].0, xv.0, ov[p as int].0);
                    lemma_bytes_lt_order(xv.0, ov[p as int].0, ov[j - 1].0);
                    lemma_bytes_lt_order(ov[j - 1].0, ov[p as int].0, xv.0);
                    if p < j - 1 {
                        assert(!spec_bytes_lt(ov[j - 1].0, ov[p as int].0));
                    }
                } else {
                    assert(nv[i] == ov[i - 1] && nv[j] == ov[j - 1]);
                }
            }
        }
    }
    assert(spec_records_view(src@) =~= Seq::<(Seq<u8>, Seq<u8>)>::empty());
    out
}

/// The list of each block's transactions, keyed by the block's hash.
pub open spec fn spec_block_records(blocks: Seq<[u8; 32]>, txs: Seq<Vec<SerializedTx>>) -> Seq<(Seq<u8>, Seq<u8>)> {
    Seq::new(blocks.len(), |i: int| (blocks[i]@, spec_block_txs_bytes(txs[i]@.map_values(|t: SerializedTx| spec_entry_of(t)))))
}

/// The records of each block's transaction list, sorted by block hash.
pub fn block_tx_records(blocks: &[[u8; 32]], txs: &Vec<Vec<SerializedTx>>) -> (r: Vec<Record>)
    requires
        blocks@.len() == txs@.len(),
    ensures
        spec_sorted_by_key(spec_records_view(r@)),
        spec_records_view(r@).to_multiset() == spec_block_records(blocks@, txs@).to_multiset(),
{
    let mut out: Vec<Record> = Vec::new();
    let mut i: usize = 0;
    while i < blocks.len()
        invariant
            i <= blocks@.len(),
            blocks@.len() == txs@.len(),
            spec_records_view(out@) == spec_block_records(blocks@, txs@).take(i as int),
        decreases blocks@.len() - i,
    {
        let mut key: Vec<u8> = Vec::new();
        put_slice(&mut key, blocks[i].as_slice());
        let value = serialize_block_tx_entries(txs[i].as_slice());
        assert(key@ == blocks@[i as int]@);
        assert(value@ == spec_block_records(blocks@, txs@)[i as int].1);
        let ghost prev = spec_records_view(out@);
        let ghost kv = (key@, value@);
        out.push((key, value));
        assert(spec_records_view(out@) =~= prev.push(kv));
        assert(spec_records_view(out@) =~= spec_block_records(blocks@, txs@).take(i + 1));
        i = i + 1;
    }
    assert(spec_block_records(blocks@, txs@).take(i as int) =~= spec_block_records(blocks@, txs@));
    sort_records(out)
}

/// The spends one transaction records: each output it spends (36 bytes:
/// hash and index), mapped to the spending transaction and its block.
pub open spec fn spec_tx_spends(t: SerializedTx, block: Seq<u8>) -> Seq<(Seq<u8>, Seq<u8>)> {
    match t.spent_txos {
        Some(s) => s@.map_values(|k: [u8; 36]| (k@, t.hash@ + block)),
        None => Seq::empty(),
    }
}

/// The spends of a block's transactions, in order.
pub open spec fn spec_block_spends(txs: Seq<SerializedTx>, block: Seq<u8>) -> Seq<(Seq<u8>, Seq<u8>)>
    decreases txs.len(),
{
    if txs.len() == 0 {
        Seq::empty()
    } else {
        spec_block_spends(txs.drop_last(), block) + spec_tx_spends(txs.last(), block)
    }
}

/// The spends of all blocks, in order.
pub open spec fn spec_spend_records(blocks: Seq<[u8; 32]>, txs: Seq<Vec<SerializedTx>>) -> Seq<(Seq<u8>, Seq<u8>)>
    decreases blocks.len(),
{
    if blocks.len() == 0 || txs.len() == 0 {
        Seq::empty()
    } else {
        spec_spend_records(blocks.drop_last(), txs.drop_last()) + spec_block_spends(txs.last()@, blocks.last()@)
    }
}

/// The records of every spend, sorted by the spent output.
pub fn spend_records(blocks: &[[u8; 32]], txs: &Vec<Vec<SerializedTx>>) -> (r: Vec<Record>)
    requires
        blocks@.len() == txs@.len(),
    ensures
        spec_sorted_by_key(spec_records_view(r@)),
        spec_records_view(r@).to_multiset() == spec_spend_records(blocks@, txs@).to_multiset(),
{
    let mut out: Vec<Record> = Vec::new();
    let mut i: usize = 0;
    while i < blocks.len()
        invariant
            i <= blocks@.len(),
            blocks@.len() == txs@.len(),
            spec_records_view(out@) == spec_spend_records(blocks@.take(i as int), txs@.take(i as int)),
        decreases blocks@.len() - i,
    {
        let ghost before = spec_records_view(out@);
        let block_txs = &txs[i];
        let mut j: usize = 0;
        while j < block_txs.len()
            invariant
                j <= block_txs@.len(),
                i < blocks@.len(),
                spec_records_view(out@) == before + spec_block_spends(block_txs@.take(j as int), blocks@[i as int]@),
            decreases block_txs@.len() - j,
        {
            let t = block_txs[j];
            let ghost mid = spec_records_view(out@);
            match t.spent_txos {
                Some(spends) => {
                    let mut k: usize = 0;
                    while k < spends.len()
                        invariant
                            k <= spends@.len(),
                            i < blocks@.len(),
                            spec_records_view(out@) == mid + spends@.take(k as int).map_values(|x: [u8; 36]| (x@, t.hash@ + blocks@[i as int]@)),
                        decreases spends@.len() - k,
                    {
                        let mut key: Vec<u8> = Vec::new();
                        put_slice(&mut key, spends[k].as_slice());
                        let mut value: Vec<u8> = Vec::new();
                        put_slice(&mut value, t.hash.as_slice());
                        put_slice(&mut value, blocks[i].as_slice());
                        let ghost prev = spec_records_view(out@);
                        let ghost kv = (key@, value@);
                        out.push((key, value));
                        assert(spec_records_view(out@) =~= prev.push(kv));
                        assert(spends@.take(k + 1).map_values(|x: [u8; 36]| (x@, t.hash@ + blocks@[i as int]@))
                            =~= spends@.take(k as int).map_values(|x: [u8; 36]| (x@, t.hash@ + blocks@[i as int]@)).push(kv));
                        assert(spec_records_view(out@) =~= mid + spends@.take(k + 1).map_values(|x: [u8; 36]| (x@, t.hash@ + blocks@[i as int]@)));
                        k = k + 1;
                    }
                    assert(spends@.take(k as int) =~= spends@);
                },
                None => {
                    assert(mid + spec_tx_spends(t, blocks@[i as int]@) =~= mid);
                },
            }
            assert(block_txs@.take(j + 1).drop_last() =~= block_txs@.take(j as int));
            assert(block_txs@.take(j + 1).last() == t);
            assert(spec_records_view(out@) =~= before + spec_block_spends(block_txs@.take(j + 1), blocks@[i as int]@));
            j = j + 1;
        }
        assert(block_txs@.take(j as int) =~= block_txs@);
        assert(blocks@.take(i + 1).drop_last() =~= blocks@.take(i as int));
        assert(txs@.take(i + 1).drop_last() =~= txs@.take(i as int));
        i = i + 1;
    }
    assert(blocks@.take(i as int) =~= blocks@);
    assert(txs@.take(i as int) =~= txs@);
    sort_records(out)
}

/// A transaction's balance changes with runs of the same address merged
/// into one (the changes added, wrapping around).
pub open spec fn spec_merge_amends(a: Seq<(Seq<u8>, i64)>) -> Seq<(Seq<u8>, i64)>
    decreases a.len(),
{
    if a.len() == 0 {
        Seq::empty()
    } else {
        let m = spec_merge_amends(a.drop_last());
        let (k, d) = a.last();
        if a.len() >= 2 && a[a.len() - 2].0 == k {
            m.drop_last().push((k, m.last().1.wrapping_add(d)))
        } else {
            m.push((k, d))
        }
    }
}

/// The views of a transaction's balance changes.
pub open spec fn spec_amends_view(a: Seq<(&[u8], i64)>) -> Seq<(Seq<u8>, i64)> {
    a.map_values(|x: (&[u8], i64)| (x.0@, x.1))
}

proof fn lemma_merge_amends_nonempty(a: Seq<(Seq<u8>, i64)>)
    ensures
        a.len() > 0 ==> spec_merge_amends(a).len() > 0 && spec_merge_amends(a).last().0 == a.last().0,
        spec_merge_amends(a).len() <= a.len(),
    decreases a.len(),
{
    if a.len() > 0 {
        lemma_merge_amends_nonempty(a.drop_last());
    }
}

/// The records of a block's balance changes.
pub open spec fn spec_block_amends(txs: Seq<SerializedTx>, block: Seq<u8>) -> Seq<(Seq<u8>, Seq<u8>)>
    decreases txs.len(),
{
    if txs.len() == 0 {
        Seq::empty()
    } else {
        let t = txs.last();
        let own = match t.address_amends {
            Some(a) => spec_merge_amends(spec_amends_view(a@)).map_values(|x: (Seq<u8>, i64)| (x.0, spec_amend_value(block, x.1))),
            None => Seq::empty(),
        };
        spec_block_amends(txs.drop_last(), block) + own
    }
}

/// The records of all blocks' balance changes, in order.
pub open spec fn spec_amend_records(blocks: Seq<[u8; 32]>, txs: Seq<Vec<SerializedTx>>) -> Seq<(Seq<u8>, Seq<u8>)>
    decreases blocks.len(),
{
    if blocks.len() == 0 || txs.len() == 0 {
        Seq::empty()
    } else {
        spec_amend_records(blocks.drop_last(), txs.drop_last()) + spec_block_amends(txs.last()@, blocks.last()@)
    }
}

/// A transaction's balance changes, merged.
fn merge_amends(amends: &[(&[u8], i64)]) -> (r: Vec<(Vec<u8>, i64)>)
    ensures
        r@.map_values(|x: (Vec<u8>, i64)| (x.0@, x.1)) == spec_merge_amends(spec_amends_view(amends@)),
{
    let ghost a = spec_amends_view(amends@);
    let mut out: Vec<(Vec<u8>, i64)> = Vec::new();
    let mut i: usize = 0;
    while i < amends.len()
        invariant
            i <= amends@.len(),
            a == spec_amends_view(amends@),
            out@.map_values(|x: (Vec<u8>, i64)| (x.0@, x.1)) == spec_merge_amends(a.take(i as int)),
        decreases amends@.len() - i,
    {
        let (key, delta) = amends[i];
        let ghost prev = a.take(i as int);
        assert(a.take(i + 1).drop_last() =~= prev);
        assert(a.take(i + 1).last() == (key@, delta));
        proof {
            lemma_merge_amends_nonempty(prev);
        }
        let same = i > 0 && crate::types::addressportnetwork::bytes_eq(amends[i - 1].0, key);
        if same {
            assert(a.take(i + 1)[i - 1] == a[i - 1]);
            let (k, d) = out.pop().unwrap();
            out.push((k, d.wrapping_add(delta)));
        } else {
            let mut k: Vec<u8> = Vec::new();
            put_slice(&mut k, key);
            out.push((k, delta));
        }
        assert(out@.map_values(|x: (Vec<u8>, i64)| (x.0@, x.1)) =~= spec_merge_amends(a.take(i + 1)));
        i = i + 1;
    }
    assert(a.take(i as int) =~= a);
    out
}

/// The records of every balance change, merged per transaction and
/// sorted by address key.
pub fn amend_records(blocks: &[[u8; 32]], txs: &Vec<Vec<SerializedTx>>) -> (r: Vec<Record>)
    requires
        blocks@.len() == txs@.len(),
    ensures
        spec_sorted_by_key(spec_records_view(r@)),
        spec_records_view(r@).to_multiset() == spec_amend_records(blocks@, txs@).to_multiset(),
{
    let mut out: Vec<Record> = Vec::new();
    let mut i: usize = 0;
    while i < blocks.len()
        invariant
            i <= blocks@.len(),
            blocks@.len() == txs@.len(),
            spec_records_view(out@) == spec_amend_records(blocks@.take(i as int), txs@.take(i as int)),
        decreases blocks@.len() - i,
    {
        let ghost before = spec_records_view(out@);
        let block_txs = &txs[i];
        let mut j: usize = 0;
        while j < block_txs.len()
            invariant
                j <= block_txs@.len(),
                i < blocks@.len(),
                spec_records_view(out@) == before + spec_block_amends(block_txs@.take(j as int), blocks@[i as int]@),
            decreases block_txs@.len() - j,
        {
            let t = block_txs[j];
            let ghost mid = spec_records_view(out@);
            match t.address_amends {
                Some(amends) => {
                    let merged = merge_amends(amends);
                    let ghost mv = merged@.map_values(|x: (Vec<u8>, i64)| (x.0@, x.1));
                    let mut k: usize = 0;
                    while k < merged.len()
                        invariant
                            k <= merged@.len(),
                            i < blocks@.len(),
                            mv == merged@.map_values(|x: (Vec<u8>, i64)| (x.0@, x.1)),
                            spec_records_view(out@) == mid + mv.take(k as int).map_values(|x: (Seq<u8>, i64)| (x.0, spec_amend_value(blocks@[i as int]@, x.1))),
                        decreases merged@.len() - k,
                    {
                        let mut key: Vec<u8> = Vec::new();
                        put_slice(&mut key, merged[k].0.as_slice());
                        let value = amend_value(&blocks[i], merged[k].1);
                        let ghost prev = spec_records_view(out@);
                        let ghost kv = (key@, value@);
                        out.push((key, value));
                        assert(spec_records_view(out@) =~= prev.push(kv));
                        assert(mv[k as int] == (merged@[k as int].0@, merged@[k as int].1));
                        assert(mv.take(k + 1).map_values(|x: (Seq<u8>, i64)| (x.0, spec_amend_value(blocks@[i as int]@, x.1)))
                            =~= mv.take(k as int).map_values(|x: (Seq<u8>, i64)| (x.0, spec_amend_value(blocks@[i as int]@, x.1))).push(kv));
                        assert(spec_records_view(out@) =~= mid + mv.take(k + 1).map_values(|x: (Seq<u8>, i64)| (x.0, spec_amend_value(blocks@[i as int]@, x.1))));
                        k = k + 1;
                    }
                    assert(mv.take(k as int) =~= mv);
                },
                None => {
                    assert(mid + Seq::<(Seq<u8>, Seq<u8>)>::empty() =~= mid);
                },
            }
            assert(block_txs@.take(j + 1).drop_last() =~= block_txs@.take(j as int));
            assert(block_txs@.take(j + 1).last() == t);
            assert(spec_records_view(out@) =~= before + spec_block_amends(block_txs@.take(j + 1), blocks@[i as int]@));
            j = j + 1;
        }
        assert(block_txs@.take(j as int) =~= block_txs@);
        assert(blocks@.take(i + 1).drop_last() =~= blocks@.take(i as int));
        assert(txs@.take(i + 1).drop_last() =~= txs@.take(i as int));
        i = i + 1;
    }
    assert(blocks@.take(i as int) =~= blocks@);
    assert(txs@.take(i as int) =~= txs@);
    sort_records(out)
}

/// Every transaction of the batch with the bytes `field` picks from it.
pub open spec fn spec_tx_field_records(txs: Seq<Vec<SerializedTx>>, outputs: bool) -> Seq<(Seq<u8>, Seq<u8>)>
    decreases txs.len(),
{
    if txs.len() == 0 {
        Seq::empty()
    } else {
        spec_tx_field_records(txs.drop_last(), outputs) + txs.last()@.map_values(|t: SerializedTx|
            (t.hash@, if outputs { t.tx_outs.unwrap()@ } else { t.analyzed_tx.unwrap()@ }))
    }
}

/// The records of every transaction of a batch, sorted by hash: their
/// outputs when `outputs`, else their analyses.
pub fn tx_records(txs: &Vec<Vec<SerializedTx>>, outputs: bool) -> (r: Vec<Record>)
    requires
        forall|i: int, j: int| 0 <= i < txs@.len() && 0 <= j < txs@[i]@.len() ==> {
            let t = #[trigger] txs@[i]@[j];
            if outputs { t.tx_outs is Some } else { t.analyzed_tx is Some }
        },
    ensures
        spec_sorted_by_key(spec_records_view(r@)),
        spec_records_view(r@).to_multiset() == spec_tx_field_records(txs@, outputs).to_multiset(),
{
    let mut all: Vec<Record> = Vec::new();
    let mut i: usize = 0;
    while i < txs.len()
        invariant
            i <= txs@.len(),
            forall|a: int, b: int| 0 <= a < txs@.len() && 0 <= b < txs@[a]@.len() ==> {
                let t = #[trigger] txs@[a]@[b];
                if outputs { t.tx_outs is Some } else { t.analyzed_tx is Some }
            },
            spec_records_view(all@) == spec_tx_field_records(txs@.take(i as int), outputs),
        decreases txs@.len() - i,
    {
        let ghost before = spec_records_view(all@);
        let block_txs = &txs[i];
        let mut j: usize = 0;
        while j < block_txs.len()
            invariant
                j <= block_txs@.len(),
                i < txs@.len(),
                block_txs@ == txs@[i as int]@,
                forall|a: int, b: int| 0 <= a < txs@.len() && 0 <= b < txs@[a]@.len() ==> {
                    let t = #[trigger] txs@[a]@[b];
                    if outputs { t.tx_outs is Some } else { t.analyzed_tx is Some }
                },
                spec_records_view(all@) == before + block_txs@.take(j as int).map_values(|t: SerializedTx|
                    (t.hash@, if outputs { t.tx_outs.unwrap()@ } else { t.analyzed_tx.unwrap()@ })),
            decreases block_txs@.len() - j,
        {
            let t = block_txs[j];
            assert(txs@[i as int]@[j as int] == t);
            let mut key: Vec<u8> = Vec::new();
            put_slice(&mut key, t.hash.as_slice());
            let mut value: Vec<u8> = Vec::new();
            if outputs {
                put_slice(&mut value, t.tx_outs.unwrap());
            } else {
                put_slice(&mut value, t.analyzed_tx.unwrap());
            }
            let ghost prev = spec_records_view(all@);
            let ghost kv = (key@, value@);
            all.push((key, value));
            assert(spec_records_view(all@) =~= prev.push(kv));
            assert(block_txs@.take(j + 1).map_values(|t: SerializedTx|
                (t.hash@, if outputs { t.tx_outs.unwrap()@ } else { t.analyzed_tx.unwrap()@ }))
                =~= block_txs@.take(j as int).map_values(|t: SerializedTx|
                (t.hash@, if outputs { t.tx_outs.unwrap()@ } else { t.analyzed_tx.unwrap()@ })).push(kv));
            j = j + 1;
        }
        assert(block_txs@.take(j as int) =~= block_txs@);
        assert(txs@.take(i + 1).drop_last() =~= txs@.take(i as int));
        i = i + 1;
    }
    assert(txs@.take(i as int) =~= txs@);
    sort_records(all)
}

/// Everything a batch of analyzed blocks writes, table by table, each
/// sorted by key; no spends or balance changes gives `None`.
pub struct StoreWrites {
    pub block_txs: Vec<Record>,
    pub txouts: Vec<Record>,
    pub txs: Vec<Record>,
    pub spends: Option<Vec<Record>>,
    pub address_amends: Option<Vec<Record>>,
}

/// The records a batch of analyzed blocks writes: each block's list of
/// transactions, every transaction's outputs and analysis,
/// each spent output, and each address's balance changes.
pub fn write_analyzed_txs_records(blocks: &[[u8; 32]], txs: &Vec<Vec<SerializedTx>>) -> (r: StoreWrites)
    requires
        blocks@.len() == txs@.len(),
        forall|i: int, j: int| 0 <= i < txs@.len() && 0 <= j < txs@[i]@.len() ==> {
            let t = #[trigger] txs@[i]@[j];
            t.tx_outs is Some && t.analyzed_tx is Some
        },
    ensures
        spec_sorted_by_key(spec_records_view(r.block_txs@)),
        spec_records_view(r.block_txs@).to_multiset() == spec_block_records(blocks@, txs@).to_multiset(),
        spec_sorted_by_key(spec_records_view(r.txouts@)),
        spec_records_view(r.txouts@).to_multiset() == spec_tx_field_records(txs@, true).to_multiset(),
        spec_sorted_by_key(spec_records_view(r.txs@)),
        spec_records_view(r.txs@).to_multiset() == spec_tx_field_records(txs@, false).to_multiset(),
        match r.spends {
            None => spec_spend_records(blocks@, txs@).len() == 0,
            Some(s) => spec_spend_records(blocks@, txs@).len() > 0 && spec_sorted_by_key(spec_records_view(s@))
                && spec_records_view(s@).to_multiset() == spec_spend_records(blocks@, txs@).to_multiset(),
        },
        match r.address_amends {
            None => spec_amend_records(blocks@, txs@).len() == 0,
            Some(a) => spec_amend_records(blocks@, txs@).len() > 0 && spec_sorted_by_key(spec_records_view(a@))
                && spec_records_view(a@).to_multiset() == spec_amend_records(blocks@, txs@).to_multiset(),
        },
{
    let block_txs = block_tx_records(blocks, txs);
    let txouts = tx_records(txs, true);
    let analyzed = tx_records(txs, false);
    let spends = spend_records(blocks, txs);
    let amends = amend_records(blocks, txs);
    proof {
        vstd::seq_lib::to_multiset_len(spec_records_view(spends@));
        vstd::seq_lib::to_multiset_len(spec_spend_records(blocks@, txs@));
        vstd::seq_lib::to_multiset_len(spec_records_view(amends@));
        vstd::seq_lib::to_multiset_len(spec_amend_records(blocks@, txs@));
    }
    let spends = if spends.len() == 0 { None } else { Some(spends) };
    let address_amends = if amends.len() == 0 { None } else { Some(amends) };
    StoreWrites { block_txs, txouts, txs: analyzed, spends, address_amends }
}

} // verus!
