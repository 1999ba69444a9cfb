//! Keeping up with the chain once synced: which blocks to fetch after a new
//! tip, and how each one updates the front page.
use vstd::prelude::*;
use crate::packets::block::BlockOwned;
use crate::packets::tx::{TxOwned, TxRef, TxModel, spec_is_coinbase};
use crate::util::merkle::hash_eq;

verus! {

broadcast use vstd::array::group_array_axioms;

/// How applying a block updates the front page.
#[derive(Debug, Clone, Copy, PartialEq, Eq, Structural)]
pub enum FrontPageDataUpdateStrategy {
    RegenerateFromScratch,
    Append,
}

/// A block to fetch and apply: its number, its hash, and how it updates the front page.
pub type BlockJob = (u64, [u8; 32], FrontPageDataUpdateStrategy);

/// The jobs for the blocks a new tip at `new_top_number` calls for: one
/// block extends the chain and is appended; after a fork the first block
/// rebuilds the front page and the others are appended. Each job carries
/// its block's height: the last block is the new tip, so the first is at
/// `new_top_number - len + 1`.
pub fn plan_block_jobs(new_top_number: u64, blocks_to_apply: &Vec<[u8; 32]>) -> (r: Vec<BlockJob>)
    requires
        blocks_to_apply@.len() > 1 ==> new_top_number + 1 >= blocks_to_apply@.len(),
    ensures
        blocks_to_apply@.len() == 1 ==> r@ == seq![(new_top_number, blocks_to_apply@[0], FrontPageDataUpdateStrategy::Append)],
        blocks_to_apply@.len() != 1 ==> {
            &&& r@.len() == blocks_to_apply@.len()
            &&& forall|i: int| 0 <= i < r@.len() ==> (#[trigger] r@[i]) == (
                (new_top_number + 1 - blocks_to_apply@.len() + i) as u64,
                blocks_to_apply@[i],
                if i == 0 { FrontPageDataUpdateStrategy::RegenerateFromScratch } else { FrontPageDataUpdateStrategy::Append },
            )
        },
{
    let mut out: Vec<BlockJob> = Vec::new();
    let n = blocks_to_apply.len();
    if n == 1 {
        out.push((new_top_number, blocks_to_apply[0], FrontPageDataUpdateStrategy::Append));
        assert(out@ =~= seq![(new_top_number, blocks_to_apply@[0], FrontPageDataUpdateStrategy::Append)]);
        return out;
    }
    if n == 0 {
        return out;
    }
    let first_number = new_top_number - (n as u64 - 1);
    let mut i: usize = 0;
    while i < n
        invariant
            n == blocks_to_apply@.len(),
            n > 1,
            new_top_number + 1 >= n,
            first_number == new_top_number + 1 - n,
            i <= n,
            out@.len() == i,
            forall|k: int| 0 <= k < i ==> (#[trigger] out@[k]) == (
                (new_top_number + 1 - n + k) as u64,
                blocks_to_apply@[k],
                if k == 0 { FrontPageDataUpdateStrategy::RegenerateFromScratch } else { FrontPageDataUpdateStrategy::Append },
            ),
        decreases n - i,
    {
        let strategy = if i == 0 {
            FrontPageDataUpdateStrategy::RegenerateFromScratch
        } else {
            FrontPageDataUpdateStrategy::Append
        };
        out.push((first_number + i as u64, blocks_to_apply[i], strategy));
        i = i + 1;
    }
    out
}

/// Takes a received block: when it is the block at the front of the queue,
/// the job leaves the queue and its number and strategy are returned;
/// otherwise the block is ignored.
pub fn take_job_for_block(queue: &mut Vec<BlockJob>, hash: &[u8; 32]) -> (r: Option<(u64, FrontPageDataUpdateStrategy)>)
    ensures
        if old(queue)@.len() > 0 && old(queue)@[0].1 == *hash {
            &&& r == Some((old(queue)@[0].0, old(queue)@[0].2))
            &&& final(queue)@ == old(queue)@.drop_first()
        } else {
            r is None && final(queue)@ == old(queue)@
        },
{
    if queue.len() == 0 {
        return None;
    }
    if !crate::util::merkle::hash_eq(&queue[0].1, hash) {
        proof {
            if queue@[0].1 == *hash {
                assert(queue@[0].1@ == hash@);
            }
        }
        return None;
    }
    proof {
        assert(queue@[0].1@ == hash@);
        assert forall|i: int| 0 <= i < 32 implies queue@[0].1[i] == hash[i] by {
            assert(queue@[0].1@[i] == hash@[i]);
        }
        assert(queue@[0].1 =~= *hash);
    }
    let (number, _, strategy) = queue.remove(0);
    assert(queue@ =~= old(queue)@.drop_first());
    Some((number, strategy))
}

/// Where the output a transaction input spends is found: in the block
/// itself (which transaction, which output) or in the store.
#[derive(Debug, Clone, Copy)]
pub enum Dependency {
    InBlock { tx: usize, output: u32 },
    FromStore { hash: [u8; 32], index: u32 },
}

/// The last transaction of `txs` with id `h`.
pub open spec fn spec_last_with_hash(txs: Seq<TxModel>, h: Seq<u8>) -> Option<int>
    decreases txs.len(),
{
    if txs.len() == 0 {
        None
    } else if txs.last().hash == h {
        Some(txs.len() - 1)
    } else {
        spec_last_with_hash(txs.drop_last(), h)
    }
}

/// The dependency of an input spending output `index` of `h`.
pub open spec fn spec_dependency(txs: Seq<TxModel>, h: Seq<u8>, index: u32) -> (Option<int>, Seq<u8>, u32) {
    (spec_last_with_hash(txs, h), h, index)
}

/// The dependencies of the inputs of `t`, in order; none for a coinbase.
pub open spec fn spec_tx_dependencies(txs: Seq<TxModel>, t: TxModel) -> Seq<(Option<int>, Seq<u8>, u32)> {
    if spec_is_coinbase(t) {
        Seq::empty()
    } else {
        t.txins.map_values(|i: crate::packets::tx::TxInModel| spec_dependency(txs, i.prevout_hash, i.prevout_index))
    }
}

/// The dependencies of every input of the first `n` transactions.
pub open spec fn spec_dependencies(txs: Seq<TxModel>, n: int) -> Seq<(Option<int>, Seq<u8>, u32)>
    decreases n,
{
    if n <= 0 {
        Seq::empty()
    } else {
        spec_dependencies(txs, n - 1) + spec_tx_dependencies(txs, txs[n - 1])
    }
}

/// The model of a dependency: the transaction of the block it is in (if
/// any), the id and the output index it names.
pub open spec fn spec_dependency_view(d: Dependency, txs: Seq<TxModel>) -> (Option<int>, Seq<u8>, u32) {
    match d {
        Dependency::InBlock { tx, output } => (Some(tx as int), txs[tx as int].hash, output),
        Dependency::FromStore { hash, index } => (None, hash@, index),
    }
}

/// The last transaction of the block with id `h`.
fn last_with_hash(txs: &Vec<TxOwned>, h: &[u8; 32]) -> (r: Option<usize>)
    ensures
        match r {
            Some(i) => spec_last_with_hash(txs@.map_values(|t: TxOwned| t@), h@) == Some(i as int),
            None => spec_last_with_hash(txs@.map_values(|t: TxOwned| t@), h@) is None,
        },
{
    let ghost m = txs@.map_values(|t: TxOwned| t@);
    let mut i = txs.len();
    assert(m.take(i as int) =~= m);
    while i > 0
        invariant
            i <= txs@.len(),
            m == txs@.map_values(|t: TxOwned| t@),
            spec_last_with_hash(m, h@) == spec_last_with_hash(m.take(i as int), h@),
        decreases i,
    {
        assert(m.take(i as int).drop_last() =~= m.take(i - 1));
        assert(m.take(i as int).last() == txs@[i - 1]@);
        if hash_eq(&txs[i - 1].hash, h) {
            return Some(i - 1);
        }
        i = i - 1;
    }
    assert(m.take(0) =~= Seq::<TxModel>::empty());
    None
}

/// Where each input of the block's transactions finds the output it
/// spends, in order of transactions and inputs; coinbases spend nothing.
pub fn plan_dependencies(block: &BlockOwned) -> (r: Vec<Dependency>)
    ensures
        r@.map_values(|d: Dependency| spec_dependency_view(d, block@.txs)) == spec_dependencies(block@.txs, block@.txs.len() as int),
{
    let ghost m = block@.txs;
    assert(m =~= block.txs@.map_values(|t: TxOwned| t@));
    let mut out: Vec<Dependency> = Vec::new();
    assert(out@.map_values(|d: Dependency| spec_dependency_view(d, m)) =~= spec_dependencies(m, 0));
    let mut i: usize = 0;
    while i < block.txs.len()
        invariant
            i <= block.txs@.len(),
            m == block@.txs,
            m == block.txs@.map_values(|t: TxOwned| t@),
            out@.map_values(|d: Dependency| spec_dependency_view(d, m)) == spec_dependencies(m, i as int),
        decreases block.txs@.len() - i,
    {
        let tx = &block.txs[i];
        let ghost before = out@.map_values(|d: Dependency| spec_dependency_view(d, m));
        assert(m[i as int] == tx@);
        if !TxRef::Owned(tx).is_coinbase() {
            let mut j: usize = 0;
            while j < tx.txins.len()
                invariant
                    j <= tx.txins@.len(),
                    m == block.txs@.map_values(|t: TxOwned| t@),
                    i < m.len(),
                    m[i as int] == tx@,
                    out@.map_values(|d: Dependency| spec_dependency_view(d, m))
                        == before + tx@.txins.take(j as int).map_values(|x: crate::packets::tx::TxInModel|
                            spec_dependency(m, x.prevout_hash, x.prevout_index)),
                decreases tx.txins@.len() - j,
            {
                let txin = &tx.txins[j];
                assert(tx@.txins[j as int] == txin@);
                let d = match last_with_hash(&block.txs, &txin.prevout_hash) {
                    Some(k) => Dependency::InBlock { tx: k, output: txin.prevout_index },
                    None => Dependency::FromStore { hash: txin.prevout_hash, index: txin.prevout_index },
                };
                proof {
                    lemma_last_with_hash_found(m, txin.prevout_hash@);
                }
                let ghost prev = out@.map_values(|d: Dependency| spec_dependency_view(d, m));
                out.push(d);
                assert(out@.map_values(|d: Dependency| spec_dependency_view(d, m)) =~= prev.push(spec_dependency_view(d, m)));
                assert(tx@.txins.take(j + 1).map_values(|x: crate::packets::tx::TxInModel| spec_dependency(m, x.prevout_hash, x.prevout_index))
                    =~= tx@.txins.take(j as int).map_values(|x: crate::packets::tx::TxInModel| spec_dependency(m, x.prevout_hash, x.prevout_index))
                        .push(spec_dependency(m, txin@.prevout_hash, txin@.prevout_index)));
                j = j + 1;
            }
            assert(tx@.txins.take(j as int) =~= tx@.txins);
        } else {
            assert(before + spec_tx_dependencies(m, tx@) =~= before);
        }
        i = i + 1;
    }
    out
}

/// A transaction found by id has that id.
proof fn lemma_last_with_hash_found(txs: Seq<TxModel>, h: Seq<u8>)
    ensures
        spec_last_with_hash(txs, h) matches Some(k) ==> 0 <= k < txs.len() && txs[k].hash == h,
    decreases txs.len(),
{
    if txs.len() > 0 {
        lemma_last_with_hash_found(txs.drop_last(), h);
    }
}

/// The sum of the fees (first) or of the output values (second) of
/// analysed transactions.
pub open spec fn spec_total(analyzed: Seq<(u64, u64)>, fees: bool) -> nat
    decreases analyzed.len(),
{
    if analyzed.len() == 0 {
        0
    } else {
        spec_total(analyzed.drop_last(), fees) + if fees { analyzed.last().0 as nat } else { analyzed.last().1 as nat }
    }
}

proof fn lemma_total_prefix(analyzed: Seq<(u64, u64)>, fees: bool, n: int)
    requires
        0 <= n <= analyzed.len(),
    ensures
        spec_total(analyzed.take(n), fees) <= spec_total(analyzed, fees),
    decreases analyzed.len() - n,
{
    if n < analyzed.len() {
        lemma_total_prefix(analyzed, fees, n + 1);
        assert(analyzed.take(n + 1).drop_last() =~= analyzed.take(n));
    } else {
        assert(analyzed.take(n) =~= analyzed);
    }
}

/// A block's totals from its analysed transactions, each given as its fee
/// and the sum of its outputs: the fees, the volume and the number of
/// transactions.
pub fn block_totals(analyzed: &Vec<(u64, u64)>) -> (r: (u64, u64, u64))
    requires
        spec_total(analyzed@, true) <= u64::MAX,
        spec_total(analyzed@, false) <= u64::MAX,
    ensures
        r.0 == spec_total(analyzed@, true),
        r.1 == spec_total(analyzed@, false),
        r.2 == analyzed@.len(),
{
    let mut fees_total: u64 = 0;
    let mut volume: u64 = 0;
    let mut i: usize = 0;
    while i < analyzed.len()
        invariant
            i <= analyzed@.len(),
            spec_total(analyzed@, true) <= u64::MAX,
            spec_total(analyzed@, false) <= u64::MAX,
            fees_total == spec_total(analyzed@.take(i as int), true),
            volume == spec_total(analyzed@.take(i as int), false),
        decreases analyzed@.len() - i,
    {
        proof {
            lemma_total_prefix(analyzed@, true, i + 1);
            lemma_total_prefix(analyzed@, false, i + 1);
            assert(analyzed@.take(i + 1).drop_last() =~= analyzed@.take(i as int));
        }
        fees_total = fees_total + analyzed[i].0;
        volume = volume + analyzed[i].1;
        i = i + 1;
    }
    assert(analyzed@.take(i as int) =~= analyzed@);
    (fees_total, volume, analyzed.len() as u64)
}

} // verus!
