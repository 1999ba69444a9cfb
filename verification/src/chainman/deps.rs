//! Where the inputs of a block being synced find the outputs they spend:
//! among the outputs of the batch being processed, of the batch being
//! written, or else among those read from the store, in order.
use vstd::prelude::*;
use crate::util::merkle::{hash_eq, spec_zero_hash};

verus! {

/// Where an input's spent output is: output `output` of the transaction at
/// `tx` in the current or the previous batch's list, or the output at
/// `index` among those read from the store.
#[derive(Debug, Clone, Copy, PartialEq, Eq, Structural)]
pub enum DepRef {
    Current { tx: usize, output: u32 },
    Previous { tx: usize, output: u32 },
    Disk { index: usize },
}

/// The first transaction of `outs` (id, number of outputs) with id `h`.
pub open spec fn spec_find_outputs(outs: Seq<([u8; 32], usize)>, h: Seq<u8>) -> Option<int> {
    if exists|i: int| 0 <= i < outs.len() && (#[trigger] outs[i]).0@ == h {
        Some(choose|i: int| 0 <= i < outs.len() && (#[trigger] outs[i]).0@ == h
            && forall|j: int| 0 <= j < i ==> (#[trigger] outs[j]).0@ != h)
    } else {
        None
    }
}

/// Whether an output of `h` is read from the store: it is in neither batch.
pub open spec fn spec_from_disk(cur: Seq<([u8; 32], usize)>, prev: Seq<([u8; 32], usize)>, h: Seq<u8>) -> bool {
    spec_find_outputs(cur, h) is None && spec_find_outputs(prev, h) is None
}

/// Where output `output` of `h` is, `next_disk` outputs having been read
/// from the store before it: the current batch first, then the previous one.
pub open spec fn spec_dep(cur: Seq<([u8; 32], usize)>, prev: Seq<([u8; 32], usize)>, h: Seq<u8>, output: u32, next_disk: nat) -> DepRef {
    match spec_find_outputs(cur, h) {
        Some(k) => DepRef::Current { tx: k as usize, output },
        None => match spec_find_outputs(prev, h) {
            Some(k) => DepRef::Previous { tx: k as usize, output },
            None => DepRef::Disk { index: next_disk as usize },
        },
    }
}

/// The places of the outputs the inputs `ins` spend, in order, skipping
/// coinbase inputs (spending from the zero hash), with `d` outputs read from
/// the store before them; and how many are read from the store after them.
pub open spec fn spec_tx_deps(ins: Seq<([u8; 32], u32)>, cur: Seq<([u8; 32], usize)>, prev: Seq<([u8; 32], usize)>, d: nat) -> (Seq<DepRef>, nat)
    decreases ins.len(),
{
    if ins.len() == 0 {
        (Seq::empty(), d)
    } else {
        let (ds, d2) = spec_tx_deps(ins.drop_last(), cur, prev, d);
        let op = ins.last();
        if op.0@ == spec_zero_hash() {
            (ds, d2)
        } else {
            (ds.push(spec_dep(cur, prev, op.0@, op.1, d2)), if spec_from_disk(cur, prev, op.0@) { d2 + 1 } else { d2 })
        }
    }
}

/// The places for each transaction of a block, in order, and how many
/// outputs are read from the store in all.
pub open spec fn spec_block_deps(txs: Seq<Seq<([u8; 32], u32)>>, cur: Seq<([u8; 32], usize)>, prev: Seq<([u8; 32], usize)>, d: nat) -> (Seq<Seq<DepRef>>, nat)
    decreases txs.len(),
{
    if txs.len() == 0 {
        (Seq::empty(), d)
    } else {
        let (dss, d2) = spec_block_deps(txs.drop_last(), cur, prev, d);
        let (ds, d3) = spec_tx_deps(txs.last(), cur, prev, d2);
        (dss.push(ds), d3)
    }
}

/// Every output spent from a batch is one that transaction has.
pub open spec fn spec_outputs_exist(txs: Seq<Seq<([u8; 32], u32)>>, cur: Seq<([u8; 32], usize)>, prev: Seq<([u8; 32], usize)>) -> bool {
    forall|t: int, i: int| 0 <= t < txs.len() && 0 <= i < txs[t].len() ==> {
        let op = #[trigger] txs[t][i];
        op.0@ != spec_zero_hash() ==> match spec_find_outputs(cur, op.0@) {
            Some(k) => op.1 < cur[k].1,
            None => match spec_find_outputs(prev, op.0@) {
                Some(k) => op.1 < prev[k].1,
                None => true,
            },
        }
    }
}

/// The views of lists of places.
pub open spec fn spec_deps_view(v: Seq<Vec<DepRef>>) -> Seq<Seq<DepRef>> {
    v.map_values(|d: Vec<DepRef>| d@)
}

/// The views of the inputs of each transaction.
pub open spec fn spec_ins_view(v: Seq<Vec<([u8; 32], u32)>>) -> Seq<Seq<([u8; 32], u32)>> {
    v.map_values(|d: Vec<([u8; 32], u32)>| d@)
}

/// The first transaction of `outs` with id `h`.
fn find_outputs(outs: &Vec<([u8; 32], usize)>, h: &[u8; 32]) -> (r: Option<usize>)
    ensures
        match r {
            Some(k) => spec_find_outputs(outs@, h@) == Some(k as int),
            None => spec_find_outputs(outs@, h@) is None,
        },
{
    let mut i: usize = 0;
    while i < outs.len()
        invariant
            i <= outs@.len(),
            forall|j: int| 0 <= j < i ==> (#[trigger] outs@[j]).0@ != h@,
        decreases outs@.len() - i,
    {
        if hash_eq(&outs[i].0, h) {
            proof {
                let c = choose|c: int| 0 <= c < outs@.len() && (#[trigger] outs@[c]).0@ == h@
                    && forall|j: int| 0 <= j < c ==> (#[trigger] outs@[j]).0@ != h@;
                assert(0 <= i < outs@.len() && outs@[i as int].0@ == h@
                    && forall|j: int| 0 <= j < i ==> (#[trigger] outs@[j]).0@ != h@);
                if c < i {
                    assert(outs@[c].0@ != h@);
                } else if c > i {
                    assert(outs@[i as int].0@ != h@);
                }
            }
            return Some(i);
        }
        i = i + 1;
    }
    None
}

proof fn lemma_tx_deps_grow(ins: Seq<([u8; 32], u32)>, cur: Seq<([u8; 32], usize)>, prev: Seq<([u8; 32], usize)>, d: nat, n: int)
    requires
        0 <= n <= ins.len(),
    ensures
        d <= spec_tx_deps(ins.take(n), cur, prev, d).1 <= spec_tx_deps(ins, cur, prev, d).1,
    decreases ins.len() - n,
{
    lemma_tx_deps_ge(ins.take(n), cur, prev, d);
    if n < ins.len() {
        lemma_tx_deps_grow(ins, cur, prev, d, n + 1);
        assert(ins.take(n + 1).drop_last() =~= ins.take(n));
    } else {
        assert(ins.take(n) =~= ins);
        lemma_tx_deps_ge(ins, cur, prev, d);
    }
}

proof fn lemma_tx_deps_ge(ins: Seq<([u8; 32], u32)>, cur: Seq<([u8; 32], usize)>, prev: Seq<([u8; 32], usize)>, d: nat)
    ensures
        d <= spec_tx_deps(ins, cur, prev, d).1,
    decreases ins.len(),
{
    if ins.len() > 0 {
        lemma_tx_deps_ge(ins.drop_last(), cur, prev, d);
    }
}

proof fn lemma_block_deps_grow(txs: Seq<Seq<([u8; 32], u32)>>, cur: Seq<([u8; 32], usize)>, prev: Seq<([u8; 32], usize)>, n: int)
    requires
        0 <= n <= txs.len(),
    ensures
        spec_block_deps(txs.take(n), cur, prev, 0).1 <= spec_block_deps(txs, cur, prev, 0).1,
    decreases txs.len() - n,
{
    if n < txs.len() {
        lemma_block_deps_grow(txs, cur, prev, n + 1);
        assert(txs.take(n + 1).drop_last() =~= txs.take(n));
        lemma_tx_deps_ge(txs.take(n + 1).last(), cur, prev, spec_block_deps(txs.take(n), cur, prev, 0).1);
    } else {
        assert(txs.take(n) =~= txs);
    }
}

/// Finds, for every input of every transaction of a block, where the
/// output it spends is: in the current batch (`current`: each
/// transaction's id and number of outputs), else in the previous batch,
/// else the next of the `disk_count` outputs read from the store.
/// Coinbase inputs spend nothing. Returns the places per transaction and
/// how many outputs of the store were used. Every output named in a batch
/// must exist there, and the store must have given enough outputs.
#[verifier::spinoff_prover]
pub fn assemble_dependencies(
    txins: &Vec<Vec<([u8; 32], u32)>>,
    current: &Vec<([u8; 32], usize)>,
    previous: &Vec<([u8; 32], usize)>,
    disk_count: usize,
) -> (r: (Vec<Vec<DepRef>>, usize))
    requires
        spec_outputs_exist(spec_ins_view(txins@), current@, previous@),
        spec_block_deps(spec_ins_view(txins@), current@, previous@, 0).1 <= disk_count,
    ensures
        (spec_deps_view(r.0@), r.1 as nat) == spec_block_deps(spec_ins_view(txins@), current@, previous@, 0),
{
    let ghost txs = spec_ins_view(txins@);
    let ghost cur = current@;
    let ghost prev = previous@;
    let mut out: Vec<Vec<DepRef>> = Vec::new();
    let mut next_disk: usize = 0;
    let mut t: usize = 0;
    while t < txins.len()
        invariant
            txs == spec_ins_view(txins@),
            cur == current@,
            prev == previous@,
            t <= txs.len(),
            spec_block_deps(txs, cur, prev, 0).1 <= disk_count,
            (spec_deps_view(out@), next_disk as nat) == spec_block_deps(txs.take(t as int), cur, prev, 0),
        decreases txs.len() - t,
    {
        let ins = &txins[t];
        assert(ins@ == txs[t as int]);
        proof {
            lemma_block_deps_grow(txs, cur, prev, t + 1);
            assert(txs.take(t + 1).drop_last() =~= txs.take(t as int));
            assert(txs.take(t + 1).last() == ins@);
        }
        let (deps, after) = tx_dependencies(ins, current, previous, next_disk, disk_count);
        next_disk = after;
        let ghost before = spec_deps_view(out@);
        out.push(deps);
        assert(spec_deps_view(out@) =~= before.push(deps@));
        t = t + 1;
    }
    assert(txs.take(t as int) =~= txs);
    (out, next_disk)
}

/// The places for the inputs `ins` of one transaction, `start` outputs of
/// the store having been used before them, and how many are used after them.
#[verifier::spinoff_prover]
fn tx_dependencies(
    ins: &Vec<([u8; 32], u32)>,
    current: &Vec<([u8; 32], usize)>,
    previous: &Vec<([u8; 32], usize)>,
    start: usize,
    disk_count: usize,
) -> (r: (Vec<DepRef>, usize))
    requires
        spec_tx_deps(ins@, current@, previous@, start as nat).1 <= disk_count,
    ensures
        (r.0@, r.1 as nat) == spec_tx_deps(ins@, current@, previous@, start as nat),
{
    let ghost cur = current@;
    let ghost prev = previous@;
    let ghost d0 = start as nat;
    let mut next_disk = start;
    let mut deps: Vec<DepRef> = Vec::new();
    let mut i: usize = 0;
    while i < ins.len()
        invariant
            cur == current@,
            prev == previous@,
            spec_tx_deps(ins@, cur, prev, d0).1 <= disk_count,
            i <= ins@.len(),
            (deps@, next_disk as nat) == spec_tx_deps(ins@.take(i as int), cur, prev, d0),
        decreases ins@.len() - i,
    {
        proof {
            lemma_tx_deps_grow(ins@, cur, prev, d0, i + 1);
            assert(ins@.take(i + 1).drop_last() =~= ins@.take(i as int));
            assert(ins@.take(i + 1).last() == ins@[i as int]);
        }
        let (h, output) = ins[i];
        if !is_zero_hash(&h) {
            let dep = match find_outputs(current, &h) {
                Some(k) => DepRef::Current { tx: k, output },
                None => match find_outputs(previous, &h) {
                    Some(k) => DepRef::Previous { tx: k, output },
                    None => {
                        let d = DepRef::Disk { index: next_disk };
                        next_disk = next_disk + 1;
                        d
                    },
                },
            };
            deps.push(dep);
        }
        i = i + 1;
    }
    assert(ins@.take(i as int) =~= ins@);
    (deps, next_disk)
}

/// Whether `h` is the zero hash.
fn is_zero_hash(h: &[u8; 32]) -> (r: bool)
    ensures
        r == (h@ == spec_zero_hash()),
{
    proof {
        vstd::array::axiom_spec_array_fill_for_copy_type::<u8, 32>(0u8);
    }
    let zero = [0u8; 32];
    assert(zero@ =~= spec_zero_hash());
    hash_eq(h, &zero)
}

} // verus!
