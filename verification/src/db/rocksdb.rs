//! The byte layouts of the transaction store: the list of a block's
//! transactions, the outputs of a transaction, spends and address history.
use vstd::prelude::*;
use vstd::bytes::*;
use crate::packets::buffer::ParseError;
use crate::packets::encode::{put_slice, put_u32_le, put_u64_le, put_u64, spec_u64_to_be_bytes, spec_u64_from_be_bytes, lemma_int_bytes_roundtrip};
use crate::packets::packetpayload::{deserialize_array_owned, spec_deserialize_array_owned};
use crate::packets::tx::TxOutOwned;
use crate::packets::varint::{VarInt, spec_varint_bytes, spec_parse_varint, serialize_varint, deserialize_varint,
    lemma_varint_roundtrip, lemma_parse_varint_len};

verus! {

broadcast use vstd::seq_lib::group_seq_properties, vstd::slice::group_slice_axioms;

/// Why stored data could not be read.
#[derive(Debug, Clone, Copy, PartialEq, Eq)]
pub enum DbError {
    /// The record exists but holds no bytes.
    DataEmpty,
    /// The record is cut short or malformed.
    Parse(ParseError),
}

/// A transaction as analyzed for storage: its hash, its encoded parts,
/// and the figures shown on the front page.
#[derive(Copy, Clone)]
pub struct SerializedTx<'a> {
    pub hash: [u8; 32],
    pub analyzed_tx: Option<&'a [u8]>,
    pub tx_outs: Option<&'a [u8]>,
    pub spent_txos: Option<&'a [[u8; 36]]>,
    /// Address bytes with the transaction hash, and the change in balance.
    pub address_amends: Option<&'a [(&'a [u8], i64)]>,
    pub fee: u64,
    pub txouts_sum: u64,
    pub size_wus: u32,
}

/// One transaction of a block's stored list.
#[derive(Debug, Clone, Copy)]
pub struct BlockTxEntry {
    pub hash: [u8; 32],
    pub value_sats: u64,
    pub fee_sats: u64,
    pub size_wus: u32,
}

/// The model of a block's stored transaction.
pub struct BlockTxEntryModel {
    pub hash: Seq<u8>,
    pub value_sats: u64,
    pub fee_sats: u64,
    pub size_wus: u32,
}

impl View for BlockTxEntry {
    type V = BlockTxEntryModel;

    open spec fn view(&self) -> BlockTxEntryModel {
        BlockTxEntryModel { hash: self.hash@, value_sats: self.value_sats, fee_sats: self.fee_sats, size_wus: self.size_wus }
    }
}

/// The stored entry of an analyzed transaction.
pub open spec fn spec_entry_of(tx: SerializedTx) -> BlockTxEntryModel {
    BlockTxEntryModel { hash: tx.hash@, value_sats: tx.txouts_sum, fee_sats: tx.fee, size_wus: tx.size_wus }
}

/// The 52 bytes of an entry: hash, value, fee (little-endian `u64`s), size (little-endian `u32`).
pub open spec fn spec_entry_bytes(e: BlockTxEntryModel) -> Seq<u8> {
    e.hash + spec_u64_to_le_bytes(e.value_sats) + spec_u64_to_le_bytes(e.fee_sats) + spec_u32_to_le_bytes(e.size_wus)
}

/// The entries one after another.
pub open spec fn spec_entries_bytes(es: Seq<BlockTxEntryModel>) -> Seq<u8>
    decreases es.len(),
{
    if es.len() == 0 {
        Seq::empty()
    } else {
        spec_entries_bytes(es.drop_last()) + spec_entry_bytes(es.last())
    }
}

/// A block's stored transaction list: the count as a varint, then the entries.
pub open spec fn spec_block_txs_bytes(es: Seq<BlockTxEntryModel>) -> Seq<u8> {
    spec_varint_bytes(es.len() as u64) + spec_entries_bytes(es)
}

/// The entry of 52 bytes at the start of `s`.
pub open spec fn spec_parse_entry(s: Seq<u8>) -> BlockTxEntryModel {
    BlockTxEntryModel {
        hash: s.subrange(0, 32),
        value_sats: spec_u64_from_le_bytes(s.subrange(32, 40)),
        fee_sats: spec_u64_from_le_bytes(s.subrange(40, 48)),
        size_wus: spec_u32_from_le_bytes(s.subrange(48, 52)),
    }
}

/// Reading a block's stored transaction list: refused when empty, when the
/// count does not decode, or when the entries it announces do not fit.
pub open spec fn spec_parse_block_txs(s: Seq<u8>) -> Result<Seq<BlockTxEntryModel>, DbError> {
    if s.len() == 0 {
        Err(DbError::DataEmpty)
    } else {
        match spec_parse_varint(s) {
            None => Err(DbError::Parse(ParseError::NotEnoughBytes)),
            Some((count, off)) => if off + 52 * count <= s.len() {
                Ok(Seq::new(count as nat, |i: int| spec_parse_entry(s.subrange(off + 52 * i, off + 52 * i + 52))))
            } else {
                Err(DbError::Parse(ParseError::NotEnoughBytes))
            },
        }
    }
}

/// Encodes the list of a block's transactions for storage.
pub fn serialize_block_tx_entries(txs: &[SerializedTx]) -> (r: Vec<u8>)
    ensures
        r@ == spec_block_txs_bytes(txs@.map_values(|t: SerializedTx| spec_entry_of(t))),
{
    let ghost es = txs@.map_values(|t: SerializedTx| spec_entry_of(t));
    let mut out: Vec<u8> = Vec::new();
    serialize_varint(txs.len() as VarInt, &mut out);
    let ghost head = out@;
    let mut i: usize = 0;
    while i < txs.len()
        invariant
            i <= txs@.len(),
            es == txs@.map_values(|t: SerializedTx| spec_entry_of(t)),
            out@ == head + spec_entries_bytes(es.take(i as int)),
        decreases txs@.len() - i,
    {
        let t = txs[i];
        put_slice(&mut out, t.hash.as_slice());
        put_u64_le(&mut out, t.txouts_sum);
        put_u64_le(&mut out, t.fee);
        put_u32_le(&mut out, t.size_wus);
        assert(es.take(i + 1).drop_last() =~= es.take(i as int));
        i = i + 1;
        assert(out@ =~= head + spec_entries_bytes(es.take(i as int)));
    }
    assert(es.take(i as int) =~= es);
    out
}

/// The bytes of the first `n` entries have `52 * n` bytes, and entry `i`
/// sits at `52 * i`.
proof fn lemma_entries_layout(es: Seq<BlockTxEntryModel>)
    requires
        forall|i: int| 0 <= i < es.len() ==> (#[trigger] es[i]).hash.len() == 32,
    ensures
        spec_entries_bytes(es).len() == 52 * es.len(),
        forall|i: int| 0 <= i < es.len() ==> spec_entries_bytes(es).subrange(52 * i, 52 * i + 52) == spec_entry_bytes(#[trigger] es[i]),
    decreases es.len(),
{
    lemma_int_bytes_roundtrip();
    if es.len() > 0 {
        let init = es.drop_last();
        lemma_entries_layout(init);
        let a = spec_entries_bytes(init);
        let b = spec_entry_bytes(es.last());
        assert forall|i: int| 0 <= i < es.len() implies spec_entries_bytes(es).subrange(52 * i, 52 * i + 52) == spec_entry_bytes(#[trigger] es[i]) by {
            if i < es.len() - 1 {
                assert(init[i] == es[i]);
                assert((a + b).subrange(52 * i, 52 * i + 52) =~= a.subrange(52 * i, 52 * i + 52));
            } else {
                assert((a + b).subrange(52 * i, 52 * i + 52) =~= b);
            }
        }
    }
}

/// An entry read back from its bytes is itself.
proof fn lemma_entry_roundtrip(e: BlockTxEntryModel)
    requires
        e.hash.len() == 32,
    ensures
        spec_parse_entry(spec_entry_bytes(e)) == e,
{
    lemma_int_bytes_roundtrip();
    let s = spec_entry_bytes(e);
    assert(s.subrange(0, 32) =~= e.hash);
    assert(s.subrange(32, 40) =~= spec_u64_to_le_bytes(e.value_sats));
    assert(s.subrange(40, 48) =~= spec_u64_to_le_bytes(e.fee_sats));
    assert(s.subrange(48, 52) =~= spec_u32_to_le_bytes(e.size_wus));
}

/// Reads a block's stored transaction list.
pub fn deserialize_block_tx_entries(data: &[u8]) -> (r: Result<Vec<BlockTxEntry>, DbError>)
    ensures
        match (r, spec_parse_block_txs(data@)) {
            (Ok(v), Ok(m)) => v@.map_values(|e: BlockTxEntry| e@) == m,
            (Err(e), Err(f)) => e == f,
            _ => false,
        },
{
    if data.len() == 0 {
        return Err(DbError::DataEmpty);
    }
    let (count, off) = match deserialize_varint(data) {
        Ok(v) => v,
        Err(e) => return Err(DbError::Parse(ParseError::NotEnoughBytes)),
    };
    proof {
        lemma_parse_varint_len(data@);
    }
    if count > ((data.len() - off) / 52) as u64 {
        proof {
            let room = (data@.len() - off) as int;
            assert(52 * count > room) by (nonlinear_arith)
                requires count > room / 52, room >= 0;
        }
        return Err(DbError::Parse(ParseError::NotEnoughBytes));
    }
    proof {
        let room = (data@.len() - off) as int;
        assert(52 * count <= room) by (nonlinear_arith)
            requires count <= room / 52, room >= 0;
    }
    let ghost want = Seq::new(count as nat, |i: int| spec_parse_entry(data@.subrange(off + 52 * i, off + 52 * i + 52)));
    let mut result: Vec<BlockTxEntry> = Vec::new();
    let mut continue_at = off;
    let mut i: u64 = 0;
    while i < count
        invariant
            i <= count,
            data@.len() == data.len(),
            off + 52 * count <= data@.len(),
            continue_at == off + 52 * i,
            want == Seq::new(count as nat, |k: int| spec_parse_entry(data@.subrange(off + 52 * k, off + 52 * k + 52))),
            result@.map_values(|e: BlockTxEntry| e@) == want.take(i as int),
        decreases count - i,
    {
        assert(52 * i + 52 <= 52 * count) by (nonlinear_arith)
            requires i < count;
        let mut hash = [0u8; 32];
        let mut k: usize = 0;
        while k < 32
            invariant
                k <= 32,
                data@.len() == data.len(),
                continue_at + 52 <= data@.len(),
                forall|j: int| 0 <= j < k ==> hash@[j] == data@[continue_at + j],
            decreases 32 - k,
        {
            hash[k] = data[continue_at + k];
            k = k + 1;
        }
        let value_sats = u64_from_le_bytes(&data[continue_at + 32..continue_at + 40]);
        let fee_sats = u64_from_le_bytes(&data[continue_at + 40..continue_at + 48]);
        let size_wus = u32_from_le_bytes(&data[continue_at + 48..continue_at + 52]);
        let e = BlockTxEntry { hash, value_sats, fee_sats, size_wus };
        proof {
            let rec = data@.subrange(continue_at as int, continue_at + 52);
            assert(hash@ =~= rec.subrange(0, 32));
            assert(data@.subrange(continue_at + 32, continue_at + 40) =~= rec.subrange(32, 40));
            assert(data@.subrange(continue_at + 40, continue_at + 48) =~= rec.subrange(40, 48));
            assert(data@.subrange(continue_at + 48, continue_at + 52) =~= rec.subrange(48, 52));
            assert(e@ == want[i as int]);
        }
        let ghost prev = result@.map_values(|e: BlockTxEntry| e@);
        result.push(e);
        assert(result@.map_values(|e: BlockTxEntry| e@) =~= prev.push(e@));
        assert(want.take(i + 1) =~= want.take(i as int).push(want[i as int]));
        continue_at = continue_at + 52;
        i = i + 1;
    }
    assert(want.take(i as int) =~= want);
    Ok(result)
}

/// Reading back the stored list of a block's transactions gives their entries.
pub proof fn lemma_block_txs_roundtrip(es: Seq<BlockTxEntryModel>)
    requires
        es.len() <= u64::MAX,
        forall|i: int| 0 <= i < es.len() ==> (#[trigger] es[i]).hash.len() == 32,
    ensures
        spec_parse_block_txs(spec_block_txs_bytes(es)) == Ok::<Seq<BlockTxEntryModel>, DbError>(es),
{
    let head = spec_varint_bytes(es.len() as u64);
    let body = spec_entries_bytes(es);
    let s = head + body;
    lemma_varint_roundtrip(es.len() as u64, body);
    lemma_entries_layout(es);
    let off = head.len() as int;
    assert(s.len() > 0);
    assert forall|i: int| 0 <= i < es.len() implies spec_parse_entry(#[trigger] s.subrange(off + 52 * i, off + 52 * i + 52)) == es[i] by {
        assert(s.subrange(off + 52 * i, off + 52 * i + 52) =~= body.subrange(52 * i, 52 * i + 52));
        lemma_entry_roundtrip(es[i]);
    }
    assert(Seq::new(es.len(), |i: int| spec_parse_entry(s.subrange(off + 52 * i, off + 52 * i + 52))) =~= es);
}

/// Reads the stored outputs of a transaction: an array of outputs.
pub fn deserialize_transaction_outputs(data: &[u8]) -> (r: Result<Vec<TxOutOwned>, DbError>)
    ensures
        data@.len() == 0 ==> r == Err::<Vec<TxOutOwned>, DbError>(DbError::DataEmpty),
        data@.len() > 0 ==> (r is Ok <==> spec_deserialize_array_owned::<TxOutOwned>(data@) is Some),
        r matches Ok(v) ==> spec_deserialize_array_owned::<TxOutOwned>(data@).unwrap().0 == v@.map_values(|t: TxOutOwned| t@),
{
    if data.len() == 0 {
        return Err(DbError::DataEmpty);
    }
    match deserialize_array_owned::<TxOutOwned>(data) {
        Ok((result, _)) => Ok(result),
        Err(e) => Err(DbError::Parse(e)),
    }
}

/// The value stored for a spent output: the spending transaction's hash,
/// then the hash of its block.
pub fn spend_value(tx_hash: &[u8; 32], block_hash: &[u8; 32]) -> (r: Vec<u8>)
    ensures
        r@ == tx_hash@ + block_hash@,
{
    let mut v: Vec<u8> = Vec::new();
    put_slice(&mut v, tx_hash.as_slice());
    put_slice(&mut v, block_hash.as_slice());
    v
}

/// Reads a stored spend: the output index from the 36-byte key (hash,
/// then little-endian index), and the spending transaction and block from
/// the 64-byte value.
pub fn decode_tx_spend(key: &[u8], value: &[u8]) -> (r: (u32, [u8; 32], [u8; 32]))
    requires
        key@.len() == 36,
        value@.len() == 64,
    ensures
        r.0 == spec_u32_from_le_bytes(key@.subrange(32, 36)),
        r.1@ == value@.subrange(0, 32),
        r.2@ == value@.subrange(32, 64),
{
    let txo_index = u32_from_le_bytes(&key[32..36]);
    let tx = crate::packets::buffer::Buffer::get_hash(value, 0).unwrap();
    let block = crate::packets::buffer::Buffer::get_hash(value, 32).unwrap();
    (txo_index, tx, block)
}

/// Keys of an address's history sort newest first: the address, then
/// `u64::MAX` minus the timestamp, big-endian, then the transaction hash.
pub open spec fn spec_address_key_prefix(address: Seq<u8>, timestamp: u64) -> Seq<u8> {
    address + spec_u64_to_be_bytes((u64::MAX - timestamp) as u64)
}

/// The bounds of the keys of an address's history between two timestamps.
pub fn address_range(address: &[u8], from_timestamp: u64, to_timestamp: u64) -> (r: (Vec<u8>, Vec<u8>))
    ensures
        r.0@ == spec_address_key_prefix(address@, to_timestamp),
        r.1@ == spec_address_key_prefix(address@, from_timestamp),
{
    let mut start: Vec<u8> = Vec::new();
    put_slice(&mut start, address);
    put_u64(&mut start, u64::MAX - to_timestamp);
    let mut end: Vec<u8> = Vec::new();
    put_slice(&mut end, address);
    put_u64(&mut end, u64::MAX - from_timestamp);
    (start, end)
}

/// The bounds of the keys of an address's history older than the entry
/// of `after_tx` at `after_timestamp`.
pub fn address_continue_range(address: &[u8], after_tx: &[u8; 32], after_timestamp: u64) -> (r: (Vec<u8>, Vec<u8>))
    ensures
        r.0@ == spec_address_key_prefix(address@, after_timestamp) + after_tx@,
        r.1@ == address@ + spec_u64_to_be_bytes(u64::MAX),
{
    let mut start: Vec<u8> = Vec::new();
    put_slice(&mut start, address);
    put_u64(&mut start, u64::MAX - after_timestamp);
    put_slice(&mut start, after_tx.as_slice());
    let mut end: Vec<u8> = Vec::new();
    put_slice(&mut end, address);
    put_u64(&mut end, u64::MAX);
    (start, end)
}

/// The value stored for a change of an address's balance: the block's hash,
/// then the change as a little-endian `i64`.
pub open spec fn spec_amend_value(block_hash: Seq<u8>, delta: i64) -> Seq<u8> {
    block_hash + spec_u64_to_le_bytes(delta as u64)
}

/// The change of balance a stored value holds.
pub open spec fn spec_value_delta(value: Seq<u8>) -> i64 {
    spec_u64_from_le_bytes(value.subrange(32, 40)) as i64
}

/// The timestamp a history key holds after the address's `address_len` bytes.
pub open spec fn spec_key_timestamp(key: Seq<u8>, address_len: int) -> u64 {
    (u64::MAX - spec_u64_from_be_bytes(key.subrange(address_len, address_len + 8))) as u64
}

/// The value stored for a change of an address's balance.
pub fn amend_value(block_hash: &[u8; 32], delta: i64) -> (r: Vec<u8>)
    ensures
        r@ == spec_amend_value(block_hash@, delta),
{
    let mut v: Vec<u8> = Vec::new();
    put_slice(&mut v, block_hash.as_slice());
    #[verifier::truncate]
    let raw: u64 = delta as u64;
    put_u64_le(&mut v, raw);
    v
}

/// Reads an entry of an address's history: the transaction hash that ends
/// the key, and the block hash and balance change of the value.
pub fn decode_address_entry(key: &[u8], value: &[u8]) -> (r: ([u8; 32], [u8; 32], i64))
    requires
        key@.len() >= 40,
        value@.len() == 40,
    ensures
        r.0@ == key@.subrange(key@.len() - 32, key@.len() as int),
        r.1@ == value@.subrange(0, 32),
        r.2 == spec_value_delta(value@),
{
    let tx_hash = crate::packets::buffer::Buffer::get_hash(key, key.len() - 32).unwrap();
    let block_hash = crate::packets::buffer::Buffer::get_hash(value, 0).unwrap();
    let raw = u64_from_le_bytes(&value[32..40]);
    #[verifier::truncate]
    let delta: i64 = raw as i64;
    (tx_hash, block_hash, delta)
}

/// Reading the balance change back from its stored value gives it.
pub proof fn lemma_amend_roundtrip(block_hash: Seq<u8>, delta: i64)
    requires
        block_hash.len() == 32,
    ensures
        spec_amend_value(block_hash, delta).subrange(0, 32) == block_hash,
        spec_value_delta(spec_amend_value(block_hash, delta)) == delta,
{
    lemma_int_bytes_roundtrip();
    let v = spec_amend_value(block_hash, delta);
    assert(v.subrange(0, 32) =~= block_hash);
    assert(v.subrange(32, 40) =~= spec_u64_to_le_bytes(delta as u64));
    let u = delta as u64;
    assert((u as i64) == delta) by (bit_vector)
        requires u == delta as u64;
}

/// What an address's history adds up to.
pub struct TopAddressData {
    pub transactions: Vec<([u8; 32], [u8; 32], i64)>,
    pub total_txs: usize,
    pub total_spent: u64,
    pub total_received: u64,
    pub first_seen: u64,
}

/// The amount a balance change moves: its size for a decrease, itself for
/// an increase (each as a `u64`; the sums wrap around).
pub open spec fn spec_amount(delta: i64) -> u64 {
    if delta < 0 {
        (-(delta as int)) as u64
    } else {
        delta as u64
    }
}

/// The totals of a run of history entries, newest first: spent, received
/// (both summed modulo `2^64`) and the timestamp of the oldest entry.
pub open spec fn spec_address_totals(entries: Seq<(Seq<u8>, Seq<u8>)>, address_len: int) -> (u64, u64, u64)
    decreases entries.len(),
{
    if entries.len() == 0 {
        (0, 0, 0)
    } else {
        let (sent, received, _) = spec_address_totals(entries.drop_last(), address_len);
        let (key, value) = entries.last();
        let d = spec_value_delta(value);
        if d < 0 {
            (((sent + spec_amount(d)) % 0x1_0000_0000_0000_0000) as u64, received, spec_key_timestamp(key, address_len))
        } else {
            (sent, ((received + spec_amount(d)) % 0x1_0000_0000_0000_0000) as u64, spec_key_timestamp(key, address_len))
        }
    }
}

/// The byte strings of a list of key and value pairs.
pub open spec fn spec_pairs_view(v: Seq<(Vec<u8>, Vec<u8>)>) -> Seq<(Seq<u8>, Seq<u8>)> {
    v.map_values(|p: (Vec<u8>, Vec<u8>)| (p.0@, p.1@))
}

/// Adds up an address's history, read newest first: the first `top_count`
/// entries, how many there are, the totals spent and received, and when
/// the address was first seen (the oldest entry's time).
pub fn summarize_address_entries(entries: &Vec<(Vec<u8>, Vec<u8>)>, address_len: usize, top_count: usize) -> (r: TopAddressData)
    requires
        forall|i: int| 0 <= i < entries@.len() ==> (#[trigger] entries@[i]).0@.len() == address_len + 40
            && entries@[i].1@.len() == 40,
    ensures
        r.total_txs == entries@.len(),
        r.transactions@.len() == if entries@.len() < top_count { entries@.len() as int } else { top_count as int },
        forall|i: int| 0 <= i < r.transactions@.len() ==> {
            let (k, v) = #[trigger] spec_pairs_view(entries@)[i];
            &&& r.transactions@[i].0@ == k.subrange(k.len() - 32, k.len() as int)
            &&& r.transactions@[i].1@ == v.subrange(0, 32)
            &&& r.transactions@[i].2 == spec_value_delta(v)
        },
        (r.total_spent, r.total_received, r.first_seen) == spec_address_totals(spec_pairs_view(entries@), address_len as int),
{
    let ghost pairs = spec_pairs_view(entries@);
    let mut results: Vec<([u8; 32], [u8; 32], i64)> = Vec::new();
    let mut total_txs: usize = 0;
    let mut last_time: u64 = 0;
    let mut total_received: u64 = 0;
    let mut total_sent: u64 = 0;
    let mut i: usize = 0;
    while i < entries.len()
        invariant
            i <= entries@.len(),
            pairs == spec_pairs_view(entries@),
            forall|j: int| 0 <= j < entries@.len() ==> (#[trigger] entries@[j]).0@.len() == address_len + 40
                && entries@[j].1@.len() == 40,
            total_txs == i,
            results@.len() == if i < top_count { i as int } else { top_count as int },
            forall|j: int| 0 <= j < results@.len() ==> {
                let (k, v) = #[trigger] pairs[j];
                &&& results@[j].0@ == k.subrange(k.len() - 32, k.len() as int)
                &&& results@[j].1@ == v.subrange(0, 32)
                &&& results@[j].2 == spec_value_delta(v)
            },
            (total_sent, total_received, last_time) == spec_address_totals(pairs.take(i as int), address_len as int),
        decreases entries@.len() - i,
    {
        let key = entries[i].0.as_slice();
        let value = entries[i].1.as_slice();
        assert(pairs[i as int] == (key@, value@));
        let (tx_hash, block_hash, delta) = decode_address_entry(key, value);
        if results.len() < top_count {
            results.push((tx_hash, block_hash, delta));
        }
        total_txs = total_txs + 1;
        let stamp = crate::packets::buffer::Buffer::get_u64(key, address_len).unwrap();
        last_time = u64::MAX - stamp;
        assert(pairs.take(i + 1).drop_last() =~= pairs.take(i as int));
        assert(pairs.take(i + 1).last() == pairs[i as int]);
        if delta < 0 {
            #[verifier::truncate]
            let amount: u64 = (0i128 - delta as i128) as u64;
            assert(amount == spec_amount(delta)) by (bit_vector)
                requires delta < 0, amount == (0i128 - delta as i128) as u64;
            total_sent = total_sent.wrapping_add(amount);
        } else {
            let amount: u64 = delta as u64;
            total_received = total_received.wrapping_add(amount);
        }
        i = i + 1;
    }
    assert(pairs.take(i as int) =~= pairs);
    TopAddressData { transactions: results, total_txs, total_spent: total_sent, total_received, first_seen: last_time }
}

} // verus!
