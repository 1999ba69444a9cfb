//! Blocks: a header, then its transactions, checked against the header's merkle root.
use vstd::prelude::*;
use super::buffer::{Buffer, ParseError};
use super::blockheader::{
    BlockHeaderModel, BlockHeaderBorrowed, BlockHeaderOwned, spec_parse_block_header, spec_header_bytes,
    spec_header_hash_matches, spec_hash_meets_target, lemma_block_header_roundtrip,
};
use super::packetpayload::{
    DeserializableBorrowed, PacketPayload, Serializable, deserialize_array, spec_deserialize_array,
    spec_serialize_items, spec_serialize_array, lemma_deserialize_array_len, lemma_array_roundtrip,
    items_roundtrip, spec_deserialize_items, lemma_items_none,
};
use super::varint::{spec_parse_varint, deserialize_varint, lemma_parse_varint_len};
use super::tx::{TxModel, TxBorrowed, TxOwned, spec_tx_bytes, spec_tx_wf, lemma_tx_roundtrip};
use crate::util::crypto::spec_sha256d;
use crate::util::merkle::{MerkleTree, spec_merkle_root, hash_eq, spec_zero_hash};
use crate::util::crypto::sha256d;
use super::tx::TxOutModel;

verus! {

broadcast use vstd::seq_lib::group_seq_properties, vstd::slice::group_slice_axioms;

/// The command name of `block`.
pub const BLOCK_COMMAND: [u8; 12] = [98, 108, 111, 99, 107, 0, 0, 0, 0, 0, 0, 0];

/// A block: its header and its transactions.
pub struct BlockModel {
    pub header: BlockHeaderModel,
    pub txs: Seq<TxModel>,
}

/// The ids of a list of transactions.
pub open spec fn spec_tx_ids(txs: Seq<TxModel>) -> Seq<Seq<u8>> {
    txs.map_values(|t: TxModel| t.hash)
}

/// Decoding a block: a header that meets its target, then the array of
/// transactions (whose count is read again at byte 80); refused when the
/// merkle tree of the transaction ids is mutated or its root is not the
/// header's merkle root.
pub open spec fn spec_parse_block(s: Seq<u8>) -> Option<(BlockModel, int)> {
    match spec_parse_block_header(s) {
        None => None,
        Some((header, _)) => match spec_deserialize_array::<TxBorrowed>(s.subrange(80, s.len() as int)) {
            None => None,
            Some((txs, n)) => {
                let (root, mutated) = spec_merkle_root(spec_tx_ids(txs));
                if mutated || root != header.merkle_root {
                    None
                } else {
                    Some((BlockModel { header, txs }, 80 + n))
                }
            },
        },
    }
}

/// The error a block gets when its header and transactions decode but its
/// merkle tree is mutated, or its root is not the header's.
pub open spec fn spec_block_merkle_error(s: Seq<u8>) -> Option<ParseError> {
    match spec_parse_block_header(s) {
        None => None,
        Some((header, _)) => match spec_deserialize_array::<TxBorrowed>(s.subrange(80, s.len() as int)) {
            None => None,
            Some((txs, _)) => {
                let (root, mutated) = spec_merkle_root(spec_tx_ids(txs));
                if mutated {
                    Some(ParseError::MerkleRootMutated)
                } else if root != header.merkle_root {
                    Some(ParseError::MerkleRootMismatch)
                } else {
                    None
                }
            },
        },
    }
}

/// A block decoded from a buffer.
#[derive(Debug, Clone)]
pub struct BlockBorrowed<'a> {
    pub header: BlockHeaderBorrowed,
    pub txs: Vec<TxBorrowed<'a>>,
}

impl<'a> View for BlockBorrowed<'a> {
    type V = BlockModel;

    open spec fn view(&self) -> BlockModel {
        BlockModel { header: self.header@, txs: self.txs@.map_values(|t: TxBorrowed<'a>| t@) }
    }
}

impl<'a> Default for BlockBorrowed<'a> {
    fn default() -> (r: Self)
        ensures
            r@.txs.len() == 0,
    {
        BlockBorrowed { header: BlockHeaderBorrowed::default(), txs: Vec::new() }
    }
}

impl<'a> PacketPayload for BlockBorrowed<'a> {
    open spec fn spec_command() -> Seq<u8> {
        BLOCK_COMMAND@
    }

    fn command(&self) -> (r: [u8; 12]) {
        BLOCK_COMMAND
    }
}

/// The merkle root of the ids of `txs`, and whether its tree is mutated.
fn merkle_root_of<'a>(txs: &Vec<TxBorrowed<'a>>) -> (r: ([u8; 32], bool))
    ensures
        (r.0@, r.1) == spec_merkle_root(spec_tx_ids(txs@.map_values(|t: TxBorrowed<'a>| t@))),
{
    let ghost ids = spec_tx_ids(txs@.map_values(|t: TxBorrowed<'a>| t@));
    let mut merkle_tree = MerkleTree::with_capacity(txs.len());
    let mut i: usize = 0;
    while i < txs.len()
        invariant
            i <= txs@.len(),
            ids == spec_tx_ids(txs@.map_values(|t: TxBorrowed<'a>| t@)),
            merkle_tree@ == ids.take(i as int),
        decreases txs@.len() - i,
    {
        merkle_tree.append_hash(&txs[i].hash);
        assert(ids.take(i + 1) =~= ids.take(i as int).push(txs@[i as int].hash@));
        i = i + 1;
    }
    assert(ids.take(i as int) =~= ids);
    merkle_tree.into_root()
}

impl<'a> DeserializableBorrowed<'a> for BlockBorrowed<'a> {
    open spec fn spec_deserialize(s: Seq<u8>) -> Option<(BlockModel, int)> {
        spec_parse_block(s)
    }

    proof fn lemma_deserialize_len(s: Seq<u8>) {
        if s.len() >= 80 {
            lemma_deserialize_array_len::<TxBorrowed>(s.subrange(80, s.len() as int));
        }
    }

    #[verifier::rlimit(40)]
    fn deserialize_borrowed(&mut self, buffer: &'a [u8]) -> (r: Result<usize, ParseError>)
        ensures
            spec_block_merkle_error(buffer@) matches Some(e) ==> r == Err::<usize, ParseError>(e),
    {
        let mut header = BlockHeaderBorrowed::default();
        let header_len = header.deserialize_borrowed(buffer)?;
        let (txs, offset) = deserialize_array::<TxBorrowed<'a>>(buffer.with_offset(80)?)?;
        proof {
            lemma_deserialize_array_len::<TxBorrowed<'a>>(buffer@.subrange(80, buffer@.len() as int));
        }
        let (merkle_root, mutated) = merkle_root_of(&txs);
        let ghost txs_model = txs@.map_values(|t: TxBorrowed<'a>| t@);
        assert(spec_parse_block_header(buffer@) == Some((header@, header_len as int)));
        assert(spec_deserialize_array::<TxBorrowed>(buffer@.subrange(80, buffer@.len() as int)) == Some((txs_model, offset as int)));
        if mutated {
            return Err(ParseError::MerkleRootMutated);
        }
        if !hash_eq(&merkle_root, &header.merkle_root) {
            return Err(ParseError::MerkleRootMismatch);
        }
        assert(buffer@.len() == buffer.len());
        self.header = header;
        self.txs = txs;
        Ok(offset + 80)
    }
}

/// The encoding of a block: its header (which ends with the transaction
/// count), then each transaction.
pub open spec fn spec_block_bytes(v: BlockModel) -> Seq<u8> {
    spec_header_bytes(v.header) + spec_serialize_items::<TxOwned>(v.txs)
}

/// A block to be sent or kept.
#[derive(Debug, Clone)]
pub struct BlockOwned {
    pub header: BlockHeaderOwned,
    pub txs: Vec<TxOwned>,
}

impl View for BlockOwned {
    type V = BlockModel;

    open spec fn view(&self) -> BlockModel {
        BlockModel { header: self.header@, txs: self.txs@.map_values(|t: TxOwned| t@) }
    }
}

impl Serializable for BlockOwned {
    open spec fn spec_serialize(v: BlockModel) -> Seq<u8> {
        spec_block_bytes(v)
    }

    open spec fn spec_serializable(v: BlockModel) -> bool {
        forall|i: int| 0 <= i < v.txs.len() ==> TxOwned::spec_serializable(#[trigger] v.txs[i])
    }

    fn serialize(&self, stream: &mut Vec<u8>) {
        let ghost txs = self@.txs;
        self.header.serialize(stream);
        let ghost start = stream@;
        let mut i: usize = 0;
        while i < self.txs.len()
            invariant
                i <= self.txs@.len(),
                txs == self.txs@.map_values(|t: TxOwned| t@),
                forall|k: int| 0 <= k < txs.len() ==> TxOwned::spec_serializable(#[trigger] txs[k]),
                stream@ == start + spec_serialize_items::<TxOwned>(txs.take(i as int)),
            decreases self.txs@.len() - i,
        {
            assert(TxOwned::spec_serializable(txs[i as int]));
            self.txs[i].serialize(stream);
            assert(txs.take(i + 1).drop_last() =~= txs.take(i as int));
            i = i + 1;
            assert(stream@ =~= start + spec_serialize_items::<TxOwned>(txs.take(i as int)));
        }
        assert(txs.take(i as int) =~= txs);
        assert(stream@ =~= old(stream)@ + spec_block_bytes(self@));
    }
}

impl BlockOwned {
    /// The owned copy of a decoded block.
    pub fn from(value: BlockBorrowed<'_>) -> (r: BlockOwned)
        ensures
            r@ == value@,
    {
        let header = BlockHeaderOwned::from(value.header);
        let mut txs: Vec<TxOwned> = Vec::new();
        let ghost src = value.txs@.map_values(|t: TxBorrowed| t@);
        let mut i: usize = 0;
        while i < value.txs.len()
            invariant
                i <= value.txs@.len(),
                src == value.txs@.map_values(|t: TxBorrowed| t@),
                txs@.map_values(|t: TxOwned| t@) == src.take(i as int),
            decreases value.txs@.len() - i,
        {
            let ghost prev = txs@.map_values(|t: TxOwned| t@);
            let t = TxOwned::from(&value.txs[i]);
            txs.push(t);
            assert(src.take(i + 1) =~= src.take(i as int).push(src[i as int]));
            assert(txs@.map_values(|t: TxOwned| t@) =~= prev.push(t@));
            i = i + 1;
        }
        assert(src.take(i as int) =~= src);
        BlockOwned { header, txs }
    }
}

/// A transaction whose encoding decodes back to it: well formed, with
/// inputs, without witnesses, and with the id of its encoding.
pub open spec fn spec_tx_roundtrips(t: TxModel) -> bool {
    &&& spec_tx_wf(t)
    &&& t.txins.len() > 0
    &&& t.witness_data is None
    &&& t.hash == spec_sha256d(spec_tx_bytes(t))
}

proof fn lemma_txs_roundtrip(txs: Seq<TxModel>)
    requires
        forall|i: int| 0 <= i < txs.len() ==> spec_tx_roundtrips(#[trigger] txs[i]),
    ensures
        items_roundtrip::<TxBorrowed, TxOwned>(txs),
{
    assert forall|i: int, rest: Seq<u8>| 0 <= i < txs.len() implies
        #[trigger] TxBorrowed::spec_deserialize(TxOwned::spec_serialize(txs[i]) + rest)
            == Some((txs[i], TxOwned::spec_serialize(txs[i]).len() as int)) by {
        assert(spec_tx_roundtrips(txs[i]));
        lemma_tx_roundtrip(txs[i], rest);
        assert(TxModel { hash: spec_sha256d(spec_tx_bytes(txs[i])), ..txs[i] } == txs[i]);
    }
}

proof fn lemma_assoc(a: Seq<u8>, b: Seq<u8>, c: Seq<u8>)
    ensures
        (a + b) + c == a + (b + c),
{
    assert((a + b) + c =~= a + (b + c));
}

proof fn lemma_txs_array_roundtrip(txs: Seq<TxModel>, rest: Seq<u8>)
    requires
        txs.len() <= u64::MAX,
        forall|i: int| 0 <= i < txs.len() ==> spec_tx_roundtrips(#[trigger] txs[i]),
    ensures
        spec_deserialize_array::<TxBorrowed>(spec_serialize_array::<TxOwned>(txs) + rest)
            == Some((txs, spec_serialize_array::<TxOwned>(txs).len() as int)),
{
    lemma_txs_roundtrip(txs);
    lemma_array_roundtrip::<TxBorrowed, TxOwned>(txs, rest);
}

proof fn lemma_skip_fields(fields: Seq<u8>, count: Seq<u8>, items: Seq<u8>, rest: Seq<u8>)
    requires
        fields.len() == 80,
    ensures
        ({
            let s = fields + count + items + rest;
            s.subrange(80, s.len() as int) == (count + items) + rest
        }),
{
    let s = fields + count + items + rest;
    assert(s.subrange(80, s.len() as int) =~= (count + items) + rest);
}

/// Decoding the encoding of a block gives it back, whatever follows it, when
/// its header's hash is the hash of its fields and meets its target, its
/// count is the number of its transactions, each transaction decodes back to
/// itself, and the merkle tree of their ids is not mutated and has the
/// header's root.
#[verifier::spinoff_prover]
pub proof fn lemma_block_roundtrip(v: BlockModel, rest: Seq<u8>)
    requires
        v.header.parent.len() == 32,
        v.header.merkle_root.len() == 32,
        spec_header_hash_matches(v.header),
        spec_hash_meets_target(v.header.hash, v.header.bits),
        v.header.txs_count == v.txs.len(),
        forall|i: int| 0 <= i < v.txs.len() ==> spec_tx_roundtrips(#[trigger] v.txs[i]),
        spec_merkle_root(spec_tx_ids(v.txs)) == (v.header.merkle_root, false),
    ensures
        spec_parse_block(spec_block_bytes(v) + rest) == Some((v, spec_block_bytes(v).len() as int)),
{
    let items = spec_serialize_items::<TxOwned>(v.txs);
    let s = spec_block_bytes(v) + rest;
    lemma_block_header_roundtrip(v.header, items + rest);
    lemma_assoc(spec_header_bytes(v.header), items, rest);
    let fields = super::blockheader::spec_header_fields_bytes(v.header);
    let count = super::varint::spec_varint_bytes(v.header.txs_count);
    lemma_skip_fields(fields, count, items, rest);
    assert(spec_serialize_array::<TxOwned>(v.txs) == count + items);
    lemma_txs_array_roundtrip(v.txs, rest);
    assert(spec_deserialize_array::<TxBorrowed>(s.subrange(80, s.len() as int)) == Some((v.txs, (count + items).len() as int)));
}

/// Why a block's witness commitment was refused.
#[derive(Debug, Clone, Copy, PartialEq, Eq)]
pub enum WitnessError {
    /// The coinbase commits to witnesses but carries none.
    MissingWitnessData,
    /// The coinbase's witness is not one 32-byte item.
    InvalidCoinbaseWitness,
    /// The merkle tree of the witness ids is mutated.
    WitnessRootMutated,
    /// The committed hash is not the one the witness ids give.
    InvalidWitnessCommitment,
}

/// Whether an output script is a witness commitment: `OP_RETURN`, a push of
/// 36 bytes starting `aa21a9ed`, at least 38 bytes in all.
pub open spec fn spec_is_commitment(script: Seq<u8>) -> bool {
    script.len() >= 38 && script.subrange(0, 6) == seq![0x6au8, 0x24, 0xaa, 0x21, 0xa9, 0xed]
}

/// The last output of `outs` that is a witness commitment.
pub open spec fn spec_last_commitment(outs: Seq<TxOutModel>) -> Option<int>
    decreases outs.len(),
{
    if outs.len() == 0 {
        None
    } else if spec_is_commitment(outs.last().script) {
        Some(outs.len() - 1)
    } else {
        spec_last_commitment(outs.drop_last())
    }
}

/// The leaves of the witness tree: zero for the coinbase, then the other
/// transactions' witness ids.
pub open spec fn spec_witness_leaves(wtxids: Seq<Seq<u8>>) -> Seq<Seq<u8>> {
    seq![spec_zero_hash()] + wtxids.drop_first()
}

/// Checking the witness commitment of a block whose transactions have the
/// witness ids `wtxids`: a block whose coinbase has no commitment passes;
/// otherwise the last commitment must equal the double SHA-256 of the
/// witness root and the coinbase's 32-byte witness item.
pub open spec fn spec_witness_check(b: BlockModel, wtxids: Seq<Seq<u8>>) -> Result<(), WitnessError> {
    let cb = b.txs[0];
    match spec_last_commitment(cb.txouts) {
        None => Ok(()),
        Some(k) => match cb.witness_data {
            None => Err(WitnessError::MissingWitnessData),
            Some(w) => {
                let w0 = w[0];
                if w0.len() != 34 || w0[0] != 1 || w0[1] != 32 {
                    Err(WitnessError::InvalidCoinbaseWitness)
                } else {
                    let (root, mutated) = spec_merkle_root(spec_witness_leaves(wtxids));
                    if mutated {
                        Err(WitnessError::WitnessRootMutated)
                    } else if crate::util::crypto::spec_sha256d(root + w0.subrange(2, 34)) != cb.txouts[k].script.subrange(6, 38) {
                        Err(WitnessError::InvalidWitnessCommitment)
                    } else {
                        Ok(())
                    }
                }
            },
        },
    }
}

/// Whether `script` is a witness commitment.
fn is_commitment(script: &[u8]) -> (r: bool)
    ensures
        r == spec_is_commitment(script@),
{
    if script.len() < 38 {
        return false;
    }
    let r = script[0] == 0x6a && script[1] == 0x24 && script[2] == 0xaa && script[3] == 0x21 && script[4] == 0xa9
        && script[5] == 0xed;
    proof {
        if r {
            assert(script@.subrange(0, 6) =~= seq![0x6au8, 0x24, 0xaa, 0x21, 0xa9, 0xed]);
        } else {
            if script@.subrange(0, 6) == seq![0x6au8, 0x24, 0xaa, 0x21, 0xa9, 0xed] {
                assert(script@[0] == script@.subrange(0, 6)[0]);
                assert(script@[1] == script@.subrange(0, 6)[1]);
                assert(script@[2] == script@.subrange(0, 6)[2]);
                assert(script@[3] == script@.subrange(0, 6)[3]);
                assert(script@[4] == script@.subrange(0, 6)[4]);
                assert(script@[5] == script@.subrange(0, 6)[5]);
            }
        }
    }
    r
}

/// The encodings of the first `count` transactions read one after another
/// from `s`, each as it stands there.
#[verifier::opaque]
pub open spec fn spec_tx_spans(s: Seq<u8>, count: nat) -> Seq<Seq<u8>>
    decreases count,
{
    if count == 0 {
        Seq::empty()
    } else {
        let prev = spec_tx_spans(s, (count - 1) as nat);
        match spec_deserialize_items::<TxBorrowed>(s, (count - 1) as nat) {
            Some((_, off)) => if 0 <= off <= s.len() {
                match TxBorrowed::spec_deserialize(s.subrange(off, s.len() as int)) {
                    Some((_, n)) => prev.push(s.subrange(off, off + n)),
                    None => prev,
                }
            } else {
                prev
            },
            None => prev,
        }
    }
}

/// The witness ids of the transactions of the block encoded in `s`: the
/// double SHA-256 of each transaction's whole encoding (witnesses included)
/// as it stands in the block.
pub open spec fn spec_block_wtxids(s: Seq<u8>) -> Seq<Seq<u8>> {
    let body = s.subrange(80, s.len() as int);
    match spec_parse_varint(body) {
        Some((count, c)) => spec_tx_spans(body.subrange(c, body.len() as int), count as nat)
            .map_values(|t: Seq<u8>| spec_sha256d(t)),
        None => Seq::empty(),
    }
}

/// Where the first `i` transactions read from `rest` end.
#[verifier::opaque]
pub open spec fn spec_tx_end(rest: Seq<u8>, i: nat) -> Option<int> {
    match spec_deserialize_items::<TxBorrowed>(rest, i) {
        Some((_, o)) => Some(o),
        None => None,
    }
}

/// How many bytes the transaction at the start of `chunk` takes.
#[verifier::opaque]
pub open spec fn spec_tx_size(chunk: Seq<u8>) -> Option<int> {
    match TxBorrowed::spec_deserialize(chunk) {
        Some((_, n)) => Some(n),
        None => None,
    }
}

/// The witness ids of the transactions of the block encoded in `buffer`, in order.
pub fn block_witness_ids(buffer: &[u8]) -> (r: Vec<[u8; 32]>)
    requires
        spec_parse_block(buffer@) is Some,
    ensures
        crate::util::merkle::spec_hashes_view(r@) == spec_block_wtxids(buffer@),
        r@.len() == spec_parse_block(buffer@).unwrap().0.txs.len(),
{
    let ghost s = buffer@;
    let ghost body = s.subrange(80, s.len() as int);
    let tail = buffer.with_offset(80).unwrap();
    assert(tail@ == body);
    let (count, first) = deserialize_varint(tail).unwrap();
    proof {
        lemma_parse_varint_len(body);
    }
    let ghost rest = body.subrange(first as int, body.len() as int);
    proof {
        lemma_items_len_eq(rest, count as nat);
        reveal(spec_tx_end);
        reveal(spec_tx_spans);
        assert(spec_tx_spans(rest, 0) =~= Seq::<Seq<u8>>::empty());
    }
    let mut out: Vec<[u8; 32]> = Vec::new();
    assert(crate::util::merkle::spec_hashes_view(out@) =~= spec_tx_spans(rest, 0).map_values(|t: Seq<u8>| spec_sha256d(t)));
    let mut offset: usize = first;
    let mut i: u64 = 0;
    while i < count
        invariant
            tail@ == body,
            rest == body.subrange(first as int, body.len() as int),
            spec_tx_end(rest, count as nat) is Some,
            first <= offset <= tail@.len(),
            i <= count,
            out@.len() == i,
            spec_tx_end(rest, i as nat) == Some(offset - first),
            crate::util::merkle::spec_hashes_view(out@)
                == spec_tx_spans(rest, i as nat).map_values(|t: Seq<u8>| spec_sha256d(t)),
        decreases count - i,
    {
        proof {
            lemma_next_item(rest, i as nat, count as nat, offset - first);
        }
        let chunk = tail.with_offset(offset).unwrap();
        assert(chunk@ == rest.subrange(offset - first, rest.len() as int));
        let n = tx_len(chunk);
        let ghost before = crate::util::merkle::spec_hashes_view(out@);
        let ghost old_out = out@;
        let tl = tail.len();
        assert(chunk@.len() == tl - offset);
        let span = &chunk[0..n];
        let id = crate::util::crypto::sha256d(span);
        out.push(id);
        assert(out@.drop_last() =~= old_out);
        proof {
            lemma_span_step(rest, i as nat, offset - first, n as int, span@, before, out@);
        }
        offset = offset + n;
        i = i + 1;
    }
    proof {
        reveal(spec_tx_end);
        assert(spec_deserialize_array::<TxBorrowed>(body) == Some((spec_parse_block(s).unwrap().0.txs, spec_parse_block(s).unwrap().1 - 80)));
    }
    out
}

/// How many bytes the transaction at the start of `chunk` takes.
fn tx_len(chunk: &[u8]) -> (n: usize)
    requires
        spec_tx_size(chunk@) is Some,
    ensures
        spec_tx_size(chunk@) == Some(n as int),
        n <= chunk@.len(),
{
    proof {
        reveal(spec_tx_size);
    }
    let mut tx = TxBorrowed::default();
    let n = tx.deserialize_borrowed(chunk).unwrap();
    proof {
        TxBorrowed::lemma_deserialize_len(chunk@);
    }
    n
}

/// While fewer than `count` transactions of `rest` were read, the next one decodes.
proof fn lemma_next_item(rest: Seq<u8>, i: nat, count: nat, off: int)
    requires
        i < count,
        spec_tx_end(rest, count) is Some,
        spec_tx_end(rest, i) == Some(off),
    ensures
        0 <= off <= rest.len(),
        spec_tx_size(rest.subrange(off, rest.len() as int)) is Some,
{
    reveal(spec_tx_end);
    reveal(spec_tx_size);
    if spec_deserialize_items::<TxBorrowed>(rest, i + 1) is None {
        lemma_items_none::<TxBorrowed>(rest, i + 1, count);
    }
}

/// One more transaction read adds its span, and its witness id.
proof fn lemma_span_step(rest: Seq<u8>, i: nat, off: int, n: int, span: Seq<u8>, before: Seq<Seq<u8>>, out: Seq<[u8; 32]>)
    requires
        spec_tx_end(rest, i) == Some(off),
        0 <= off <= rest.len(),
        spec_tx_size(rest.subrange(off, rest.len() as int)) == Some(n),
        0 <= n <= rest.len() - off,
        span == rest.subrange(off, rest.len() as int).subrange(0, n),
        before == spec_tx_spans(rest, i).map_values(|t: Seq<u8>| spec_sha256d(t)),
        out.len() == before.len() + 1,
        crate::util::merkle::spec_hashes_view(out.drop_last()) == before,
        out.last()@ == spec_sha256d(span),
    ensures
        crate::util::merkle::spec_hashes_view(out) == spec_tx_spans(rest, i + 1).map_values(|t: Seq<u8>| spec_sha256d(t)),
        spec_tx_end(rest, i + 1) == Some(off + n),
{
    reveal(spec_tx_end);
    reveal(spec_tx_size);
    reveal(spec_tx_spans);
    assert(span =~= rest.subrange(off, off + n));
    let spans = spec_tx_spans(rest, i + 1);
    assert(spans == spec_tx_spans(rest, i).push(span));
    assert(crate::util::merkle::spec_hashes_view(out) =~= crate::util::merkle::spec_hashes_view(out.drop_last()).push(out.last()@));
    assert(spans.map_values(|t: Seq<u8>| spec_sha256d(t))
        =~= spec_tx_spans(rest, i).map_values(|t: Seq<u8>| spec_sha256d(t)).push(spec_sha256d(span)));
}

/// Decoding `count` transactions gives `count` of them.
proof fn lemma_items_len_eq(s: Seq<u8>, count: nat)
    ensures
        spec_deserialize_items::<TxBorrowed>(s, count) matches Some((items, _)) ==> items.len() == count,
    decreases count,
{
    if count > 0 {
        lemma_items_len_eq(s, (count - 1) as nat);
    }
}

impl<'a> BlockBorrowed<'a> {
    /// Checks the witness commitment of this block, decoded from `buffer`:
    /// the witness ids are those of its transactions as they stand there.
    pub fn verify_witness_commitment(&self, buffer: &[u8]) -> (r: Result<(), WitnessError>)
        requires
            spec_parse_block(buffer@) matches Some((b, _)) && b == self@,
            self.txs@.len() > 0,
            self.txs@[0]@.witness_data matches Some(w) ==> w.len() > 0,
        ensures
            r == spec_witness_check(self@, spec_block_wtxids(buffer@)),
    {
        let wtxids = block_witness_ids(buffer);
        self.check_witness_commitment(wtxids.as_slice())
    }

    /// Checks the witness commitment of the block, given the witness ids of
    /// its transactions.
    fn check_witness_commitment(&self, wtxids: &[[u8; 32]]) -> (r: Result<(), WitnessError>)
        requires
            self.txs@.len() > 0,
            wtxids@.len() == self.txs@.len(),
            self.txs@[0]@.witness_data matches Some(w) ==> w.len() > 0,
        ensures
            r == spec_witness_check(self@, crate::util::merkle::spec_hashes_view(wtxids@)),
    {
        let coinbase = &self.txs[0];
        let ghost cb = coinbase@;
        assert(self@.txs[0] == cb);
        let mut k = coinbase.txouts.len();
        assert(cb.txouts.take(k as int) =~= cb.txouts);
        while k > 0
            invariant
                k <= coinbase.txouts@.len(),
                cb == coinbase@,
                spec_last_commitment(cb.txouts) == spec_last_commitment(cb.txouts.take(k as int)),
            ensures
                k <= coinbase.txouts@.len(),
                spec_last_commitment(cb.txouts) == spec_last_commitment(cb.txouts.take(k as int)),
                k == 0 || spec_is_commitment(cb.txouts[k - 1].script),
            decreases k,
        {
            assert(cb.txouts.take(k as int).drop_last() =~= cb.txouts.take(k - 1));
            assert(cb.txouts.take(k as int).last() == coinbase.txouts@[k - 1]@);
            if is_commitment(coinbase.txouts[k - 1].script) {
                break;
            }
            k = k - 1;
        }
        if k == 0 {
            assert(cb.txouts.take(0) =~= Seq::<TxOutModel>::empty());
            return Ok(());
        }
        let script = coinbase.txouts[k - 1].script;
        let w0 = match &coinbase.witness_data {
            None => return Err(WitnessError::MissingWitnessData),
            Some(w) => w[0],
        };
        if w0.len() != 34 || w0[0] != 0x01 || w0[1] != 32 {
            return Err(WitnessError::InvalidCoinbaseWitness);
        }
        let ghost leaves = spec_witness_leaves(crate::util::merkle::spec_hashes_view(wtxids@));
        let mut tree = MerkleTree::with_capacity(wtxids.len());
        proof {
            vstd::array::axiom_spec_array_fill_for_copy_type::<u8, 32>(0u8);
        }
        let zero = [0u8; 32];
        assert(zero@ =~= spec_zero_hash());
        let mut i: usize = 0;
        while i < wtxids.len()
            invariant
                i <= wtxids@.len(),
                wtxids@.len() > 0,
                zero@ == spec_zero_hash(),
                leaves == spec_witness_leaves(crate::util::merkle::spec_hashes_view(wtxids@)),
                tree@ == leaves.take(i as int),
            decreases wtxids@.len() - i,
        {
            if i == 0 {
                tree.append_hash(&zero);
            } else {
                tree.append_hash(&wtxids[i]);
            }
            assert(leaves.take(i + 1) =~= leaves.take(i as int).push(leaves[i as int]));
            i = i + 1;
        }
        assert(leaves.take(i as int) =~= leaves);
        let (root, mutated) = tree.into_root();
        if mutated {
            return Err(WitnessError::WitnessRootMutated);
        }
        let mut combined: Vec<u8> = Vec::new();
        crate::packets::encode::put_slice(&mut combined, root.as_slice());
        crate::packets::encode::put_slice(&mut combined, &w0[2..34]);
        assert(combined@ =~= root@ + w0@.subrange(2, 34));
        let second = sha256d(combined.as_slice());
        let committed = crate::packets::buffer::Buffer::get_hash(script, 6).unwrap();
        if !hash_eq(&committed, &second) {
            return Err(WitnessError::InvalidWitnessCommitment);
        }
        Ok(())
    }
}

} // verus!
