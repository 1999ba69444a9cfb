use bitlens::packets::block::WitnessError;
use bitlens::util::crypto::sha256d;
use bitlens::packets::block::{block_witness_ids, BlockBorrowed, BlockOwned};
use bitlens::packets::blockheader::{BlockHeaderBorrowed, BlockHeaderOwned};
use bitlens::packets::buffer::ParseError;
use bitlens::packets::packetpayload::{DeserializableBorrowed, Serializable};
use bitlens::packets::tx::{TxBorrowed, TxInOwned, TxOutOwned, TxOwned, TxRef};
use bitlens::util::genesis::{genesis_header, GENESIS_MERKLE_ROOT};
use bitlens::util::merkle::MerkleTree;

const GENESIS_HEADER_HEX: &str = "0100000000000000000000000000000000000000000000000000000000000000000000003ba3edfd7a7b12b27ac72c3e67768f617fc81bc3888a51323a9fb8aa4b1e5e4a29ab5f49ffff001d1dac2b7c";
const GENESIS_TX_HEX: &str = "01000000010000000000000000000000000000000000000000000000000000000000000000ffffffff4d04ffff001d0104455468652054696d65732030332f4a616e2f32303039204368616e63656c6c6f72206f6e206272696e6b206f66207365636f6e64206261696c6f757420666f722062616e6b73ffffffff0100f2052a01000000434104678afdb0fe5548271967f1a67130b7105cd6a828e03909a67962e0ea1f61deb649f6bc3f4cef38c4f35504e51ec112de5c384df7ba0b8d578a4c702b6bf11d5fac00000000";
const GENESIS_HASH_HUMAN: &str = "000000000019d6689c085ae165831e934ff763ae46a2a6c172b3f1b60a8ce26f";

fn genesis_block_bytes() -> Vec<u8> {
    let mut b = hex::decode(GENESIS_HEADER_HEX).unwrap();
    b.push(1);
    b.extend(hex::decode(GENESIS_TX_HEX).unwrap());
    b
}

#[test]
fn genesis_header_decodes_and_hashes() {
    let mut bytes = hex::decode(GENESIS_HEADER_HEX).unwrap();
    bytes.push(0);
    let mut h = BlockHeaderBorrowed::default();
    assert_eq!(h.deserialize_borrowed(&bytes), Ok(81));
    assert_eq!(h.human_hash(), GENESIS_HASH_HUMAN);
    assert!(h.is_valid());
    assert_eq!(h.bits, 0x1d00ffff);
    assert_eq!(h.timestamp, 1231006505);
    assert_eq!(h.merkle_root, GENESIS_MERKLE_ROOT);
    let g = genesis_header();
    assert_eq!(g.hash, h.hash);
    assert_eq!(g.human_hash(), GENESIS_HASH_HUMAN);
}

#[test]
fn header_with_too_little_work_is_refused() {
    let mut bytes = hex::decode(GENESIS_HEADER_HEX).unwrap();
    bytes[76] ^= 1; // change the nonce: the hash no longer meets the target
    bytes.push(0);
    let mut h = BlockHeaderBorrowed::default();
    assert_eq!(h.deserialize_borrowed(&bytes), Err(ParseError::InvalidHeader));
    assert_eq!(h.deserialize_borrowed(&bytes[..79]), Err(ParseError::NotEnoughBytes));
}

#[test]
fn header_serialization_roundtrip() {
    let g = genesis_header();
    let mut v = Vec::new();
    g.serialize(&mut v);
    let mut expected = hex::decode(GENESIS_HEADER_HEX).unwrap();
    expected.push(0);
    assert_eq!(v, expected);
}

#[test]
fn genesis_coinbase_decodes_with_its_id() {
    let bytes = hex::decode(GENESIS_TX_HEX).unwrap();
    let (tx, n) = TxBorrowed::deserialize(&bytes).unwrap();
    assert_eq!(n, bytes.len());
    assert_eq!(tx.hash, GENESIS_MERKLE_ROOT);
    assert_eq!(tx.txins.len(), 1);
    assert_eq!(tx.txouts.len(), 1);
    assert_eq!(tx.txouts[0].value, 5_000_000_000);
    assert!(tx.witness_data.is_none());
    assert!(TxRef::Borrowed(&tx).is_coinbase());
    let owned = TxOwned::from(&tx);
    let mut again = Vec::new();
    owned.serialize(&mut again);
    assert_eq!(again, bytes);
}

#[test]
fn tx_without_inputs_is_refused() {
    // version, no inputs, no outputs, locktime
    let bytes = [1u8, 0, 0, 0, 0, 0, 0, 0, 0, 0];
    assert_eq!(TxBorrowed::deserialize(&bytes).err(), Some(ParseError::NoTxIns));
    assert_eq!(TxBorrowed::deserialize(&bytes[..5]).err(), Some(ParseError::NotEnoughBytes));
    assert_eq!(TxOwned::deserialize_without_txouts(&bytes, [0u8; 32]).err(), Some(ParseError::NoTxIns));
    assert_eq!(TxOwned::deserialize_without_txouts(&bytes[..3], [0u8; 32]).err(), Some(ParseError::NotEnoughBytes));
}

fn sample_tx(witness: bool) -> TxOwned {
    TxOwned {
        version: 2,
        locktime: 17,
        txins: vec![
            TxInOwned { prevout_hash: [7u8; 32], prevout_index: 1, sequence: 0xfffffffe, sig_script: vec![1, 2, 3] },
            TxInOwned { prevout_hash: [8u8; 32], prevout_index: 0, sequence: 5, sig_script: vec![] },
        ],
        txouts: vec![TxOutOwned { value: 1234, script: vec![0x51] }],
        witness_data: if witness { Some(vec![vec![1, 1, 0xaa], vec![0]]) } else { None },
        hash: [0u8; 32],
    }
}

#[test]
fn tx_roundtrip_without_witnesses() {
    let tx = sample_tx(false);
    let mut bytes = Vec::new();
    tx.serialize(&mut bytes);
    bytes.extend_from_slice(&[0xde, 0xad]);
    let (back, n) = TxBorrowed::deserialize(&bytes).unwrap();
    assert_eq!(n, bytes.len() - 2);
    let back = TxOwned::from(&back);
    assert_eq!(back.version, 2);
    assert_eq!(back.locktime, 17);
    assert_eq!(back.txins.len(), 2);
    assert_eq!(back.txins[0].sig_script, vec![1, 2, 3]);
    assert_eq!(back.txins[1].sequence, 5);
    assert_eq!(back.txouts[0].value, 1234);
    assert!(back.witness_data.is_none());
    assert_eq!(back.hash, bitlens::util::crypto::sha256d(&bytes[..n]));
}

#[test]
fn tx_with_witnesses_is_hashed_without_them() {
    // a witness transaction as the network carries it: each witness is an
    // array of byte strings
    let tx = sample_tx(false);
    let mut plain = Vec::new();
    tx.serialize(&mut plain);
    let mut wire = Vec::new();
    wire.extend_from_slice(&plain[..4]);
    wire.extend_from_slice(&[0, 1]);
    wire.extend_from_slice(&plain[4..plain.len() - 4]);
    wire.extend_from_slice(&[1, 2, 0xaa, 0xbb]); // first input: one item of two bytes
    wire.extend_from_slice(&[0]); // second input: no items
    wire.extend_from_slice(&plain[plain.len() - 4..]);
    let (back, n) = TxBorrowed::deserialize(&wire).unwrap();
    assert_eq!(n, wire.len());
    assert_eq!(back.witness_data.as_ref().unwrap().len(), 2);
    assert_eq!(back.witness_data.as_ref().unwrap()[0], &[1, 2, 0xaa, 0xbb][..]);
    assert_eq!(back.hash, bitlens::util::crypto::sha256d(&plain));
}

#[test]
fn tx_without_txouts_roundtrip() {
    let tx = sample_tx(false);
    let mut bytes = Vec::new();
    TxRef::Owned(&tx).serialize_without_txouts(&mut bytes);
    assert_eq!(TxRef::Owned(&tx).serialized_without_txouts_size(), bytes.len());
    let back = TxOwned::deserialize_without_txouts(&bytes, [3u8; 32]).unwrap();
    assert_eq!(back.txins.len(), 2);
    assert_eq!(back.txins[0].prevout_index, 1);
    assert!(back.txouts.is_empty());
    assert_eq!(back.locktime, 17);
    assert_eq!(back.hash, [3u8; 32]);
}

#[test]
fn serialized_size_counts_witnesses() {
    let tx = sample_tx(true);
    let mut bytes = Vec::new();
    TxRef::Owned(&tx).serialize_without_txouts(&mut bytes);
    assert_eq!(TxRef::Owned(&tx).serialized_without_txouts_size(), bytes.len());
    assert_eq!(&bytes[4..6], &[0, 1]);
}

#[test]
fn txout_flat_serialize_matches_serialize() {
    let out = TxOutOwned { value: 99, script: vec![1, 2, 3, 4] };
    let mut v = Vec::new();
    out.serialize(&mut v);
    let r = bitlens::packets::tx::TxOutRef::Owned(&out);
    assert_eq!(r.serialized_length(), v.len());
    let mut slice = [0xeeu8; 20];
    assert_eq!(r.flat_serialize(&mut slice), v.len());
    assert_eq!(&slice[..v.len()], &v[..]);
    assert_eq!(slice[v.len()], 0xee);
}

#[test]
fn genesis_block_decodes_and_matches_its_merkle_root() {
    let bytes = genesis_block_bytes();
    let mut b = BlockBorrowed::default();
    assert_eq!(b.deserialize_borrowed(&bytes), Ok(bytes.len()));
    assert_eq!(b.txs.len(), 1);
    assert_eq!(b.header.human_hash(), GENESIS_HASH_HUMAN);
    let owned = BlockOwned::from(b);
    let mut again = Vec::new();
    owned.serialize(&mut again);
    assert_eq!(again, bytes);
}

#[test]
fn block_with_wrong_merkle_root_is_refused() {
    // an empty block: the merkle root of nothing is zero, not the header's
    let mut bytes = hex::decode(GENESIS_HEADER_HEX).unwrap();
    bytes.push(0);
    let mut b = BlockBorrowed::default();
    assert_eq!(b.deserialize_borrowed(&bytes), Err(ParseError::MerkleRootMismatch));
}

#[test]
fn block_with_duplicated_transactions_is_mutated() {
    let mut bytes = hex::decode(GENESIS_HEADER_HEX).unwrap();
    bytes.push(2);
    let tx = hex::decode(GENESIS_TX_HEX).unwrap();
    bytes.extend_from_slice(&tx);
    bytes.extend_from_slice(&tx);
    let mut b = BlockBorrowed::default();
    assert_eq!(b.deserialize_borrowed(&bytes), Err(ParseError::MerkleRootMutated));
}

#[test]
fn merkle_roots_of_small_trees() {
    let t = MerkleTree::with_capacity(0);
    assert_eq!(t.into_root(), ([0u8; 32], false));
    let mut t = MerkleTree::with_capacity(1);
    t.append_hash(&[5u8; 32]);
    assert_eq!(t.into_root(), ([5u8; 32], false));
    let (a, b, c) = ([1u8; 32], [2u8; 32], [3u8; 32]);
    let pair = |x: &[u8; 32], y: &[u8; 32]| {
        let mut v = x.to_vec();
        v.extend_from_slice(y);
        bitlens::util::crypto::sha256d(&v)
    };
    let mut t = MerkleTree::with_capacity(3);
    t.append_hash(&a);
    t.append_hash(&b);
    t.append_hash(&c);
    let expected = pair(&pair(&a, &b), &pair(&c, &c));
    assert_eq!(t.into_root(), (expected, false));
    let mut t = MerkleTree::with_capacity(2);
    t.append_hash(&a);
    t.append_hash(&a);
    assert_eq!(t.into_root(), (pair(&a, &a), true));
}

#[test]
fn header_construct_hashes_its_fields() {
    let g = genesis_header();
    let c = BlockHeaderOwned::construct(g.version, g.parent, g.merkle_root, g.timestamp, g.bits, g.nonce, 0);
    assert_eq!(c.hash, g.hash);
    assert!(c.is_valid());
    let work = c.get_work();
    // the work of the easiest target is 2^32 + 2^16 + 1 = 0x100010001
    let mut expected = [0u8; 32];
    expected[0] = 1;
    expected[2] = 1;
    expected[4] = 1;
    assert_eq!(work, expected);
}

fn varstr(v: &[u8]) -> Vec<u8> {
    let mut o = vec![v.len() as u8];
    o.extend_from_slice(v);
    o
}

/// A coinbase with a witness commitment output, in witness form when `w0`
/// (the raw witness of its input) is given.
fn coinbase_bytes(w0: Option<&[u8]>, commitment_script: &[u8]) -> Vec<u8> {
    let mut t = 1u32.to_le_bytes().to_vec();
    if w0.is_some() {
        t.extend_from_slice(&[0, 1]);
    }
    t.push(1);
    t.extend_from_slice(&[0u8; 32]);
    t.extend_from_slice(&[0xff; 4]);
    t.extend(varstr(&[1, 2, 3]));
    t.extend_from_slice(&[0xff; 4]);
    t.push(2);
    t.extend_from_slice(&1u64.to_le_bytes());
    t.extend(varstr(commitment_script));
    t.extend_from_slice(&0u64.to_le_bytes());
    t.extend(varstr(&[0x51]));
    if let Some(w) = w0 {
        t.extend_from_slice(w);
    }
    t.extend_from_slice(&0u32.to_le_bytes());
    t
}

/// A transaction with witnesses, as the network carries it.
fn witness_tx_bytes() -> Vec<u8> {
    let tx = sample_tx(false);
    let mut plain = Vec::new();
    tx.serialize(&mut plain);
    let mut wire = Vec::new();
    wire.extend_from_slice(&plain[..4]);
    wire.extend_from_slice(&[0, 1]);
    wire.extend_from_slice(&plain[4..plain.len() - 4]);
    wire.extend_from_slice(&[1, 2, 0xaa, 0xbb]);
    wire.extend_from_slice(&[0]);
    wire.extend_from_slice(&plain[plain.len() - 4..]);
    wire
}

/// A block of `txs` under an easy target, with the right merkle root and a
/// nonce that meets the target.
fn block_bytes(txs: &[Vec<u8>]) -> Vec<u8> {
    let mut tree = MerkleTree::with_capacity(txs.len());
    for t in txs {
        let (tx, _) = TxBorrowed::deserialize(t).unwrap();
        tree.append_hash(&tx.hash);
    }
    let (root, _) = tree.into_root();
    for nonce in 0u32.. {
        let mut bytes = 1u32.to_le_bytes().to_vec();
        bytes.extend_from_slice(&[0u8; 32]);
        bytes.extend_from_slice(&root);
        bytes.extend_from_slice(&1_700_000_000u32.to_le_bytes());
        bytes.extend_from_slice(&0x207fffffu32.to_le_bytes());
        bytes.extend_from_slice(&nonce.to_le_bytes());
        bytes.push(txs.len() as u8);
        for t in txs {
            bytes.extend_from_slice(t);
        }
        let mut b = BlockBorrowed::default();
        if b.deserialize_borrowed(&bytes).is_ok() {
            return bytes;
        }
    }
    unreachable!()
}

fn commitment_script(wtxids: &[[u8; 32]], reserve: &[u8; 32]) -> Vec<u8> {
    let mut tree = MerkleTree::with_capacity(wtxids.len());
    tree.append_hash(&[0u8; 32]);
    for w in &wtxids[1..] {
        tree.append_hash(w);
    }
    let (root, _) = tree.into_root();
    let mut pre = root.to_vec();
    pre.extend_from_slice(reserve);
    let mut script = vec![0x6au8, 0x24, 0xaa, 0x21, 0xa9, 0xed];
    script.extend_from_slice(&sha256d(&pre));
    script
}

#[test]
fn witness_commitments_are_checked() {
    // the genesis block commits to no witnesses
    let bytes = genesis_block_bytes();
    let mut b = BlockBorrowed::default();
    b.deserialize_borrowed(&bytes).unwrap();
    assert_eq!(b.verify_witness_commitment(&bytes), Ok(()));
    assert_eq!(block_witness_ids(&bytes), vec![b.txs[0].hash]);

    let reserve = [0x42u8; 32];
    let mut w0 = vec![1u8, 32];
    w0.extend_from_slice(&reserve);
    let tx2 = witness_tx_bytes();
    let wtx2 = sha256d(&tx2);
    let (plain2, _) = TxBorrowed::deserialize(&tx2).unwrap();
    // a witness id covers the witnesses, a transaction id does not
    assert_ne!(wtx2, plain2.hash);

    let good = commitment_script(&[[0u8; 32], wtx2], &reserve);
    let cb = coinbase_bytes(Some(&w0), &good);
    let bytes = block_bytes(&[cb.clone(), tx2.clone()]);
    let mut block = BlockBorrowed::default();
    block.deserialize_borrowed(&bytes).unwrap();
    assert_eq!(block_witness_ids(&bytes), vec![sha256d(&cb), wtx2]);
    assert_eq!(block.verify_witness_commitment(&bytes), Ok(()));

    // committing to other witness ids
    let bad = commitment_script(&[[0u8; 32], [6u8; 32]], &reserve);
    let bytes = block_bytes(&[coinbase_bytes(Some(&w0), &bad), tx2.clone()]);
    let mut block = BlockBorrowed::default();
    block.deserialize_borrowed(&bytes).unwrap();
    assert_eq!(block.verify_witness_commitment(&bytes), Err(WitnessError::InvalidWitnessCommitment));

    // a commitment without the coinbase witness
    let bytes = block_bytes(&[coinbase_bytes(None, &good), tx2.clone()]);
    let mut block = BlockBorrowed::default();
    block.deserialize_borrowed(&bytes).unwrap();
    assert_eq!(block.verify_witness_commitment(&bytes), Err(WitnessError::MissingWitnessData));

    // a coinbase witness of the wrong shape
    let odd = vec![1u8, 3, 1, 2, 3];
    let bytes = block_bytes(&[coinbase_bytes(Some(&odd), &good), tx2]);
    let mut block = BlockBorrowed::default();
    block.deserialize_borrowed(&bytes).unwrap();
    assert_eq!(block.verify_witness_commitment(&bytes), Err(WitnessError::InvalidCoinbaseWitness));
}

#[test]
fn test_deserialize_safety() {
    // a whole block decodes, taking exactly its bytes, and nothing after them
    let mut raw_block = genesis_block_bytes();
    let len = raw_block.len();
    let mut block = BlockBorrowed::default();
    assert_eq!(block.deserialize_borrowed(&raw_block), Ok(len));
    raw_block.extend_from_slice(&[0xde, 0xad, 0xbe, 0xef]);
    let mut block = BlockBorrowed::default();
    assert_eq!(block.deserialize_borrowed(&raw_block), Ok(len));
    // a block of witness transactions too
    let tx2 = witness_tx_bytes();
    let bytes = block_bytes(&[coinbase_bytes(None, &[0x51]), tx2]);
    let mut block = BlockBorrowed::default();
    assert_eq!(block.deserialize_borrowed(&bytes), Ok(bytes.len()));
    assert_eq!(block.txs.len(), 2);
    // every prefix of a block is refused
    for cut in [0, 80, 81, len - 1] {
        let mut b = BlockBorrowed::default();
        assert!(b.deserialize_borrowed(&genesis_block_bytes()[..cut]).is_err());
    }
}
