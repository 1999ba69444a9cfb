//! Transactions, their inputs and outputs.
use vstd::prelude::*;
use vstd::bytes::*;
use super::buffer::{Buffer, ParseError};
use super::encode::{put_u16, put_u32_le, put_u64_le, put_slice, spec_u16_to_be_bytes, lemma_int_bytes_roundtrip};
use super::varint::{
    VarInt, spec_varint_bytes, spec_length_varint, length_varint, serialize_varint,
    serialize_varint_into_slice, lemma_varint_roundtrip, lemma_varint_first_byte_nonzero,
};
use super::varstr::{
    spec_varstr_bytes, spec_parse_varstr, serialize_varstr, deserialize_varstr,
    lemma_varstr_roundtrip, lemma_parse_varstr_len, spec_parse_varstr_array_span,
    deserialize_array_of_varstr_as_varstr, deserialize_array_of_varstr_as_varstr_owned,
};
use super::packetpayload::{
    DeserializableBorrowed, DeserializableOwned, PacketPayload, Serializable, deserialize_array,
    deserialize_array_owned, serialize_array, spec_deserialize_array, spec_deserialize_array_owned,
    spec_serialize_array, lemma_deserialize_array_len, lemma_deserialize_array_owned_len, spec_serialize_items, lemma_serialize_items_prefix, lemma_array_owned_agrees, lemma_array_roundtrip, items_roundtrip,
};
use crate::util::crypto::{spec_sha256, spec_sha256d, sha256, sha256d};

verus! {

broadcast use vstd::seq_lib::group_seq_properties, vstd::slice::group_slice_axioms;

/// The command name of `tx`.
pub const TX_COMMAND: [u8; 12] = [116, 120, 0, 0, 0, 0, 0, 0, 0, 0, 0, 0];

// ---------------------------------------------------------------- inputs

/// A transaction input: the output it spends, its unlocking script, its sequence number.
pub struct TxInModel {
    pub prevout_hash: Seq<u8>,
    pub prevout_index: u32,
    pub sequence: u32,
    pub sig_script: Seq<u8>,
}

/// Decoding an input: 32-byte hash, LE index, script (varstr), LE sequence.
pub open spec fn spec_parse_txin(s: Seq<u8>) -> Option<(TxInModel, int)> {
    if s.len() < 36 {
        None
    } else {
        match spec_parse_varstr(s.subrange(36, s.len() as int)) {
            None => None,
            Some((script, off)) => if 40 + off <= s.len() {
                Some((TxInModel {
                    prevout_hash: s.subrange(0, 32),
                    prevout_index: spec_u32_from_le_bytes(s.subrange(32, 36)),
                    sequence: spec_u32_from_le_bytes(s.subrange(36 + off, 40 + off)),
                    sig_script: script,
                }, 40 + off))
            } else {
                None
            },
        }
    }
}

/// The encoding of an input.
pub open spec fn spec_txin_bytes(v: TxInModel) -> Seq<u8> {
    v.prevout_hash + spec_u32_to_le_bytes(v.prevout_index) + spec_varstr_bytes(v.sig_script)
        + spec_u32_to_le_bytes(v.sequence)
}

proof fn lemma_parse_txin_len(s: Seq<u8>)
    ensures
        spec_parse_txin(s) matches Some((_, n)) ==> 0 <= n <= s.len(),
{
    if s.len() >= 36 {
        lemma_parse_varstr_len(s.subrange(36, s.len() as int));
    }
}

/// Decoding the encoding of an input gives it back, whatever follows it.
pub proof fn lemma_txin_roundtrip(v: TxInModel, rest: Seq<u8>)
    requires
        v.prevout_hash.len() == 32,
        v.sig_script.len() <= u64::MAX,
    ensures
        spec_parse_txin(spec_txin_bytes(v) + rest) == Some((v, spec_txin_bytes(v).len() as int)),
{
    lemma_int_bytes_roundtrip();
    let sc = spec_varstr_bytes(v.sig_script);
    let sq = spec_u32_to_le_bytes(v.sequence);
    let s = spec_txin_bytes(v) + rest;
    assert(s =~= v.prevout_hash + (spec_u32_to_le_bytes(v.prevout_index) + (sc + (sq + rest))));
    assert(s.subrange(0, 32) =~= v.prevout_hash);
    assert(s.subrange(32, 36) =~= spec_u32_to_le_bytes(v.prevout_index));
    lemma_varstr_roundtrip(v.sig_script, sq + rest);
    assert(s.subrange(36, s.len() as int) =~= sc + (sq + rest));
    let off = sc.len() as int;
    assert(s.subrange(36 + off, 40 + off) =~= sq);
}

/// An input decoded from a buffer; the script borrows from it.
#[derive(Debug, Clone, Copy)]
pub struct TxInBorrowed<'a> {
    pub prevout_hash: [u8; 32],
    pub prevout_index: u32,
    pub sequence: u32,
    pub sig_script: &'a [u8],
}

impl<'a> Default for TxInBorrowed<'a> {
    fn default() -> (r: Self)
        ensures
            r.prevout_index == 0 && r.sequence == 0 && r.sig_script@.len() == 0,
    {
        TxInBorrowed { prevout_hash: [0u8; 32], prevout_index: 0, sequence: 0, sig_script: &[] }
    }
}

impl<'a> View for TxInBorrowed<'a> {
    type V = TxInModel;

    open spec fn view(&self) -> TxInModel {
        TxInModel {
            prevout_hash: self.prevout_hash@,
            prevout_index: self.prevout_index,
            sequence: self.sequence,
            sig_script: self.sig_script@,
        }
    }
}

impl<'a> DeserializableBorrowed<'a> for TxInBorrowed<'a> {
    open spec fn spec_deserialize(s: Seq<u8>) -> Option<(TxInModel, int)> {
        spec_parse_txin(s)
    }

    proof fn lemma_deserialize_len(s: Seq<u8>) {
        lemma_parse_txin_len(s);
    }

    fn deserialize_borrowed(&mut self, buffer: &'a [u8]) -> (r: Result<usize, ParseError>) {
        let prevout_hash = buffer.get_hash(0)?;
        let prevout_index = buffer.get_u32_le(32)?;
        let (script, offset) = deserialize_varstr(buffer.with_offset(36)?)?;
        proof {
            lemma_parse_varstr_len(buffer@.subrange(36, buffer@.len() as int));
        }
        assert(buffer@.len() == buffer.len());
        let sequence = buffer.get_u32_le(offset + 36)?;
        self.prevout_hash = prevout_hash;
        self.prevout_index = prevout_index;
        self.sig_script = script;
        self.sequence = sequence;
        Ok(offset + 40)
    }
}

impl<'a> TxInBorrowed<'a> {
    /// Appends the encoding of this input.
    pub fn serialize(&self, stream: &mut Vec<u8>)
        requires
            self.sig_script@.len() + 9 <= usize::MAX,
        ensures
            final(stream)@ == old(stream)@ + spec_txin_bytes(self@),
    {
        put_slice(stream, self.prevout_hash.as_slice());
        put_u32_le(stream, self.prevout_index);
        serialize_varstr(self.sig_script, stream);
        put_u32_le(stream, self.sequence);
        assert(stream@ =~= old(stream)@ + spec_txin_bytes(self@));
    }
}

/// An input to be sent or kept.
#[derive(Debug, Clone, Default)]
pub struct TxInOwned {
    pub prevout_hash: [u8; 32],
    pub prevout_index: u32,
    pub sequence: u32,
    pub sig_script: Vec<u8>,
}

impl View for TxInOwned {
    type V = TxInModel;

    open spec fn view(&self) -> TxInModel {
        TxInModel {
            prevout_hash: self.prevout_hash@,
            prevout_index: self.prevout_index,
            sequence: self.sequence,
            sig_script: self.sig_script@,
        }
    }
}

impl DeserializableOwned for TxInOwned {
    open spec fn spec_deserialize_owned(s: Seq<u8>) -> Option<(TxInModel, int)> {
        spec_parse_txin(s)
    }

    proof fn lemma_deserialize_owned_len(s: Seq<u8>) {
        lemma_parse_txin_len(s);
    }

    fn deserialize_owned(buffer: &[u8]) -> (r: Result<(TxInOwned, usize), ParseError>) {
        let mut b = TxInBorrowed::default();
        let n = b.deserialize_borrowed(buffer)?;
        Ok((TxInOwned::from(b), n))
    }
}

impl Serializable for TxInOwned {
    open spec fn spec_serialize(v: TxInModel) -> Seq<u8> {
        spec_txin_bytes(v)
    }

    open spec fn spec_serializable(v: TxInModel) -> bool {
        v.sig_script.len() + 9 <= usize::MAX
    }

    fn serialize(&self, stream: &mut Vec<u8>) {
        put_slice(stream, self.prevout_hash.as_slice());
        put_u32_le(stream, self.prevout_index);
        serialize_varstr(self.sig_script.as_slice(), stream);
        put_u32_le(stream, self.sequence);
        assert(stream@ =~= old(stream)@ + spec_txin_bytes(self@));
    }
}

impl TxInOwned {
    /// The owned copy of a decoded input.
    pub fn from(value: TxInBorrowed<'_>) -> (r: TxInOwned)
        ensures
            r@ == value@,
    {
        TxInOwned {
            prevout_hash: value.prevout_hash,
            prevout_index: value.prevout_index,
            sequence: value.sequence,
            sig_script: vstd::slice::slice_to_vec(value.sig_script),
        }
    }
}

/// An input spending nothing: the all-zero hash and index 0xFFFFFFFF, as in a coinbase.
pub open spec fn spec_txin_is_empty(v: TxInModel) -> bool {
    v.prevout_hash == Seq::new(32, |i: int| 0u8) && v.prevout_index == 0xFFFFFFFF
}

/// Whether all 32 bytes are zero.
fn is_zero_hash(h: &[u8; 32]) -> (r: bool)
    ensures
        r == (h@ == Seq::new(32, |i: int| 0u8)),
{
    let mut i: usize = 0;
    while i < 32
        invariant
            i <= 32,
            forall|j: int| 0 <= j < i ==> h@[j] == 0,
        decreases 32 - i,
    {
        if h[i] != 0 {
            assert(h@[i as int] != Seq::new(32, |k: int| 0u8)[i as int]);
            return false;
        }
        i = i + 1;
    }
    assert(h@ =~= Seq::new(32, |i: int| 0u8));
    true
}

/// Either kind of input.
#[derive(Clone, Copy, Debug)]
pub enum TxInRef<'a> {
    Borrowed(&'a TxInBorrowed<'a>),
    Owned(&'a TxInOwned),
}

impl<'a> View for TxInRef<'a> {
    type V = TxInModel;

    open spec fn view(&self) -> TxInModel {
        match self {
            TxInRef::Borrowed(b) => b@,
            TxInRef::Owned(o) => o@,
        }
    }
}

impl<'a> TxInRef<'a> {
    pub fn sig_script(&self) -> (r: &[u8])
        ensures
            r@ == self@.sig_script,
    {
        match self {
            TxInRef::Borrowed(b) => b.sig_script,
            TxInRef::Owned(o) => o.sig_script.as_slice(),
        }
    }

    pub fn prevout_hash(&self) -> (r: [u8; 32])
        ensures
            r@ == self@.prevout_hash,
    {
        match self {
            TxInRef::Borrowed(b) => b.prevout_hash,
            TxInRef::Owned(o) => o.prevout_hash,
        }
    }

    pub fn prevout_index(&self) -> (r: u32)
        ensures
            r == self@.prevout_index,
    {
        match self {
            TxInRef::Borrowed(b) => b.prevout_index,
            TxInRef::Owned(o) => o.prevout_index,
        }
    }

    pub fn sequence(&self) -> (r: u32)
        ensures
            r == self@.sequence,
    {
        match self {
            TxInRef::Borrowed(b) => b.sequence,
            TxInRef::Owned(o) => o.sequence,
        }
    }

    /// Appends the encoding of this input.
    fn serialize(&self, stream: &mut Vec<u8>)
        requires
            self@.sig_script.len() + 9 <= usize::MAX,
        ensures
            final(stream)@ == old(stream)@ + spec_txin_bytes(self@),
    {
        let h = self.prevout_hash();
        put_slice(stream, h.as_slice());
        put_u32_le(stream, self.prevout_index());
        serialize_varstr(self.sig_script(), stream);
        put_u32_le(stream, self.sequence());
        assert(stream@ =~= old(stream)@ + spec_txin_bytes(self@));
    }

    /// Whether this input spends nothing (zero hash, index 0xFFFFFFFF).
    pub fn is_empty(&self) -> (r: bool)
        ensures
            r == spec_txin_is_empty(self@),
    {
        match self {
            TxInRef::Borrowed(b) => is_zero_hash(&b.prevout_hash) && b.prevout_index == 0xFFFFFFFF,
            TxInRef::Owned(o) => is_zero_hash(&o.prevout_hash) && o.prevout_index == 0xFFFFFFFF,
        }
    }
}

// ---------------------------------------------------------------- outputs

/// A transaction output: an amount and its locking script.
pub struct TxOutModel {
    pub value: u64,
    pub script: Seq<u8>,
}

/// Decoding an output: LE value, then the script (varstr).
pub open spec fn spec_parse_txout(s: Seq<u8>) -> Option<(TxOutModel, int)> {
    if s.len() < 8 {
        None
    } else {
        match spec_parse_varstr(s.subrange(8, s.len() as int)) {
            None => None,
            Some((script, off)) => Some((TxOutModel { value: spec_u64_from_le_bytes(s.subrange(0, 8)), script }, 8 + off)),
        }
    }
}

/// The encoding of an output.
pub open spec fn spec_txout_bytes(v: TxOutModel) -> Seq<u8> {
    spec_u64_to_le_bytes(v.value) + spec_varstr_bytes(v.script)
}

proof fn lemma_parse_txout_len(s: Seq<u8>)
    ensures
        spec_parse_txout(s) matches Some((_, n)) ==> 0 <= n <= s.len(),
{
    if s.len() >= 8 {
        lemma_parse_varstr_len(s.subrange(8, s.len() as int));
    }
}

/// Decoding the encoding of an output gives it back, whatever follows it.
pub proof fn lemma_txout_roundtrip(v: TxOutModel, rest: Seq<u8>)
    requires
        v.script.len() <= u64::MAX,
    ensures
        spec_parse_txout(spec_txout_bytes(v) + rest) == Some((v, spec_txout_bytes(v).len() as int)),
{
    lemma_int_bytes_roundtrip();
    let s = spec_txout_bytes(v) + rest;
    assert(s =~= spec_u64_to_le_bytes(v.value) + (spec_varstr_bytes(v.script) + rest));
    assert(s.subrange(0, 8) =~= spec_u64_to_le_bytes(v.value));
    lemma_varstr_roundtrip(v.script, rest);
    assert(s.subrange(8, s.len() as int) =~= spec_varstr_bytes(v.script) + rest);
}

/// An output decoded from a buffer; the script borrows from it.
#[derive(Clone, Debug, Copy)]
pub struct TxOutBorrowed<'a> {
    pub value: u64,
    pub script: &'a [u8],
}

impl<'a> Default for TxOutBorrowed<'a> {
    fn default() -> (r: Self)
        ensures
            r.value == 0 && r.script@.len() == 0,
    {
        TxOutBorrowed { value: 0, script: &[] }
    }
}

impl<'a> View for TxOutBorrowed<'a> {
    type V = TxOutModel;

    open spec fn view(&self) -> TxOutModel {
        TxOutModel { value: self.value, script: self.script@ }
    }
}

impl<'a> DeserializableBorrowed<'a> for TxOutBorrowed<'a> {
    open spec fn spec_deserialize(s: Seq<u8>) -> Option<(TxOutModel, int)> {
        spec_parse_txout(s)
    }

    proof fn lemma_deserialize_len(s: Seq<u8>) {
        lemma_parse_txout_len(s);
    }

    fn deserialize_borrowed(&mut self, buffer: &'a [u8]) -> (r: Result<usize, ParseError>) {
        let value = buffer.get_u64_le(0)?;
        let (script, offset) = deserialize_varstr(buffer.with_offset(8)?)?;
        proof {
            lemma_parse_varstr_len(buffer@.subrange(8, buffer@.len() as int));
        }
        assert(buffer@.len() == buffer.len());
        self.value = value;
        self.script = script;
        Ok(offset + 8)
    }
}

/// An output to be sent or kept.
#[derive(Clone, Debug, Default)]
pub struct TxOutOwned {
    pub value: u64,
    pub script: Vec<u8>,
}

impl View for TxOutOwned {
    type V = TxOutModel;

    open spec fn view(&self) -> TxOutModel {
        TxOutModel { value: self.value, script: self.script@ }
    }
}

impl DeserializableOwned for TxOutOwned {
    open spec fn spec_deserialize_owned(s: Seq<u8>) -> Option<(TxOutModel, int)> {
        spec_parse_txout(s)
    }

    proof fn lemma_deserialize_owned_len(s: Seq<u8>) {
        lemma_parse_txout_len(s);
    }

    fn deserialize_owned(buffer: &[u8]) -> (r: Result<(TxOutOwned, usize), ParseError>) {
        let mut b = TxOutBorrowed::default();
        let n = b.deserialize_borrowed(buffer)?;
        Ok((TxOutOwned::from(b), n))
    }
}

impl Serializable for TxOutOwned {
    open spec fn spec_serialize(v: TxOutModel) -> Seq<u8> {
        spec_txout_bytes(v)
    }

    open spec fn spec_serializable(v: TxOutModel) -> bool {
        v.script.len() + 9 <= usize::MAX
    }

    fn serialize(&self, stream: &mut Vec<u8>) {
        put_u64_le(stream, self.value);
        serialize_varstr(self.script.as_slice(), stream);
        assert(stream@ =~= old(stream)@ + spec_txout_bytes(self@));
    }
}

impl TxOutOwned {
    /// The owned copy of a decoded output.
    pub fn from(value: TxOutBorrowed<'_>) -> (r: TxOutOwned)
        ensures
            r@ == value@,
    {
        TxOutOwned { value: value.value, script: vstd::slice::slice_to_vec(value.script) }
    }
}

/// Either kind of output.
#[derive(Clone, Copy, Debug)]
pub enum TxOutRef<'a> {
    Borrowed(&'a TxOutBorrowed<'a>),
    Owned(&'a TxOutOwned),
}

impl<'a> View for TxOutRef<'a> {
    type V = TxOutModel;

    open spec fn view(&self) -> TxOutModel {
        match self {
            TxOutRef::Borrowed(b) => b@,
            TxOutRef::Owned(o) => o@,
        }
    }
}

impl<'a> TxOutRef<'a> {
    pub fn value(&self) -> (r: u64)
        ensures
            r == self@.value,
    {
        match self {
            TxOutRef::Borrowed(b) => b.value,
            TxOutRef::Owned(o) => o.value,
        }
    }

    pub fn script(&self) -> (r: &[u8])
        ensures
            r@ == self@.script,
    {
        match self {
            TxOutRef::Borrowed(b) => b.script,
            TxOutRef::Owned(o) => o.script.as_slice(),
        }
    }

    /// How many bytes the encoding of this output takes.
    pub fn serialized_length(&self) -> (r: usize)
        requires
            self@.script.len() + 17 <= usize::MAX,
        ensures
            r == spec_txout_bytes(self@).len(),
    {
        let s = self.script();
        proof {
            lemma_varint_roundtrip(s@.len() as u64, seq![]);
            lemma_int_bytes_roundtrip();
        }
        8 + length_varint(s.len() as VarInt) + s.len()
    }

    /// Writes the encoding of this output at the start of `slice`; returns its length.
    pub fn flat_serialize(&self, slice: &mut [u8]) -> (r: usize)
        requires
            old(slice)@.len() >= spec_txout_bytes(self@).len(),
        ensures
            r == spec_txout_bytes(self@).len(),
            final(slice)@.len() == old(slice)@.len(),
            final(slice)@ == spec_txout_bytes(self@) + old(slice)@.skip(r as int),
    {
        proof {
            lemma_varint_roundtrip(self@.script.len() as u64, seq![]);
            lemma_int_bytes_roundtrip();
        }
        let b = u64_to_le_bytes(self.value());
        let mut i: usize = 0;
        while i < 8
            invariant
                i <= 8,
                b@ == spec_u64_to_le_bytes(self@.value),
                b@.len() == 8,
                slice@.len() == old(slice)@.len(),
                old(slice)@.len() >= spec_txout_bytes(self@).len(),
                forall|j: int| 0 <= j < i ==> slice@[j] == b@[j],
                forall|j: int| i <= j < slice@.len() ==> slice@[j] == old(slice)@[j],
            decreases 8 - i,
        {
            slice[i] = b[i];
            i = i + 1;
        }
        let script = self.script();
        let mut tail: Vec<u8> = Vec::new();
        let n = serialize_varint(script.len() as VarInt, &mut tail);
        put_slice(&mut tail, script);
        assert(tail@ =~= spec_varstr_bytes(script@));
        assert(spec_txout_bytes(self@).len() == 8 + tail@.len());
        let slice_len = slice.len();
        assert(8 + tail@.len() <= slice_len);
        let total = 8 + tail.len();
        let mut k: usize = 0;
        while k < tail.len()
            invariant
                k <= tail@.len(),
                total == 8 + tail@.len(),
                tail@ == spec_varstr_bytes(self@.script),
                b@ == spec_u64_to_le_bytes(self@.value),
                slice@.len() == old(slice)@.len(),
                old(slice)@.len() >= total,
                forall|j: int| 0 <= j < 8 ==> slice@[j] == b@[j],
                forall|j: int| 0 <= j < k ==> slice@[8 + j] == tail@[j],
                forall|j: int| 8 + k <= j < slice@.len() ==> slice@[j] == old(slice)@[j],
            decreases tail@.len() - k,
        {
            slice[8 + k] = tail[k];
            k = k + 1;
        }
        assert(slice@ =~= spec_txout_bytes(self@) + old(slice)@.skip(total as int));
        total
    }
}


// ---------------------------------------------------------------- transactions

/// A transaction: version, inputs, outputs, the witnesses of its inputs when
/// it carries them (each kept as the raw bytes of its array of byte strings),
/// lock time, and its id.
pub struct TxModel {
    pub version: u32,
    pub locktime: u32,
    pub txins: Seq<TxInModel>,
    pub txouts: Seq<TxOutModel>,
    pub witness_data: Option<Seq<Seq<u8>>>,
    pub hash: Seq<u8>,
}

/// Whether an encoded transaction carries the segwit marker and flag after its version.
pub open spec fn spec_has_witness_marker(s: Seq<u8>) -> bool {
    s[4] == 0 && s[5] == 1
}

/// Decoding `count` witnesses starting at `off`, each an array of byte strings
/// kept as one span: the spans and where the last one ends.
pub open spec fn spec_parse_witnesses(s: Seq<u8>, off: int, count: nat) -> Option<(Seq<Seq<u8>>, int)>
    decreases count,
{
    if count == 0 {
        Some((Seq::empty(), off))
    } else {
        match spec_parse_witnesses(s, off, (count - 1) as nat) {
            Some((ws, o)) => if 0 <= o <= s.len() {
                match spec_parse_varstr_array_span(s.subrange(o, s.len() as int)) {
                    Some((w, n)) => Some((ws.push(w), o + n)),
                    None => None,
                }
            } else {
                None
            },
            None => None,
        }
    }
}

/// The bytes a transaction id is computed over: the whole encoding, or, for
/// a transaction with witnesses (which start at `ws` and end at `we`), the
/// encoding without marker, flag and witnesses.
pub open spec fn spec_txid_preimage(s: Seq<u8>, witness: bool, ws: int, we: int) -> Seq<u8> {
    if witness {
        s.subrange(0, 4) + s.subrange(6, ws) + s.subrange(we, we + 4)
    } else {
        s.subrange(0, we + 4)
    }
}

/// Decoding the rest of a transaction whose outputs end at `o2`: the
/// witnesses when marked, then the lock time.
pub open spec fn spec_parse_tx_rest(s: Seq<u8>, w: bool, ins: Seq<TxInModel>, outs: Seq<TxOutModel>, o2: int) -> Option<(TxModel, int)> {
    let wit = if w { spec_parse_witnesses(s, o2, ins.len()) } else { Some((Seq::empty(), o2)) };
    match wit {
        None => None,
        Some((wits, o3)) => if o3 + 4 <= s.len() {
            Some((TxModel {
                version: spec_u32_from_le_bytes(s.subrange(0, 4)),
                locktime: spec_u32_from_le_bytes(s.subrange(o3, o3 + 4)),
                txins: ins,
                txouts: outs,
                witness_data: if w { Some(wits) } else { None },
                hash: spec_sha256d(spec_txid_preimage(s, w, o2, o3)),
            }, o3 + 4))
        } else {
            None
        },
    }
}

/// Decoding a transaction: LE version, the marker and flag `00 01` when it
/// has witnesses, a non-empty array of inputs, an array of outputs, one
/// witness per input when marked, and the LE lock time. Its id is the double
/// SHA-256 of its encoding without witness parts.
pub open spec fn spec_parse_tx(s: Seq<u8>) -> Option<(TxModel, int)> {
    if s.len() < 6 {
        None
    } else {
        let w = spec_has_witness_marker(s);
        let o0: int = if w { 6 } else { 4 };
        match spec_deserialize_array::<TxInBorrowed>(s.subrange(o0, s.len() as int)) {
            None => None,
            Some((ins, n1)) => if ins.len() == 0 {
                None
            } else {
                let o1 = o0 + n1;
                match spec_deserialize_array::<TxOutBorrowed>(s.subrange(o1, s.len() as int)) {
                    None => None,
                    Some((outs, n2)) => spec_parse_tx_rest(s, w, ins, outs, o1 + n2),
                }
            },
        }
    }
}

/// The error decoding a transaction gives: `NoTxIns` when its input array
/// decodes and is empty, `NotEnoughBytes` otherwise.
pub open spec fn spec_parse_tx_error(s: Seq<u8>) -> ParseError {
    if s.len() >= 6 && (spec_deserialize_array::<TxInBorrowed>(
        s.subrange(if spec_has_witness_marker(s) { 6 } else { 4 }, s.len() as int),
    ) matches Some((ins, _)) && ins.len() == 0) {
        ParseError::NoTxIns
    } else {
        ParseError::NotEnoughBytes
    }
}

proof fn lemma_parse_witnesses_step(s: Seq<u8>, off: int, i: nat)
    requires
        0 <= off <= s.len(),
        spec_parse_witnesses(s, off, i) is Some,
    ensures
        ({
            let (ws, o) = spec_parse_witnesses(s, off, i).unwrap();
            off <= o <= s.len() && ws.len() == i
        }),
    decreases i,
{
    if i > 0 {
        lemma_parse_witnesses_step(s, off, (i - 1) as nat);
        let (_, o) = spec_parse_witnesses(s, off, (i - 1) as nat).unwrap();
        super::varstr::lemma_parse_varstr_array_span_len(s.subrange(o, s.len() as int));
    }
}

proof fn lemma_parse_witnesses_none(s: Seq<u8>, off: int, j: nat, k: nat)
    requires
        j <= k,
        spec_parse_witnesses(s, off, j) is None,
    ensures
        spec_parse_witnesses(s, off, k) is None,
    decreases k,
{
    if j < k {
        lemma_parse_witnesses_none(s, off, j, (k - 1) as nat);
    }
}

proof fn lemma_parse_tx_len(s: Seq<u8>)
    ensures
        spec_parse_tx(s) matches Some((_, n)) ==> 0 <= n <= s.len(),
{
    if s.len() >= 6 {
        let o0: int = if spec_has_witness_marker(s) { 6 } else { 4 };
        lemma_deserialize_array_len::<TxInBorrowed>(s.subrange(o0, s.len() as int));
        if let Some((ins, n1)) = spec_deserialize_array::<TxInBorrowed>(s.subrange(o0, s.len() as int)) {
            lemma_deserialize_array_len::<TxOutBorrowed>(s.subrange(o0 + n1, s.len() as int));
            if let Some((outs, n2)) = spec_deserialize_array::<TxOutBorrowed>(s.subrange(o0 + n1, s.len() as int)) {
                if spec_has_witness_marker(s) && spec_parse_witnesses(s, o0 + n1 + n2, ins.len()) is Some {
                    lemma_parse_witnesses_step(s, o0 + n1 + n2, ins.len());
                }
            }
        }
    }
}

/// Decodes `count` witnesses starting at `start`, each kept as the span of
/// its array of byte strings; returns them and where the last one ends.
fn deserialize_witnesses<'a>(buffer: &'a [u8], start: usize, count: usize) -> (r: Result<(Vec<&'a [u8]>, usize), ParseError>)
    requires
        start <= buffer@.len(),
    ensures
        r matches Ok((w, e)) ==> spec_parse_witnesses(buffer@, start as int, count as nat) == Some((spec_slices_view(w@), e as int)),
        r is Err <==> spec_parse_witnesses(buffer@, start as int, count as nat) is None,
        r is Err ==> r == Err::<(Vec<&'a [u8]>, usize), ParseError>(ParseError::NotEnoughBytes),
{
    let ghost s = buffer@;
    let mut wits: Vec<&'a [u8]> = Vec::new();
    let mut offset = start;
    let mut i: usize = 0;
    while i < count
        invariant
            s == buffer@,
            s.len() == buffer.len(),
            start <= offset <= s.len(),
            i <= count,
            spec_parse_witnesses(s, start as int, i as nat) == Some((spec_slices_view(wits@), offset as int)),
        decreases count - i,
    {
        let ghost prev = spec_slices_view(wits@);
        let chunk = buffer.with_offset(offset)?;
        let (w, d) = match deserialize_array_of_varstr_as_varstr(chunk) {
            Ok(v) => v,
            Err(e) => {
                proof {
                    lemma_parse_witnesses_none(s, start as int, (i + 1) as nat, count as nat);
                }
                return Err(ParseError::NotEnoughBytes);
            },
        };
        proof {
            super::varstr::lemma_parse_varstr_array_span_len(chunk@);
        }
        wits.push(w);
        offset = offset + d;
        i = i + 1;
        assert(spec_slices_view(wits@) =~= prev.push(w@));
    }
    Ok((wits, offset))
}

/// A transaction decoded from a buffer; scripts and witnesses borrow from it.
#[derive(Debug, Clone)]
pub struct TxBorrowed<'a> {
    pub version: u32,
    pub locktime: u32,
    pub txins: Vec<TxInBorrowed<'a>>,
    pub txouts: Vec<TxOutBorrowed<'a>>,
    pub witness_data: Option<Vec<&'a [u8]>>,
    /// Computed while decoding.
    pub hash: [u8; 32],
}

impl<'a> Default for TxBorrowed<'a> {
    fn default() -> (r: Self)
        ensures
            r@.txins.len() == 0 && r@.txouts.len() == 0 && r@.witness_data is None,
    {
        TxBorrowed { version: 0, locktime: 0, txins: Vec::new(), txouts: Vec::new(), witness_data: None, hash: [0u8; 32] }
    }
}

/// The models of borrowed byte strings.
pub open spec fn spec_slices_view<'a>(w: Seq<&'a [u8]>) -> Seq<Seq<u8>> {
    w.map_values(|x: &'a [u8]| x@)
}

/// The models of owned byte strings.
pub open spec fn spec_vecs_view(w: Seq<Vec<u8>>) -> Seq<Seq<u8>> {
    w.map_values(|x: Vec<u8>| x@)
}

impl<'a> View for TxBorrowed<'a> {
    type V = TxModel;

    open spec fn view(&self) -> TxModel {
        TxModel {
            version: self.version,
            locktime: self.locktime,
            txins: self.txins@.map_values(|t: TxInBorrowed<'a>| t@),
            txouts: self.txouts@.map_values(|t: TxOutBorrowed<'a>| t@),
            witness_data: match self.witness_data {
                Some(w) => Some(spec_slices_view(w@)),
                None => None,
            },
            hash: self.hash@,
        }
    }
}

impl<'a> TxBorrowed<'a> {
    /// Decodes a transaction at the start of `buffer`; returns it and how many bytes it took.
    pub fn deserialize(buffer: &'a [u8]) -> (r: Result<(TxBorrowed<'a>, usize), ParseError>)
        ensures
            r matches Ok((t, n)) ==> spec_parse_tx(buffer@) == Some((t@, n as int)),
            r is Err <==> spec_parse_tx(buffer@) is None,
            r matches Err(e) ==> e == spec_parse_tx_error(buffer@),
    {
        let version = buffer.get_u32_le(0)?;
        if buffer.len() < 6 {
            return Err(ParseError::NotEnoughBytes);
        }
        let has_witness = buffer[4] == 0 && buffer[5] == 1;
        assert(has_witness == spec_has_witness_marker(buffer@));
        let ghost s = buffer@;
        let o0: usize = if has_witness { 6 } else { 4 };
        let (txins, d1) = match deserialize_array::<TxInBorrowed<'a>>(buffer.with_offset(o0)?) {
            Ok(v) => v,
            Err(_) => return Err(ParseError::NotEnoughBytes),
        };
        proof {
            lemma_deserialize_array_len::<TxInBorrowed<'a>>(s.subrange(o0 as int, s.len() as int));
        }
        let ghost ins = txins@.map_values(|t: TxInBorrowed<'a>| t@);
        if txins.len() == 0 {
            return Err(ParseError::NoTxIns);
        }
        let o1 = o0 + d1;
        let (txouts, d2) = match deserialize_array::<TxOutBorrowed<'a>>(buffer.with_offset(o1)?) {
            Ok(v) => v,
            Err(_) => return Err(ParseError::NotEnoughBytes),
        };
        proof {
            lemma_deserialize_array_len::<TxOutBorrowed<'a>>(s.subrange(o1 as int, s.len() as int));
        }
        let o2 = o1 + d2;
        let (witness_data, offset) = if has_witness {
            let (w, e) = deserialize_witnesses(buffer, o2, txins.len())?;
            proof {
                lemma_parse_witnesses_step(s, o2 as int, txins@.len());
            }
            (Some(w), e)
        } else {
            (None, o2)
        };
        assert(ins.len() == txins@.len());
        let locktime = buffer.get_u32_le(offset)?;
        let hash = if has_witness {
            let mut pre: Vec<u8> = Vec::new();
            put_slice(&mut pre, &buffer[0..4]);
            put_slice(&mut pre, &buffer[6..o2]);
            put_slice(&mut pre, &buffer[offset..offset + 4]);
            assert(pre@ =~= spec_txid_preimage(s, true, o2 as int, offset as int));
            sha256d(pre.as_slice())
        } else {
            let pre = &buffer[0..offset + 4];
            assert(pre@ =~= spec_txid_preimage(s, false, o2 as int, offset as int));
            sha256d(pre)
        };
        let tx = TxBorrowed { version, locktime, txins, txouts, witness_data, hash };
        Ok((tx, offset + 4))
    }
}

impl<'a> DeserializableBorrowed<'a> for TxBorrowed<'a> {
    open spec fn spec_deserialize(s: Seq<u8>) -> Option<(TxModel, int)> {
        spec_parse_tx(s)
    }

    proof fn lemma_deserialize_len(s: Seq<u8>) {
        lemma_parse_tx_len(s);
    }

    fn deserialize_borrowed(&mut self, buffer: &'a [u8]) -> (r: Result<usize, ParseError>) {
        let (tx, n) = TxBorrowed::deserialize(buffer)?;
        *self = tx;
        Ok(n)
    }
}

impl<'a> PacketPayload for TxBorrowed<'a> {
    open spec fn spec_command() -> Seq<u8> {
        TX_COMMAND@
    }

    fn command(&self) -> (r: [u8; 12]) {
        TX_COMMAND
    }
}

/// The marker and flag written after the version of a transaction with witnesses.
pub open spec fn spec_witness_marker(witness: bool) -> Seq<u8> {
    if witness {
        spec_u16_to_be_bytes(0x0001)
    } else {
        Seq::empty()
    }
}

/// The encoding of a transaction: version, marker and flag when it has
/// witnesses, its inputs and outputs as arrays, its witnesses as an array of
/// byte strings, its lock time.
pub open spec fn spec_tx_bytes(v: TxModel) -> Seq<u8> {
    spec_u32_to_le_bytes(v.version) + spec_witness_marker(v.witness_data is Some)
        + spec_serialize_array::<TxInOwned>(v.txins) + spec_serialize_array::<TxOutOwned>(v.txouts)
        + match v.witness_data {
            Some(w) => spec_serialize_array::<Vec<u8>>(w),
            None => Seq::empty(),
        } + spec_u32_to_le_bytes(v.locktime)
}

/// Every script and witness of a transaction is short enough to encode.
pub open spec fn spec_tx_serializable(v: TxModel) -> bool {
    &&& forall|i: int| 0 <= i < v.txins.len() ==> (#[trigger] v.txins[i]).sig_script.len() + 9 <= usize::MAX
    &&& forall|i: int| 0 <= i < v.txouts.len() ==> (#[trigger] v.txouts[i]).script.len() + 9 <= usize::MAX
    &&& forall|i: int| v.witness_data is Some && 0 <= i < v.witness_data.unwrap().len()
        ==> (#[trigger] v.witness_data.unwrap()[i]).len() + 9 <= usize::MAX
}

/// A transaction to be sent or kept.
#[derive(Debug, Clone)]
pub struct TxOwned {
    pub version: u32,
    pub locktime: u32,
    pub txins: Vec<TxInOwned>,
    pub txouts: Vec<TxOutOwned>,
    pub witness_data: Option<Vec<Vec<u8>>>,
    /// Computed while decoding.
    pub hash: [u8; 32],
}

impl Default for TxOwned {
    fn default() -> (r: Self)
        ensures
            r@.txins.len() == 0 && r@.txouts.len() == 0 && r@.witness_data is None,
    {
        TxOwned { version: 0, locktime: 0, txins: Vec::new(), txouts: Vec::new(), witness_data: None, hash: [0u8; 32] }
    }
}

impl View for TxOwned {
    type V = TxModel;

    open spec fn view(&self) -> TxModel {
        TxModel {
            version: self.version,
            locktime: self.locktime,
            txins: self.txins@.map_values(|t: TxInOwned| t@),
            txouts: self.txouts@.map_values(|t: TxOutOwned| t@),
            witness_data: match self.witness_data {
                Some(w) => Some(spec_vecs_view(w@)),
                None => None,
            },
            hash: self.hash@,
        }
    }
}

impl Serializable for TxOwned {
    open spec fn spec_serialize(v: TxModel) -> Seq<u8> {
        spec_tx_bytes(v)
    }

    open spec fn spec_serializable(v: TxModel) -> bool {
        spec_tx_serializable(v)
    }

    fn serialize(&self, stream: &mut Vec<u8>) {
        let ghost v = self@;
        put_u32_le(stream, self.version);
        if self.witness_data.is_some() {
            put_u16(stream, 0x0001);
        }
        assert forall|i: int| 0 <= i < self.txins@.len() implies TxInOwned::spec_serializable(#[trigger] self.txins@[i]@) by {
            assert(v.txins[i] == self.txins@[i]@);
        }
        serialize_array(self.txins.as_slice(), stream);
        assert forall|i: int| 0 <= i < self.txouts@.len() implies TxOutOwned::spec_serializable(#[trigger] self.txouts@[i]@) by {
            assert(v.txouts[i] == self.txouts@[i]@);
        }
        serialize_array(self.txouts.as_slice(), stream);
        let ghost mid = stream@;
        match &self.witness_data {
            Some(w) => {
                assert forall|i: int| 0 <= i < w@.len() implies <Vec<u8> as Serializable>::spec_serializable(#[trigger] w@[i]@) by {
                    assert(v.witness_data == Some(spec_vecs_view(w@)));
                    assert(spec_vecs_view(w@)[i] == w@[i]@);
                    assert(v.witness_data.unwrap()[i].len() + 9 <= usize::MAX);
                }
                serialize_array(w.as_slice(), stream);
                assert(w@.map_values(|t: Vec<u8>| t@) =~= spec_vecs_view(w@));
            },
            None => {},
        }
        put_u32_le(stream, self.locktime);
        assert(stream@ =~= old(stream)@ + spec_tx_bytes(self@));
    }
}

impl TxOwned {
    /// The owned copy of a decoded transaction.
    pub fn from(value: &TxBorrowed<'_>) -> (r: TxOwned)
        ensures
            r@ == value@,
    {
        let mut txins: Vec<TxInOwned> = Vec::new();
        let mut i: usize = 0;
        while i < value.txins.len()
            invariant
                i <= value.txins@.len(),
                txins@.map_values(|t: TxInOwned| t@) == value.txins@.take(i as int).map_values(|t: TxInBorrowed| t@),
            decreases value.txins@.len() - i,
        {
            let ghost prev = txins@.map_values(|t: TxInOwned| t@);
            txins.push(TxInOwned::from(value.txins[i]));
            assert(value.txins@.take(i + 1) =~= value.txins@.take(i as int).push(value.txins@[i as int]));
            assert(txins@.map_values(|t: TxInOwned| t@) =~= prev.push(value.txins@[i as int]@));
            i = i + 1;
            assert(txins@.map_values(|t: TxInOwned| t@) =~= value.txins@.take(i as int).map_values(|t: TxInBorrowed| t@));
        }
        assert(value.txins@.take(i as int) =~= value.txins@);
        assert(txins@.map_values(|t: TxInOwned| t@) =~= value.txins@.map_values(|t: TxInBorrowed| t@));
        let mut txouts: Vec<TxOutOwned> = Vec::new();
        let mut j: usize = 0;
        while j < value.txouts.len()
            invariant
                j <= value.txouts@.len(),
                txouts@.map_values(|t: TxOutOwned| t@) == value.txouts@.take(j as int).map_values(|t: TxOutBorrowed| t@),
            decreases value.txouts@.len() - j,
        {
            let ghost prev = txouts@.map_values(|t: TxOutOwned| t@);
            txouts.push(TxOutOwned::from(value.txouts[j]));
            assert(value.txouts@.take(j + 1) =~= value.txouts@.take(j as int).push(value.txouts@[j as int]));
            assert(txouts@.map_values(|t: TxOutOwned| t@) =~= prev.push(value.txouts@[j as int]@));
            j = j + 1;
            assert(txouts@.map_values(|t: TxOutOwned| t@) =~= value.txouts@.take(j as int).map_values(|t: TxOutBorrowed| t@));
        }
        assert(value.txouts@.take(j as int) =~= value.txouts@);
        assert(txouts@.map_values(|t: TxOutOwned| t@) =~= value.txouts@.map_values(|t: TxOutBorrowed| t@));
        let witness_data = match &value.witness_data {
            Some(w) => {
                let mut out: Vec<Vec<u8>> = Vec::new();
                let mut k: usize = 0;
                while k < w.len()
                    invariant
                        k <= w@.len(),
                        spec_vecs_view(out@) == spec_slices_view(w@.take(k as int)),
                    decreases w@.len() - k,
                {
                    let ghost prev = spec_vecs_view(out@);
                    out.push(vstd::slice::slice_to_vec(w[k]));
                    assert(w@.take(k + 1) =~= w@.take(k as int).push(w@[k as int]));
                    assert(spec_vecs_view(out@) =~= prev.push(w@[k as int]@));
                    k = k + 1;
                    assert(spec_vecs_view(out@) =~= spec_slices_view(w@.take(k as int)));
                }
                assert(w@.take(k as int) =~= w@);
                assert(spec_vecs_view(out@) =~= spec_slices_view(w@));
                Some(out)
            },
            None => None,
        };
        TxOwned { version: value.version, locktime: value.locktime, txins, txouts, witness_data, hash: value.hash }
    }
}

/// Decoding a transaction stored without its outputs: version, marker and
/// flag when it has witnesses, a non-empty array of inputs, the witnesses
/// when marked, the lock time. Its id is not in the bytes: it is `hash`.
pub open spec fn spec_parse_tx_without_txouts(s: Seq<u8>, hash: Seq<u8>) -> Option<TxModel> {
    if s.len() < 6 {
        None
    } else {
        let w = spec_has_witness_marker(s);
        let o0: int = if w { 6 } else { 4 };
        match spec_deserialize_array_owned::<TxInOwned>(s.subrange(o0, s.len() as int)) {
            None => None,
            Some((ins, n1)) => if ins.len() == 0 {
                None
            } else {
                let o1 = o0 + n1;
                let wit = if w { spec_parse_witnesses(s, o1, ins.len()) } else { Some((Seq::empty(), o1)) };
                match wit {
                    None => None,
                    Some((wits, o3)) => if o3 + 4 <= s.len() {
                        Some(TxModel {
                            version: spec_u32_from_le_bytes(s.subrange(0, 4)),
                            locktime: spec_u32_from_le_bytes(s.subrange(o3, o3 + 4)),
                            txins: ins,
                            txouts: Seq::empty(),
                            witness_data: if w { Some(wits) } else { None },
                            hash,
                        })
                    } else {
                        None
                    },
                }
            },
        }
    }
}

/// Decodes `count` owned witnesses starting at `start`, each kept as the
/// span of its array of byte strings; returns them and where the last one ends.
fn deserialize_witnesses_owned(buffer: &[u8], start: usize, count: usize) -> (r: Result<(Vec<Vec<u8>>, usize), ParseError>)
    requires
        start <= buffer@.len(),
    ensures
        r matches Ok((w, e)) ==> spec_parse_witnesses(buffer@, start as int, count as nat) == Some((spec_vecs_view(w@), e as int)),
        r is Err <==> spec_parse_witnesses(buffer@, start as int, count as nat) is None,
        r is Err ==> r == Err::<(Vec<Vec<u8>>, usize), ParseError>(ParseError::NotEnoughBytes),
{
    let ghost s = buffer@;
    let mut wits: Vec<Vec<u8>> = Vec::with_capacity(count);
    let mut offset = start;
    let mut i: usize = 0;
    while i < count
        invariant
            s == buffer@,
            s.len() == buffer.len(),
            start <= offset <= s.len(),
            i <= count,
            spec_parse_witnesses(s, start as int, i as nat) == Some((spec_vecs_view(wits@), offset as int)),
        decreases count - i,
    {
        let ghost prev = spec_vecs_view(wits@);
        let chunk = buffer.with_offset(offset)?;
        let (w, d) = match deserialize_array_of_varstr_as_varstr_owned(chunk) {
            Ok(v) => v,
            Err(e) => {
                proof {
                    lemma_parse_witnesses_none(s, start as int, (i + 1) as nat, count as nat);
                }
                return Err(ParseError::NotEnoughBytes);
            },
        };
        proof {
            super::varstr::lemma_parse_varstr_array_span_len(chunk@);
        }
        let ghost wv = w@;
        wits.push(w);
        offset = offset + d;
        i = i + 1;
        assert(spec_vecs_view(wits@) =~= prev.push(wv));
    }
    Ok((wits, offset))
}

impl TxOwned {
    /// Decodes a transaction stored without its outputs, giving it the id `hash`.
    pub fn deserialize_without_txouts(buffer: &[u8], hash: [u8; 32]) -> (r: Result<TxOwned, ParseError>)
        ensures
            r matches Ok(t) ==> spec_parse_tx_without_txouts(buffer@, hash@) == Some(t@),
            r is Err <==> spec_parse_tx_without_txouts(buffer@, hash@) is None,
            r matches Err(e) ==> e == (if buffer@.len() >= 6 && (spec_deserialize_array_owned::<TxInOwned>(
                buffer@.subrange(if spec_has_witness_marker(buffer@) { 6 } else { 4 }, buffer@.len() as int),
            ) matches Some((ins, _)) && ins.len() == 0) {
                ParseError::NoTxIns
            } else {
                ParseError::NotEnoughBytes
            }),
    {
        let ghost s = buffer@;
        let version = buffer.get_u32_le(0)?;
        if buffer.len() < 6 {
            return Err(ParseError::NotEnoughBytes);
        }
        let has_witness = buffer[4] == 0 && buffer[5] == 1;
        assert(has_witness == spec_has_witness_marker(s));
        let o0: usize = if has_witness { 6 } else { 4 };
        let (txins, d1) = match deserialize_array_owned::<TxInOwned>(buffer.with_offset(o0)?) {
            Ok(v) => v,
            Err(_) => return Err(ParseError::NotEnoughBytes),
        };
        proof {
            lemma_deserialize_array_owned_len::<TxInOwned>(s.subrange(o0 as int, s.len() as int));
        }
        if txins.len() == 0 {
            return Err(ParseError::NoTxIns);
        }
        let o1 = o0 + d1;
        let (witness_data, offset) = if has_witness {
            let (w, e) = deserialize_witnesses_owned(buffer, o1, txins.len())?;
            proof {
                lemma_parse_witnesses_step(s, o1 as int, txins@.len());
            }
            (Some(w), e)
        } else {
            (None, o1)
        };
        let locktime = buffer.get_u32_le(offset)?;
        let t = TxOwned { version, locktime, txins, txouts: Vec::new(), witness_data, hash };
        assert(t@.txouts =~= Seq::<TxOutModel>::empty());
        Ok(t)
    }
}

/// The witnesses of a transaction, borrowed from either kind of transaction.
#[derive(Clone, Copy, Debug)]
pub enum WitnessRef<'a> {
    Owned(&'a [Vec<u8>]),
    Borrowed(&'a [&'a [u8]]),
}

impl<'a> View for WitnessRef<'a> {
    type V = Seq<Seq<u8>>;

    open spec fn view(&self) -> Seq<Seq<u8>> {
        match self {
            WitnessRef::Owned(w) => spec_vecs_view(w@),
            WitnessRef::Borrowed(w) => spec_slices_view(w@),
        }
    }
}

impl<'a> WitnessRef<'a> {
    /// How many witnesses there are.
    pub fn len(&self) -> (r: usize)
        ensures
            r == self@.len(),
    {
        match self {
            WitnessRef::Owned(w) => w.len(),
            WitnessRef::Borrowed(w) => w.len(),
        }
    }

    /// The witness at `i`.
    pub fn get(&self, i: usize) -> (r: &'a [u8])
        requires
            i < self@.len(),
        ensures
            r@ == self@[i as int],
    {
        match self {
            WitnessRef::Owned(w) => w[i].as_slice(),
            WitnessRef::Borrowed(w) => w[i],
        }
    }
}

/// Either kind of transaction.
#[derive(Clone, Copy, Debug)]
pub enum TxRef<'a> {
    Borrowed(&'a TxBorrowed<'a>),
    Owned(&'a TxOwned),
}

impl<'a> View for TxRef<'a> {
    type V = TxModel;

    open spec fn view(&self) -> TxModel {
        match self {
            TxRef::Borrowed(b) => b@,
            TxRef::Owned(o) => o@,
        }
    }
}

/// A coinbase transaction has exactly one input, and it spends nothing.
pub open spec fn spec_is_coinbase(v: TxModel) -> bool {
    v.txins.len() == 1 && spec_txin_is_empty(v.txins[0])
}

/// The encoding of a transaction without its outputs: version, marker and
/// flag when it has witnesses, its inputs as an array, each witness as a
/// byte string, its lock time.
pub open spec fn spec_tx_without_txouts_bytes(v: TxModel) -> Seq<u8> {
    spec_u32_to_le_bytes(v.version) + spec_witness_marker(v.witness_data is Some)
        + spec_serialize_array::<TxInOwned>(v.txins)
        + match v.witness_data {
            Some(w) => spec_serialize_items::<Vec<u8>>(w),
            None => Seq::empty(),
        } + spec_u32_to_le_bytes(v.locktime)
}

impl<'a> TxRef<'a> {
    /// The inputs, in order.
    pub fn txins(&self) -> (r: Vec<TxInRef<'a>>)
        ensures
            r@.len() == self@.txins.len(),
            forall|i: int| 0 <= i < r@.len() ==> (#[trigger] r@[i])@ == self@.txins[i],
    {
        let mut out: Vec<TxInRef<'a>> = Vec::new();
        match self {
            TxRef::Borrowed(b) => {
                let mut i: usize = 0;
                while i < b.txins.len()
                    invariant
                        i <= b.txins@.len(),
                        out@.len() == i,
                        forall|k: int| 0 <= k < i ==> (#[trigger] out@[k])@ == b.txins@[k]@,
                    decreases b.txins@.len() - i,
                {
                    out.push(TxInRef::Borrowed(&b.txins[i]));
                    i = i + 1;
                }
            },
            TxRef::Owned(o) => {
                let mut i: usize = 0;
                while i < o.txins.len()
                    invariant
                        i <= o.txins@.len(),
                        out@.len() == i,
                        forall|k: int| 0 <= k < i ==> (#[trigger] out@[k])@ == o.txins@[k]@,
                    decreases o.txins@.len() - i,
                {
                    out.push(TxInRef::Owned(&o.txins[i]));
                    i = i + 1;
                }
            },
        }
        out
    }

    /// The outputs, in order.
    pub fn txouts(&self) -> (r: Vec<TxOutRef<'a>>)
        ensures
            r@.len() == self@.txouts.len(),
            forall|i: int| 0 <= i < r@.len() ==> (#[trigger] r@[i])@ == self@.txouts[i],
    {
        let mut out: Vec<TxOutRef<'a>> = Vec::new();
        match self {
            TxRef::Borrowed(b) => {
                let mut i: usize = 0;
                while i < b.txouts.len()
                    invariant
                        i <= b.txouts@.len(),
                        out@.len() == i,
                        forall|k: int| 0 <= k < i ==> (#[trigger] out@[k])@ == b.txouts@[k]@,
                    decreases b.txouts@.len() - i,
                {
                    out.push(TxOutRef::Borrowed(&b.txouts[i]));
                    i = i + 1;
                }
            },
            TxRef::Owned(o) => {
                let mut i: usize = 0;
                while i < o.txouts.len()
                    invariant
                        i <= o.txouts@.len(),
                        out@.len() == i,
                        forall|k: int| 0 <= k < i ==> (#[trigger] out@[k])@ == o.txouts@[k]@,
                    decreases o.txouts@.len() - i,
                {
                    out.push(TxOutRef::Owned(&o.txouts[i]));
                    i = i + 1;
                }
            },
        }
        out
    }

    /// The witnesses, when the transaction has them.
    pub fn witness_data(&self) -> (r: Option<WitnessRef<'a>>)
        ensures
            match r {
                Some(w) => self@.witness_data == Some(w@),
                None => self@.witness_data is None,
            },
    {
        match self {
            TxRef::Borrowed(b) => match &b.witness_data {
                Some(w) => Some(WitnessRef::Borrowed(w.as_slice())),
                None => None,
            },
            TxRef::Owned(o) => match &o.witness_data {
                Some(w) => Some(WitnessRef::Owned(w.as_slice())),
                None => None,
            },
        }
    }

    /// Whether this is a coinbase transaction: one input, spending nothing.
    pub fn is_coinbase(&self) -> (r: bool)
        ensures
            r == spec_is_coinbase(self@),
    {
        let txins = self.txins();
        if txins.len() != 1 {
            return false;
        }
        txins[0].is_empty()
    }

    pub fn hash(&self) -> (r: [u8; 32])
        ensures
            r@ == self@.hash,
    {
        match self {
            TxRef::Borrowed(b) => b.hash,
            TxRef::Owned(o) => o.hash,
        }
    }

    pub fn version(&self) -> (r: u32)
        ensures
            r == self@.version,
    {
        match self {
            TxRef::Borrowed(b) => b.version,
            TxRef::Owned(o) => o.version,
        }
    }

    pub fn locktime(&self) -> (r: u32)
        ensures
            r == self@.locktime,
    {
        match self {
            TxRef::Borrowed(b) => b.locktime,
            TxRef::Owned(o) => o.locktime,
        }
    }
}

/// Every script and witness that the encoding without outputs holds is
/// short enough to encode.
pub open spec fn spec_tx_without_txouts_serializable(v: TxModel) -> bool {
    &&& forall|i: int| 0 <= i < v.txins.len() ==> (#[trigger] v.txins[i]).sig_script.len() + 9 <= usize::MAX
    &&& forall|i: int| v.witness_data is Some && 0 <= i < v.witness_data.unwrap().len()
        ==> (#[trigger] v.witness_data.unwrap()[i]).len() + 9 <= usize::MAX
}

impl<'a> TxRef<'a> {
    /// How many bytes `serialize_without_txouts` writes.
    pub fn serialized_without_txouts_size(&self) -> (r: usize)
        requires
            spec_tx_without_txouts_bytes(self@).len() <= usize::MAX,
        ensures
            r == spec_tx_without_txouts_bytes(self@).len(),
    {
        let ghost v = self@;
        let ghost full = spec_tx_without_txouts_bytes(v);
        proof {
            lemma_int_bytes_roundtrip();
            lemma_varint_roundtrip(v.txins.len() as u64, seq![]);
        }
        let wd = self.witness_data();
        let mut total: usize = 4;
        if wd.is_some() {
            total = total + 2;
            assert(spec_u16_to_be_bytes(0x0001).len() == 2);
        }
        let txins = self.txins();
        total = total + length_varint(txins.len() as VarInt);
        let ghost head = total as int;
        let ghost ins_all = spec_serialize_items::<TxInOwned>(v.txins);
        let ghost wit_all = match v.witness_data {
            Some(w) => spec_serialize_items::<Vec<u8>>(w),
            None => Seq::<u8>::empty(),
        };
        assert(full.len() == head + ins_all.len() + wit_all.len() + 4);
        let mut i: usize = 0;
        while i < txins.len()
            invariant
                i <= txins@.len(),
                txins@.len() == v.txins.len(),
                forall|k: int| 0 <= k < txins@.len() ==> (#[trigger] txins@[k])@ == v.txins[k],
                full.len() <= usize::MAX,
                full.len() == head + ins_all.len() + wit_all.len() + 4,
                ins_all == spec_serialize_items::<TxInOwned>(v.txins),
                total == head + spec_serialize_items::<TxInOwned>(v.txins.take(i as int)).len(),
            decreases txins@.len() - i,
        {
            let script = txins[i].sig_script();
            proof {
                lemma_serialize_items_prefix::<TxInOwned>(v.txins, i + 1);
                assert(v.txins.take(i + 1).drop_last() =~= v.txins.take(i as int));
                lemma_varint_roundtrip(script@.len() as u64, seq![]);
                lemma_int_bytes_roundtrip();
                assert(txins@[i as int]@.prevout_hash.len() == 32);
            }
            total = total + 40;
            total = total + length_varint(script.len() as VarInt);
            total = total + script.len();
            i = i + 1;
        }
        assert(v.txins.take(i as int) =~= v.txins);
        match wd {
            Some(w) => {
                let ghost wv = w@;
                let mut k: usize = 0;
                while k < w.len()
                    invariant
                        k <= wv.len(),
                        wv == w@,
                        v.witness_data == Some(wv),
                        wit_all == spec_serialize_items::<Vec<u8>>(wv),
                        full.len() <= usize::MAX,
                        full.len() == head + ins_all.len() + wit_all.len() + 4,
                        total == head + ins_all.len() + spec_serialize_items::<Vec<u8>>(wv.take(k as int)).len(),
                    decreases wv.len() - k,
                {
                    let item = w.get(k);
                    proof {
                        lemma_serialize_items_prefix::<Vec<u8>>(wv, k + 1);
                        assert(wv.take(k + 1).drop_last() =~= wv.take(k as int));
                        lemma_varint_roundtrip(item@.len() as u64, seq![]);
                    }
                    total = total + length_varint(item.len() as VarInt);
                    total = total + item.len();
                    k = k + 1;
                }
                assert(wv.take(k as int) =~= wv);
            },
            None => {},
        }
        total + 4
    }

    /// Appends the encoding of this transaction without its outputs.
    pub fn serialize_without_txouts(&self, stream: &mut Vec<u8>)
        requires
            spec_tx_without_txouts_serializable(self@),
        ensures
            final(stream)@ == old(stream)@ + spec_tx_without_txouts_bytes(self@),
    {
        let ghost v = self@;
        put_u32_le(stream, self.version());
        let wd = self.witness_data();
        if wd.is_some() {
            put_u16(stream, 0x0001);
        }
        let txins = self.txins();
        serialize_varint(txins.len() as VarInt, stream);
        let ghost start = stream@;
        let mut i: usize = 0;
        while i < txins.len()
            invariant
                i <= txins@.len(),
                txins@.len() == v.txins.len(),
                forall|k: int| 0 <= k < txins@.len() ==> (#[trigger] txins@[k])@ == v.txins[k],
                spec_tx_without_txouts_serializable(v),
                stream@ == start + spec_serialize_items::<TxInOwned>(v.txins.take(i as int)),
            decreases txins@.len() - i,
        {
            assert(v.txins[i as int].sig_script.len() + 9 <= usize::MAX);
            txins[i].serialize(stream);
            assert(v.txins.take(i + 1).drop_last() =~= v.txins.take(i as int));
            i = i + 1;
            assert(stream@ =~= start + spec_serialize_items::<TxInOwned>(v.txins.take(i as int)));
        }
        assert(v.txins.take(i as int) =~= v.txins);
        let ghost mid = stream@;
        match wd {
            Some(w) => {
                let ghost wv = w@;
                let mut k: usize = 0;
                while k < w.len()
                    invariant
                        k <= wv.len(),
                        wv == w@,
                        v.witness_data == Some(wv),
                        spec_tx_without_txouts_serializable(v),
                        stream@ == mid + spec_serialize_items::<Vec<u8>>(wv.take(k as int)),
                    decreases wv.len() - k,
                {
                    let item = w.get(k);
                    assert(v.witness_data.unwrap()[k as int].len() + 9 <= usize::MAX);
                    serialize_varstr(item, stream);
                    assert(wv.take(k + 1).drop_last() =~= wv.take(k as int));
                    k = k + 1;
                    assert(stream@ =~= mid + spec_serialize_items::<Vec<u8>>(wv.take(k as int)));
                }
                assert(wv.take(k as int) =~= wv);
            },
            None => {},
        }
        put_u32_le(stream, self.locktime());
        assert(stream@ =~= old(stream)@ + spec_tx_without_txouts_bytes(v));
    }
}

/// Inputs and outputs whose fields have the sizes their encodings can carry.
pub open spec fn spec_tx_wf(v: TxModel) -> bool {
    &&& v.txins.len() <= u64::MAX
    &&& v.txouts.len() <= u64::MAX
    &&& forall|i: int| 0 <= i < v.txins.len() ==> (#[trigger] v.txins[i]).prevout_hash.len() == 32
        && v.txins[i].sig_script.len() <= u64::MAX
    &&& forall|i: int| 0 <= i < v.txouts.len() ==> (#[trigger] v.txouts[i]).script.len() <= u64::MAX
}

proof fn lemma_txins_roundtrip(v: TxModel)
    requires
        spec_tx_wf(v),
    ensures
        items_roundtrip::<TxInBorrowed, TxInOwned>(v.txins),
{
    assert forall|i: int, rest: Seq<u8>| 0 <= i < v.txins.len() implies
        #[trigger] TxInBorrowed::spec_deserialize(TxInOwned::spec_serialize(v.txins[i]) + rest)
            == Some((v.txins[i], TxInOwned::spec_serialize(v.txins[i]).len() as int)) by {
        lemma_txin_roundtrip(v.txins[i], rest);
    }
}

proof fn lemma_txouts_roundtrip(v: TxModel)
    requires
        spec_tx_wf(v),
    ensures
        items_roundtrip::<TxOutBorrowed, TxOutOwned>(v.txouts),
{
    assert forall|i: int, rest: Seq<u8>| 0 <= i < v.txouts.len() implies
        #[trigger] TxOutBorrowed::spec_deserialize(TxOutOwned::spec_serialize(v.txouts[i]) + rest)
            == Some((v.txouts[i], TxOutOwned::spec_serialize(v.txouts[i]).len() as int)) by {
        lemma_txout_roundtrip(v.txouts[i], rest);
    }
}

proof fn lemma_txins_array_roundtrip(v: TxModel, rest: Seq<u8>)
    requires
        spec_tx_wf(v),
    ensures
        spec_deserialize_array::<TxInBorrowed>(spec_serialize_array::<TxInOwned>(v.txins) + rest)
            == Some((v.txins, spec_serialize_array::<TxInOwned>(v.txins).len() as int)),
{
    lemma_txins_roundtrip(v);
    lemma_array_roundtrip::<TxInBorrowed, TxInOwned>(v.txins, rest);
}

proof fn lemma_txouts_array_roundtrip(v: TxModel, rest: Seq<u8>)
    requires
        spec_tx_wf(v),
    ensures
        spec_deserialize_array::<TxOutBorrowed>(spec_serialize_array::<TxOutOwned>(v.txouts) + rest)
            == Some((v.txouts, spec_serialize_array::<TxOutOwned>(v.txouts).len() as int)),
{
    lemma_txouts_roundtrip(v);
    lemma_array_roundtrip::<TxOutBorrowed, TxOutOwned>(v.txouts, rest);
}

/// How four fields followed by anything split back apart.
proof fn lemma_split4(ver: Seq<u8>, ins: Seq<u8>, outs: Seq<u8>, lock: Seq<u8>, rest: Seq<u8>)
    requires
        ver.len() == 4,
        lock.len() == 4,
        ins.len() > 0,
    ensures
        ({
            let s = ver + ins + outs + lock + rest;
            let o1: int = 4 + ins.len() as int;
            let o2: int = o1 + outs.len() as int;
            &&& s.len() == o2 + 4 + rest.len()
            &&& s[4] == ins[0]
            &&& s.subrange(0, 4) == ver
            &&& s.subrange(4, s.len() as int) == ins + (outs + lock + rest)
            &&& s.subrange(o1, s.len() as int) == outs + (lock + rest)
            &&& s.subrange(o2, o2 + 4) == lock
            &&& s.subrange(0, o2 + 4) == ver + ins + outs + lock
        }),
{
    let s = ver + ins + outs + lock + rest;
    let o1: int = 4 + ins.len() as int;
    let o2: int = o1 + outs.len() as int;
    assert(s.subrange(0, 4) =~= ver);
    assert(s.subrange(4, s.len() as int) =~= ins + (outs + lock + rest));
    assert(s.subrange(o1, s.len() as int) =~= outs + (lock + rest));
    assert(s.subrange(o2, o2 + 4) =~= lock);
    assert(s.subrange(0, o2 + 4) =~= ver + ins + outs + lock);
}

/// The parts of the encoding of a transaction without witnesses decode as
/// they were written.
proof fn lemma_tx_parts(v: TxModel, rest: Seq<u8>)
    requires
        spec_tx_wf(v),
        v.txins.len() > 0,
        v.witness_data is None,
    ensures
        ({
            let s = spec_tx_bytes(v) + rest;
            let ins = spec_serialize_array::<TxInOwned>(v.txins);
            let outs = spec_serialize_array::<TxOutOwned>(v.txouts);
            let o1: int = 4 + ins.len() as int;
            let o2: int = o1 + outs.len() as int;
            &&& s.len() >= 6
            &&& !spec_has_witness_marker(s)
            &&& spec_tx_bytes(v).len() == o2 + 4
            &&& spec_deserialize_array::<TxInBorrowed>(s.subrange(4, s.len() as int)) == Some((v.txins, ins.len() as int))
            &&& spec_deserialize_array::<TxOutBorrowed>(s.subrange(o1, s.len() as int)) == Some((v.txouts, outs.len() as int))
            &&& spec_u32_from_le_bytes(s.subrange(0, 4)) == v.version
            &&& spec_u32_from_le_bytes(s.subrange(o2, o2 + 4)) == v.locktime
            &&& spec_txid_preimage(s, false, o2, o2) == spec_tx_bytes(v)
        }),
{
    lemma_int_bytes_roundtrip();
    let ver = spec_u32_to_le_bytes(v.version);
    let ins = spec_serialize_array::<TxInOwned>(v.txins);
    let outs = spec_serialize_array::<TxOutOwned>(v.txouts);
    let lock = spec_u32_to_le_bytes(v.locktime);
    lemma_varint_first_byte_nonzero(v.txins.len() as u64);
    assert(spec_witness_marker(false) =~= Seq::<u8>::empty());
    assert(spec_tx_bytes(v) =~= ver + ins + outs + lock);
    lemma_split4(ver, ins, outs, lock, rest);
    lemma_txins_array_roundtrip(v, outs + lock + rest);
    lemma_txouts_array_roundtrip(v, lock + rest);
}

/// Decoding the encoding of a transaction without witnesses gives it back,
/// whatever follows it, with its id: the double SHA-256 of that encoding.
pub proof fn lemma_tx_roundtrip(v: TxModel, rest: Seq<u8>)
    requires
        spec_tx_wf(v),
        v.txins.len() > 0,
        v.witness_data is None,
    ensures
        spec_parse_tx(spec_tx_bytes(v) + rest) == Some((
            TxModel { hash: spec_sha256d(spec_tx_bytes(v)), ..v },
            spec_tx_bytes(v).len() as int,
        )),
{
    lemma_tx_parts(v, rest);
    let s = spec_tx_bytes(v) + rest;
    let o1: int = 4 + spec_serialize_array::<TxInOwned>(v.txins).len() as int;
    let o2: int = o1 + spec_serialize_array::<TxOutOwned>(v.txouts).len() as int;
    assert(spec_parse_tx_rest(s, false, v.txins, v.txouts, o2) == Some((
        TxModel { hash: spec_sha256d(spec_tx_bytes(v)), ..v },
        spec_tx_bytes(v).len() as int,
    )));
}

/// Decoding what `serialize_without_txouts` wrote for a transaction without
/// witnesses gives it back without its outputs, under the id it is given.
#[verifier::rlimit(40)]
pub proof fn lemma_tx_without_txouts_roundtrip(v: TxModel, hash: Seq<u8>, rest: Seq<u8>)
    requires
        spec_tx_wf(v),
        v.txins.len() > 0,
        v.witness_data is None,
    ensures
        spec_parse_tx_without_txouts(spec_tx_without_txouts_bytes(v) + rest, hash)
            == Some(TxModel { txouts: Seq::empty(), hash, ..v }),
{
    lemma_int_bytes_roundtrip();
    let b = spec_tx_without_txouts_bytes(v);
    let s = b + rest;
    let ver = spec_u32_to_le_bytes(v.version);
    let ins = spec_serialize_array::<TxInOwned>(v.txins);
    let lock = spec_u32_to_le_bytes(v.locktime);
    assert(b =~= ver + ins + lock);
    lemma_varint_first_byte_nonzero(v.txins.len() as u64);
    assert(s[4] == ins[0]);
    assert(!spec_has_witness_marker(s));
    lemma_txins_array_roundtrip(v, lock + rest);
    assert(s.subrange(4, s.len() as int) =~= ins + (lock + rest));
    assert forall|t: Seq<u8>| #[trigger] TxInOwned::spec_deserialize_owned(t) == TxInBorrowed::spec_deserialize(t) by {}
    lemma_array_owned_agrees::<TxInBorrowed, TxInOwned>(s.subrange(4, s.len() as int));
    assert(spec_deserialize_array_owned::<TxInOwned>(s.subrange(4, s.len() as int)) == Some((v.txins, ins.len() as int)));
    let o1: int = 4 + ins.len() as int;
    assert(s.subrange(0, 4) =~= ver);
    assert(s.subrange(o1, o1 + 4) =~= lock);
}

} // verus!
