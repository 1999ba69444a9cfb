//! Length-prefixed byte strings, and arrays of them.
use vstd::prelude::*;
use super::buffer::{Buffer, ParseError};
use super::encode::put_slice;
use super::packetpayload::{DeserializableBorrowed, DeserializableOwned, Serializable};
use super::varint::{
    spec_varint_bytes, spec_parse_varint, spec_length_varint, lemma_varint_roundtrip,
    lemma_parse_varint_len, serialize_varint, deserialize_varint, length_varint,
};

verus! {

broadcast use vstd::seq_lib::group_seq_properties, vstd::slice::group_slice_axioms;

/// The encoding of a byte string: its length as a varint, then its bytes.
pub open spec fn spec_varstr_bytes(v: Seq<u8>) -> Seq<u8> {
    spec_varint_bytes(v.len() as u64) + v
}

/// Decoding a byte string at the start of `s`: the string and the bytes it took.
pub open spec fn spec_parse_varstr(s: Seq<u8>) -> Option<(Seq<u8>, int)> {
    match spec_parse_varint(s) {
        Some((len, off)) => if off + len <= s.len() {
            Some((s.subrange(off, off + len), off + len))
        } else {
            None
        },
        None => None,
    }
}

pub proof fn lemma_parse_varstr_len(s: Seq<u8>)
    ensures
        spec_parse_varstr(s) matches Some((v, n)) ==> 1 <= n <= s.len() && v.len() < n,
{
    lemma_parse_varint_len(s);
}

/// Decoding the encoding of `v`, whatever follows it, gives back `v`.
pub proof fn lemma_varstr_roundtrip(v: Seq<u8>, rest: Seq<u8>)
    requires
        v.len() <= u64::MAX,
    ensures
        spec_varstr_bytes(v).len() == spec_length_varint(v.len() as u64) + v.len(),
        spec_parse_varstr(spec_varstr_bytes(v) + rest) == Some((v, spec_varstr_bytes(v).len() as int)),
{
    let p = spec_varint_bytes(v.len() as u64);
    lemma_varint_roundtrip(v.len() as u64, v + rest);
    assert(spec_varstr_bytes(v) + rest =~= p + (v + rest));
    let s = spec_varstr_bytes(v) + rest;
    assert(s.subrange(p.len() as int, (p.len() + v.len()) as int) =~= v);
}

/// How many bytes the encoding of `v` takes.
pub fn length_varstr(v: &[u8]) -> (r: usize)
    requires
        v@.len() + 9 <= usize::MAX,
    ensures
        r == spec_varstr_bytes(v@).len(),
{
    proof {
        lemma_varint_roundtrip(v@.len() as u64, seq![]);
    }
    length_varint(v.len() as u64) + v.len()
}

/// Appends the encoding of `v`; returns its length.
pub fn serialize_varstr(v: &[u8], into: &mut Vec<u8>) -> (r: usize)
    requires
        v@.len() + 9 <= usize::MAX,
    ensures
        final(into)@ == old(into)@ + spec_varstr_bytes(v@),
        r == spec_varstr_bytes(v@).len(),
{
    let starting = serialize_varint(v.len() as u64, into);
    put_slice(into, v);
    assert(into@ =~= old(into)@ + spec_varstr_bytes(v@));
    starting + v.len()
}

/// Decodes a byte string at the start of `buffer`; the result borrows from `buffer`.
pub fn deserialize_varstr(buffer: &[u8]) -> (r: Result<(&[u8], usize), ParseError>)
    ensures
        r matches Ok((v, n)) ==> spec_parse_varstr(buffer@) == Some((v@, n as int)),
        r is Err <==> spec_parse_varstr(buffer@) is None,
        r is Err ==> r == Err::<(&[u8], usize), ParseError>(ParseError::NotEnoughBytes),
{
    let (length, offset) = deserialize_varint(buffer)?;
    proof {
        lemma_parse_varint_len(buffer@);
    }
    if length > (buffer.len() - offset) as u64 {
        return Err(ParseError::NotEnoughBytes);
    }
    let end = offset + length as usize;
    Ok((&buffer[offset..end], end))
}

impl<'a> DeserializableBorrowed<'a> for &'a [u8] {
    open spec fn spec_deserialize(s: Seq<u8>) -> Option<(Seq<u8>, int)> {
        spec_parse_varstr(s)
    }

    proof fn lemma_deserialize_len(s: Seq<u8>) {
        lemma_parse_varstr_len(s);
    }

    fn deserialize_borrowed(&mut self, buffer: &'a [u8]) -> (r: Result<usize, ParseError>) {
        let (res, consumed) = deserialize_varstr(buffer)?;
        *self = res;
        Ok(consumed)
    }
}

impl Serializable for Vec<u8> {
    open spec fn spec_serialize(v: Seq<u8>) -> Seq<u8> {
        spec_varstr_bytes(v)
    }

    open spec fn spec_serializable(v: Seq<u8>) -> bool {
        v.len() + 9 <= usize::MAX
    }

    fn serialize(&self, stream: &mut Vec<u8>) {
        serialize_varstr(self.as_slice(), stream);
    }
}

impl DeserializableOwned for Vec<u8> {
    open spec fn spec_deserialize_owned(s: Seq<u8>) -> Option<(Seq<u8>, int)> {
        spec_parse_varstr(s)
    }

    proof fn lemma_deserialize_owned_len(s: Seq<u8>) {
        lemma_parse_varstr_len(s);
    }

    fn deserialize_owned(buffer: &[u8]) -> (r: Result<(Vec<u8>, usize), ParseError>) {
        let (res, consumed) = deserialize_varstr(buffer)?;
        Ok((vstd::slice::slice_to_vec(res), consumed))
    }
}

/// Where a run of `count` encoded byte strings starting at `off` ends.
pub open spec fn spec_varstrs_end(s: Seq<u8>, off: int, count: nat) -> Option<int>
    decreases count,
{
    if count == 0 {
        Some(off)
    } else {
        match spec_parse_varstr(s.subrange(off, s.len() as int)) {
            Some((_, n)) => spec_varstrs_end(s, off + n, (count - 1) as nat),
            None => None,
        }
    }
}

/// Decoding an array of byte strings (a varint count, then that many
/// byte strings) as one span: the span of the whole array and its length.
pub open spec fn spec_parse_varstr_array_span(s: Seq<u8>) -> Option<(Seq<u8>, int)> {
    match spec_parse_varint(s) {
        Some((count, off)) => match spec_varstrs_end(s, off, count as nat) {
            Some(end) => Some((s.subrange(0, end), end)),
            None => None,
        },
        None => None,
    }
}

proof fn lemma_varstrs_end_step(s: Seq<u8>, off: int, i: nat)
    requires
        0 <= off <= s.len(),
        spec_varstrs_end(s, off, i) is Some,
    ensures
        off <= spec_varstrs_end(s, off, i).unwrap() <= s.len(),
        spec_varstrs_end(s, off, i + 1) == (match spec_parse_varstr(s.subrange(spec_varstrs_end(s, off, i).unwrap(), s.len() as int)) {
            Some((_, n)) => Some(spec_varstrs_end(s, off, i).unwrap() + n),
            None => None,
        }),
    decreases i,
{
    if i == 0 {
        assert(spec_varstrs_end(s, off, 1) == match spec_parse_varstr(s.subrange(off, s.len() as int)) {
            Some((_, n)) => spec_varstrs_end(s, off + n, 0),
            None => None,
        });
    } else {
        lemma_parse_varstr_len(s.subrange(off, s.len() as int));
        let (_, n) = spec_parse_varstr(s.subrange(off, s.len() as int)).unwrap();
        lemma_varstrs_end_step(s, off + n, (i - 1) as nat);
    }
}

proof fn lemma_varstrs_end_none(s: Seq<u8>, off: int, j: nat, k: nat)
    requires
        0 <= off <= s.len(),
        j <= k,
        spec_varstrs_end(s, off, j) is None,
    ensures
        spec_varstrs_end(s, off, k) is None,
    decreases j,
{
    if j > 0 {
        match spec_parse_varstr(s.subrange(off, s.len() as int)) {
            Some((_, n)) => {
                lemma_parse_varstr_len(s.subrange(off, s.len() as int));
                lemma_varstrs_end_none(s, off + n, (j - 1) as nat, (k - 1) as nat);
            },
            None => {},
        }
    }
}

proof fn lemma_varstrs_end_bound(s: Seq<u8>, off: int, count: nat)
    requires
        0 <= off <= s.len(),
    ensures
        spec_varstrs_end(s, off, count) matches Some(e) ==> off <= e <= s.len(),
    decreases count,
{
    if count > 0 {
        lemma_parse_varstr_len(s.subrange(off, s.len() as int));
        if let Some((_, n)) = spec_parse_varstr(s.subrange(off, s.len() as int)) {
            lemma_varstrs_end_bound(s, off + n, (count - 1) as nat);
        }
    }
}

/// The span of a decoded array of byte strings lies inside what it was decoded from.
pub proof fn lemma_parse_varstr_array_span_len(s: Seq<u8>)
    ensures
        spec_parse_varstr_array_span(s) matches Some((v, n)) ==> 0 < n <= s.len() && v == s.subrange(0, n),
{
    lemma_parse_varint_len(s);
    if let Some((count, off)) = spec_parse_varint(s) {
        lemma_varstrs_end_bound(s, off, count as nat);
    }
}

/// Decodes an array of byte strings without splitting it: returns the bytes
/// of the whole array (count included) and how many bytes that is.
pub fn deserialize_array_of_varstr_as_varstr(buffer: &[u8]) -> (r: Result<(&[u8], usize), ParseError>)
    ensures
        r matches Ok((v, n)) ==> spec_parse_varstr_array_span(buffer@) == Some((v@, n as int)),
        r is Err <==> spec_parse_varstr_array_span(buffer@) is None,
{
    let (remaining_varstrs, first) = deserialize_varint(buffer)?;
    proof {
        lemma_parse_varint_len(buffer@);
    }
    let mut offset = first;
    let mut i: u64 = 0;
    while i < remaining_varstrs
        invariant
            spec_parse_varint(buffer@) == Some((remaining_varstrs, first as int)),
            first <= buffer@.len(),
            i <= remaining_varstrs,
            offset <= buffer@.len(),
            spec_varstrs_end(buffer@, first as int, i as nat) == Some(offset as int),
        decreases remaining_varstrs - i,
    {
        proof {
            lemma_varstrs_end_step(buffer@, first as int, i as nat);
        }
        let rest = buffer.with_offset(offset)?;
        assert(rest@ == buffer@.subrange(offset as int, buffer@.len() as int));
        proof {
            lemma_parse_varstr_len(rest@);
        }
        let (_, consumed) = match deserialize_varstr(rest) {
            Ok(v) => v,
            Err(e) => {
                proof {
                    lemma_varstrs_end_none(buffer@, first as int, (i + 1) as nat, remaining_varstrs as nat);
                }
                return Err(e);
            },
        };
        assert(consumed <= rest@.len());
        assert(rest@.len() == buffer@.len() - offset);
        assert(buffer@.len() == buffer.len());
        offset = offset + consumed;
        i = i + 1;
    }
    Ok((&buffer[0..offset], offset))
}

/// Decodes an owned copy of an array of byte strings, as one span.
pub fn deserialize_array_of_varstr_as_varstr_owned(buffer: &[u8]) -> (r: Result<(Vec<u8>, usize), ParseError>)
    ensures
        r matches Ok((v, n)) ==> spec_parse_varstr_array_span(buffer@) == Some((v@, n as int)),
        r is Err <==> spec_parse_varstr_array_span(buffer@) is None,
{
    let (span, n) = deserialize_array_of_varstr_as_varstr(buffer)?;
    Ok((vstd::slice::slice_to_vec(span), n))
}

/// Walks an array of byte strings one string at a time.
pub struct VarStrIter<'a> {
    offset: usize,
    buffer: &'a [u8],
    remaining: u64,
}

impl<'a> VarStrIter<'a> {
    /// The bytes being walked.
    pub closed spec fn spec_buffer(&self) -> Seq<u8> {
        self.buffer@
    }

    /// Where the next byte string starts.
    pub closed spec fn spec_offset(&self) -> int {
        self.offset as int
    }

    /// How many byte strings are left.
    pub closed spec fn spec_remaining(&self) -> nat {
        self.remaining as nat
    }

    /// Whether the iterator points inside its buffer.
    pub closed spec fn wf(&self) -> bool {
        self.offset <= self.buffer@.len()
    }

    /// The next byte string, if one is left and it decodes; the walk stops
    /// (returns `None` without moving) at the first one that does not.
    pub fn next(&mut self) -> (r: Option<&'a [u8]>)
        requires
            old(self).wf(),
        ensures
            final(self).wf(),
            final(self).spec_buffer() == old(self).spec_buffer(),
            old(self).spec_remaining() == 0 ==> r is None && *final(self) == *old(self),
            old(self).spec_remaining() > 0 ==> (match spec_parse_varstr(old(self).spec_buffer().subrange(old(self).spec_offset(), old(self).spec_buffer().len() as int)) {
                Some((v, n)) => {
                    &&& r matches Some(s) && s@ == v
                    &&& final(self).spec_offset() == old(self).spec_offset() + n
                    &&& final(self).spec_remaining() == old(self).spec_remaining() - 1
                },
                None => r is None && *final(self) == *old(self),
            }),
    {
        if self.remaining == 0 {
            return None;
        }
        match self.buffer.with_offset(self.offset) {
            Ok(v) => match deserialize_varstr(v) {
                Ok((result, consumed)) => {
                    proof {
                        lemma_parse_varstr_len(v@);
                    }
                    assert(consumed <= v@.len());
                    assert(v@.len() == self.buffer@.len() - self.offset);
                    assert(self.buffer@.len() == self.buffer.len());
                    self.offset = self.offset + consumed;
                    self.remaining = self.remaining - 1;
                    Some(result)
                },
                Err(_) => None,
            },
            Err(_) => None,
        }
    }
}

/// Starts walking an array of byte strings: reads its count.
pub fn deserialize_array_of_varsrs_iter(buffer: &[u8]) -> (r: Result<VarStrIter<'_>, ParseError>)
    ensures
        r is Err <==> spec_parse_varint(buffer@) is None,
        r matches Ok(it) ==> {
            &&& it.wf()
            &&& it.spec_buffer() == buffer@
            &&& spec_parse_varint(buffer@) == Some((it.spec_remaining() as u64, it.spec_offset()))
        },
{
    let (count, consumed) = deserialize_varint(buffer)?;
    proof {
        lemma_parse_varint_len(buffer@);
    }
    Ok(VarStrIter { offset: consumed, buffer, remaining: count })
}

} // verus!
