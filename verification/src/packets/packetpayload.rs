//! The decoding and encoding interfaces every payload type implements,
//! and arrays of such payloads.
use vstd::prelude::*;
use super::buffer::{Buffer, ParseError};
use super::varint::{
    spec_varint_bytes, spec_parse_varint, lemma_parse_varint_len, serialize_varint,
    deserialize_varint, VarInt,
};

verus! {

broadcast use vstd::seq_lib::group_seq_properties, vstd::slice::group_slice_axioms;

/// A value decoded in place from a received buffer.
pub trait DeserializableBorrowed<'a>: Sized + View {
    /// Decoding a value at the start of `s`: its model and how many bytes it took.
    spec fn spec_deserialize(s: Seq<u8>) -> Option<(Self::V, int)>;

    /// A decoded value never takes more bytes than it was given.
    proof fn lemma_deserialize_len(s: Seq<u8>)
        ensures
            Self::spec_deserialize(s) matches Some((_, n)) ==> 0 <= n <= s.len(),
    ;

    /// Decodes a value at the start of `buffer` into `self`; returns how many bytes it took.
    fn deserialize_borrowed(&mut self, buffer: &'a [u8]) -> (r: Result<usize, ParseError>)
        ensures
            r matches Ok(n) ==> Self::spec_deserialize(buffer@) == Some((final(self)@, n as int)),
            r is Err <==> Self::spec_deserialize(buffer@) is None,
    ;
}

/// A value decoded into owned storage.
pub trait DeserializableOwned: Sized + View {
    /// Decoding a value at the start of `s`: its model and how many bytes it took.
    spec fn spec_deserialize_owned(s: Seq<u8>) -> Option<(Self::V, int)>;

    /// A decoded value never takes more bytes than it was given.
    proof fn lemma_deserialize_owned_len(s: Seq<u8>)
        ensures
            Self::spec_deserialize_owned(s) matches Some((_, n)) ==> 0 <= n <= s.len(),
    ;

    /// Decodes a value at the start of `buffer`; returns it and how many bytes it took.
    fn deserialize_owned(buffer: &[u8]) -> (r: Result<(Self, usize), ParseError>)
        ensures
            r matches Ok((v, n)) ==> Self::spec_deserialize_owned(buffer@) == Some((v@, n as int)),
            r is Err <==> Self::spec_deserialize_owned(buffer@) is None,
    ;
}

/// A value that can be put on the wire.
pub trait Serializable: Sized + View {
    /// The encoding of a value.
    spec fn spec_serialize(v: Self::V) -> Seq<u8>;

    /// Whether a value can be encoded without its lengths overflowing.
    spec fn spec_serializable(v: Self::V) -> bool;

    /// Appends the encoding of `self` to `stream`.
    fn serialize(&self, stream: &mut Vec<u8>)
        requires
            Self::spec_serializable(self@),
        ensures
            final(stream)@ == old(stream)@ + Self::spec_serialize(self@),
    ;
}

/// A payload that travels under a 12-byte command name.
pub trait PacketPayload: Sized {
    /// The command name of this payload.
    spec fn spec_command() -> Seq<u8>;

    /// The command name of this payload.
    fn command(&self) -> (r: [u8; 12])
        ensures
            r@ == Self::spec_command(),
    ;
}

/// Decoding `count` values one after another: their models and the bytes they took.
pub open spec fn spec_deserialize_items<'a, T: DeserializableBorrowed<'a>>(s: Seq<u8>, count: nat) -> Option<(Seq<T::V>, int)>
    decreases count,
{
    if count == 0 {
        Some((Seq::empty(), 0))
    } else {
        match spec_deserialize_items::<T>(s, (count - 1) as nat) {
            Some((items, off)) => if 0 <= off <= s.len() {
                match T::spec_deserialize(s.subrange(off, s.len() as int)) {
                    Some((v, n)) => Some((items.push(v), off + n)),
                    None => None,
                }
            } else {
                None
            },
            None => None,
        }
    }
}

/// Decoding an array: a varint count, then that many values.
pub open spec fn spec_deserialize_array<'a, T: DeserializableBorrowed<'a>>(s: Seq<u8>) -> Option<(Seq<T::V>, int)> {
    match spec_parse_varint(s) {
        Some((count, c)) => match spec_deserialize_items::<T>(s.subrange(c, s.len() as int), count as nat) {
            Some((items, n)) => Some((items, c + n)),
            None => None,
        },
        None => None,
    }
}

proof fn lemma_items_len<'a, T: DeserializableBorrowed<'a>>(s: Seq<u8>, count: nat)
    ensures
        spec_deserialize_items::<T>(s, count) matches Some((items, n)) ==> 0 <= n <= s.len() && items.len() == count,
    decreases count,
{
    if count > 0 {
        lemma_items_len::<T>(s, (count - 1) as nat);
        if let Some((items, off)) = spec_deserialize_items::<T>(s, (count - 1) as nat) {
            if 0 <= off <= s.len() {
                T::lemma_deserialize_len(s.subrange(off, s.len() as int));
            }
        }
    }
}

pub proof fn lemma_items_none<'a, T: DeserializableBorrowed<'a>>(s: Seq<u8>, j: nat, k: nat)
    requires
        j <= k,
        spec_deserialize_items::<T>(s, j) is None,
    ensures
        spec_deserialize_items::<T>(s, k) is None,
    decreases k,
{
    if j < k {
        lemma_items_none::<T>(s, j, (k - 1) as nat);
    }
}

/// A decoded array never takes more bytes than it was given.
pub proof fn lemma_deserialize_array_len<'a, T: DeserializableBorrowed<'a>>(s: Seq<u8>)
    ensures
        spec_deserialize_array::<T>(s) matches Some((_, n)) ==> 0 < n <= s.len(),
{
    lemma_parse_varint_len(s);
    if let Some((count, c)) = spec_parse_varint(s) {
        lemma_items_len::<T>(s.subrange(c, s.len() as int), count as nat);
    }
}

/// Decodes an array of values: a varint count, then that many values.
pub fn deserialize_array<'a, T: DeserializableBorrowed<'a> + Default>(buffer: &'a [u8]) -> (r: Result<(Vec<T>, usize), ParseError>)
    ensures
        r matches Ok((items, n)) ==> spec_deserialize_array::<T>(buffer@) == Some((items@.map_values(|t: T| t@), n as int)),
        r is Err <==> spec_deserialize_array::<T>(buffer@) is None,
{
    let (count, first) = deserialize_varint(buffer)?;
    proof {
        lemma_parse_varint_len(buffer@);
    }
    let ghost rest = buffer@.subrange(first as int, buffer@.len() as int);
    let mut items: Vec<T> = Vec::new();
    let mut offset = first;
    let mut i: u64 = 0;
    while i < count
        invariant
            spec_parse_varint(buffer@) == Some((count, first as int)),
            first <= offset <= buffer@.len(),
            buffer@.len() == buffer.len(),
            rest == buffer@.subrange(first as int, buffer@.len() as int),
            i <= count,
            items@.len() == i,
            spec_deserialize_items::<T>(rest, i as nat) == Some((items@.map_values(|t: T| t@), offset - first)),
        decreases count - i,
    {
        let ghost prev = items@.map_values(|t: T| t@);
        let chunk = buffer.with_offset(offset)?;
        assert(chunk@ == rest.subrange(offset - first, rest.len() as int));
        let mut item = T::default();
        let consumed = match item.deserialize_borrowed(chunk) {
            Ok(n) => n,
            Err(e) => {
                proof {
                    lemma_items_none::<T>(rest, (i + 1) as nat, count as nat);
                }
                return Err(e);
            },
        };
        proof {
            T::lemma_deserialize_len(chunk@);
        }
        assert(consumed <= chunk@.len());
        items.push(item);
        offset = offset + consumed;
        i = i + 1;
        assert(items@.map_values(|t: T| t@) =~= prev.push(item@));
    }
    Ok((items, offset))
}

/// Decoding `count` owned values one after another.
pub open spec fn spec_deserialize_items_owned<T: DeserializableOwned>(s: Seq<u8>, count: nat) -> Option<(Seq<T::V>, int)>
    decreases count,
{
    if count == 0 {
        Some((Seq::empty(), 0))
    } else {
        match spec_deserialize_items_owned::<T>(s, (count - 1) as nat) {
            Some((items, off)) => if 0 <= off <= s.len() {
                match T::spec_deserialize_owned(s.subrange(off, s.len() as int)) {
                    Some((v, n)) => Some((items.push(v), off + n)),
                    None => None,
                }
            } else {
                None
            },
            None => None,
        }
    }
}

/// Decoding an array of owned values: a varint count, then that many values.
pub open spec fn spec_deserialize_array_owned<T: DeserializableOwned>(s: Seq<u8>) -> Option<(Seq<T::V>, int)> {
    match spec_parse_varint(s) {
        Some((count, c)) => match spec_deserialize_items_owned::<T>(s.subrange(c, s.len() as int), count as nat) {
            Some((items, n)) => Some((items, c + n)),
            None => None,
        },
        None => None,
    }
}

proof fn lemma_items_owned_none<T: DeserializableOwned>(s: Seq<u8>, j: nat, k: nat)
    requires
        j <= k,
        spec_deserialize_items_owned::<T>(s, j) is None,
    ensures
        spec_deserialize_items_owned::<T>(s, k) is None,
    decreases k,
{
    if j < k {
        lemma_items_owned_none::<T>(s, j, (k - 1) as nat);
    }
}

proof fn lemma_items_owned_len<T: DeserializableOwned>(s: Seq<u8>, count: nat)
    ensures
        spec_deserialize_items_owned::<T>(s, count) matches Some((items, n)) ==> 0 <= n <= s.len() && items.len() == count,
    decreases count,
{
    if count > 0 {
        lemma_items_owned_len::<T>(s, (count - 1) as nat);
        if let Some((items, off)) = spec_deserialize_items_owned::<T>(s, (count - 1) as nat) {
            if 0 <= off <= s.len() {
                T::lemma_deserialize_owned_len(s.subrange(off, s.len() as int));
            }
        }
    }
}

/// A decoded array of owned values never takes more bytes than it was given.
pub proof fn lemma_deserialize_array_owned_len<T: DeserializableOwned>(s: Seq<u8>)
    ensures
        spec_deserialize_array_owned::<T>(s) matches Some((_, n)) ==> 0 < n <= s.len(),
{
    lemma_parse_varint_len(s);
    if let Some((count, c)) = spec_parse_varint(s) {
        lemma_items_owned_len::<T>(s.subrange(c, s.len() as int), count as nat);
    }
}

/// Decodes an array of owned values: a varint count, then that many values.
pub fn deserialize_array_owned<T: DeserializableOwned>(buffer: &[u8]) -> (r: Result<(Vec<T>, usize), ParseError>)
    ensures
        r matches Ok((items, n)) ==> spec_deserialize_array_owned::<T>(buffer@) == Some((items@.map_values(|t: T| t@), n as int)),
        r is Err <==> spec_deserialize_array_owned::<T>(buffer@) is None,
{
    let (count, first) = deserialize_varint(buffer)?;
    proof {
        lemma_parse_varint_len(buffer@);
    }
    let ghost rest = buffer@.subrange(first as int, buffer@.len() as int);
    let mut items: Vec<T> = Vec::new();
    let mut offset = first;
    let mut i: u64 = 0;
    while i < count
        invariant
            spec_parse_varint(buffer@) == Some((count, first as int)),
            first <= offset <= buffer@.len(),
            buffer@.len() == buffer.len(),
            rest == buffer@.subrange(first as int, buffer@.len() as int),
            i <= count,
            items@.len() == i,
            spec_deserialize_items_owned::<T>(rest, i as nat) == Some((items@.map_values(|t: T| t@), offset - first)),
        decreases count - i,
    {
        let ghost prev = items@.map_values(|t: T| t@);
        let chunk = buffer.with_offset(offset)?;
        assert(chunk@ == rest.subrange(offset - first, rest.len() as int));
        let (item, consumed) = match T::deserialize_owned(chunk) {
            Ok(v) => v,
            Err(e) => {
                proof {
                    lemma_items_owned_none::<T>(rest, (i + 1) as nat, count as nat);
                }
                return Err(e);
            },
        };
        proof {
            T::lemma_deserialize_owned_len(chunk@);
        }
        assert(consumed <= chunk@.len());
        items.push(item);
        offset = offset + consumed;
        i = i + 1;
        assert(items@.map_values(|t: T| t@) =~= prev.push(item@));
    }
    Ok((items, offset))
}

/// The encodings of a sequence of values, one after another.
pub open spec fn spec_serialize_items<T: Serializable>(items: Seq<T::V>) -> Seq<u8>
    decreases items.len(),
{
    if items.len() == 0 {
        Seq::empty()
    } else {
        spec_serialize_items::<T>(items.drop_last()) + T::spec_serialize(items.last())
    }
}

/// The encoding of an array: its length as a varint, then its values.
pub open spec fn spec_serialize_array<T: Serializable>(items: Seq<T::V>) -> Seq<u8> {
    spec_varint_bytes(items.len() as u64) + spec_serialize_items::<T>(items)
}

/// Appends the encoding of an array of values.
pub fn serialize_array<T: Serializable>(array: &[T], into: &mut Vec<u8>)
    requires
        forall|i: int| 0 <= i < array@.len() ==> T::spec_serializable(#[trigger] array@[i]@),
    ensures
        final(into)@ == old(into)@ + spec_serialize_array::<T>(array@.map_values(|t: T| t@)),
{
    let ghost views = array@.map_values(|t: T| t@);
    serialize_varint(array.len() as VarInt, into);
    let ghost start = into@;
    let mut i: usize = 0;
    while i < array.len()
        invariant
            i <= array@.len(),
            views == array@.map_values(|t: T| t@),
            forall|k: int| 0 <= k < array@.len() ==> T::spec_serializable(#[trigger] array@[k]@),
            into@ == start + spec_serialize_items::<T>(views.take(i as int)),
        decreases array@.len() - i,
    {
        array[i].serialize(into);
        assert(views.take(i + 1).drop_last() =~= views.take(i as int));
        i = i + 1;
        assert(into@ =~= start + spec_serialize_items::<T>(views.take(i as int)));
    }
    assert(views.take(array@.len() as int) =~= views);
    assert(into@ =~= old(into)@ + spec_serialize_array::<T>(views));
}

/// The encoding of the first `j` values is a prefix of the encoding of all of them.
pub proof fn lemma_serialize_items_prefix<T: Serializable>(items: Seq<T::V>, j: int)
    requires
        0 <= j <= items.len(),
    ensures
        spec_serialize_items::<T>(items.take(j)).len() <= spec_serialize_items::<T>(items).len(),
        spec_serialize_items::<T>(items).subrange(0, spec_serialize_items::<T>(items.take(j)).len() as int)
            == spec_serialize_items::<T>(items.take(j)),
    decreases items.len() - j,
{
    if j == items.len() {
        assert(items.take(j) =~= items);
    } else {
        lemma_serialize_items_prefix::<T>(items, j + 1);
        assert(items.take(j + 1).drop_last() =~= items.take(j));
        assert(items.take(j + 1).last() == items[j]);
        let a = spec_serialize_items::<T>(items.take(j));
        let b = spec_serialize_items::<T>(items.take(j + 1));
        let all = spec_serialize_items::<T>(items);
        assert(b == a + T::spec_serialize(items[j]));
        assert(all.subrange(0, a.len() as int) =~= b.subrange(0, a.len() as int));
        assert(b.subrange(0, a.len() as int) =~= a);
    }
}

/// Every value of `items` decodes from its own encoding, whatever follows.
pub open spec fn items_roundtrip<'a, B: DeserializableBorrowed<'a>, O: Serializable<V = B::V>>(items: Seq<B::V>) -> bool {
    forall|i: int, rest: Seq<u8>| 0 <= i < items.len() ==>
        #[trigger] B::spec_deserialize(O::spec_serialize(items[i]) + rest)
            == Some((items[i], O::spec_serialize(items[i]).len() as int))
}

proof fn lemma_items_roundtrip<'a, B: DeserializableBorrowed<'a>, O: Serializable<V = B::V>>(items: Seq<B::V>, rest: Seq<u8>, j: int)
    requires
        0 <= j <= items.len(),
        items_roundtrip::<B, O>(items),
    ensures
        spec_deserialize_items::<B>(spec_serialize_items::<O>(items) + rest, j as nat)
            == Some((items.take(j), spec_serialize_items::<O>(items.take(j)).len() as int)),
    decreases j,
{
    let s = spec_serialize_items::<O>(items) + rest;
    if j == 0 {
        assert(items.take(0) =~= Seq::<B::V>::empty());
    } else {
        lemma_items_roundtrip::<B, O>(items, rest, j - 1);
        lemma_serialize_items_prefix::<O>(items, j);
        assert(items.take(j).drop_last() =~= items.take(j - 1));
        assert(items.take(j).last() == items[j - 1]);
        let a = spec_serialize_items::<O>(items.take(j - 1));
        let e = O::spec_serialize(items[j - 1]);
        let b = spec_serialize_items::<O>(items.take(j));
        assert(b == a + e);
        let tail = s.subrange(b.len() as int, s.len() as int);
        assert(s.subrange(0, b.len() as int) =~= b);
        assert(b.subrange(a.len() as int, b.len() as int) =~= e);
        assert(s.subrange(a.len() as int, b.len() as int) =~= b.subrange(a.len() as int, b.len() as int));
        assert(s.subrange(a.len() as int, s.len() as int) =~= s.subrange(a.len() as int, b.len() as int) + tail);
        assert(s.subrange(a.len() as int, s.len() as int) =~= e + tail);
        assert(B::spec_deserialize(e + tail) == Some((items[j - 1], e.len() as int)));
        assert(items.take(j - 1).push(items[j - 1]) =~= items.take(j));
    }
}

/// Decoding the encoding of an array gives it back, whatever follows it,
/// when each of its values decodes from its own encoding.
pub proof fn lemma_array_roundtrip<'a, B: DeserializableBorrowed<'a>, O: Serializable<V = B::V>>(items: Seq<B::V>, rest: Seq<u8>)
    requires
        items.len() <= u64::MAX,
        items_roundtrip::<B, O>(items),
    ensures
        spec_deserialize_array::<B>(spec_serialize_array::<O>(items) + rest)
            == Some((items, spec_serialize_array::<O>(items).len() as int)),
{
    let body = spec_serialize_items::<O>(items);
    let head = spec_varint_bytes(items.len() as u64);
    let s = spec_serialize_array::<O>(items) + rest;
    super::varint::lemma_varint_roundtrip(items.len() as u64, body + rest);
    assert(s =~= head + (body + rest));
    assert(s.subrange(head.len() as int, s.len() as int) =~= body + rest);
    lemma_items_roundtrip::<B, O>(items, rest, items.len() as int);
    assert(items.take(items.len() as int) =~= items);
}

proof fn lemma_items_owned_agrees<'a, B: DeserializableBorrowed<'a>, O: DeserializableOwned<V = B::V>>(s: Seq<u8>, count: nat)
    requires
        forall|t: Seq<u8>| #[trigger] O::spec_deserialize_owned(t) == B::spec_deserialize(t),
    ensures
        spec_deserialize_items_owned::<O>(s, count) == spec_deserialize_items::<B>(s, count),
    decreases count,
{
    if count > 0 {
        lemma_items_owned_agrees::<B, O>(s, (count - 1) as nat);
    }
}

/// Two decoders that agree on every input agree on arrays too.
pub proof fn lemma_array_owned_agrees<'a, B: DeserializableBorrowed<'a>, O: DeserializableOwned<V = B::V>>(s: Seq<u8>)
    requires
        forall|t: Seq<u8>| #[trigger] O::spec_deserialize_owned(t) == B::spec_deserialize(t),
    ensures
        spec_deserialize_array_owned::<O>(s) == spec_deserialize_array::<B>(s),
{
    if let Some((count, c)) = spec_parse_varint(s) {
        lemma_items_owned_agrees::<B, O>(s.subrange(c, s.len() as int), count as nat);
    }
}

} // verus!
