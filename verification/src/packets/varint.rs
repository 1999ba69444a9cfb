//! Bitcoin's variable-length integer ("CompactSize").
use vstd::prelude::*;
use vstd::bytes::*;
use super::buffer::{Buffer, ParseError};
use super::encode::{put_u8, put_u16_le, put_u32_le, put_u64_le, lemma_int_bytes_roundtrip};

verus! {

broadcast use vstd::seq_lib::group_seq_properties;

pub type VarInt = u64;

/// How many bytes the encoding of `v` takes.
pub open spec fn spec_length_varint(v: u64) -> nat {
    if v < 0xFD {
        1
    } else if v < 0xFFFF {
        3
    } else if v < 0xFFFFFFFF {
        5
    } else {
        9
    }
}

/// The encoding of `v`: one byte below 0xFD, otherwise a marker byte
/// (0xFD, 0xFE, 0xFF) followed by a little-endian u16, u32 or u64.
pub open spec fn spec_varint_bytes(v: u64) -> Seq<u8> {
    if v < 0xFD {
        seq![v as u8]
    } else if v < 0xFFFF {
        seq![0xFDu8] + spec_u16_to_le_bytes(v as u16)
    } else if v < 0xFFFFFFFF {
        seq![0xFEu8] + spec_u32_to_le_bytes(v as u32)
    } else {
        seq![0xFFu8] + spec_u64_to_le_bytes(v)
    }
}

/// Decoding a varint at the start of `s`: the value and the number of bytes it took.
pub open spec fn spec_parse_varint(s: Seq<u8>) -> Option<(u64, int)> {
    if s.len() == 0 {
        None
    } else if s[0] < 0xFD {
        Some((s[0] as u64, 1))
    } else if s[0] == 0xFD {
        if s.len() >= 3 {
            Some((spec_u16_from_le_bytes(s.subrange(1, 3)) as u64, 3))
        } else {
            None
        }
    } else if s[0] == 0xFE {
        if s.len() >= 5 {
            Some((spec_u32_from_le_bytes(s.subrange(1, 5)) as u64, 5))
        } else {
            None
        }
    } else {
        if s.len() >= 9 {
            Some((spec_u64_from_le_bytes(s.subrange(1, 9)), 9))
        } else {
            None
        }
    }
}

/// A decoded varint never takes more bytes than it was given, and takes at least one.
pub proof fn lemma_parse_varint_len(s: Seq<u8>)
    ensures
        spec_parse_varint(s) matches Some((_, n)) ==> 1 <= n <= s.len() && n <= 9,
{
}

/// Decoding the encoding of `v`, whatever follows it, gives back `v` and
/// the length of the encoding.
pub proof fn lemma_varint_roundtrip(v: u64, rest: Seq<u8>)
    ensures
        spec_varint_bytes(v).len() == spec_length_varint(v),
        spec_parse_varint(spec_varint_bytes(v) + rest) == Some((v, spec_length_varint(v) as int)),
{
    lemma_int_bytes_roundtrip();
    let b = spec_varint_bytes(v);
    let s = b + rest;
    if v < 0xFD {
    } else if v < 0xFFFF {
        assert(s.subrange(1, 3) =~= spec_u16_to_le_bytes(v as u16));
    } else if v < 0xFFFFFFFF {
        assert(s.subrange(1, 5) =~= spec_u32_to_le_bytes(v as u32));
    } else {
        assert(s.subrange(1, 9) =~= spec_u64_to_le_bytes(v));
    }
}

/// How many bytes the encoding of `v` takes.
pub fn length_varint(v: VarInt) -> (r: usize)
    ensures
        r == spec_length_varint(v),
{
    if v < 0xFD {
        1
    } else if v < 0xFFFF {
        3
    } else if v < 0xFFFFFFFF {
        5
    } else {
        9
    }
}

/// Appends the encoding of `v`; returns its length.
pub fn serialize_varint(v: VarInt, into: &mut Vec<u8>) -> (r: usize)
    ensures
        final(into)@ == old(into)@ + spec_varint_bytes(v),
        r == spec_length_varint(v),
        r == spec_varint_bytes(v).len(),
{
    proof {
        lemma_int_bytes_roundtrip();
    }
    if v < 0xFD {
        put_u8(into, v as u8);
        assert(into@ =~= old(into)@ + spec_varint_bytes(v));
        1
    } else if v < 0xFFFF {
        put_u8(into, 0xFD);
        put_u16_le(into, v as u16);
        assert(into@ =~= old(into)@ + spec_varint_bytes(v));
        3
    } else if v < 0xFFFFFFFF {
        put_u8(into, 0xFE);
        put_u32_le(into, v as u32);
        assert(into@ =~= old(into)@ + spec_varint_bytes(v));
        5
    } else {
        put_u8(into, 0xFF);
        put_u64_le(into, v);
        assert(into@ =~= old(into)@ + spec_varint_bytes(v));
        9
    }
}

/// Decodes a varint at the start of `buffer`: its value and how many bytes it took.
pub fn deserialize_varint(buffer: &[u8]) -> (r: Result<(VarInt, usize), ParseError>)
    ensures
        r matches Ok((v, n)) ==> spec_parse_varint(buffer@) == Some((v, n as int)),
        r is Err <==> spec_parse_varint(buffer@) is None,
        r is Err ==> r == Err::<(VarInt, usize), ParseError>(ParseError::NotEnoughBytes),
{
    if buffer.len() == 0 {
        return Err(ParseError::NotEnoughBytes);
    }
    let leader = buffer[0];
    if leader < 0xFD {
        Ok((leader as u64, 1))
    } else if leader == 0xFD {
        let v = buffer.get_u16_le(1)?;
        Ok((v as u64, 3))
    } else if leader == 0xFE {
        let v = buffer.get_u32_le(1)?;
        Ok((v as u64, 5))
    } else {
        let v = buffer.get_u64_le(1)?;
        Ok((v, 9))
    }
}

/// Writes the encoding of `v` at the start of `into`; returns its length.
pub fn serialize_varint_into_slice(v: VarInt, into: &mut [u8]) -> (r: usize)
    requires
        old(into)@.len() >= spec_length_varint(v),
    ensures
        r == spec_length_varint(v),
        final(into)@.len() == old(into)@.len(),
        final(into)@ == spec_varint_bytes(v) + old(into)@.skip(r as int),
{
    proof {
        lemma_int_bytes_roundtrip();
    }
    let ghost enc = spec_varint_bytes(v);
    if v < 0xFD {
        into[0] = v as u8;
        assert(into@ =~= enc + old(into)@.skip(1));
        1
    } else {
        let (bytes, n): (Vec<u8>, usize) = if v < 0xFFFF {
            into[0] = 0xFD;
            (u16_to_le_bytes(v as u16), 3)
        } else if v < 0xFFFFFFFF {
            into[0] = 0xFE;
            (u32_to_le_bytes(v as u32), 5)
        } else {
            into[0] = 0xFF;
            (u64_to_le_bytes(v), 9)
        };
        assert(enc =~= seq![into@[0]] + bytes@);
        let mut i: usize = 1;
        while i < n
            invariant
                n == spec_length_varint(v),
                n == bytes@.len() + 1,
                1 <= i <= n,
                into@.len() == old(into)@.len(),
                old(into)@.len() >= n,
                enc == seq![into@[0]] + bytes@,
                forall|j: int| 0 <= j < i ==> into@[j] == enc[j],
                forall|j: int| n <= j < into@.len() ==> into@[j] == old(into)@[j],
            decreases n - i,
        {
            into[i] = bytes[i - 1];
            i = i + 1;
        }
        assert(into@ =~= enc + old(into)@.skip(n as int));
        n
    }
}

/// The encoding of a non-zero count never starts with a zero byte.
pub proof fn lemma_varint_first_byte_nonzero(v: u64)
    requires
        v > 0,
    ensures
        spec_varint_bytes(v).len() > 0,
        spec_varint_bytes(v)[0] != 0,
{
}

} // verus!
