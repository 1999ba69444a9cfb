//! Inventory vectors: a typed reference to a transaction or block by hash.
use vstd::prelude::*;
use vstd::bytes::*;
use super::buffer::{Buffer, ParseError};
use super::encode::{put_u32_le, put_slice, lemma_int_bytes_roundtrip};
use super::packetpayload::{DeserializableBorrowed, Serializable};

verus! {

broadcast use vstd::seq_lib::group_seq_properties, vstd::slice::group_slice_axioms;

/// What an inventory vector refers to.
#[derive(Clone, Copy, Debug, PartialEq, Eq, Structural)]
pub enum InventoryVectorType {
    Error,
    Tx,
    Block,
    FilteredBlock,
    CmpctBlock,
    WitnessTx,
    WitnessBlock,
    FilteredWitnessBlock,
}

impl Default for InventoryVectorType {
    fn default() -> (r: Self)
        ensures
            r == InventoryVectorType::Error,
    {
        InventoryVectorType::Error
    }
}

/// The type with wire code `raw`, if there is one.
pub open spec fn spec_inv_type_from_u32(raw: u32) -> Option<InventoryVectorType> {
    if raw == 0 {
        Some(InventoryVectorType::Error)
    } else if raw == 1 {
        Some(InventoryVectorType::Tx)
    } else if raw == 2 {
        Some(InventoryVectorType::Block)
    } else if raw == 3 {
        Some(InventoryVectorType::FilteredBlock)
    } else if raw == 4 {
        Some(InventoryVectorType::CmpctBlock)
    } else if raw == 0x40000001 {
        Some(InventoryVectorType::WitnessTx)
    } else if raw == 0x40000002 {
        Some(InventoryVectorType::WitnessBlock)
    } else if raw == 0x40000003 {
        Some(InventoryVectorType::FilteredWitnessBlock)
    } else {
        None
    }
}

/// The wire code of a type.
pub open spec fn spec_inv_type_to_u32(t: InventoryVectorType) -> u32 {
    match t {
        InventoryVectorType::Error => 0,
        InventoryVectorType::Tx => 1,
        InventoryVectorType::Block => 2,
        InventoryVectorType::FilteredBlock => 3,
        InventoryVectorType::CmpctBlock => 4,
        InventoryVectorType::WitnessTx => 0x40000001,
        InventoryVectorType::WitnessBlock => 0x40000002,
        InventoryVectorType::FilteredWitnessBlock => 0x40000003,
    }
}

impl InventoryVectorType {
    /// The type with wire code `raw`, if there is one.
    pub fn from_u32(raw: u32) -> (r: Option<InventoryVectorType>)
        ensures
            r == spec_inv_type_from_u32(raw),
    {
        match raw {
            0 => Some(InventoryVectorType::Error),
            1 => Some(InventoryVectorType::Tx),
            2 => Some(InventoryVectorType::Block),
            3 => Some(InventoryVectorType::FilteredBlock),
            4 => Some(InventoryVectorType::CmpctBlock),
            0x40000001 => Some(InventoryVectorType::WitnessTx),
            0x40000002 => Some(InventoryVectorType::WitnessBlock),
            0x40000003 => Some(InventoryVectorType::FilteredWitnessBlock),
            _ => None,
        }
    }

    /// The wire code of this type.
    pub fn to_u32(&self) -> (r: u32)
        ensures
            r == spec_inv_type_to_u32(*self),
    {
        match self {
            InventoryVectorType::Error => 0,
            InventoryVectorType::Tx => 1,
            InventoryVectorType::Block => 2,
            InventoryVectorType::FilteredBlock => 3,
            InventoryVectorType::CmpctBlock => 4,
            InventoryVectorType::WitnessTx => 0x40000001,
            InventoryVectorType::WitnessBlock => 0x40000002,
            InventoryVectorType::FilteredWitnessBlock => 0x40000003,
        }
    }
}

/// An inventory vector: its type and the 32-byte hash it refers to.
pub struct InventoryVectorModel {
    pub inv_type: InventoryVectorType,
    pub hash: Seq<u8>,
}

/// Decoding an inventory vector: a little-endian type code, then a hash.
pub open spec fn spec_parse_inv_vector(s: Seq<u8>) -> Option<(InventoryVectorModel, int)> {
    if s.len() >= 36 {
        match spec_inv_type_from_u32(spec_u32_from_le_bytes(s.subrange(0, 4))) {
            Some(t) => Some((InventoryVectorModel { inv_type: t, hash: s.subrange(4, 36) }, 36)),
            None => None,
        }
    } else {
        None
    }
}

/// The encoding of an inventory vector.
pub open spec fn spec_inv_vector_bytes(v: InventoryVectorModel) -> Seq<u8> {
    spec_u32_to_le_bytes(spec_inv_type_to_u32(v.inv_type)) + v.hash
}

/// Decoding the encoding of an inventory vector gives it back.
pub proof fn lemma_inv_vector_roundtrip(v: InventoryVectorModel, rest: Seq<u8>)
    requires
        v.hash.len() == 32,
    ensures
        spec_inv_vector_bytes(v).len() == 36,
        spec_parse_inv_vector(spec_inv_vector_bytes(v) + rest) == Some((v, 36int)),
{
    lemma_int_bytes_roundtrip();
    let s = spec_inv_vector_bytes(v) + rest;
    assert(s.subrange(0, 4) =~= spec_u32_to_le_bytes(spec_inv_type_to_u32(v.inv_type)));
    assert(s.subrange(4, 36) =~= v.hash);
}

/// An inventory vector decoded from a buffer.
#[derive(Clone, Copy, Debug)]
pub struct InventoryVectorBorrowed {
    pub inv_type: InventoryVectorType,
    pub hash: [u8; 32],
}

impl Default for InventoryVectorBorrowed {
    fn default() -> (r: Self)
        ensures
            r.inv_type == InventoryVectorType::Error,
    {
        InventoryVectorBorrowed { inv_type: InventoryVectorType::Error, hash: [0u8; 32] }
    }
}

impl View for InventoryVectorBorrowed {
    type V = InventoryVectorModel;

    open spec fn view(&self) -> InventoryVectorModel {
        InventoryVectorModel { inv_type: self.inv_type, hash: self.hash@ }
    }
}

impl<'a> DeserializableBorrowed<'a> for InventoryVectorBorrowed {
    open spec fn spec_deserialize(s: Seq<u8>) -> Option<(InventoryVectorModel, int)> {
        spec_parse_inv_vector(s)
    }

    proof fn lemma_deserialize_len(s: Seq<u8>) {
    }

    fn deserialize_borrowed(&mut self, buffer: &'a [u8]) -> (r: Result<usize, ParseError>)
        ensures
            buffer@.len() < 4 ==> r == Err::<usize, ParseError>(ParseError::NotEnoughBytes),
            buffer@.len() >= 4 && spec_inv_type_from_u32(spec_u32_from_le_bytes(buffer@.subrange(0, 4))) is None
                ==> r == Err::<usize, ParseError>(ParseError::UnknownInventoryType(spec_u32_from_le_bytes(buffer@.subrange(0, 4)))),
    {
        let raw_type = buffer.get_u32_le(0)?;
        let inv_type = match InventoryVectorType::from_u32(raw_type) {
            Some(t) => t,
            None => {
                return Err(ParseError::UnknownInventoryType(raw_type));
            },
        };
        let hash = buffer.get_hash(4)?;
        self.inv_type = inv_type;
        self.hash = hash;
        Ok(36)
    }
}

/// An inventory vector to be sent.
#[derive(Clone, Copy, Debug)]
pub struct InventoryVectorOwned {
    pub inv_type: InventoryVectorType,
    pub hash: [u8; 32],
}

impl View for InventoryVectorOwned {
    type V = InventoryVectorModel;

    open spec fn view(&self) -> InventoryVectorModel {
        InventoryVectorModel { inv_type: self.inv_type, hash: self.hash@ }
    }
}

impl Serializable for InventoryVectorOwned {
    open spec fn spec_serialize(v: InventoryVectorModel) -> Seq<u8> {
        spec_inv_vector_bytes(v)
    }

    open spec fn spec_serializable(v: InventoryVectorModel) -> bool {
        true
    }

    fn serialize(&self, stream: &mut Vec<u8>) {
        put_u32_le(stream, self.inv_type.to_u32());
        put_slice(stream, self.hash.as_slice());
    }
}

impl InventoryVectorOwned {
    /// The owned copy of a decoded inventory vector.
    pub fn from(value: InventoryVectorBorrowed) -> (r: InventoryVectorOwned)
        ensures
            r@ == value@,
    {
        InventoryVectorOwned { inv_type: value.inv_type, hash: value.hash }
    }
}

} // verus!
