//! Telling what kind of address a searched term is, and its bytes.
use vstd::prelude::*;
use crate::util::crypto::{hex_decode, spec_hex_decode};

verus! {

#[verifier::external_type_specification]
#[verifier::external_body]
pub struct ExBs58DecodeError(bs58::decode::Error);

#[verifier::external_type_specification]
#[verifier::external_body]
pub struct ExSegwitDecodeError(bech32::segwit::DecodeError);

/// Base58Check decoding of `input` expecting version byte `version`: the
/// payload with the version byte in front, or `None` when the text, the
/// checksum or the version is wrong.
pub uninterp spec fn spec_bs58check_decode(input: Seq<char>, version: u8) -> Option<Seq<u8>>;

/// Segwit address decoding of `input`: the human-readable part in lower
/// case, the witness version and the witness program, or `None`.
pub uninterp spec fn spec_segwit_decode(input: Seq<char>) -> Option<(Seq<char>, u8, Seq<u8>)>;

/// Calls `bs58::decode(input).with_check(Some(version)).into_vec()`.
#[verifier::external_body]
fn bs58_decode_check(input: &str, version: u8) -> (r: Result<Vec<u8>, bs58::decode::Error>)
    ensures
        r is Ok <==> spec_bs58check_decode(input@, version) is Some,
        r matches Ok(v) ==> spec_bs58check_decode(input@, version) == Some(v@),
{
    bs58::decode(input).with_check(Some(version)).into_vec()
}

/// Calls `bech32::segwit::decode` and takes the human-readable part by
/// `Hrp::to_lowercase` and the witness version by `Fe32::to_u8`.
#[verifier::external_body]
fn segwit_decode(input: &str) -> (r: Result<(String, u8, Vec<u8>), bech32::segwit::DecodeError>)
    ensures
        r is Ok <==> spec_segwit_decode(input@) is Some,
        r matches Ok((h, v, p)) ==> spec_segwit_decode(input@) == Some((h@, v, p@)),
{
    match bech32::segwit::decode(input) {
        Ok((hrp, version, program)) => Ok((hrp.to_lowercase(), version.to_u8(), program)),
        Err(e) => Err(e),
    }
}

/// The kinds of address a term can be, each holding the term itself.
pub enum Address {
    P2PKFull { value: String },
    P2PKShort { value: String },
    P2PKH { value: String },
    P2SH { value: String },
    P2WSH { value: String },
    P2WPKH { value: String },
    Taproot { value: String },
}

/// The kinds of address, without the text.
#[derive(Debug, Clone, Copy, PartialEq, Eq, Structural)]
pub enum AddressKind {
    P2PKFull,
    P2PKShort,
    P2PKH,
    P2SH,
    P2WSH,
    P2WPKH,
    Taproot,
}

impl Address {
    /// Its kind.
    pub open spec fn kind(&self) -> AddressKind {
        match self {
            Address::P2PKFull { .. } => AddressKind::P2PKFull,
            Address::P2PKShort { .. } => AddressKind::P2PKShort,
            Address::P2PKH { .. } => AddressKind::P2PKH,
            Address::P2SH { .. } => AddressKind::P2SH,
            Address::P2WSH { .. } => AddressKind::P2WSH,
            Address::P2WPKH { .. } => AddressKind::P2WPKH,
            Address::Taproot { .. } => AddressKind::Taproot,
        }
    }

    /// The text it was read from.
    pub open spec fn text(&self) -> Seq<char> {
        match self {
            Address::P2PKFull { value } => value@,
            Address::P2PKShort { value } => value@,
            Address::P2PKH { value } => value@,
            Address::P2SH { value } => value@,
            Address::P2WSH { value } => value@,
            Address::P2WPKH { value } => value@,
            Address::Taproot { value } => value@,
        }
    }

    /// The text it was read from.
    pub fn to_string(&self) -> (r: String)
        ensures
            r@ == self.text(),
    {
        match self {
            Address::P2PKFull { value } => value.clone(),
            Address::P2PKShort { value } => value.clone(),
            Address::P2PKH { value } => value.clone(),
            Address::P2SH { value } => value.clone(),
            Address::P2WSH { value } => value.clone(),
            Address::P2WPKH { value } => value.clone(),
            Address::Taproot { value } => value.clone(),
        }
    }
}

/// The human-readable part of main-network segwit addresses.
pub open spec fn spec_bc() -> Seq<char> {
    seq!['b', 'c']
}

/// What an address text is, from what the hex, Base58Check and segwit
/// decoders make of it, tried in that order: hex of 65 or 33 bytes is a
/// public key; a Base58Check payload of 21 bytes with version 0 or 5 is a
/// key hash or a script hash (the bytes without the version); a segwit
/// address of the main network with version 0 and a program of 20 or 32
/// bytes, or version 1 and 32 bytes, is the corresponding output kind.
/// A decoder that accepts the text settles it, even as nothing.
pub open spec fn spec_parse_address(s: Seq<char>) -> Option<(Seq<u8>, AddressKind)> {
    match spec_hex_decode(s) {
        Some(b) => if b.len() == 65 {
            Some((b, AddressKind::P2PKFull))
        } else if b.len() == 33 {
            Some((b, AddressKind::P2PKShort))
        } else {
            None
        },
        None => match spec_bs58check_decode(s, 0) {
            Some(b) => if b.len() == 21 && b[0] == 0 { Some((b.drop_first(), AddressKind::P2PKH)) } else { None },
            None => match spec_bs58check_decode(s, 5) {
                Some(b) => if b.len() == 21 && b[0] == 5 { Some((b.drop_first(), AddressKind::P2SH)) } else { None },
                None => match spec_segwit_decode(s) {
                    Some((hrp, v, b)) => if hrp != spec_bc() {
                        None
                    } else if v == 0 && b.len() == 20 {
                        Some((b, AddressKind::P2WSH))
                    } else if v == 0 && b.len() == 32 {
                        Some((b, AddressKind::P2WPKH))
                    } else if v == 1 && b.len() == 32 {
                        Some((b, AddressKind::Taproot))
                    } else {
                        None
                    },
                    None => None,
                },
            },
        },
    }
}

/// Whether two texts are equal.
fn chars_eq(a: &String, b: &str) -> (r: bool)
    ensures
        r == (a@ == b@),
{
    let c = <String as vstd::string::StringExecFns>::from_str(b);
    *a == c
}

/// Reads an address text: its bytes (key, key hash, script hash or
/// witness program) and its kind, which keeps the text.
pub fn parse_address(address: String) -> (r: Option<(Vec<u8>, Address)>)
    ensures
        match r {
            Some((b, a)) => spec_parse_address(address@) == Some((b@, a.kind())) && a.text() == address@,
            None => spec_parse_address(address@) is None,
        },
{
    if let Ok(b) = hex_decode(address.as_str()) {
        if b.len() == 65 {
            return Some((b, Address::P2PKFull { value: address }));
        } else if b.len() == 33 {
            return Some((b, Address::P2PKShort { value: address }));
        }
        return None;
    }
    if let Ok(mut b) = bs58_decode_check(address.as_str(), 0x00) {
        if b.len() == 21 && b[0] == 0x00 {
            let ghost before = b@;
            b.remove(0);
            assert(b@ =~= before.drop_first());
            return Some((b, Address::P2PKH { value: address }));
        }
        return None;
    }
    if let Ok(mut b) = bs58_decode_check(address.as_str(), 0x05) {
        if b.len() == 21 && b[0] == 0x05 {
            let ghost before = b@;
            b.remove(0);
            assert(b@ =~= before.drop_first());
            return Some((b, Address::P2SH { value: address }));
        }
        return None;
    }
    if let Ok((hrp, version, b)) = segwit_decode(address.as_str()) {
        let bc = "bc";
        proof {
            reveal_strlit("bc");
        }
        assert(bc@ =~= spec_bc());
        if !chars_eq(&hrp, bc) {
            return None;
        }
        if version == 0 {
            if b.len() == 20 {
                return Some((b, Address::P2WSH { value: address }));
            } else if b.len() == 32 {
                return Some((b, Address::P2WPKH { value: address }));
            }
        } else if version == 1 && b.len() == 32 {
            return Some((b, Address::Taproot { value: address }));
        }
    }
    None
}

} // verus!
