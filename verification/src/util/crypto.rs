//! SHA-256 and hex encoding.
use vstd::prelude::*;

verus! {

broadcast use vstd::seq_lib::group_seq_properties;

/// The SHA-256 digest of `data`.
pub uninterp spec fn spec_sha256(data: Seq<u8>) -> Seq<u8>;

/// Calls `sha2::Sha256::digest`: the result is the SHA-256 digest of the
/// argument, a function of its bytes alone; nothing else is claimed of it.
#[verifier::external_body]
pub(crate) fn sha256(data: &[u8]) -> (r: [u8; 32])
    ensures
        r@ == spec_sha256(data@),
{
    <sha2::Sha256 as sha2::Digest>::digest(data).into()
}

/// Bitcoin's double SHA-256.
pub open spec fn spec_sha256d(data: Seq<u8>) -> Seq<u8> {
    spec_sha256(spec_sha256(data))
}

/// Bitcoin's double SHA-256.
pub fn sha256d(data: &[u8]) -> (r: [u8; 32])
    ensures
        r@ == spec_sha256d(data@),
{
    let first = sha256(data);
    sha256(first.as_slice())
}

/// The lowercase hex digit of a nibble.
pub open spec fn spec_hex_digit(n: u8) -> char {
    if n < 10 {
        (('0' as u8) + n) as char
    } else {
        (('a' as u8) + (n - 10)) as char
    }
}

/// Lowercase hex: two digits per byte, high nibble first.
pub open spec fn spec_hex_lower(data: Seq<u8>) -> Seq<char>
    decreases data.len(),
{
    if data.len() == 0 {
        Seq::empty()
    } else {
        seq![spec_hex_digit(data[0] / 16), spec_hex_digit(data[0] % 16)] + spec_hex_lower(data.drop_first())
    }
}

/// Calls `hex::encode`: lowercase hex, two digits per byte, high nibble first.
#[verifier::external_body]
pub(crate) fn hex_encode(data: &[u8]) -> (r: String)
    ensures
        r@ == spec_hex_lower(data@),
{
    hex::encode(data)
}

#[verifier::external_type_specification]
#[verifier::external_body]
pub struct ExFromHexError(hex::FromHexError);

/// The value of a hex digit, either case.
pub open spec fn spec_hex_char_value(c: char) -> Option<u8> {
    if 'A' <= c && c <= 'F' {
        Some((c as u8 - 55) as u8)
    } else if 'a' <= c && c <= 'f' {
        Some((c as u8 - 87) as u8)
    } else if '0' <= c && c <= '9' {
        Some((c as u8 - 48) as u8)
    } else {
        None
    }
}

/// Decoding hex: an even number of hex digits, two per byte, high nibble first.
pub open spec fn spec_hex_decode(s: Seq<char>) -> Option<Seq<u8>> {
    if s.len() % 2 == 0 && forall|i: int| 0 <= i < s.len() ==> (#[trigger] spec_hex_char_value(s[i])) is Some {
        Some(Seq::new(s.len() / 2, |i: int|
            (spec_hex_char_value(s[2 * i]).unwrap() * 16 + spec_hex_char_value(s[2 * i + 1]).unwrap()) as u8))
    } else {
        None
    }
}

/// Calls `hex::decode` on the bytes of `data`: an error for an odd length or
/// a byte that is not a hex digit (any character outside ASCII gives such
/// bytes), else two digits per byte, high nibble first, either case.
#[verifier::external_body]
pub(crate) fn hex_decode(data: &str) -> (r: Result<Vec<u8>, hex::FromHexError>)
    ensures
        r is Ok <==> spec_hex_decode(data@) is Some,
        r matches Ok(v) ==> spec_hex_decode(data@) == Some(v@),
{
    hex::decode(data)
}

} // verus!
