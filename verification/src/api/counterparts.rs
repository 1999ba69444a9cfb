//! Who else took part in a transaction of an address: the coinbase when the
//! address was paid by one, else the other addresses on the other side.
use vstd::prelude::*;
use super::address::{Address, AddressKind};

verus! {

/// Another party of an address's transaction.
pub enum OtherParty {
    /// The address was paid by a coinbase.
    Coinbase,
    /// The one other address.
    Address(Address),
}

/// What identifies an address: its kind and its text.
pub open spec fn spec_address_key(a: Address) -> (AddressKind, Seq<char>) {
    (a.kind(), a.text())
}

/// The addresses among `others` that are not `own`, as a set.
pub open spec fn spec_other_addresses(own: Address, others: Seq<Address>) -> Set<(AddressKind, Seq<char>)> {
    Set::new(|x: (AddressKind, Seq<char>)| x != spec_address_key(own)
        && exists|i: int| 0 <= i < others.len() && spec_address_key(#[trigger] others[i]) == x)
}

/// Whether two addresses are the same: the same kind and text.
fn same_address(a: &Address, b: &Address) -> (r: bool)
    ensures
        r == (spec_address_key(*a) == spec_address_key(*b)),
{
    let same_kind = match (a, b) {
        (Address::P2PKFull { .. }, Address::P2PKFull { .. }) => true,
        (Address::P2PKShort { .. }, Address::P2PKShort { .. }) => true,
        (Address::P2PKH { .. }, Address::P2PKH { .. }) => true,
        (Address::P2SH { .. }, Address::P2SH { .. }) => true,
        (Address::P2WSH { .. }, Address::P2WSH { .. }) => true,
        (Address::P2WPKH { .. }, Address::P2WPKH { .. }) => true,
        (Address::Taproot { .. }, Address::Taproot { .. }) => true,
        _ => false,
    };
    if !same_kind {
        return false;
    }
    let ta = a.to_string();
    let tb = b.to_string();
    ta == tb
}

/// A copy of `a`.
fn copy_address(a: &Address) -> (r: Address)
    ensures
        spec_address_key(r) == spec_address_key(*a),
{
    match a {
        Address::P2PKFull { value } => Address::P2PKFull { value: value.clone() },
        Address::P2PKShort { value } => Address::P2PKShort { value: value.clone() },
        Address::P2PKH { value } => Address::P2PKH { value: value.clone() },
        Address::P2SH { value } => Address::P2SH { value: value.clone() },
        Address::P2WSH { value } => Address::P2WSH { value: value.clone() },
        Address::P2WPKH { value } => Address::P2WPKH { value: value.clone() },
        Address::Taproot { value } => Address::Taproot { value: value.clone() },
    }
}

/// The other parties of a transaction of `own` that changed its balance by
/// `value`: how many distinct other addresses there are, and the one when
/// there is exactly one. When the address gained in a coinbase, the one
/// party is the coinbase. When it gained otherwise, `others` are the
/// addresses the spent outputs belonged to; when it lost, the addresses of
/// the transaction's outputs. A transaction that left the balance as it was
/// has no other party.
pub fn other_address_fields(own: &Address, value: i64, is_coinbase: bool, others: &Vec<Address>) -> (r: (usize, Option<OtherParty>))
    ensures
        value == 0 ==> r.0 == 0 && r.1 is None,
        value > 0 && is_coinbase ==> r.0 == 1 && r.1 matches Some(OtherParty::Coinbase),
        (value < 0 || (value > 0 && !is_coinbase)) ==> {
            let s = spec_other_addresses(*own, others@);
            &&& r.0 == s.len()
            &&& (r.1 is Some <==> s.len() == 1)
            &&& r.1 matches Some(p) ==> (p matches OtherParty::Address(a) && s == set![spec_address_key(a)])
        },
{
    if value == 0 {
        return (0, None);
    }
    if value > 0 && is_coinbase {
        return (1, Some(OtherParty::Coinbase));
    }
    let ghost cs = others@;
    let ghost own_key = spec_address_key(*own);
    let mut firsts: Vec<usize> = Vec::new();
    let ghost mut keys: Seq<(AddressKind, Seq<char>)> = Seq::empty();
    let mut i: usize = 0;
    while i < others.len()
        invariant
            cs == others@,
            own_key == spec_address_key(*own),
            i <= cs.len(),
            firsts@.len() == keys.len(),
            keys.no_duplicates(),
            forall|k: int| 0 <= k < firsts@.len() ==> (#[trigger] firsts@[k]) < cs.len()
                && keys[k] == spec_address_key(cs[firsts@[k] as int]),
            forall|x: (AddressKind, Seq<char>)| keys.contains(x) <==> (x != own_key
                && exists|j: int| 0 <= j < i && spec_address_key(#[trigger] cs[j]) == x),
        decreases cs.len() - i,
    {
        let ghost x = spec_address_key(cs[i as int]);
        let ghost old_keys = keys;
        if !same_address(&others[i], own) {
            let mut seen = false;
            let mut k: usize = 0;
            while k < firsts.len()
                invariant
                    cs == others@,
                    i < cs.len(),
                    x == spec_address_key(cs[i as int]),
                    k <= firsts@.len(),
                    firsts@.len() == keys.len(),
                    forall|m: int| 0 <= m < firsts@.len() ==> (#[trigger] firsts@[m]) < cs.len()
                        && keys[m] == spec_address_key(cs[firsts@[m] as int]),
                    seen == (exists|m: int| 0 <= m < k && keys[m] == x),
                decreases firsts@.len() - k,
            {
                if same_address(&others[firsts[k]], &others[i]) {
                    seen = true;
                }
                k = k + 1;
            }
            if !seen {
                proof {
                    assert(!keys.contains(x));
                    keys = keys.push(x);
                    assert forall|a: int, b: int| 0 <= a < keys.len() && 0 <= b < keys.len() && a != b implies keys[a] != keys[b] by {
                        if a < old_keys.len() && b < old_keys.len() {
                        } else if a < old_keys.len() {
                            assert(old_keys.contains(keys[a]));
                        } else {
                            assert(old_keys.contains(keys[b]));
                        }
                    }
                    assert forall|y: (AddressKind, Seq<char>)| keys.contains(y) <==> (y != own_key
                        && exists|j: int| 0 <= j < i + 1 && spec_address_key(#[trigger] cs[j]) == y) by {
                        if keys.contains(y) {
                            let m = choose|m: int| 0 <= m < keys.len() && keys[m] == y;
                            if m < old_keys.len() {
                                assert(old_keys.contains(y));
                            } else {
                                assert(spec_address_key(cs[i as int]) == y);
                            }
                        }
                        if y != own_key && exists|j: int| 0 <= j < i + 1 && spec_address_key(#[trigger] cs[j]) == y {
                            let j = choose|j: int| 0 <= j < i + 1 && spec_address_key(#[trigger] cs[j]) == y;
                            if j == i {
                                assert(keys[keys.len() - 1] == y);
                            } else {
                                assert(old_keys.contains(y));
                                let m = choose|m: int| 0 <= m < old_keys.len() && old_keys[m] == y;
                                assert(keys[m] == y);
                            }
                        }
                    }
                }
                firsts.push(i);
            } else {
                proof {
                    let m0 = choose|m: int| 0 <= m < keys.len() && keys[m] == x;
                    assert forall|y: (AddressKind, Seq<char>)| keys.contains(y) <==> (y != own_key
                        && exists|j: int| 0 <= j < i + 1 && spec_address_key(#[trigger] cs[j]) == y) by {
                        if y != own_key && exists|j: int| 0 <= j < i + 1 && spec_address_key(#[trigger] cs[j]) == y {
                            let j = choose|j: int| 0 <= j < i + 1 && spec_address_key(#[trigger] cs[j]) == y;
                            if j == i {
                                assert(keys[m0] == y);
                            }
                        }
                    }
                }
            }
        } else {
            proof {
                assert forall|y: (AddressKind, Seq<char>)| keys.contains(y) <==> (y != own_key
                    && exists|j: int| 0 <= j < i + 1 && spec_address_key(#[trigger] cs[j]) == y) by {
                    if y != own_key && exists|j: int| 0 <= j < i + 1 && spec_address_key(#[trigger] cs[j]) == y {
                        let j = choose|j: int| 0 <= j < i + 1 && spec_address_key(#[trigger] cs[j]) == y;
                        assert(j != i);
                    }
                }
            }
        }
        i = i + 1;
    }
    proof {
        keys.unique_seq_to_set();
        assert(keys.to_set() =~= spec_other_addresses(*own, cs));
    }
    let n = firsts.len();
    if n == 1 {
        let a = copy_address(&others[firsts[0]]);
        proof {
            assert(keys.to_set() =~= set![keys[0]]);
        }
        (1, Some(OtherParty::Address(a)))
    } else {
        (n, None)
    }
}

} // verus!
