//! What a searched term is, and the answer to a search.
use vstd::prelude::*;
use super::address::{Address, parse_address, spec_parse_address};
use crate::util::crypto::{hex_decode, spec_hex_decode};
use crate::chainman::chain::{Chain, get_hash_by_number, spec_ancestor, spec_has};

verus! {

/// What a searched term turned out to be: an address, a block or a
/// transaction; all `None` when nothing was found.
pub struct SearchResponse {
    pub address: Option<String>,
    pub block_hash: Option<[u8; 32]>,
    pub tx_hash: Option<[u8; 32]>,
}

impl SearchResponse {
    /// The answer when nothing was found.
    pub fn nothing_found() -> (r: SearchResponse)
        ensures
            r.address is None && r.block_hash is None && r.tx_hash is None,
    {
        SearchResponse { address: None, block_hash: None, tx_hash: None }
    }
}

/// The value of a decimal digit.
pub open spec fn spec_digit(c: char) -> Option<nat> {
    if '0' <= c && c <= '9' { Some((c as u32 - '0' as u32) as nat) } else { None }
}

/// The number the digits of `s` spell, most significant first.
pub open spec fn spec_decimal_value(s: Seq<char>) -> nat
    decreases s.len(),
{
    if s.len() == 0 {
        0
    } else {
        spec_decimal_value(s.drop_last()) * 10 + spec_digit(s.last()).unwrap_or(0)
    }
}

/// Reading a run of decimal digits: at least one, nothing else, and a
/// value that fits in a `u64`.
pub open spec fn spec_parse_digits(digits: Seq<char>) -> Option<u64> {
    if digits.len() > 0 && (forall|i: int| 0 <= i < digits.len() ==> (#[trigger] spec_digit(digits[i])) is Some)
        && spec_decimal_value(digits) <= u64::MAX {
        Some(spec_decimal_value(digits) as u64)
    } else {
        None
    }
}

/// Reading a `u64` as `str::parse` does: an optional `+`, then the digits.
pub open spec fn spec_parse_u64(s: Seq<char>) -> Option<u64> {
    if s.len() > 0 && s[0] == '+' {
        spec_parse_digits(s.drop_first())
    } else {
        spec_parse_digits(s)
    }
}

/// Reads the digits of `s` from `start` on.
fn parse_digits(s: &str, start: usize) -> (r: Option<u64>)
    requires
        start <= s@.len(),
    ensures
        r == spec_parse_digits(s@.subrange(start as int, s@.len() as int)),
{
    let ghost chars = s@;
    let ghost digits = chars.subrange(start as int, chars.len() as int);
    let n = s.unicode_len();
    if start == n {
        return None;
    }
    let mut value: u64 = 0;
    let mut i: usize = start;
    while i < n
        invariant
            start <= i <= n,
            n == chars.len(),
            chars == s@,
            digits == chars.subrange(start as int, n as int),
            forall|k: int| start <= k < i ==> (#[trigger] spec_digit(chars[k])) is Some,
            value == spec_decimal_value(chars.subrange(start as int, i as int)),
        decreases n - i,
    {
        let c = s.get_char(i);
        if c < '0' || c > '9' {
            assert(digits[i - start] == c);
            assert(!(spec_digit(digits[i - start]) is Some));
            return None;
        }
        let d: u64 = (c as u32 - '0' as u32) as u64;
        let ghost pre = chars.subrange(start as int, i + 1);
        assert(pre.drop_last() =~= chars.subrange(start as int, i as int));
        assert(pre.last() == c);
        assert(spec_digit(c) == Some(d as nat));
        assert(spec_decimal_value(pre) == value * 10 + d);
        if value > (u64::MAX - d) / 10 {
            proof {
                lemma_decimal_prefix_grows(digits, (i + 1 - start) as int);
                assert(digits.subrange(0, (i + 1 - start) as int) =~= pre);
                assert(value * 10 + d > u64::MAX) by (nonlinear_arith)
                    requires value > (u64::MAX - d) / 10, d <= 9;
            }
            return None;
        }
        value = value * 10 + d;
        i = i + 1;
    }
    assert(chars.subrange(start as int, n as int) =~= digits);
    Some(value)
}

/// Reads a `u64` written in decimal, as `str::parse` does.
pub fn parse_u64(s: &str) -> (r: Option<u64>)
    ensures
        r == spec_parse_u64(s@),
{
    let n = s.unicode_len();
    if n > 0 && s.get_char(0) == '+' {
        assert(s@.subrange(1, s@.len() as int) =~= s@.drop_first());
        parse_digits(s, 1)
    } else {
        assert(s@.subrange(0, s@.len() as int) =~= s@);
        parse_digits(s, 0)
    }
}

/// A number never shrinks when digits are appended.
proof fn lemma_decimal_prefix_grows(s: Seq<char>, k: int)
    requires
        0 <= k <= s.len(),
    ensures
        spec_decimal_value(s.subrange(0, k)) <= spec_decimal_value(s),
    decreases s.len() - k,
{
    if k < s.len() {
        lemma_decimal_prefix_grows(s, k + 1);
        assert(s.subrange(0, k + 1).drop_last() =~= s.subrange(0, k));
    } else {
        assert(s.subrange(0, k) =~= s);
    }
}

/// A block or transaction hash as shown (hex, bytes reversed) read back
/// into wire order; `None` unless it is hex of exactly 32 bytes.
pub open spec fn spec_parse_hash(s: Seq<char>) -> Option<Seq<u8>> {
    match spec_hex_decode(s) {
        Some(b) => if b.len() == 32 { Some(b.reverse()) } else { None },
        None => None,
    }
}

/// Reads a hash as shown (hex, bytes reversed) into wire order.
pub fn parse_hash_param(hash: &str) -> (r: Option<[u8; 32]>)
    ensures
        match r {
            Some(h) => spec_parse_hash(hash@) == Some(h@),
            None => spec_parse_hash(hash@) is None,
        },
{
    let b = match hex_decode(hash) {
        Ok(b) => b,
        Err(_) => return None,
    };
    if b.len() != 32 {
        return None;
    }
    let mut h = [0u8; 32];
    let mut i: usize = 0;
    while i < 32
        invariant
            i <= 32,
            b@.len() == 32,
            forall|j: int| 0 <= j < i ==> h@[j] == b@[31 - j],
        decreases 32 - i,
    {
        h[i] = b[31 - i];
        i = i + 1;
    }
    assert(h@ =~= b@.reverse());
    Some(h)
}

/// What a searched term is: an address, else a block number, else a hash
/// (of a block or a transaction), else nothing.
pub enum SearchTarget {
    Address(Vec<u8>, Address),
    BlockNumber(u64),
    Hash([u8; 32]),
    Nothing,
}

/// Tells what a searched term is, trying address, block number and hash in turn.
pub fn classify_search_term(term: String) -> (r: SearchTarget)
    ensures
        match r {
            SearchTarget::Address(b, a) => spec_parse_address(term@) == Some((b@, a.kind())) && a.text() == term@,
            SearchTarget::BlockNumber(n) => spec_parse_address(term@) is None && spec_parse_u64(term@) == Some(n),
            SearchTarget::Hash(h) => spec_parse_address(term@) is None && spec_parse_u64(term@) is None
                && spec_parse_hash(term@) == Some(h@),
            SearchTarget::Nothing => spec_parse_address(term@) is None && spec_parse_u64(term@) is None
                && spec_parse_hash(term@) is None,
        },
{
    let ghost t = term@;
    let copy = term.clone();
    if let Some((b, a)) = parse_address(copy) {
        return SearchTarget::Address(b, a);
    }
    if let Some(n) = parse_u64(term.as_str()) {
        return SearchTarget::BlockNumber(n);
    }
    match parse_hash_param(term.as_str()) {
        Some(h) => SearchTarget::Hash(h),
        None => SearchTarget::Nothing,
    }
}

/// What the chain settles of a search, and what is left to the store: an
/// address to look for in the store, a block found, a hash to look for among
/// the stored transactions, or nothing.
pub enum SearchLookup {
    Address(Vec<u8>, Address),
    Block([u8; 32]),
    Transaction([u8; 32]),
    Nothing,
}

/// Answers a search as far as the chain can: an address is left to the
/// store; a block number answers the hash of the block at that height of
/// the followed chain (nothing above the tip); a hash answers the block when
/// its header is known, and is otherwise left to the store as a
/// transaction; anything else finds nothing.
pub fn search_in_chain(chain: &Chain, term: String) -> (r: SearchLookup)
    requires
        chain.wf(),
    ensures
        spec_parse_address(term@) is Some ==> (r matches SearchLookup::Address(b, a)
            && spec_parse_address(term@) == Some((b@, a.kind())) && a.text() == term@),
        spec_parse_address(term@) is None && spec_parse_u64(term@) is Some ==> {
            let n = spec_parse_u64(term@).unwrap();
            if n > chain.top_header.number {
                r is Nothing
            } else {
                r matches SearchLookup::Block(h)
                    && spec_ancestor(chain.known(), chain.top_header, n) matches Some(a) && h@ == a.header.hash@
            }
        },
        spec_parse_address(term@) is None && spec_parse_u64(term@) is None && spec_parse_hash(term@) is Some ==> {
            let h = spec_parse_hash(term@).unwrap();
            if spec_has(chain.known(), h) {
                r matches SearchLookup::Block(b) && b@ == h
            } else {
                r matches SearchLookup::Transaction(t) && t@ == h
            }
        },
        spec_parse_address(term@) is None && spec_parse_u64(term@) is None && spec_parse_hash(term@) is None
            ==> r is Nothing,
{
    match classify_search_term(term) {
        SearchTarget::Address(b, a) => SearchLookup::Address(b, a),
        SearchTarget::BlockNumber(n) => match get_hash_by_number(chain, n) {
            Some(h) => SearchLookup::Block(h),
            None => SearchLookup::Nothing,
        },
        SearchTarget::Hash(h) => match chain.find(&h) {
            Some(_) => SearchLookup::Block(h),
            None => SearchLookup::Transaction(h),
        },
        SearchTarget::Nothing => SearchLookup::Nothing,
    }
}

/// The answer to a search once the store has spoken: an address with at
/// least one stored entry, the block, or a stored transaction; otherwise
/// nothing found.
pub fn search_response(lookup: SearchLookup, address_has_entries: bool, transaction_stored: bool) -> (r: SearchResponse)
    ensures
        match lookup {
            SearchLookup::Address(_, a) => if address_has_entries {
                r.address matches Some(s) && s@ == a.text() && r.block_hash is None && r.tx_hash is None
            } else {
                r.address is None && r.block_hash is None && r.tx_hash is None
            },
            SearchLookup::Block(h) => r.address is None && r.block_hash == Some(h) && r.tx_hash is None,
            SearchLookup::Transaction(h) => if transaction_stored {
                r.address is None && r.block_hash is None && r.tx_hash == Some(h)
            } else {
                r.address is None && r.block_hash is None && r.tx_hash is None
            },
            SearchLookup::Nothing => r.address is None && r.block_hash is None && r.tx_hash is None,
        },
{
    match lookup {
        SearchLookup::Address(_, a) => if address_has_entries {
            SearchResponse { address: Some(a.to_string()), block_hash: None, tx_hash: None }
        } else {
            SearchResponse::nothing_found()
        },
        SearchLookup::Block(h) => SearchResponse { address: None, block_hash: Some(h), tx_hash: None },
        SearchLookup::Transaction(h) => if transaction_stored {
            SearchResponse { address: None, block_hash: None, tx_hash: Some(h) }
        } else {
            SearchResponse::nothing_found()
        },
        SearchLookup::Nothing => SearchResponse::nothing_found(),
    }
}

} // verus!
