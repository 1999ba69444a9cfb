use bitlens::api::search::{classify_search_term, parse_hash_param, parse_u64, SearchResponse, SearchTarget};
use bitlens::api::address::Address;
use bitlens::api::counterparts::{other_address_fields, OtherParty};

#[test]
fn decimal_numbers_parse_like_str_parse() {
    for s in ["0", "7", "+12", "18446744073709551615", "", "+", "-1", "12a", "18446744073709551616", "１"] {
        assert_eq!(parse_u64(s), s.parse::<u64>().ok(), "{}", s);
    }
}

#[test]
fn hashes_are_read_in_display_order() {
    let shown = "000000000019d6689c085ae165831e934ff763ae46a2a6c172b3f1b60a8ce26f";
    let h = parse_hash_param(shown).unwrap();
    assert_eq!(h[0], 0x6f);
    assert_eq!(h[31], 0x00);
    assert!(parse_hash_param("00ff").is_none());
    assert!(parse_hash_param("zz").is_none());
}

#[test]
fn search_terms_are_classified() {
    assert!(matches!(classify_search_term("1A1zP1eP5QGefi2DMPTfTL5SLmv7DivfNa".to_string()), SearchTarget::Address(..)));
    assert!(matches!(classify_search_term("170000".to_string()), SearchTarget::BlockNumber(170000)));
    let shown = "4a5e1e4baab89f3a32518a88c31bc87f618f76673e2cc77ab2127b7afdeda33b";
    match classify_search_term(shown.to_string()) {
        SearchTarget::Hash(h) => assert_eq!(h[0], 0x3b),
        _ => panic!("hash expected"),
    }
    assert!(matches!(classify_search_term("hello".to_string()), SearchTarget::Nothing));
    let r = SearchResponse::nothing_found();
    assert!(r.address.is_none() && r.block_hash.is_none() && r.tx_hash.is_none());
}

#[test]
fn other_parties_of_an_address_transaction() {
    let own = Address::P2PKH { value: "own".to_string() };
    let a = || Address::P2PKH { value: "a".to_string() };
    let b = || Address::P2SH { value: "b".to_string() };
    let same_text_other_kind = || Address::P2SH { value: "a".to_string() };
    let own_again = || Address::P2PKH { value: "own".to_string() };
    // nothing changed
    let (n, p) = other_address_fields(&own, 0, false, &vec![a()]);
    assert_eq!(n, 0);
    assert!(p.is_none());
    // paid by a coinbase
    let (n, p) = other_address_fields(&own, 50, true, &vec![]);
    assert_eq!(n, 1);
    assert!(matches!(p, Some(OtherParty::Coinbase)));
    // paid by one address, twice, besides itself
    let (n, p) = other_address_fields(&own, 5, false, &vec![a(), own_again(), a()]);
    assert_eq!(n, 1);
    match p {
        Some(OtherParty::Address(Address::P2PKH { value })) => assert_eq!(value, "a"),
        _ => panic!("one other address expected"),
    }
    // paid to several: kinds count apart
    let (n, p) = other_address_fields(&own, -5, false, &vec![a(), b(), same_text_other_kind(), b()]);
    assert_eq!(n, 3);
    assert!(p.is_none());
    // only itself on the other side
    let (n, p) = other_address_fields(&own, -5, false, &vec![own_again()]);
    assert_eq!(n, 0);
    assert!(p.is_none());
}
