use bitlens::packets::buffer::ParseError;
use bitlens::packets::invvector::{InventoryVectorBorrowed, InventoryVectorType};
use bitlens::packets::netaddr::{NetAddrV2Borrowed, NetworkId};
use bitlens::packets::packetpayload::{DeserializableBorrowed, Serializable};
use bitlens::packets::ping::Ping;
use bitlens::packets::pong::Pong;
use bitlens::packets::varint::{deserialize_varint, length_varint, serialize_varint, serialize_varint_into_slice};
use bitlens::packets::varstr::{
    deserialize_array_of_varsrs_iter, deserialize_array_of_varstr_as_varstr,
    deserialize_array_of_varstr_as_varstr_owned, deserialize_varstr, length_varstr, serialize_varstr,
};

#[test]
fn varint_lengths_at_each_boundary() {
    assert_eq!(length_varint(0), 1);
    assert_eq!(length_varint(0xfc), 1);
    assert_eq!(length_varint(0xfd), 3);
    assert_eq!(length_varint(0xfffe), 3);
    assert_eq!(length_varint(0xffff), 5);
    assert_eq!(length_varint(0xfffffffe), 5);
    assert_eq!(length_varint(0xffffffff), 9);
    assert_eq!(length_varint(u64::MAX), 9);
}

#[test]
fn varint_encodings_are_little_endian_with_markers() {
    let mut v = Vec::new();
    serialize_varint(0xfc, &mut v);
    assert_eq!(v, vec![0xfc]);
    let mut v = Vec::new();
    serialize_varint(0xfd, &mut v);
    assert_eq!(v, vec![0xfd, 0xfd, 0x00]);
    let mut v = Vec::new();
    serialize_varint(0x12345678, &mut v);
    assert_eq!(v, vec![0xfe, 0x78, 0x56, 0x34, 0x12]);
    let mut v = Vec::new();
    serialize_varint(0x0102030405060708, &mut v);
    assert_eq!(v, vec![0xff, 8, 7, 6, 5, 4, 3, 2, 1]);
}

#[test]
fn varint_roundtrip_on_many_values() {
    for x in [0u64, 1, 0xfc, 0xfd, 0xfffe, 0xffff, 0x10000, 0xfffffffe, 0xffffffff, 1 << 32, u64::MAX] {
        let mut v = Vec::new();
        let n = serialize_varint(x, &mut v);
        assert_eq!(n, v.len());
        v.extend_from_slice(&[9, 9, 9]);
        assert_eq!(deserialize_varint(&v), Ok((x, n)));
        let mut slice = [0u8; 12];
        assert_eq!(serialize_varint_into_slice(x, &mut slice), n);
        assert_eq!(&slice[..n], &v[..n]);
    }
}

#[test]
fn varint_errors_when_cut_short() {
    assert_eq!(deserialize_varint(&[]), Err(ParseError::NotEnoughBytes));
    assert_eq!(deserialize_varint(&[0xfd, 0x01]), Err(ParseError::NotEnoughBytes));
    assert_eq!(deserialize_varint(&[0xff, 1, 2, 3, 4, 5, 6, 7]), Err(ParseError::NotEnoughBytes));
}

#[test]
fn varstr_roundtrip_and_errors() {
    let mut v = Vec::new();
    let n = serialize_varstr(b"hello", &mut v);
    assert_eq!(n, 6);
    assert_eq!(v, b"\x05hello".to_vec());
    v.push(0xaa);
    assert_eq!(deserialize_varstr(&v), Ok((&b"hello"[..], 6)));
    assert_eq!(deserialize_varstr(&[3, 1, 2]), Err(ParseError::NotEnoughBytes));
    assert_eq!(length_varstr(b"hello"), 6);
    assert_eq!(length_varstr(&[0u8; 300]), 303);
}

#[test]
fn array_of_varstrs_is_kept_as_one_span() {
    let data = [2u8, 1, 0xaa, 2, 0xbb, 0xcc, 0x77];
    let (span, n) = deserialize_array_of_varstr_as_varstr(&data).unwrap();
    assert_eq!(n, 6);
    assert_eq!(span, &data[..6]);
    let (owned, n2) = deserialize_array_of_varstr_as_varstr_owned(&data).unwrap();
    assert_eq!(owned, data[..6].to_vec());
    assert_eq!(n2, 6);
    assert!(deserialize_array_of_varstr_as_varstr(&[2, 1, 0xaa, 2, 0xbb]).is_err());
}

#[test]
fn varstr_iterator_walks_each_string() {
    let data = [3u8, 1, 0xaa, 0, 2, 0xbb, 0xcc];
    let mut it = deserialize_array_of_varsrs_iter(&data).unwrap();
    assert_eq!(it.next(), Some(&[0xaa][..]));
    assert_eq!(it.next(), Some(&[][..]));
    assert_eq!(it.next(), Some(&[0xbb, 0xcc][..]));
    assert_eq!(it.next(), None);
}

#[test]
fn ping_nonce_roundtrip_is_little_endian() {
    let p = Ping { nonce: 0x0102030405060708 };
    let mut v = Vec::new();
    p.serialize(&mut v);
    assert_eq!(v, vec![8, 7, 6, 5, 4, 3, 2, 1]);
    let mut q = Ping { nonce: 0 };
    assert_eq!(q.deserialize_borrowed(&v), Ok(8));
    assert_eq!(q.nonce, p.nonce);
}

#[test]
fn pong_writes_big_endian_and_reads_little_endian() {
    let p = Pong { nonce: 0x0102030405060708 };
    let mut v = Vec::new();
    p.serialize(&mut v);
    assert_eq!(v, vec![1, 2, 3, 4, 5, 6, 7, 8]);
    let mut q = Pong { nonce: 0 };
    assert_eq!(q.deserialize_borrowed(&v), Ok(8));
    assert_eq!(q.nonce, 0x0807060504030201);
}

#[test]
fn inventory_vector_rejects_unknown_type() {
    let mut data = vec![9u8, 0, 0, 0];
    data.extend_from_slice(&[0u8; 32]);
    let mut iv = InventoryVectorBorrowed { inv_type: InventoryVectorType::Error, hash: [0u8; 32] };
    assert_eq!(iv.deserialize_borrowed(&data), Err(ParseError::UnknownInventoryType(9)));
    data[0] = 2;
    data[4] = 0xab;
    assert_eq!(iv.deserialize_borrowed(&data), Ok(36));
    assert_eq!(iv.inv_type, InventoryVectorType::Block);
    assert_eq!(iv.hash[0], 0xab);
    assert_eq!(InventoryVectorType::from_u32(0x40000002), Some(InventoryVectorType::WitnessBlock));
    assert_eq!(InventoryVectorType::WitnessTx.to_u32(), 0x40000001);
}

#[test]
fn addrv2_entry_rejects_unknown_network() {
    // time, services varint, network id, address length, address, port
    let bad = vec![1u8, 0, 0, 0, 0, 9, 4, 1, 2, 3, 4, 0x20, 0x8d];
    let mut e = NetAddrV2Borrowed::default();
    assert_eq!(e.deserialize_checked(&bad), Err(ParseError::InvalidNetworkId(9)));
    let data = vec![1u8, 0, 0, 0, 0, 1, 4, 1, 2, 3, 4, 0x20, 0x8d];
    let mut e = NetAddrV2Borrowed::default();
    assert_eq!(e.deserialize_checked(&data), Ok(13));
    assert_eq!(e.network_id, NetworkId::IPv4);
    assert_eq!(e.address, &[1, 2, 3, 4][..]);
    assert_eq!(e.port, 8333);
}
