use bitlens::connect::{handle_packet_during_handshaking, handshake_version, HandshakeError, PROTOCOL_VERSION};
use bitlens::packets::buffer::ParseError;
use bitlens::packets::getaddr::{GetAddr, GETADDR_COMMAND};
use bitlens::packets::packetheader::{frame_packet, parse_header, MAX_PACKET_SIZE};
use bitlens::packets::packetpayload::{DeserializableBorrowed, Serializable};
use bitlens::packets::payload::{checksum, deserialize_payload, InvalidChecksum, PayloadError, PayloadToSend, ReceivedPayload};
use bitlens::packets::ping::{Ping, PING_COMMAND};
use bitlens::packets::pong::PONG_COMMAND;
use bitlens::packets::verack::{VerAck, VERACK_COMMAND};
use bitlens::packets::version::{VersionBorrowed, VersionOwned, VERSION_COMMAND};

const MAINNET_MAGIC: u32 = 0xD9B4BEF9;

#[test]
fn checksum_of_empty_payload() {
    // the first four bytes of sha256d("") are 5d f6 e0 e2
    assert_eq!(checksum(&[]), u32::from_le_bytes([0x5d, 0xf6, 0xe0, 0xe2]));
}

#[test]
fn framed_packet_header_reads_back() {
    let payload = PayloadToSend::Ping(Ping { nonce: 42 });
    let frame = frame_packet(MAINNET_MAGIC, &payload);
    assert_eq!(frame.len(), 24 + 8);
    assert_eq!(&frame[0..4], &[0xf9, 0xbe, 0xb4, 0xd9]);
    let header = parse_header(&frame).unwrap();
    assert_eq!(header.magic, MAINNET_MAGIC);
    assert_eq!(header.command, PING_COMMAND);
    assert_eq!(header.length, 8);
    assert_eq!(header.checksum, checksum(&frame[24..]));
    match deserialize_payload(&frame[24..], header.checksum, header.command) {
        Ok(Some(ReceivedPayload::Ping(p))) => assert_eq!(p.nonce, 42),
        _ => panic!("ping expected"),
    }
}

#[test]
fn packet_header_errors() {
    assert_eq!(parse_header(&[0u8; 23]).err(), Some(ParseError::NotEnoughBytes));
    let mut h = [0u8; 24];
    h[16..20].copy_from_slice(&((MAX_PACKET_SIZE as u32) + 1).to_le_bytes());
    assert_eq!(parse_header(&h).err(), Some(ParseError::PacketTooLarge));
    h[16..20].copy_from_slice(&(MAX_PACKET_SIZE as u32).to_le_bytes());
    assert!(parse_header(&h).is_ok());
}

#[test]
fn payload_with_wrong_checksum_is_refused() {
    let body = [1u8, 2, 3, 4, 5, 6, 7, 8];
    let good = checksum(&body);
    match deserialize_payload(&body, good ^ 1, PING_COMMAND) {
        Err(PayloadError::InvalidChecksum(InvalidChecksum { reported_in_header, calculated_from_body })) => {
            assert_eq!(reported_in_header, good ^ 1);
            assert_eq!(calculated_from_body, good);
        }
        _ => panic!("checksum error expected"),
    }
}

#[test]
fn unknown_and_undecoded_commands_give_nothing() {
    let body: [u8; 0] = [];
    let sum = checksum(&body);
    assert!(matches!(deserialize_payload(&body, sum, *b"nonsense\0\0\0\0"), Ok(None)));
    assert!(matches!(deserialize_payload(&body, sum, GETADDR_COMMAND), Ok(None)));
    assert!(matches!(deserialize_payload(&body, sum, VERACK_COMMAND), Ok(Some(ReceivedPayload::VerAck(_)))));
    // a ping needs eight bytes
    assert!(matches!(deserialize_payload(&body, sum, PING_COMMAND), Err(PayloadError::Parse(_))));
}

#[test]
fn payload_commands() {
    assert_eq!(PayloadToSend::GetAddr(GetAddr {}).command(), *b"getaddr\0\0\0\0\0");
    assert_eq!(PayloadToSend::VerAck(VerAck {}).command(), VERACK_COMMAND);
    assert_eq!(PONG_COMMAND, *b"pong\0\0\0\0\0\0\0\0");
    assert_eq!(VERSION_COMMAND, *b"version\0\0\0\0\0");
}

#[test]
fn version_roundtrip_keeps_relay_flag() {
    let v = handshake_version(1_700_000_000, 123);
    assert_eq!(v.version, PROTOCOL_VERSION);
    assert_eq!(v.user_agent, b"semikek".to_vec());
    assert_eq!(v.services, 9);
    let mut bytes = Vec::new();
    v.serialize(&mut bytes);
    let mut back = VersionBorrowed::default();
    assert_eq!(back.deserialize_borrowed(&bytes), Ok(bytes.len()));
    let back = VersionOwned::from(back);
    assert_eq!(back.timestamp, 1_700_000_000);
    assert_eq!(back.start_height, 123);
    assert_eq!(back.nonce, v.nonce);
    assert!(!back.announce_relayed_transactions);
}

fn version_payload(version: u32) -> Vec<u8> {
    let mut v = handshake_version(1, 0);
    v.version = version;
    let mut bytes = Vec::new();
    v.serialize(&mut bytes);
    bytes
}

#[test]
fn handshake_in_order() {
    let bytes = version_payload(70016);
    let mut vb = VersionBorrowed::default();
    vb.deserialize_borrowed(&bytes).unwrap();
    let mut success = false;
    let mut remote: Option<VersionOwned> = None;
    let r = handle_packet_during_handshaking(&ReceivedPayload::Version(vb), &mut success, &mut remote);
    assert!(matches!(r, Ok(None)));
    assert!(!success);
    assert_eq!(remote.as_ref().unwrap().version, 70016);
    let r = handle_packet_during_handshaking(&ReceivedPayload::VerAck(VerAck {}), &mut success, &mut remote).unwrap().unwrap();
    assert!(success);
    // 70016 is not above 70016: no sendaddrv2; it is above 70012: sendheaders
    assert_eq!(r.len(), 2);
    assert!(matches!(r[0], PayloadToSend::VerAck(_)));
    assert!(matches!(r[1], PayloadToSend::SendHeaders(_)));
}

#[test]
fn handshake_replies_depend_on_version() {
    for (version, expected) in [(70017u32, 3usize), (70013, 2), (70012, 1)] {
        let mut success = false;
        let bytes = version_payload(version);
        let mut vb = VersionBorrowed::default();
        vb.deserialize_borrowed(&bytes).unwrap();
        let mut remote = None;
        handle_packet_during_handshaking(&ReceivedPayload::Version(vb), &mut success, &mut remote).unwrap();
        let r = handle_packet_during_handshaking(&ReceivedPayload::VerAck(VerAck {}), &mut success, &mut remote).unwrap().unwrap();
        assert_eq!(r.len(), expected);
        if version > 70016 {
            assert!(matches!(r[0], PayloadToSend::SendAddrV2(_)));
        }
    }
}

#[test]
fn handshake_errors_and_ping() {
    let mut success = false;
    let mut remote: Option<VersionOwned> = None;
    let r = handle_packet_during_handshaking(&ReceivedPayload::VerAck(VerAck {}), &mut success, &mut remote);
    assert_eq!(r.err(), Some(HandshakeError::VerAckBeforeVersion));
    let r = handle_packet_during_handshaking(&ReceivedPayload::Ping(Ping { nonce: 77 }), &mut success, &mut remote).unwrap().unwrap();
    match &r[0] {
        PayloadToSend::Pong(p) => assert_eq!(p.nonce, 77),
        _ => panic!("pong expected"),
    }
    let bytes = version_payload(70016);
    let mut vb = VersionBorrowed::default();
    vb.deserialize_borrowed(&bytes).unwrap();
    handle_packet_during_handshaking(&ReceivedPayload::Version(vb), &mut success, &mut remote).unwrap();
    let r = handle_packet_during_handshaking(&ReceivedPayload::Version(vb), &mut success, &mut remote);
    assert_eq!(r.err(), Some(HandshakeError::VersionSentTwice));
}
