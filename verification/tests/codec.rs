use btwire::handshake::Handshake;
use btwire::handshake::HandshakeError;
use btwire::peer_message::DecodeError;
use btwire::peer_message::PeerMessage;

fn sample_hash() -> Vec<u8> {
    (0u8..20).collect()
}

fn sample_id() -> Vec<u8> {
    (100u8..120).collect()
}

#[test]
fn handshake_encodes_68_bytes() {
    let h = Handshake::new(sample_hash(), sample_id());
    let bytes = h.to_bytes();
    assert_eq!(bytes.len(), 68);
    assert_eq!(bytes[0], 19);
    assert_eq!(&bytes[1..20], b"BitTorrent protocol");
    assert_eq!(&bytes[20..28], &[0u8; 8]);
    assert_eq!(&bytes[28..48], sample_hash().as_slice());
    assert_eq!(&bytes[48..68], sample_id().as_slice());
}

#[test]
fn handshake_round_trip() {
    let h = Handshake::new(sample_hash(), sample_id());
    let bytes = h.to_bytes();
    let d = Handshake::from_bytes(&bytes).unwrap();
    assert_eq!(d, h);
}

#[test]
fn handshake_wrong_length_fails() {
    let short = vec![19u8; 67];
    let long = vec![19u8; 69];
    let empty: Vec<u8> = Vec::new();
    assert_eq!(Handshake::from_bytes(&short), Err(HandshakeError::WrongLength));
    assert_eq!(Handshake::from_bytes(&long), Err(HandshakeError::WrongLength));
    assert_eq!(Handshake::from_bytes(&empty), Err(HandshakeError::WrongLength));
}

#[test]
fn handshake_decode_splits_fields() {
    // 19, the protocol literal, 8 zero bytes, hash H, id P
    let mut buf = vec![19u8];
    buf.extend_from_slice(b"BitTorrent protocol");
    buf.extend_from_slice(&[0u8; 8]);
    let hash: Vec<u8> = (40u8..60).collect();
    let id: Vec<u8> = (60u8..80).collect();
    buf.extend_from_slice(&hash);
    buf.extend_from_slice(&id);
    let h = Handshake::from_bytes(&buf).unwrap();
    assert_eq!(h.length, 19);
    assert_eq!(h.protocol, b"BitTorrent protocol".to_vec());
    assert_eq!(h.reserved, vec![0u8; 8]);
    assert_eq!(h.info_hash, hash);
    assert_eq!(h.peer_id, id);
}

fn frame_body(m: &PeerMessage) -> Vec<u8> {
    let frame = m.to_bytes();
    frame[4..].to_vec()
}

#[test]
fn peer_message_round_trip_all_variants() {
    let messages = vec![
        PeerMessage::KeepAlive,
        PeerMessage::Choke,
        PeerMessage::Unchoke,
        PeerMessage::Interested,
        PeerMessage::NotInterested,
        PeerMessage::Have { piece_index: 7 },
        PeerMessage::Bitfield { bitfield: vec![0b1010_0000, 0xff] },
        PeerMessage::Request { index: 1, begin: 2, length: 3 },
        PeerMessage::Piece { index: 4, begin: 5, block: vec![9, 8, 7] },
        PeerMessage::Cancel { index: 6, begin: 7, length: 8 },
    ];
    for m in messages {
        let body = frame_body(&m);
        let d = PeerMessage::from_bytes(&body).unwrap();
        assert_eq!(d, m);
    }
}

#[test]
fn keep_alive_is_bare_zero_prefix() {
    let frame = PeerMessage::KeepAlive.to_bytes();
    assert_eq!(frame, vec![0, 0, 0, 0]);
    let empty: Vec<u8> = Vec::new();
    assert_eq!(PeerMessage::from_bytes(&empty), Ok(PeerMessage::KeepAlive));
}

#[test]
fn request_encoding_is_exact() {
    let m = PeerMessage::Request { index: 0, begin: 0, length: 16384 };
    let frame = m.to_bytes();
    assert_eq!(
        frame,
        vec![
            0x00, 0x00, 0x00, 0x0d, 0x06, 0x00, 0x00, 0x00, 0x00, 0x00, 0x00, 0x00, 0x00, 0x00,
            0x00, 0x40, 0x00
        ]
    );
}

#[test]
fn request_payload_must_be_12_bytes() {
    let short = vec![6u8, 0, 0, 0, 1];
    let long = vec![6u8; 14];
    assert_eq!(PeerMessage::from_bytes(&short), Err(DecodeError::Truncated));
    assert_eq!(PeerMessage::from_bytes(&long), Err(DecodeError::Truncated));
}

#[test]
fn cancel_payload_must_be_12_bytes() {
    let short = vec![8u8, 0, 0];
    let long = vec![8u8; 15];
    assert_eq!(PeerMessage::from_bytes(&short), Err(DecodeError::Truncated));
    assert_eq!(PeerMessage::from_bytes(&long), Err(DecodeError::Truncated));
}

#[test]
fn piece_payload_needs_8_bytes() {
    let short = vec![7u8, 0, 0, 0, 1, 0, 0, 0];
    assert_eq!(PeerMessage::from_bytes(&short), Err(DecodeError::Truncated));
    let exact = vec![7u8, 0, 0, 0, 1, 0, 0, 0, 2];
    assert_eq!(
        PeerMessage::from_bytes(&exact),
        Ok(PeerMessage::Piece { index: 1, begin: 2, block: Vec::new() })
    );
}

#[test]
fn have_payload_must_be_4_bytes() {
    let good = vec![4u8, 0, 0, 1, 0];
    assert_eq!(PeerMessage::from_bytes(&good), Ok(PeerMessage::Have { piece_index: 256 }));
    let bad = vec![4u8, 0, 0, 1];
    assert_eq!(PeerMessage::from_bytes(&bad), Err(DecodeError::Truncated));
}

#[test]
fn no_payload_types_reject_payload() {
    for id in 0u8..4 {
        let bad = vec![id, 1];
        assert_eq!(PeerMessage::from_bytes(&bad), Err(DecodeError::UnexpectedPayload));
    }
}

#[test]
fn unknown_type_is_fatal() {
    let bad = vec![9u8, 1, 2, 3];
    assert_eq!(PeerMessage::from_bytes(&bad), Err(DecodeError::UnknownType(9)));
    let bad2 = vec![200u8];
    assert_eq!(PeerMessage::from_bytes(&bad2), Err(DecodeError::UnknownType(200)));
}

#[test]
fn bitfield_keeps_any_length() {
    let body = vec![5u8, 0xde, 0xad, 0xbe];
    assert_eq!(
        PeerMessage::from_bytes(&body),
        Ok(PeerMessage::Bitfield { bitfield: vec![0xde, 0xad, 0xbe] })
    );
    let empty_body = vec![5u8];
    assert_eq!(
        PeerMessage::from_bytes(&empty_body),
        Ok(PeerMessage::Bitfield { bitfield: Vec::new() })
    );
}
