use bittorrent::wire::{Handshake, Message, MessageId, WireError};

const INFO_HASH: [u8; 20] = [
    255, 12, 45, 0, 1, 2, 3, 10, 9, 21, 78, 123, 231, 34, 122, 99, 56, 100, 255, 34,
];

#[test]
fn message_serialize() {
    let peer_id = "-TR2940-k8hj0wgej6ch";
    let mut payload: Vec<u8> = vec![0x13];
    payload.append(&mut "BitTorrent protocol".as_bytes().to_vec());
    payload.append(&mut [0x0, 0x0, 0x0, 0x0, 0x0, 0x0, 0x0, 0x0].to_vec());
    payload.append(
        &mut [
            255, 12, 45, 0, 1, 2, 3, 10, 9, 21, 78, 123, 231, 34, 122, 99, 56, 100, 255, 34,
        ]
        .to_vec(),
    );
    payload.append(&mut peer_id.as_bytes().to_vec());
    let handshake = Handshake::new(
        vec![
            255, 12, 45, 0, 1, 2, 3, 10, 9, 21, 78, 123, 231, 34, 122, 99, 56, 100, 255, 34,
        ],
        peer_id,
    );
    assert_eq!(handshake.serialize(), payload);
    assert_eq!(
        Handshake::deserialize(handshake.serialize())
            .unwrap()
            .serialize(),
        payload
    );
}

#[test]
fn handshake_is_68_bytes_and_round_trips() {
    let h = Handshake::new(INFO_HASH.to_vec(), "-TR2940-k8hj0wgej6ch");
    let bytes = h.serialize();
    assert_eq!(bytes.len(), 68);
    assert_eq!(bytes[0], 0x13);
    assert_eq!(&bytes[1..20], b"BitTorrent protocol");
    assert_eq!(&bytes[20..28], &[0u8; 8]);
    assert_eq!(&bytes[28..48], &INFO_HASH);
    assert_eq!(&bytes[48..68], b"-TR2940-k8hj0wgej6ch");
    let back = Handshake::deserialize(bytes).unwrap();
    assert_eq!(back.get_hash(), &INFO_HASH.to_vec());
    assert_eq!(back.get_peer_id(), &b"-TR2940-k8hj0wgej6ch".to_vec());
    assert!(back.accepts(&INFO_HASH.to_vec()));
    assert!(!back.accepts(&vec![0u8; 20]));
}

#[test]
fn handshake_rejects_other_protocol_and_short_input() {
    let mut bytes = Handshake::new(INFO_HASH.to_vec(), "-TR2940-k8hj0wgej6ch").serialize();
    assert_eq!(Handshake::deserialize(bytes[..67].to_vec()).unwrap_err(), WireError::Incomplete);
    bytes[5] = b'X';
    assert_eq!(Handshake::deserialize(bytes).unwrap_err(), WireError::HandshakeRejected);
}

#[test]
fn message_encodings() {
    assert_eq!(Message::bare(MessageId::Interested).byte_serialize(), vec![0, 0, 0, 1, 2]);
    assert_eq!(Message::have(5).byte_serialize(), vec![0, 0, 0, 5, 4, 0, 0, 0, 5]);
    assert_eq!(Message::keep_alive().byte_serialize(), vec![0, 0, 0, 0]);
    assert_eq!(
        Message::request(0, 0, 16384).byte_serialize(),
        vec![0, 0, 0, 0x0D, 6, 0, 0, 0, 0, 0, 0, 0, 0, 0, 0, 0x40, 0]
    );
    assert_eq!(
        Message::cancel(1, 2, 3).byte_serialize(),
        vec![0, 0, 0, 0x0D, 8, 0, 0, 0, 1, 0, 0, 0, 2, 0, 0, 0, 3]
    );
    assert_eq!(Message::bitfield(&vec![0x80, 0x01]).byte_serialize(), vec![0, 0, 0, 3, 5, 0x80, 0x01]);
    assert_eq!(
        Message::piece(7, 16, &vec![9, 8]).byte_serialize(),
        vec![0, 0, 0, 11, 7, 0, 0, 0, 7, 0, 0, 0, 16, 9, 8]
    );
}

#[test]
fn message_round_trip_for_every_id() {
    for id in 0u8..=9 {
        let m = Message::new(Some(MessageId::get_id(id)), vec![1, 2, 3]);
        let bytes = m.byte_serialize();
        assert_eq!(m.frame_len(), bytes.len());
        let back = Message::read(bytes.clone()).unwrap();
        assert_eq!(back.id, Some(MessageId::get_id(id)));
        assert_eq!(back.payload, vec![1, 2, 3]);
        assert_eq!(back.byte_serialize(), bytes);
    }
    let keep = Message::read(vec![0, 0, 0, 0]).unwrap();
    assert_eq!(keep.id, None);
    assert!(keep.payload.is_empty());
}

#[test]
fn message_read_leaves_trailing_bytes() {
    let mut bytes = Message::have(5).byte_serialize();
    bytes.extend_from_slice(&[0, 0, 0, 0]);
    let m = Message::read(bytes).unwrap();
    assert_eq!(m.id, Some(MessageId::Have));
    assert_eq!(m.payload, vec![0, 0, 0, 5]);
    assert_eq!(m.frame_len(), 9);
}

#[test]
fn message_read_errors() {
    assert_eq!(Message::read(vec![0, 0, 0]).unwrap_err(), WireError::Incomplete);
    assert_eq!(Message::read(vec![0, 0, 0, 5, 4, 0]).unwrap_err(), WireError::Incomplete);
    assert_eq!(Message::read(vec![0, 0x10, 0, 0, 7]).unwrap_err(), WireError::FrameTooLarge);
}

#[test]
fn message_ids_map_both_ways() {
    assert_eq!(MessageId::get_id(2), MessageId::Interested);
    assert_eq!(MessageId::get_id(3), MessageId::NotInterested);
    assert_eq!(MessageId::get_id(9), MessageId::Port);
    assert_eq!(MessageId::get_id(20), MessageId::Unknown(20));
    for b in 0u8..=255 {
        assert_eq!(MessageId::get_id(b).convert(), b);
    }
}

#[test]
fn largest_frame_is_accepted() {
    let max = bittorrent::wire::MAX_MESSAGE_LENGTH;
    let mut bytes = max.to_be_bytes().to_vec();
    bytes.push(7);
    bytes.resize(4 + max as usize, 0xAB);
    let m = Message::read(bytes).unwrap();
    assert_eq!(m.id, Some(MessageId::Piece));
    assert_eq!(m.payload.len(), max as usize - 1);
    let mut too_big = (max + 1).to_be_bytes().to_vec();
    too_big.resize(5 + max as usize, 0);
    assert_eq!(Message::read(too_big).unwrap_err(), WireError::FrameTooLarge);
}
