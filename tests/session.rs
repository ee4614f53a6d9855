use bittorrent::metainfo::{TorrentInfo, TorrentMetadata};
use bittorrent::queue::TorrentState;
use bittorrent::session::{
    connection_count, digest_matches, idle_action, opening_bitfield, verify_piece, IdleAction, PeerSession, SessionAction,
    SessionError,
};
use bittorrent::tracker::PeerList;
use bittorrent::wire::{Message, MessageId};
use sha1_smol::Sha1;

fn state(length: u64, piece_length: u64, pieces: Vec<u8>) -> TorrentState {
    let info = TorrentInfo {
        announce: String::new(),
        comment: String::new(),
        creation_date: 0,
        created_by: String::new(),
        url_list: vec![],
        info_data: TorrentMetadata { pieces, piece_length, length, name: String::from("f") },
        info_hash: vec![0; 20],
    };
    TorrentState::new(info, &PeerList { interval: 0, peers: vec![] })
}

fn requests(acts: &[SessionAction]) -> Vec<(u32, u32, u32)> {
    acts.iter()
        .filter_map(|a| match a {
            SessionAction::Send(m) if m.id == Some(MessageId::Request) => {
                let p = &m.payload;
                let n = |k: usize| u32::from_be_bytes([p[k], p[k + 1], p[k + 2], p[k + 3]]);
                Some((n(0), n(4), n(8)))
            },
            _ => None,
        })
        .collect()
}

#[test]
fn connection_count_is_capped() {
    assert_eq!(connection_count(3), 3);
    assert_eq!(connection_count(100), 100);
    assert_eq!(connection_count(250), 100);
}

#[test]
fn no_request_while_choked() {
    let mut st = state(40000, 40000, vec![0; 20]);
    let mut s = PeerSession::new(st.num_pieces);
    let acts = s.handle(&mut st, &Message::bitfield(&vec![0x80])).unwrap();
    assert!(s.am_interested);
    assert!(matches!(&acts[0], SessionAction::Send(m) if m.id == Some(MessageId::Interested)));
    assert!(requests(&acts).is_empty());
    let acts = s.handle(&mut st, &Message::bare(MessageId::Unchoke)).unwrap();
    assert_eq!(requests(&acts), vec![(0, 0, 16384), (0, 16384, 16384), (0, 32768, 7232)]);
    let acts = s.handle(&mut st, &Message::bare(MessageId::Choke)).unwrap();
    assert!(acts.is_empty());
    assert!(s.peer_choking && s.outstanding.is_empty() && s.current.is_none());
    // the piece went back to the pool
    assert_eq!(st.reserve_next_piece_for(&vec![0x80]), Some(0));
    st.release_piece(0);
    let acts = s.handle(&mut st, &Message::have(0)).unwrap();
    assert!(requests(&acts).is_empty());
}

#[test]
fn late_bitfield_is_a_protocol_error() {
    let mut st = state(4, 2, vec![0; 40]);
    let mut s = PeerSession::new(st.num_pieces);
    s.handle(&mut st, &Message::bare(MessageId::Unchoke)).unwrap();
    assert_eq!(s.handle(&mut st, &Message::bitfield(&vec![0xC0])).err(), Some(SessionError::LateBitfield));
}

#[test]
fn interest_and_remote_bits() {
    let mut st = state(4, 2, vec![0; 40]);
    let mut s = PeerSession::new(st.num_pieces);
    s.handle(&mut st, &Message::bare(MessageId::Interested)).unwrap();
    assert!(s.peer_interested);
    let acts = s.handle(&mut st, &Message::have(1)).unwrap();
    assert!(s.am_interested);
    assert_eq!(s.remote, vec![0x40]);
    assert!(matches!(&acts[0], SessionAction::Send(m) if m.id == Some(MessageId::Interested)));
    s.handle(&mut st, &Message::bare(MessageId::NotInterested)).unwrap();
    assert!(!s.peer_interested);
}

#[test]
fn one_piece_download_sets_exactly_bit_zero() {
    let data: Vec<u8> = (0..100u32).map(|x| x as u8).collect();
    let digest = Sha1::from(&data).digest().bytes().to_vec();
    let mut st = state(100, 100, digest.clone());
    let mut s = PeerSession::new(st.num_pieces);
    s.handle(&mut st, &Message::bitfield(&vec![0x80])).unwrap();
    let acts = s.handle(&mut st, &Message::bare(MessageId::Unchoke)).unwrap();
    assert_eq!(requests(&acts), vec![(0, 0, 100)]);
    let acts = s.handle(&mut st, &Message::piece(0, 0, &data)).unwrap();
    assert!(matches!(&acts[0], SessionAction::StoreBlock { index: 0, begin: 0, block } if *block == data));
    assert!(matches!(acts.last(), Some(SessionAction::CheckPiece(0))));
    assert!(verify_piece(&data, &st.info.info_data, 0));
    let acts = s.piece_checked(&mut st, true);
    assert!(matches!(&acts[0], SessionAction::Send(m) if m.byte_serialize() == vec![0, 0, 0, 5, 4, 0, 0, 0, 0]));
    assert_eq!(st.bitfield, vec![0x80]);
    assert!(st.is_complete());
}

#[test]
fn piece_hash_mismatch_returns_the_piece() {
    let data = vec![1u8; 10];
    let mut st = state(10, 10, vec![0; 20]);
    assert!(!verify_piece(&data, &st.info.info_data, 0));
    assert!(digest_matches(&[0u8; 20], &st.info.info_data, 0));
    assert!(!digest_matches(&Sha1::from(&data).digest().bytes(), &st.info.info_data, 0));
    let mut s = PeerSession::new(st.num_pieces);
    s.handle(&mut st, &Message::bitfield(&vec![0x80])).unwrap();
    s.handle(&mut st, &Message::bare(MessageId::Unchoke)).unwrap();
    s.handle(&mut st, &Message::piece(0, 0, &data)).unwrap();
    let acts = s.piece_checked(&mut st, false);
    assert!(acts.is_empty());
    assert!(!st.check_piece(0));
    assert!(s.current.is_none() && s.outstanding.is_empty());
    // the piece is back in the pool
    assert_eq!(st.reserve_next_piece_for(&vec![0x80]), Some(0));
}

#[test]
fn idle_rule() {
    assert_eq!(idle_action(0, 0), IdleAction::Wait);
    assert_eq!(idle_action(119, 119), IdleAction::Wait);
    assert_eq!(idle_action(120, 5), IdleAction::SendKeepAlive);
    assert_eq!(idle_action(5, 120), IdleAction::Drop);
    assert_eq!(idle_action(500, 500), IdleAction::Drop);
}

#[test]
fn opening_bitfield_only_when_a_piece_is_held() {
    let mut st = state(20, 2, vec![0; 200]);
    assert!(opening_bitfield(&st).is_none());
    st.mark_piece_complete(9);
    let m = opening_bitfield(&st).unwrap();
    assert_eq!(m.byte_serialize(), vec![0, 0, 0, 3, 5, 0x00, 0x40]);
}

#[test]
fn last_block_triggers_the_hash_check() {
    let mut st = state(20000, 20000, vec![0; 20]);
    let mut s = PeerSession::new(st.num_pieces);
    s.handle(&mut st, &Message::bitfield(&vec![0x80])).unwrap();
    let acts = s.handle(&mut st, &Message::bare(MessageId::Unchoke)).unwrap();
    assert_eq!(requests(&acts), vec![(0, 0, 16384), (0, 16384, 3616)]);
    let acts = s.handle(&mut st, &Message::piece(0, 0, &vec![1; 16384])).unwrap();
    assert_eq!(acts.len(), 1);
    let acts = s.handle(&mut st, &Message::piece(0, 16384, &vec![2; 3616])).unwrap();
    assert!(matches!(acts.last(), Some(SessionAction::CheckPiece(0))));
}

#[test]
fn serves_held_pieces_only_when_unchoking() {
    let mut st = state(4, 2, vec![0; 40]);
    st.mark_piece_complete(0);
    let mut s = PeerSession::new(st.num_pieces);
    let acts = s.handle(&mut st, &Message::request(0, 0, 2)).unwrap();
    assert!(acts.is_empty());
    s.am_choking = false;
    let acts = s.handle(&mut st, &Message::request(0, 0, 2)).unwrap();
    assert!(matches!(acts[0], SessionAction::ServeBlock { index: 0, begin: 0, length: 2 }));
    let acts = s.handle(&mut st, &Message::request(1, 0, 2)).unwrap();
    assert!(acts.is_empty());
}

#[test]
fn wrong_payload_sizes_are_protocol_errors() {
    let mut st = state(4, 2, vec![0; 40]);
    let mut s = PeerSession::new(st.num_pieces);
    let short_have = Message::new(Some(MessageId::Have), vec![0, 0, 1]);
    assert_eq!(s.handle(&mut st, &short_have).err(), Some(SessionError::BadPayload));
    let short_request = Message::new(Some(MessageId::Request), vec![0; 11]);
    assert_eq!(s.handle(&mut st, &short_request).err(), Some(SessionError::BadPayload));
    let short_piece = Message::new(Some(MessageId::Piece), vec![0; 7]);
    assert_eq!(s.handle(&mut st, &short_piece).err(), Some(SessionError::BadPayload));
}

#[test]
fn unrequested_block_and_cancel_are_ignored() {
    let mut st = state(40000, 40000, vec![0; 20]);
    let mut s = PeerSession::new(st.num_pieces);
    s.handle(&mut st, &Message::bitfield(&vec![0x80])).unwrap();
    s.handle(&mut st, &Message::bare(MessageId::Unchoke)).unwrap();
    assert_eq!(s.outstanding.len(), 3);
    let acts = s.handle(&mut st, &Message::piece(0, 1, &vec![0; 4])).unwrap();
    assert!(acts.is_empty());
    assert_eq!(s.outstanding.len(), 3);
    s.handle(&mut st, &Message::cancel(0, 16384, 16384)).unwrap();
    assert_eq!(s.outstanding.len(), 2);
    s.handle(&mut st, &Message::cancel(0, 16384, 16384)).unwrap();
    assert_eq!(s.outstanding.len(), 2);
}
