use bittorrent::metainfo::{TorrentInfo, TorrentMetadata};
use bittorrent::queue::TorrentState;
use bittorrent::tracker::{Peer, PeerList};

fn torrent(length: u64, piece_length: u64) -> TorrentInfo {
    TorrentInfo {
        announce: String::from(""),
        comment: String::from(""),
        creation_date: 0,
        created_by: String::from(""),
        url_list: vec![],
        info_data: TorrentMetadata { pieces: vec![], piece_length, length, name: String::from("") },
        info_hash: vec![],
    }
}

#[test]
fn bitfield_set() {
    let peerlist = PeerList {
        interval: 0,
        peers: vec![],
    };

    let t_metadata = TorrentMetadata {
        pieces: vec![],
        piece_length: 2,
        length: 48,
        name: String::from(""),
    };

    let torrent_info = TorrentInfo {
        announce: String::from(""),
        comment: String::from(""),
        creation_date: 0,
        created_by: String::from(""),
        url_list: vec![],
        info_data: t_metadata,
        info_hash: vec![],
    };

    let mut torrent_queue: TorrentState = TorrentState::new(torrent_info, &peerlist);

    torrent_queue.set_bitfield_on(0);
    assert_eq!(torrent_queue.bitfield[0], 0x80);
    assert!(torrent_queue.check_piece(0));
    torrent_queue.set_bitfield_on(15);
    assert_eq!(torrent_queue.bitfield[1], 0x01);
    assert!(torrent_queue.check_piece(15));
    torrent_queue.set_bitfield_on(22);
    assert_eq!(torrent_queue.bitfield[2], 0x02);
    assert!(!torrent_queue.check_piece(23));
}

#[test]
fn piece_count_rounds_up_and_padding_stays_clear() {
    let mut s = TorrentState::new(torrent(10, 4), &PeerList { interval: 0, peers: vec![] });
    assert_eq!(s.num_pieces, 3);
    assert_eq!(s.bitfield, vec![0]);
    s.set_bitfield_on(5);
    assert_eq!(s.bitfield, vec![0]);
    for i in 0..3 {
        s.mark_piece_complete(i);
        assert!(s.check_piece(i));
    }
    assert_eq!(s.snapshot_bitfield(), vec![0xE0]);
    assert!(s.is_complete());
    s.set_bitfield_off(1);
    assert_eq!(s.bitfield, vec![0xA0]);
    assert_eq!(s.get_next_required_piece(), Some(1));
}

#[test]
fn next_required_piece() {
    let mut s = TorrentState::new(torrent(48, 2), &PeerList { interval: 0, peers: vec![] });
    assert_eq!(s.get_next_required_piece(), Some(0));
    for i in 0..10 {
        s.set_bitfield_on(i);
    }
    assert_eq!(s.get_next_required_piece(), Some(10));
    for i in 10..24 {
        s.set_bitfield_on(i);
    }
    assert_eq!(s.get_next_required_piece(), None);
}

#[test]
fn reserve_skips_held_assigned_and_missing_pieces() {
    let mut s = TorrentState::new(torrent(16, 2), &PeerList { interval: 0, peers: vec![] });
    s.mark_piece_complete(0);
    let peer = vec![0b1110_0001];
    assert_eq!(s.reserve_next_piece_for(&peer), Some(1));
    assert_eq!(s.reserve_next_piece_for(&peer), Some(2));
    assert_eq!(s.reserve_next_piece_for(&peer), Some(7));
    assert_eq!(s.reserve_next_piece_for(&peer), None);
    s.release_piece(2);
    assert_eq!(s.reserve_next_piece_for(&peer), Some(2));
    assert_eq!(s.reserve_next_piece_for(&vec![]), None);
}

#[test]
fn peers_start_choked_and_uninterested() {
    let peers = PeerList {
        interval: 30,
        peers: vec![Peer { ip: String::from("10.0.0.1"), port: 6881 }],
    };
    let s = TorrentState::new(torrent(4, 2), &peers);
    assert_eq!(s.peers.len(), 1);
    let p = &s.peers[0];
    assert!(p.am_choking && p.peer_choking && !p.am_interested && !p.peer_interested);
    assert_eq!(p.peer_info.ip, "10.0.0.1");
    assert_eq!(p.peer_info.port, 6881);
}
