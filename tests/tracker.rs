use bittorrent::tracker::{parse_query, url_encode, AnnounceURL, Event, PeerList, TrackerError};

const INFO_HASH: [u8; 20] = [
    0xff, 0x0c, 0x2d, 0x00, 0x01, 0x02, 0x03, 0x0a, 0x09, 0x15, 0x4e, 0x7b, 0xe7, 0x22, 0x7a, 0x63, 0x38,
    0x64, 0xff, 0x22,
];

#[test]
fn announce_url_encodes_every_parameter() {
    let req = AnnounceURL::new(
        String::from("http://tracker.example/announce"),
        String::from("-TR2940-k8hj0wgej6ch"),
        100,
    );
    assert_eq!(req.port, 8000);
    assert_eq!(req.event, Event::Started);
    let url = req.request_url(&INFO_HASH);
    assert_eq!(
        url,
        "http://tracker.example/announce?info_hash=%FF%0C-%00%01%02%03%0A%09%15N%7B%E7%22zc8d%FF%22\
         &peer_id=-TR2940-k8hj0wgej6ch&port=8000&uploaded=0&downloaded=0&left=100&event=started"
    );
}

#[test]
fn query_string_joins_pairs() {
    assert_eq!(parse_query(&[]), "");
    assert_eq!(parse_query(&[("a", String::from("1"))]), "?a=1");
    assert_eq!(
        parse_query(&[("a", String::from("1")), ("b", String::from("x y"))]),
        "?a=1&b=x y"
    );
}

#[test]
fn event_names() {
    assert_eq!(Event::Started.as_str(), "started");
    assert_eq!(Event::Stopped.as_str(), "stopped");
    assert_eq!(Event::Completed.as_str(), "completed");
}

#[test]
fn parses_dict_form_peer_list() {
    let body = b"d8:intervali1800e5:peersld2:ip8:10.0.0.14:porti6881eed2:ip9:127.0.0.17:peer id20:aaaaaaaaaaaaaaaaaaaa4:porti51413eeee";
    let list = PeerList::from_bencode(body).unwrap();
    assert_eq!(list.interval, 1800);
    assert_eq!(list.peers.len(), 2);
    assert_eq!(list.peers[0].ip, "10.0.0.1");
    assert_eq!(list.peers[0].port, 6881);
    assert_eq!(list.peers[1].ip, "127.0.0.1");
    assert_eq!(list.peers[1].port, 51413);
}

#[test]
fn tracker_failure_reason() {
    let body = b"d14:failure reason12:unregisterede";
    match PeerList::from_bencode(body) {
        Err(TrackerError::TrackerFailure(reason)) => assert_eq!(reason, "unregistered"),
        other => panic!("unexpected: {:?}", other.map(|l| l.interval)),
    }
}

#[test]
fn malformed_tracker_responses() {
    let cases: [&[u8]; 4] = [
        b"not bencode",
        b"d5:peerslee",
        b"d8:intervali10e5:peersld2:ip3:1.24:porti0eeee",
        b"d8:intervali10e5:peers3:abce",
    ];
    for body in cases {
        assert!(matches!(PeerList::from_bencode(body), Err(TrackerError::TrackerMalformedResponse)));
    }
}

#[test]
fn parses_compact_peer_list() {
    let mut body = b"d8:intervali900e5:peers12:".to_vec();
    body.extend_from_slice(&[10, 0, 0, 1, 0x1a, 0xe1, 192, 168, 1, 20, 0, 80]);
    body.extend_from_slice(b"e");
    let list = PeerList::from_bencode(&body).unwrap();
    assert_eq!(list.interval, 900);
    assert_eq!(list.peers.len(), 2);
    assert_eq!(list.peers[0].ip, "10.0.0.1");
    assert_eq!(list.peers[0].port, 6881);
    assert_eq!(list.peers[1].ip, "192.168.1.20");
    assert_eq!(list.peers[1].port, 80);
}

#[test]
fn compact_peer_with_port_zero_is_malformed() {
    let mut body = b"d8:intervali900e5:peers6:".to_vec();
    body.extend_from_slice(&[10, 0, 0, 1, 0, 0]);
    body.extend_from_slice(b"e");
    assert!(matches!(PeerList::from_bencode(&body), Err(TrackerError::TrackerMalformedResponse)));
}

#[test]
fn percent_encoding_keeps_only_unreserved_bytes() {
    assert_eq!(url_encode(b"aZ09-._~"), "aZ09-._~");
    assert_eq!(url_encode(b"* +/"), "%2A%20%2B%2F");
    assert_eq!(url_encode(&[0x00, 0xff, 0x4e]), "%00%FFN");
    assert_eq!(url_encode(b""), "");
}
