use bittorrent::metainfo::{MetainfoError, TorrentInfo};
use sha1_smol::Sha1;

fn bstr(s: &[u8]) -> Vec<u8> {
    let mut out = format!("{}:", s.len()).into_bytes();
    out.extend_from_slice(s);
    out
}

fn info_dict(pieces: &[u8], piece_length: &str) -> Vec<u8> {
    let mut out = b"d".to_vec();
    out.extend(bstr(b"length"));
    out.extend(b"i48e");
    out.extend(bstr(b"name"));
    out.extend(bstr(b"file.bin"));
    out.extend(bstr(b"piece length"));
    out.extend(format!("i{}e", piece_length).into_bytes());
    out.extend(bstr(b"pieces"));
    out.extend(bstr(pieces));
    out.extend(b"e");
    out
}

fn metainfo(info: &[u8]) -> Vec<u8> {
    let mut out = b"d".to_vec();
    out.extend(bstr(b"announce"));
    out.extend(bstr(b"http://tracker.example/announce"));
    out.extend(bstr(b"comment"));
    out.extend(bstr(b"hello"));
    out.extend(bstr(b"creation date"));
    out.extend(b"i1700000000e");
    out.extend(bstr(b"info"));
    out.extend_from_slice(info);
    out.extend(bstr(b"url-list"));
    out.extend(b"l");
    out.extend(bstr(b"http://mirror.example/a"));
    out.extend(bstr(b"http://mirror.example/b"));
    out.extend(b"e");
    out.extend(b"e");
    out
}

fn sha1(b: &[u8]) -> Vec<u8> {
    Sha1::from(b).digest().bytes().to_vec()
}

#[test]
fn decodes_fields() {
    let pieces: Vec<u8> = (0u8..40).collect();
    let info = info_dict(&pieces, "24");
    let t = TorrentInfo::from_bencode(&metainfo(&info)).unwrap();
    assert_eq!(t.announce, "http://tracker.example/announce");
    assert_eq!(t.comment, "hello");
    assert_eq!(t.creation_date, 1700000000);
    assert_eq!(t.created_by, "");
    assert_eq!(t.url_list, vec!["http://mirror.example/a".to_string(), "http://mirror.example/b".to_string()]);
    assert_eq!(t.info_data.length, 48);
    assert_eq!(t.info_data.piece_length, 24);
    assert_eq!(t.info_data.name, "file.bin");
    assert_eq!(t.info_data.pieces, pieces);
}

#[test]
fn info_hash_covers_the_raw_info_range() {
    let pieces: Vec<u8> = (100u8..120).collect();
    let info = info_dict(&pieces, "48");
    let file = metainfo(&info);
    let start = file.windows(info.len()).position(|w| w == info.as_slice()).unwrap();
    let end = start + info.len() - 1;
    assert_eq!(file[start], b'd');
    assert_eq!(file[end], b'e');
    let t = TorrentInfo::from_bencode(&file).unwrap();
    assert_eq!(t.info_hash, sha1(&file[start..=end]));
    assert_eq!(t.info_hash.len(), 20);
}

#[test]
fn optional_keys_may_be_absent() {
    let pieces = [7u8; 20];
    let mut file = b"d".to_vec();
    file.extend(bstr(b"announce"));
    file.extend(bstr(b"http://t/a"));
    file.extend(bstr(b"info"));
    file.extend(info_dict(&pieces, "64"));
    file.extend(b"e");
    let t = TorrentInfo::from_bencode(&file).unwrap();
    assert_eq!(t.comment, "");
    assert_eq!(t.creation_date, 0);
    assert!(t.url_list.is_empty());
}

#[test]
fn rejects_malformed_metainfo() {
    let pieces = [7u8; 20];
    // pieces not a multiple of 20
    let bad_pieces = metainfo(&info_dict(&pieces[..19], "64"));
    assert_eq!(TorrentInfo::from_bencode(&bad_pieces).err(), Some(MetainfoError::MalformedMetainfo));
    // two digests for a single piece
    let extra = metainfo(&info_dict(&[7u8; 40], "64"));
    assert_eq!(TorrentInfo::from_bencode(&extra).err(), Some(MetainfoError::MalformedMetainfo));
    // zero piece length
    let zero = metainfo(&info_dict(&pieces, "0"));
    assert_eq!(TorrentInfo::from_bencode(&zero).err(), Some(MetainfoError::MalformedMetainfo));
    // negative piece length
    let negative = metainfo(&info_dict(&pieces, "-5"));
    assert_eq!(TorrentInfo::from_bencode(&negative).err(), Some(MetainfoError::MalformedMetainfo));
    // not bencode
    assert_eq!(TorrentInfo::from_bencode(b"d8:announce").err(), Some(MetainfoError::MalformedMetainfo));
    // missing info
    let mut no_info = b"d".to_vec();
    no_info.extend(bstr(b"announce"));
    no_info.extend(bstr(b"http://t/a"));
    no_info.extend(b"e");
    assert_eq!(TorrentInfo::from_bencode(&no_info).err(), Some(MetainfoError::MalformedMetainfo));
    // top level not a dictionary
    assert_eq!(TorrentInfo::from_bencode(b"i3e").err(), Some(MetainfoError::MalformedMetainfo));
}
