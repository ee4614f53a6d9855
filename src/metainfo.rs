//! The metainfo (`.torrent`) model and its decoder.
use vstd::prelude::*;
use vstd::string::StringSliceAdditionalSpecFns;
use vstd::utf8::{valid_utf8, decode_utf8};
use crate::bencode::{
    BToken, TokenView, DictEntry, EntryView, bencode_tokens, bytes_at, dict_at, entries_view, find_entry,
    lookup, offset_of_token, read_bytes, read_dict, read_text, read_u64, text_at, token_offset,
    tokens_bytes, token_views, tokens_of, tokenizes, u64_at, utf8_text, lemma_token_range, lemma_info_delimiters,
    lemma_tokens_of, bendy_tokens,
};

verus! {

/// The `info` dictionary of a single-file torrent.
pub struct TorrentMetadata {
    /// Concatenated 20-byte SHA-1 digests, one per piece.
    pub pieces: Vec<u8>,
    pub piece_length: u64,
    pub length: u64,
    pub name: String,
}

/// A decoded metainfo file.
pub struct TorrentInfo {
    pub announce: String,
    pub comment: String,
    pub creation_date: u64,
    pub created_by: String,
    pub url_list: Vec<String>,
    pub info_data: TorrentMetadata,
    /// SHA-1 of the `info` value exactly as it stands in the file.
    pub info_hash: Vec<u8>,
}

/// The number of pieces a file of `length` bytes splits into.
pub open spec fn piece_count(length: u64, piece_length: u64) -> nat
    recommends
        piece_length > 0,
{
    ((length as int + piece_length as int - 1) / piece_length as int) as nat
}

/// Why a metainfo file was refused.
#[derive(Debug, PartialEq, Eq, Structural)]
pub enum MetainfoError {
    /// Not bencode, a required key missing or of the wrong kind, `pieces`
    /// not a whole number of digests, or a zero `piece length`.
    MalformedMetainfo,
}

/// The SHA-1 digest of `data`.
pub uninterp spec fn sha1_of(data: Seq<u8>) -> Seq<u8>;

/// Relies on sha1_smol::Sha1: the SHA-1 digest of `data`, which is 20 bytes.
#[verifier::external_body]
pub(crate) fn sha1_digest(data: &[u8]) -> (r: Vec<u8>)
    ensures
        r@ == sha1_of(data@),
        r@.len() == 20,
{
    sha1_smol::Sha1::from(data).digest().bytes().to_vec()
}

/// The decoded `info` dictionary.
pub struct MetadataView {
    pub pieces: Seq<u8>,
    pub piece_length: u64,
    pub length: u64,
    pub name: Seq<char>,
}

/// A decoded metainfo file, with the token range of its `info` value.
pub struct TorrentView {
    pub announce: Seq<char>,
    pub comment: Seq<char>,
    pub creation_date: u64,
    pub created_by: Seq<char>,
    pub url_list: Seq<Seq<char>>,
    pub info: MetadataView,
    pub info_start: int,
    pub info_end: int,
}

/// The `info` dictionary spanning tokens `s..e`: `pieces` a whole number of
/// 20-byte digests, one per piece, `piece length` positive, `length` and
/// `name` present.
pub open spec fn info_spec(ts: Seq<TokenView>, s: int, e: int) -> Option<MetadataView> {
    match dict_at(ts, s, e) {
        Some(en) => {
            let pieces = bytes_at(ts, lookup(en, "pieces".spec_bytes()));
            let piece_length = u64_at(ts, lookup(en, "piece length".spec_bytes()));
            let length = u64_at(ts, lookup(en, "length".spec_bytes()));
            let name = text_at(ts, lookup(en, "name".spec_bytes()));
            if pieces is Some && piece_length is Some && length is Some && name is Some
                && pieces->0.len() % 20 == 0 && piece_length->0 > 0
                && pieces->0.len() / 20 == piece_count(length->0, piece_length->0) {
                Some(MetadataView {
                    pieces: pieces->0,
                    piece_length: piece_length->0,
                    length: length->0,
                    name: name->0,
                })
            } else {
                None
            }
        },
        None => None,
    }
}

/// An optional text entry: empty when absent, `None` when of the wrong kind.
pub open spec fn opt_text(ts: Seq<TokenView>, en: Seq<EntryView>, key: Seq<u8>) -> Option<Seq<char>> {
    match lookup(en, key) {
        None => Some(Seq::empty()),
        r => text_at(ts, r),
    }
}

/// An optional integer entry: zero when absent, `None` when of the wrong kind.
pub open spec fn opt_u64(ts: Seq<TokenView>, en: Seq<EntryView>, key: Seq<u8>) -> Option<u64> {
    match lookup(en, key) {
        None => Some(0),
        r => u64_at(ts, r),
    }
}

/// The bytes of a string token.
pub open spec fn token_text_bytes(t: TokenView) -> Seq<u8> {
    match t {
        TokenView::Bytes(v) => v,
        _ => Seq::empty(),
    }
}

/// A list of UTF-8 strings spanning tokens `s..e`.
pub open spec fn text_list_at(ts: Seq<TokenView>, s: int, e: int) -> Option<Seq<Seq<char>>> {
    if 0 <= s && s + 2 <= e <= ts.len() && ts[s] is List && ts[e - 1] is End
        && forall|k: int| s < k < e - 1 ==> (#[trigger] ts[k] is Bytes && valid_utf8(token_text_bytes(ts[k]))) {
        Some(Seq::new((e - s - 2) as nat, |k: int| decode_utf8(token_text_bytes(ts[s + 1 + k]))))
    } else {
        None
    }
}

/// An optional list of strings: empty when absent, `None` when of the wrong kind.
pub open spec fn opt_text_list(ts: Seq<TokenView>, en: Seq<EntryView>, key: Seq<u8>) -> Option<Seq<Seq<char>>> {
    match lookup(en, key) {
        None => Some(Seq::empty()),
        Some((s, e)) => text_list_at(ts, s, e),
    }
}

/// The metainfo file that the token stream `ts` spells: one dictionary with
/// an `announce` string and an `info` dictionary, and optionally `comment`,
/// `creation date`, `created by` and `url-list`; other keys are ignored.
pub open spec fn torrent_spec(ts: Seq<TokenView>) -> Option<TorrentView> {
    match dict_at(ts, 0, ts.len() as int) {
        Some(en) => {
            let announce = text_at(ts, lookup(en, "announce".spec_bytes()));
            let info_range = lookup(en, "info".spec_bytes());
            let comment = opt_text(ts, en, "comment".spec_bytes());
            let creation_date = opt_u64(ts, en, "creation date".spec_bytes());
            let created_by = opt_text(ts, en, "created by".spec_bytes());
            let url_list = opt_text_list(ts, en, "url-list".spec_bytes());
            match info_range {
                Some((s, e)) => {
                    let info = info_spec(ts, s, e);
                    if announce is Some && info is Some && comment is Some && creation_date is Some
                        && created_by is Some && url_list is Some {
                        Some(TorrentView {
                            announce: announce->0,
                            comment: comment->0,
                            creation_date: creation_date->0,
                            created_by: created_by->0,
                            url_list: url_list->0,
                            info: info->0,
                            info_start: s,
                            info_end: e,
                        })
                    } else {
                        None
                    }
                },
                None => None,
            }
        },
        None => None,
    }
}

impl TorrentMetadata {
    pub open spec fn matches(&self, v: MetadataView) -> bool {
        &&& self.pieces@ == v.pieces
        &&& self.piece_length == v.piece_length
        &&& self.length == v.length
        &&& self.name@ == v.name
    }

    /// Decodes the `info` dictionary spanning tokens `s..e`.
    pub fn from_tokens(ts: &Vec<BToken>, s: usize, e: usize) -> (r: Result<TorrentMetadata, MetainfoError>)
        ensures
            match r {
                Ok(m) => info_spec(token_views(ts@), s as int, e as int) matches Some(v) && m.matches(v),
                Err(_) => info_spec(token_views(ts@), s as int, e as int) is None,
            },
    {
        let entries = match read_dict(ts, s, e) {
            Some(en) => en,
            None => {
                return Err(MetainfoError::MalformedMetainfo);
            },
        };
        let pieces = read_bytes(ts, find_entry(&entries, "pieces".as_bytes()));
        let piece_length = read_u64(ts, find_entry(&entries, "piece length".as_bytes()));
        let length = read_u64(ts, find_entry(&entries, "length".as_bytes()));
        let name = read_text(ts, find_entry(&entries, "name".as_bytes()));
        match (pieces, piece_length, length, name) {
            (Some(pieces), Some(piece_length), Some(length), Some(name)) => {
                if pieces.len() % 20 == 0 && piece_length > 0
                    && (pieces.len() / 20) as u64 == pieces_for(length, piece_length) {
                    Ok(TorrentMetadata { pieces, piece_length, length, name })
                } else {
                    Err(MetainfoError::MalformedMetainfo)
                }
            },
            _ => Err(MetainfoError::MalformedMetainfo),
        }
    }
}

/// Reads an optional text entry: empty when absent.
fn read_opt_text(ts: &Vec<BToken>, entries: &Vec<DictEntry>, key: &str) -> (r: Option<String>)
    ensures
        match r {
            Some(t) => opt_text(token_views(ts@), entries_view(entries@), key.spec_bytes()) == Some(t@),
            None => opt_text(token_views(ts@), entries_view(entries@), key.spec_bytes()) is None,
        },
{
    match find_entry(entries, key.as_bytes()) {
        None => Some(String::new()),
        r => read_text(ts, r),
    }
}

/// Reads an optional integer entry: zero when absent.
fn read_opt_u64(ts: &Vec<BToken>, entries: &Vec<DictEntry>, key: &str) -> (r: Option<u64>)
    ensures
        r == opt_u64(token_views(ts@), entries_view(entries@), key.spec_bytes()),
{
    match find_entry(entries, key.as_bytes()) {
        None => Some(0),
        r => read_u64(ts, r),
    }
}

/// Reads the list of strings spanning tokens `s..e`.
fn read_text_list(ts: &Vec<BToken>, s: usize, e: usize) -> (r: Option<Vec<String>>)
    ensures
        match r {
            Some(l) => text_list_at(token_views(ts@), s as int, e as int) == Some(l@.map_values(|t: String| t@)),
            None => text_list_at(token_views(ts@), s as int, e as int) is None,
        },
{
    if !(s < e && e - s >= 2 && e <= ts.len()) {
        return None;
    }
    match &ts[s] {
        BToken::List => {},
        _ => {
            return None;
        },
    }
    match &ts[e - 1] {
        BToken::End => {},
        _ => {
            return None;
        },
    }
    let mut out: Vec<String> = Vec::new();
    let mut k: usize = s + 1;
    while k < e - 1
        invariant
            s + 1 <= k <= e - 1,
            e <= token_views(ts@).len(),
            token_views(ts@)[s as int] is List,
            token_views(ts@)[e - 1] is End,
            out@.len() == k - s - 1,
            forall|j: int| s < j < k ==> (#[trigger] token_views(ts@)[j] is Bytes && valid_utf8(token_text_bytes(token_views(ts@)[j]))),
            forall|j: int| 0 <= j < out@.len() ==> (#[trigger] out@[j])@ == decode_utf8(token_text_bytes(token_views(ts@)[s + 1 + j])),
        decreases e - 1 - k,
    {
        match &ts[k] {
            BToken::Bytes(v) => {
                match utf8_text(v.as_slice()) {
                    Some(t) => {
                        out.push(t);
                    },
                    None => {
                        assert(!valid_utf8(token_text_bytes(token_views(ts@)[k as int])));
                        return None;
                    },
                }
            },
            _ => {
                assert(!(token_views(ts@)[k as int] is Bytes));
                return None;
            },
        }
        k += 1;
    }
    assert(out@.map_values(|t: String| t@) =~= Seq::new((e - s - 2) as nat, |k: int| decode_utf8(token_text_bytes(token_views(ts@)[s + 1 + k]))));
    Some(out)
}

/// Reads an optional list of strings: empty when absent.
fn read_opt_text_list(ts: &Vec<BToken>, entries: &Vec<DictEntry>, key: &str) -> (r: Option<Vec<String>>)
    ensures
        match r {
            Some(l) => opt_text_list(token_views(ts@), entries_view(entries@), key.spec_bytes()) == Some(l@.map_values(|t: String| t@)),
            None => opt_text_list(token_views(ts@), entries_view(entries@), key.spec_bytes()) is None,
        },
{
    match find_entry(entries, key.as_bytes()) {
        None => {
            let l: Vec<String> = Vec::new();
            assert(l@.map_values(|t: String| t@) =~= Seq::<Seq<char>>::empty());
            Some(l)
        },
        Some((s, e)) => read_text_list(ts, s, e),
    }
}

impl TorrentInfo {
    pub open spec fn matches(&self, v: TorrentView) -> bool {
        &&& self.announce@ == v.announce
        &&& self.comment@ == v.comment
        &&& self.creation_date == v.creation_date
        &&& self.created_by@ == v.created_by
        &&& self.url_list@.map_values(|t: String| t@) == v.url_list
        &&& self.info_data.matches(v.info)
    }

    /// Decodes a metainfo file from its bytes `b` and their token stream
    /// `ts`. The info hash is the SHA-1 of the bytes that the `info` value
    /// occupies in `b`, from its `d` to its matching `e`.
    pub fn from_tokens(b: &[u8], ts: &Vec<BToken>) -> (r: Result<TorrentInfo, MetainfoError>)
        requires
            tokens_bytes(token_views(ts@)) == b@,
        ensures
            match r {
                Ok(t) => torrent_spec(token_views(ts@)) matches Some(v) && t.matches(v) && {
                    let start = token_offset(token_views(ts@), v.info_start);
                    let end = token_offset(token_views(ts@), v.info_end);
                    &&& t.info_hash@.len() == 20
                    &&& 0 <= start < end <= b@.len()
                    &&& b@[start] == 100u8
                    &&& b@[end - 1] == 101u8
                    &&& t.info_hash@ == sha1_of(b@.subrange(start, end))
                },
                Err(_) => torrent_spec(token_views(ts@)) is None,
            },
    {
        let entries = match read_dict(ts, 0, ts.len()) {
            Some(en) => en,
            None => {
                return Err(MetainfoError::MalformedMetainfo);
            },
        };
        let announce = read_text(ts, find_entry(&entries, "announce".as_bytes()));
        let comment = read_opt_text(ts, &entries, "comment");
        let creation_date = read_opt_u64(ts, &entries, "creation date");
        let created_by = read_opt_text(ts, &entries, "created by");
        let url_list = read_opt_text_list(ts, &entries, "url-list");
        let (s, e) = match find_entry(&entries, "info".as_bytes()) {
            Some(range) => range,
            None => {
                return Err(MetainfoError::MalformedMetainfo);
            },
        };
        let info_data = match TorrentMetadata::from_tokens(ts, s, e) {
            Ok(m) => m,
            Err(err) => {
                return Err(err);
            },
        };
        match (announce, comment, creation_date, created_by, url_list) {
            (Some(announce), Some(comment), Some(creation_date), Some(created_by), Some(url_list)) => {
                proof {
                    lemma_info_delimiters(token_views(ts@), s as int, e as int);
                    lemma_token_range(token_views(ts@), s as int, e as int);
                }
                assert(b@.len() == b.len());
                let start = offset_of_token(ts, s);
                let end = offset_of_token(ts, e);
                let info_hash = sha1_digest(&b[start..end]);
                Ok(TorrentInfo { announce, comment, creation_date, created_by, url_list, info_data, info_hash })
            },
            _ => Err(MetainfoError::MalformedMetainfo),
        }
    }

    /// Decodes a metainfo file. It succeeds exactly when the tokenizer
    /// reads the file and the tokens spell a metainfo dictionary; the fields
    /// are then those it spells, and the info hash is the SHA-1 of the bytes
    /// of the `info` value, from its `d` to its matching `e`.
    pub fn from_bencode(b: &[u8]) -> (r: Result<TorrentInfo, MetainfoError>)
        ensures
            r is Ok <==> (bendy_tokens(b@) matches Some(ts) && torrent_spec(ts) is Some),
            bendy_tokens(b@) is Some ==> bendy_tokens(b@) == Some(tokens_of(b@)),
            r matches Ok(t) ==> {
                let ts = tokens_of(b@);
                &&& tokenizes(b@, ts)
                &&& torrent_spec(ts) matches Some(v) && t.matches(v) && {
                    let start = token_offset(ts, v.info_start);
                    let end = token_offset(ts, v.info_end);
                    &&& t.info_hash@.len() == 20
                    &&& 0 <= start < end <= b@.len()
                    &&& b@[start] == 100u8
                    &&& b@[end - 1] == 101u8
                    &&& t.info_hash@ == sha1_of(b@.subrange(start, end))
                }
            },
    {
        match bencode_tokens(b) {
            Some(ts) => {
                proof {
                    lemma_tokens_of(b@, token_views(ts@));
                }
                TorrentInfo::from_tokens(b, &ts)
            },
            None => Err(MetainfoError::MalformedMetainfo),
        }
    }
}

/// The number of pieces a file of `length` bytes splits into.
pub fn pieces_for(length: u64, piece_length: u64) -> (r: u64)
    requires
        piece_length > 0,
    ensures
        r == piece_count(length, piece_length),
{
    let num: u64 = if length == 0 { 0 } else { (length - 1) / piece_length + 1 };
    assert(num == piece_count(length, piece_length)) by (nonlinear_arith)
        requires
            piece_length > 0,
            length == 0 ==> num == 0,
            length > 0 ==> num == (length - 1) / piece_length as int + 1,
    {
        if length > 0 {
            assert((length - 1 + piece_length) / piece_length as int == (length - 1) / piece_length as int + 1);
        }
    }
    num
}

} // verus!
