//! Tracker announce requests and responses.
use vstd::prelude::*;
use vstd::string::{StringExecFns, StringSliceAdditionalSpecFns};
use vstd::utf8::{encode_utf8, encode_utf8_decode_utf8, encode_utf8_valid_utf8, is_ascii_chars, is_ascii_chars_encode_utf8};
use crate::bencode::{
    BToken, TokenView, bencode_tokens, bytes_at, decimal, dict_at, find_entry, list_at, lookup, read_bytes, read_dict, read_list, read_text,
    read_u64, text_at, token_views, utf8_text, tokens_of, tokenizes, u64_at, ranges_view, lemma_tokens_of, bendy_tokens,
};

verus! {

/// A peer endpoint as the tracker lists it.
pub struct Peer {
    pub ip: String,
    pub port: u16,
}

/// A tracker response: the re-announce interval and the peers.
pub struct PeerList {
    pub interval: u64,
    pub peers: Vec<Peer>,
}

/// Why an announce failed.
#[derive(Debug)]
pub enum TrackerError {
    /// The request did not reach the tracker or no response came back.
    TrackerUnreachable,
    /// The response is not a bencoded dictionary with `interval` and `peers`.
    TrackerMalformedResponse,
    /// The tracker answered with a `failure reason`.
    TrackerFailure(String),
}

/// A peer as a value: its address text and port.
pub type PeerView = (Seq<char>, u16);

/// The peer dictionary spanning tokens `s..e`: an `ip` string and a `port`
/// in 1..=65535; other keys are ignored.
pub open spec fn peer_at(ts: Seq<TokenView>, s: int, e: int) -> Option<PeerView> {
    match dict_at(ts, s, e) {
        Some(en) => {
            let ip = text_at(ts, lookup(en, "ip".spec_bytes()));
            let port = u64_at(ts, lookup(en, "port".spec_bytes()));
            if ip is Some && port is Some && 1 <= port->0 <= 65535 {
                Some((ip->0, port->0 as u16))
            } else {
                None
            }
        },
        None => None,
    }
}

/// The peers of a dictionary-form peer list spanning tokens `s..e`.
pub open spec fn peers_at(ts: Seq<TokenView>, s: int, e: int) -> Option<Seq<PeerView>> {
    match list_at(ts, s, e) {
        Some(items) => if forall|k: int| 0 <= k < items.len() ==> (#[trigger] peer_at(ts, items[k].0, items[k].1)) is Some {
            Some(Seq::new(items.len(), |k: int| peer_at(ts, items[k].0, items[k].1)->0))
        } else {
            None
        },
        None => None,
    }
}

/// A compact peer record: four address bytes and a big-endian port.
pub open spec fn compact_peer(rec: Seq<u8>) -> PeerView {
    (decimal_text(rec[0] as u64) + seq!['.'] + decimal_text(rec[1] as u64) + seq!['.']
        + decimal_text(rec[2] as u64) + seq!['.'] + decimal_text(rec[3] as u64),
     (rec[4] as int * 256 + rec[5] as int) as u16)
}

/// The peers of a compact peer string: 6-byte records, each with a port
/// other than zero.
pub open spec fn compact_peers(b: Seq<u8>) -> Option<Seq<PeerView>> {
    if b.len() % 6 == 0 && forall|k: int| 0 <= k < b.len() / 6 ==> #[trigger] compact_peer(b.subrange(6 * k, 6 * k + 6)).1 != 0 {
        Some(Seq::new(b.len() / 6, |k: int| compact_peer(b.subrange(6 * k, 6 * k + 6))))
    } else {
        None
    }
}

/// The peers of the `peers` value spanning tokens `s..e`, in either form.
pub open spec fn any_peers_at(ts: Seq<TokenView>, s: int, e: int) -> Option<Seq<PeerView>> {
    match bytes_at(ts, Some((s, e))) {
        Some(b) => compact_peers(b),
        None => peers_at(ts, s, e),
    }
}

/// A tracker response as a value: the interval and the peers, the text of
/// a failure reason, or `None` for a malformed response.
pub enum ResponseView {
    Peers(u64, Seq<PeerView>),
    Failure(Seq<char>),
    Malformed,
}

/// What the tracker response token stream `ts` says: a `failure reason`
/// string wins; otherwise `interval` and `peers`, as a list of
/// dictionaries or a compact string, are required.
pub open spec fn response_spec(ts: Seq<TokenView>) -> ResponseView {
    match dict_at(ts, 0, ts.len() as int) {
        Some(en) => match lookup(en, "failure reason".spec_bytes()) {
            Some(r) => match text_at(ts, Some(r)) {
                Some(t) => ResponseView::Failure(t),
                None => ResponseView::Malformed,
            },
            None => {
                let interval = u64_at(ts, lookup(en, "interval".spec_bytes()));
                match lookup(en, "peers".spec_bytes()) {
                    Some((s, e)) => match (interval, any_peers_at(ts, s, e)) {
                        (Some(i), Some(p)) => ResponseView::Peers(i, p),
                        _ => ResponseView::Malformed,
                    },
                    None => ResponseView::Malformed,
                }
            },
        },
        None => ResponseView::Malformed,
    }
}

impl Peer {
    pub open spec fn view_peer(&self) -> PeerView {
        (self.ip@, self.port)
    }

    /// Decodes the peer dictionary spanning tokens `s..e`.
    pub fn from_tokens(ts: &Vec<BToken>, s: usize, e: usize) -> (r: Option<Peer>)
        ensures
            match r {
                Some(p) => peer_at(token_views(ts@), s as int, e as int) == Some(p.view_peer()),
                None => peer_at(token_views(ts@), s as int, e as int) is None,
            },
    {
        let entries = match read_dict(ts, s, e) {
            Some(en) => en,
            None => {
                return None;
            },
        };
        let ip = read_text(ts, find_entry(&entries, "ip".as_bytes()));
        let port = read_u64(ts, find_entry(&entries, "port".as_bytes()));
        match (ip, port) {
            (Some(ip), Some(port)) => {
                if 1 <= port && port <= 65535 {
                    Some(Peer { ip, port: port as u16 })
                } else {
                    None
                }
            },
            _ => None,
        }
    }
}

pub open spec fn peers_view(p: Seq<Peer>) -> Seq<PeerView> {
    p.map_values(|x: Peer| x.view_peer())
}

impl PeerList {
    /// Decodes a tracker response from its token stream.
    pub fn from_tokens(ts: &Vec<BToken>) -> (r: Result<PeerList, TrackerError>)
        ensures
            match (r, response_spec(token_views(ts@))) {
                (Ok(l), ResponseView::Peers(i, p)) => l.interval == i && peers_view(l.peers@) == p,
                (Err(TrackerError::TrackerFailure(t)), ResponseView::Failure(u)) => t@ == u,
                (Err(TrackerError::TrackerMalformedResponse), ResponseView::Malformed) => true,
                _ => false,
            },
    {
        let entries = match read_dict(ts, 0, ts.len()) {
            Some(en) => en,
            None => {
                return Err(TrackerError::TrackerMalformedResponse);
            },
        };
        let failure = find_entry(&entries, "failure reason".as_bytes());
        if failure.is_some() {
            return match read_text(ts, failure) {
                Some(t) => Err(TrackerError::TrackerFailure(t)),
                None => Err(TrackerError::TrackerMalformedResponse),
            };
        }
        let interval = match read_u64(ts, find_entry(&entries, "interval".as_bytes())) {
            Some(i) => i,
            None => {
                return Err(TrackerError::TrackerMalformedResponse);
            },
        };
        let (s, e) = match find_entry(&entries, "peers".as_bytes()) {
            Some(range) => range,
            None => {
                return Err(TrackerError::TrackerMalformedResponse);
            },
        };
        match read_bytes(ts, Some((s, e))) {
            Some(b) => {
                return match compact_peers_of(b.as_slice()) {
                    Some(peers) => Ok(PeerList { interval, peers }),
                    None => Err(TrackerError::TrackerMalformedResponse),
                };
            },
            None => {},
        }
        let items = match read_list(ts, s, e) {
            Some(items) => items,
            None => {
                return Err(TrackerError::TrackerMalformedResponse);
            },
        };
        let ghost iv = ranges_view(items@);
        assert(bytes_at(token_views(ts@), Some((s as int, e as int))) is None);
        assert(response_spec(token_views(ts@)) == match peers_at(token_views(ts@), s as int, e as int) {
            Some(p) => ResponseView::Peers(interval, p),
            None => ResponseView::Malformed,
        });
        let mut peers: Vec<Peer> = Vec::new();
        let mut k: usize = 0;
        while k < items.len()
            invariant
                k <= items@.len(),
                iv == ranges_view(items@),
                list_at(token_views(ts@), s as int, e as int) == Some(iv),
                response_spec(token_views(ts@)) == match peers_at(token_views(ts@), s as int, e as int) {
                    Some(p) => ResponseView::Peers(interval, p),
                    None => ResponseView::Malformed,
                },
                peers@.len() == k,
                forall|j: int| 0 <= j < k ==> peer_at(token_views(ts@), iv[j].0, iv[j].1) == Some(#[trigger] peers@[j].view_peer()),
            decreases items.len() - k,
        {
            let (ps, pe) = items[k];
            match Peer::from_tokens(ts, ps, pe) {
                Some(p) => {
                    peers.push(p);
                },
                None => {
                    assert(peer_at(token_views(ts@), iv[k as int].0, iv[k as int].1) is None);
                    return Err(TrackerError::TrackerMalformedResponse);
                },
            }
            k += 1;
        }
        assert forall|j: int| 0 <= j < iv.len() implies (#[trigger] peer_at(token_views(ts@), iv[j].0, iv[j].1)) is Some by {
            assert(peer_at(token_views(ts@), iv[j].0, iv[j].1) == Some(peers@[j].view_peer()));
        }
        assert(peers_view(peers@) =~= Seq::new(iv.len(), |j: int| peer_at(token_views(ts@), iv[j].0, iv[j].1)->0));
        Ok(PeerList { interval, peers })
    }

    /// Decodes a tracker response body: a body the tokenizer refuses is
    /// malformed; otherwise the result is what its tokens say.
    pub fn from_bencode(b: &[u8]) -> (r: Result<PeerList, TrackerError>)
        ensures
            bendy_tokens(b@) is None ==> r matches Err(TrackerError::TrackerMalformedResponse),
            bendy_tokens(b@) matches Some(ts) ==> ts == tokens_of(b@) && tokenizes(b@, ts) && match (r, response_spec(ts)) {
                (Ok(l), ResponseView::Peers(i, p)) => l.interval == i && peers_view(l.peers@) == p,
                (Err(TrackerError::TrackerFailure(t)), ResponseView::Failure(u)) => t@ == u,
                (Err(TrackerError::TrackerMalformedResponse), ResponseView::Malformed) => true,
                _ => false,
            },
    {
        match bencode_tokens(b) {
            Some(ts) => {
                proof {
                    lemma_tokens_of(b@, token_views(ts@));
                }
                PeerList::from_tokens(&ts)
            },
            None => Err(TrackerError::TrackerMalformedResponse),
        }
    }
}

/// The port advertised to the tracker.
pub const LISTENING_PORT: u16 = 8000;

/// The announce event.
#[derive(Debug, PartialEq, Eq, Structural, Clone, Copy)]
pub enum Event {
    Started,
    Stopped,
    Completed,
}

pub open spec fn event_text(e: Event) -> Seq<char> {
    match e {
        Event::Started => "started"@,
        Event::Stopped => "stopped"@,
        Event::Completed => "completed"@,
    }
}

impl Event {
    /// The lower-case name sent as the `event` parameter.
    pub fn as_str(&self) -> (r: &'static str)
        ensures
            r@ == event_text(*self),
    {
        match self {
            Event::Started => "started",
            Event::Stopped => "stopped",
            Event::Completed => "completed",
        }
    }
}

/// The parameters of an announce request.
pub struct AnnounceURL {
    pub url: String,
    pub peer_id: String,
    pub port: u16,
    pub uploaded: u64,
    pub downloaded: u64,
    pub left: u64,
    pub event: Event,
}

/// Bytes that may stand unescaped in a URL: ASCII letters, digits and `-._~`.
pub open spec fn unreserved(b: u8) -> bool {
    (48 <= b <= 57) || (65 <= b <= 90) || (97 <= b <= 122) || b == 45 || b == 46 || b == 95 || b == 126
}

/// An upper-case hexadecimal digit, as an ASCII byte.
pub open spec fn hex_digit(n: u8) -> u8 {
    if n < 10 {
        (48 + n) as u8
    } else {
        (55 + n) as u8
    }
}

/// One byte, percent-encoded.
pub open spec fn percent_encoded_byte(b: u8) -> Seq<u8> {
    if unreserved(b) {
        seq![b]
    } else {
        seq![37u8, hex_digit(b / 16), hex_digit(b % 16)]
    }
}

/// A byte string, percent-encoded byte by byte.
pub open spec fn percent_encoded(bs: Seq<u8>) -> Seq<u8>
    decreases bs.len(),
{
    if bs.len() == 0 {
        Seq::empty()
    } else {
        percent_encoded(bs.drop_last()) + percent_encoded_byte(bs.last())
    }
}

/// ASCII bytes read as characters.
pub open spec fn ascii_text(bs: Seq<u8>) -> Seq<char> {
    bs.map_values(|b: u8| b as char)
}

/// The text of ASCII bytes.
pub fn ascii_string(bs: &Vec<u8>) -> (r: String)
    requires
        forall|i: int| 0 <= i < bs@.len() ==> #[trigger] bs@[i] < 128,
    ensures
        r@ == ascii_text(bs@),
{
    let ghost chars = ascii_text(bs@);
    proof {
        assert(is_ascii_chars(chars));
        is_ascii_chars_encode_utf8(chars);
        assert(encode_utf8(chars) =~= bs@);
        encode_utf8_valid_utf8(chars);
        encode_utf8_decode_utf8(chars);
    }
    match utf8_text(bs.as_slice()) {
        Some(t) => t,
        None => String::new(),
    }
}

/// Percent-encodes `b`: unreserved bytes stay, every other byte becomes `%`
/// and two upper-case hex digits.
pub fn url_encode(b: &[u8]) -> (r: String)
    ensures
        r@ == ascii_text(percent_encoded(b@)),
{
    let mut out: Vec<u8> = Vec::new();
    let mut i: usize = 0;
    while i < b.len()
        invariant
            i <= b@.len(),
            out@ == percent_encoded(b@.take(i as int)),
            forall|k: int| 0 <= k < out@.len() ==> #[trigger] out@[k] < 128,
        decreases b.len() - i,
    {
        let c = b[i];
        assert(b@.take(i + 1).drop_last() =~= b@.take(i as int));
        let ghost before = out@;
        if (48 <= c && c <= 57) || (65 <= c && c <= 90) || (97 <= c && c <= 122) || c == 45 || c == 46 || c == 95 || c == 126 {
            out.push(c);
        } else {
            let hi = c / 16;
            let lo = c % 16;
            out.push(37u8);
            out.push(if hi < 10 { 48 + hi } else { 55 + hi });
            out.push(if lo < 10 { 48 + lo } else { 55 + lo });
        }
        assert(out@ =~= before + percent_encoded_byte(c));
        i += 1;
    }
    assert(b@.take(i as int) =~= b@);
    ascii_string(&out)
}

/// The decimal text of `n`.
pub open spec fn decimal_text(n: u64) -> Seq<char> {
    decimal(n as nat).map_values(|d: u8| d as char)
}

/// Relies on std's `Display` for `u64`: the canonical decimal digits.
#[verifier::external_body]
fn u64_text(n: u64) -> (r: String)
    ensures
        r@ == decimal_text(n),
{
    n.to_string()
}

/// A query string `?k1=v1&k2=v2...`; empty when there are no parameters.
pub open spec fn query_of(params: Seq<(Seq<char>, Seq<char>)>) -> Seq<char>
    decreases params.len(),
{
    if params.len() == 0 {
        Seq::empty()
    } else {
        let (k, v) = params.last();
        let sep = if params.len() == 1 { '?' } else { '&' };
        query_of(params.drop_last()) + seq![sep] + k + seq!['='] + v
    }
}

pub open spec fn params_view(params: Seq<(&str, String)>) -> Seq<(Seq<char>, Seq<char>)> {
    params.map_values(|p: (&str, String)| (p.0@, p.1@))
}

/// Joins key-value pairs into a query string.
pub fn parse_query(params: &[(&str, String)]) -> (r: String)
    ensures
        r@ == query_of(params_view(params@)),
{
    let mut query_string = String::new();
    let mut i: usize = 0;
    while i < params.len()
        invariant
            i <= params@.len(),
            query_string@ == query_of(params_view(params@.take(i as int))),
        decreases params.len() - i,
    {
        let (k, v) = &params[i];
        let sep = if i == 0 { "?" } else { "&" };
        proof {
            reveal_strlit("?");
            reveal_strlit("&");
            reveal_strlit("=");
            assert(params_view(params@.take(i + 1)).drop_last() =~= params_view(params@.take(i as int)));
        }
        query_string = query_string.concat(sep);
        query_string = query_string.concat(*k);
        query_string = query_string.concat("=");
        query_string = query_string.concat(v.as_str());
        i += 1;
        assert(query_string@ =~= query_of(params_view(params@.take(i as int))));
    }
    assert(params@.take(i as int) =~= params@);
    query_string
}

impl AnnounceURL {
    /// A `started` announce on the listening port with nothing transferred yet.
    pub fn new(url: String, peer_id: String, left: u64) -> (r: AnnounceURL)
        ensures
            r.url == url,
            r.peer_id == peer_id,
            r.left == left,
            r.port == LISTENING_PORT,
            r.uploaded == 0 && r.downloaded == 0,
            r.event == Event::Started,
    {
        AnnounceURL { url, peer_id, port: LISTENING_PORT, uploaded: 0, downloaded: 0, left, event: Event::Started }
    }

    /// The parameters of the request, in the order they are sent.
    pub open spec fn query_params(&self, info_hash: Seq<u8>) -> Seq<(Seq<char>, Seq<char>)> {
        seq![
            ("info_hash"@, ascii_text(percent_encoded(info_hash))),
            ("peer_id"@, ascii_text(percent_encoded(encode_utf8(self.peer_id@)))),
            ("port"@, decimal_text(self.port as u64)),
            ("uploaded"@, decimal_text(self.uploaded)),
            ("downloaded"@, decimal_text(self.downloaded)),
            ("left"@, decimal_text(self.left)),
            ("event"@, event_text(self.event)),
        ]
    }

    /// The full announce URL for the torrent `info_hash`.
    pub fn request_url(&self, info_hash: &[u8]) -> (r: String)
        ensures
            r@ == self.url@ + query_of(self.query_params(info_hash@)),
    {
        let params = vec![
            ("info_hash", url_encode(info_hash)),
            ("peer_id", url_encode(self.peer_id.as_str().as_bytes())),
            ("port", u64_text(self.port as u64)),
            ("uploaded", u64_text(self.uploaded)),
            ("downloaded", u64_text(self.downloaded)),
            ("left", u64_text(self.left)),
            ("event", String::from_str(self.event.as_str())),
        ];
        let query = parse_query(params.as_slice());
        assert(params_view(params@) =~= self.query_params(info_hash@));
        self.url.clone().concat(query.as_str())
    }
}

/// Decodes a compact peer string.
pub fn compact_peers_of(b: &[u8]) -> (r: Option<Vec<Peer>>)
    ensures
        match r {
            Some(p) => compact_peers(b@) == Some(peers_view(p@)),
            None => compact_peers(b@) is None,
        },
{
    if b.len() % 6 != 0 {
        return None;
    }
    let n = b.len() / 6;
    let mut peers: Vec<Peer> = Vec::new();
    let mut k: usize = 0;
    while k < n
        invariant
            k <= n,
            n == b@.len() / 6,
            b@.len() % 6 == 0,
            b@.len() <= usize::MAX,
            peers@.len() == k,
            forall|j: int| 0 <= j < k ==> (#[trigger] peers@[j]).view_peer() == compact_peer(b@.subrange(6 * j, 6 * j + 6))
                && peers@[j].port != 0,
        decreases n - k,
    {
        assert(6 * k + 6 <= b@.len()) by (nonlinear_arith)
            requires
                k < n,
                n == b@.len() / 6,
        ;
        let at = 6 * k;
        let rec = crate::bytes::copy_range(b, at, at + 6);
        let port = (rec[4] as u16) * 256 + rec[5] as u16;
        if port == 0 {
            assert(compact_peer(b@.subrange(6 * k, 6 * k + 6)).1 == 0);
            return None;
        }
        let ip = u64_text(rec[0] as u64).concat(".").concat(u64_text(rec[1] as u64).as_str()).concat(".")
            .concat(u64_text(rec[2] as u64).as_str()).concat(".").concat(u64_text(rec[3] as u64).as_str());
        proof {
            reveal_strlit(".");
        }
        peers.push(Peer { ip, port });
        assert(peers@[k as int].view_peer() =~= compact_peer(b@.subrange(6 * k, 6 * k + 6)));
        k += 1;
    }
    assert forall|j: int| 0 <= j < b@.len() / 6 implies #[trigger] compact_peer(b@.subrange(6 * j, 6 * j + 6)).1 != 0 by {
        assert(peers@[j].view_peer() == compact_peer(b@.subrange(6 * j, 6 * j + 6)));
    }
    assert(peers_view(peers@) =~= Seq::new(b@.len() / 6, |j: int| compact_peer(b@.subrange(6 * j, 6 * j + 6))));
    Some(peers)
}

} // verus!
