//! The per-peer session rules: how each received message changes the
//! connection flags and the shared piece state, and which messages go out
//! in reply. The caller performs the I/O and hands each message in.
use vstd::prelude::*;
use crate::bitfield::{bit_at, bytes_for, set_bit, test_bit, zeroed};
use crate::bytes::{be32, copy_range, from_be32, read_be32, lemma_be32_round_trip};
use crate::metainfo::{TorrentMetadata, piece_count, sha1_digest, sha1_of};
use crate::queue::TorrentState;
use crate::wire::{Message, MessageId, MAX_BLOCK_LEN, MAX_MESSAGE_LENGTH};

verus! {

/// Requests kept in flight to one peer.
pub const PIPELINE_DEPTH: usize = 5;

/// The size of a requested block.
pub const BLOCK_SIZE: u64 = 16384;

/// Sessions run at most this many at once.
pub const MAX_PEERS: usize = 100;

/// How many sessions to start for a peer list of `peers` entries.
pub fn connection_count(peers: usize) -> (r: usize)
    ensures
        r == if peers < MAX_PEERS { peers } else { MAX_PEERS },
{
    if peers < MAX_PEERS { peers } else { MAX_PEERS }
}

/// Seconds of silence after which a keep-alive goes out, or after which a
/// silent peer is dropped.
pub const IDLE_LIMIT_SECS: u64 = 120;

/// What an idle connection does.
#[derive(Debug, PartialEq, Eq, Structural, Clone, Copy)]
pub enum IdleAction {
    Wait,
    SendKeepAlive,
    Drop,
}

/// The idle rule: drop a peer silent for `IDLE_LIMIT_SECS`; otherwise send
/// a keep-alive when we have been silent that long.
pub fn idle_action(secs_since_sent: u64, secs_since_received: u64) -> (r: IdleAction)
    ensures
        r == if secs_since_received >= IDLE_LIMIT_SECS {
            IdleAction::Drop
        } else if secs_since_sent >= IDLE_LIMIT_SECS {
            IdleAction::SendKeepAlive
        } else {
            IdleAction::Wait
        },
{
    if secs_since_received >= IDLE_LIMIT_SECS {
        IdleAction::Drop
    } else if secs_since_sent >= IDLE_LIMIT_SECS {
        IdleAction::SendKeepAlive
    } else {
        IdleAction::Wait
    }
}

/// The `bitfield` to send right after the handshake: our bitfield when we
/// hold at least one piece (and it fits a frame), else nothing.
pub fn opening_bitfield(state: &TorrentState) -> (r: Option<Message>)
    requires
        state.wf(),
    ensures
        r is Some <==> (exists|i: int| #[trigger] state.has(i)) && state.bitfield@.len() + 1 <= MAX_MESSAGE_LENGTH,
        r matches Some(m) ==> m@ == Some((5u8, state.bitfield@)),
{
    if state.bitfield.len() >= MAX_MESSAGE_LENGTH as usize {
        return None;
    }
    let mut i: usize = 0;
    while i < state.num_pieces
        invariant
            state.wf(),
            state.bitfield@.len() + 1 <= MAX_MESSAGE_LENGTH,
            i <= state.num_pieces,
            forall|j: int| 0 <= j < i ==> !#[trigger] state.has(j),
        decreases state.num_pieces - i,
    {
        if state.check_piece(i) {
            return Some(Message::bitfield(&state.bitfield));
        }
        i += 1;
    }
    None
}

/// Whether `digest` is the hash listed for piece `index`.
pub fn digest_matches(digest: &[u8], info: &TorrentMetadata, index: usize) -> (r: bool)
    requires
        (index + 1) * 20 <= info.pieces@.len(),
    ensures
        r == (digest@ == info.pieces@.subrange(index * 20, index * 20 + 20)),
{
    if digest.len() != 20 {
        return false;
    }
    assert(index * 20 + 20 == (index + 1) * 20) by (nonlinear_arith);
    assert(info.pieces@.len() == info.pieces.len());
    let base: usize = index * 20;
    let mut k: usize = 0;
    while k < 20
        invariant
            k <= 20,
            digest@.len() == 20,
            base == index * 20,
            base + 20 <= info.pieces@.len() <= usize::MAX,
            forall|j: int| 0 <= j < k ==> digest@[j] == #[trigger] info.pieces@[base + j],
        decreases 20 - k,
    {
        if digest[k] != info.pieces[base + k] {
            assert(digest@[k as int] != info.pieces@.subrange(index * 20, index * 20 + 20)[k as int]);
            return false;
        }
        k += 1;
    }
    assert forall|j: int| 0 <= j < 20 implies digest@[j] == #[trigger] info.pieces@.subrange(index * 20, index * 20 + 20)[j] by {
        assert(digest@[j] == info.pieces@[base + j]);
    }
    assert(digest@ =~= info.pieces@.subrange(index * 20, index * 20 + 20));
    true
}

/// Whether the SHA-1 of `data` is the hash listed for piece `index`.
pub fn verify_piece(data: &[u8], info: &TorrentMetadata, index: usize) -> (r: bool)
    requires
        (index + 1) * 20 <= info.pieces@.len(),
    ensures
        r == (sha1_of(data@) == info.pieces@.subrange(index * 20, index * 20 + 20)),
{
    let digest = sha1_digest(data);
    digest_matches(digest.as_slice(), info, index)
}

/// `bits` cut or zero-extended to the bytes that hold `n` bits; the first
/// `n` bits are kept.
pub fn fit_bits(bits: &Vec<u8>, n: usize) -> (r: Vec<u8>)
    requires
        n + 7 <= usize::MAX,
    ensures
        r@.len() == bytes_for(n as nat),
        forall|i: int| 0 <= i < n ==> #[trigger] bit_at(r@, i) == bit_at(bits@, i),
{
    let len: usize = (n + 7) / 8;
    let take: usize = if bits.len() < len { bits.len() } else { len };
    let mut r = copy_range(bits.as_slice(), 0, take);
    while r.len() < len
        invariant
            take <= r@.len() <= len,
            take <= bits@.len(),
            forall|k: int| 0 <= k < take ==> r@[k] == bits@[k],
            forall|k: int| take <= k < r@.len() ==> r@[k] == 0u8,
        decreases len - r.len(),
    {
        r.push(0u8);
    }
    assert forall|i: int| 0 <= i < n implies #[trigger] bit_at(r@, i) == bit_at(bits@, i) by {
        assert(i / 8 < len);
        if i / 8 >= take {
            crate::bitfield::lemma_zero_byte((i % 8) as u8);
        }
    }
    r
}

/// A block asked of the peer and not yet received.
#[derive(Debug, PartialEq, Eq, Structural, Clone, Copy)]
pub struct BlockRequest {
    pub index: u32,
    pub begin: u32,
    pub length: u32,
}

/// What the caller does after a message was handled.
#[derive(Debug)]
pub enum SessionAction {
    /// Send this message to the peer.
    Send(Message),
    /// Write a received block at `begin` within piece `index`.
    StoreBlock { index: u32, begin: u32, block: Vec<u8> },
    /// Read `length` bytes at `begin` within the held piece `index` and send
    /// them as a `piece` message.
    ServeBlock { index: u32, begin: u32, length: u32 },
    /// Every block of piece `index` has arrived: check its hash and report
    /// with `piece_checked`.
    CheckPiece(usize),
}

/// The big-endian number at `p[k..k + 4]`.
pub open spec fn be32_at(p: Seq<u8>, k: int) -> u32 {
    from_be32(p.subrange(k, k + 4))
}

/// The action sends `interested`.
pub open spec fn sends_interested(a: SessionAction) -> bool {
    a matches SessionAction::Send(m) && m@ == Some((2u8, Seq::<u8>::empty()))
}

/// The action writes `block` at `begin` within piece `index`.
pub open spec fn stores(a: SessionAction, index: u32, begin: u32, block: Seq<u8>) -> bool {
    a matches SessionAction::StoreBlock { index: i, begin: b, block: v } && i == index && b == begin && v@ == block
}

/// The action sends `have(index)`.
pub open spec fn sends_have(a: SessionAction, index: u32) -> bool {
    a matches SessionAction::Send(m) && m@ == Some((4u8, be32(index)))
}

/// The action sends a `request`.
pub open spec fn is_request(a: SessionAction) -> bool {
    a matches SessionAction::Send(m) && m.id == Some(MessageId::Request)
}

/// Why a session ends.
#[derive(Debug, PartialEq, Eq, Structural)]
pub enum SessionError {
    /// A `bitfield` after the first message.
    LateBitfield,
    /// A payload of the wrong size for its id.
    BadPayload,
}

/// The size of piece `i`: the piece length, or what is left for the last piece.
pub open spec fn piece_size(length: u64, piece_length: u64, i: int) -> int {
    let rest = length - i * piece_length;
    if rest < piece_length { rest } else { piece_length as int }
}

/// The request that a `piece` payload answers.
pub open spec fn piece_request(p: Seq<u8>) -> BlockRequest {
    BlockRequest { index: be32_at(p, 0), begin: be32_at(p, 4), length: (p.len() - 8) as u32 }
}

/// The action asks for a block of piece `index` of at most `BLOCK_SIZE` bytes.
pub open spec fn requests_block_of(a: SessionAction, index: int) -> bool {
    a matches SessionAction::Send(m) && m.id == Some(MessageId::Request) && m.payload@.len() == 12
        && be32_at(m.payload@, 0) == index && 0 < be32_at(m.payload@, 8) <= BLOCK_SIZE
}

/// A piece that exists starts inside the file.
pub proof fn lemma_piece_start(length: u64, piece_length: u64, i: int)
    requires
        piece_length > 0,
        0 <= i < piece_count(length, piece_length),
    ensures
        i * piece_length < length,
{
    let q = (length + piece_length - 1) / piece_length as int;
    assert(q * piece_length <= length + piece_length - 1) by (nonlinear_arith)
        requires
            piece_length > 0,
            q == (length + piece_length - 1) / piece_length as int,
    ;
    assert(i + 1 <= q);
    assert((i + 1) * piece_length <= q * piece_length) by (nonlinear_arith)
        requires
            i + 1 <= q,
            piece_length > 0,
    ;
    assert((i + 1) * piece_length == i * piece_length + piece_length) by (nonlinear_arith);
}

/// One connection's state.
pub struct PeerSession {
    pub am_choking: bool,
    pub am_interested: bool,
    pub peer_choking: bool,
    pub peer_interested: bool,
    /// The pieces the peer announced, one bit per piece.
    pub remote: Vec<u8>,
    /// Some message after the handshake has been handled.
    pub started: bool,
    pub outstanding: Vec<BlockRequest>,
    /// The piece this session has reserved, if any.
    pub current: Option<usize>,
    /// The offset of the next block to request within `current`.
    pub next_offset: u64,
    /// The bytes of `current` received so far.
    pub received: u64,
}

impl PeerSession {
    /// A session right after the handshake for a torrent of `num_pieces`
    /// pieces: both sides choking, neither interested, the peer holding nothing.
    pub fn new(num_pieces: usize) -> (r: PeerSession)
        requires
            num_pieces + 7 <= usize::MAX,
        ensures
            r.am_choking && r.peer_choking && !r.am_interested && !r.peer_interested,
            !r.started,
            r.outstanding@.len() == 0,
            r.current is None,
            r.remote@.len() == bytes_for(num_pieces as nat),
            forall|i: int| !#[trigger] bit_at(r.remote@, i),
    {
        PeerSession {
            am_choking: true,
            am_interested: false,
            peer_choking: true,
            peer_interested: false,
            remote: zeroed(num_pieces),
            started: false,
            outstanding: Vec::new(),
            current: None,
            next_offset: 0,
            received: 0,
        }
    }

    pub open spec fn wf(&self, state: &TorrentState) -> bool {
        &&& self.remote@.len() == bytes_for(state.num_pieces as nat)
        &&& self.outstanding@.len() <= PIPELINE_DEPTH
        &&& self.current matches Some(i) ==> i < state.num_pieces && state.is_assigned(i as int)
        &&& self.current is None ==> self.outstanding@.len() == 0
    }

    /// Nothing more can be requested now: we are not interested, the peer
    /// chokes us, the pipeline is full, no piece can be reserved from this
    /// peer, or every block of the reserved piece has been asked for (or its
    /// index or offsets do not fit the wire).
    pub open spec fn pumped(&self, state: &TorrentState) -> bool {
        ||| !self.am_interested
        ||| self.peer_choking
        ||| self.outstanding@.len() >= PIPELINE_DEPTH
        ||| self.current is None && forall|j: int| !#[trigger] state.can_reserve(self.remote@, j)
        ||| self.current matches Some(i) && (i > u32::MAX || self.next_offset > u32::MAX
            || self.next_offset >= piece_size(state.info.info_data.length, state.info.info_data.piece_length, i as int))
    }

    /// Sends requests for the reserved piece, reserving one the peer has
    /// when there is none, while we are interested, the peer does not
    /// choke us, and fewer than `PIPELINE_DEPTH` requests are in flight.
    fn pump(&mut self, state: &mut TorrentState, out: &mut Vec<SessionAction>)
        requires
            old(state).wf(),
            old(self).wf(old(state)),
        ensures
            final(state).wf(),
            final(self).wf(final(state)),
            final(state).num_pieces == old(state).num_pieces,
            final(state).bitfield == old(state).bitfield,
            final(state).info == old(state).info,
            final(state).peers == old(state).peers,
            final(self).peer_choking == old(self).peer_choking,
            final(self).am_choking == old(self).am_choking,
            final(self).am_interested == old(self).am_interested,
            final(self).peer_interested == old(self).peer_interested,
            final(self).remote == old(self).remote,
            final(self).started == old(self).started,
            (old(self).peer_choking || !old(self).am_interested) ==> final(out)@ == old(out)@ && *final(self) == *old(self) && *final(state) == *old(state),
            final(out)@.len() >= old(out)@.len(),
            forall|k: int| 0 <= k < old(out)@.len() ==> final(out)@[k] == old(out)@[k],
            final(self).pumped(final(state)),
            final(out)@.len() > old(out)@.len() ==> (final(self).current matches Some(i) && forall|k: int|
                old(out)@.len() <= k < final(out)@.len() ==> #[trigger] requests_block_of(final(out)@[k], i as int)),
    {
        let piece_length = state.info.info_data.piece_length;
        let length = state.info.info_data.length;
        while self.am_interested && !self.peer_choking && self.outstanding.len() < PIPELINE_DEPTH
            invariant
                state.wf(),
                self.wf(state),
                piece_length == state.info.info_data.piece_length,
                length == state.info.info_data.length,
                piece_length > 0,
                state.num_pieces == old(state).num_pieces,
                state.bitfield == old(state).bitfield,
                state.info == old(state).info,
                state.peers == old(state).peers,
                self.peer_choking == old(self).peer_choking,
                self.am_choking == old(self).am_choking,
                self.am_interested == old(self).am_interested,
                self.peer_interested == old(self).peer_interested,
                self.remote == old(self).remote,
                self.started == old(self).started,
                (old(self).peer_choking || !old(self).am_interested) ==> out@ == old(out)@ && *self == *old(self) && *state == *old(state),
                out@.len() >= old(out)@.len(),
                forall|k: int| 0 <= k < old(out)@.len() ==> out@[k] == old(out)@[k],
                out@.len() > old(out)@.len() ==> (self.current matches Some(i) && forall|k: int|
                    old(out)@.len() <= k < out@.len() ==> #[trigger] requests_block_of(out@[k], i as int)),
            decreases PIPELINE_DEPTH - self.outstanding@.len(), if self.current is None { 1int } else { 0int },
        {
            match self.current {
                None => {
                    match state.reserve_next_piece_for(&self.remote) {
                        Some(i) => {
                            self.current = Some(i);
                            self.next_offset = 0;
                            self.received = 0;
                        },
                        None => {
                            return;
                        },
                    }
                },
                Some(i) => {
                    proof {
                        lemma_piece_start(length, piece_length, i as int);
                    }
                    let start = match (i as u64).checked_mul(piece_length) {
                        Some(v) => v,
                        None => {
                            return;
                        },
                    };
                    if start >= length || i > u32::MAX as usize {
                        return;
                    }
                    let rest = length - start;
                    let size = if rest < piece_length { rest } else { piece_length };
                    if self.next_offset >= size || self.next_offset > u32::MAX as u64 {
                        return;
                    }
                    let left = size - self.next_offset;
                    let len = if left < BLOCK_SIZE { left } else { BLOCK_SIZE };
                    let req = BlockRequest { index: i as u32, begin: self.next_offset as u32, length: len as u32 };
                    let m = Message::request(req.index, req.begin, req.length);
                    proof {
                        lemma_be32_round_trip(req.index);
                        lemma_be32_round_trip(req.length);
                        assert(m.payload@.subrange(0, 4) =~= be32(req.index));
                        assert(m.payload@.subrange(8, 12) =~= be32(req.length));
                    }
                    out.push(SessionAction::Send(m));
                    self.outstanding.push(req);
                    self.next_offset = self.next_offset + len;
                },
            }
        }
    }
    /// Whether the peer has a piece that is not held locally.
    pub fn wants_any(&self, state: &TorrentState) -> (r: bool)
        requires
            state.wf(),
        ensures
            r == exists|i: int| 0 <= i < state.num_pieces && #[trigger] bit_at(self.remote@, i) && !state.has(i),
    {
        let mut i: usize = 0;
        while i < state.num_pieces
            invariant
                state.wf(),
                i <= state.num_pieces,
                forall|j: int| 0 <= j < i ==> !(#[trigger] bit_at(self.remote@, j) && !state.has(j)),
            decreases state.num_pieces - i,
        {
            if test_bit(&self.remote, i) && !state.check_piece(i) {
                return true;
            }
            i += 1;
        }
        false
    }

    /// Removes the in-flight request equal to `req`, if any; says whether one was.
    fn take_request(&mut self, req: BlockRequest) -> (found: bool)
        ensures
            final(self).outstanding@.len() <= old(self).outstanding@.len(),
            found <==> old(self).outstanding@.contains(req),
            found ==> final(self).outstanding@.len() + 1 == old(self).outstanding@.len(),
            !found ==> final(self).outstanding@ == old(self).outstanding@,
            final(self).current == old(self).current,
            final(self).peer_choking == old(self).peer_choking,
            final(self).am_choking == old(self).am_choking,
            final(self).am_interested == old(self).am_interested,
            final(self).peer_interested == old(self).peer_interested,
            final(self).remote == old(self).remote,
            final(self).started == old(self).started,
            final(self).next_offset == old(self).next_offset,
            final(self).received == old(self).received,
    {
        let mut k: usize = 0;
        while k < self.outstanding.len()
            invariant
                k <= self.outstanding@.len(),
                self.outstanding == old(self).outstanding,
                self.current == old(self).current,
                self.peer_choking == old(self).peer_choking,
                self.am_choking == old(self).am_choking,
                self.am_interested == old(self).am_interested,
                self.peer_interested == old(self).peer_interested,
                self.remote == old(self).remote,
                self.started == old(self).started,
                self.next_offset == old(self).next_offset,
                self.received == old(self).received,
                forall|j: int| 0 <= j < k ==> self.outstanding@[j] != req,
            decreases self.outstanding.len() - k,
        {
            if self.outstanding[k] == req {
                self.outstanding.remove(k);
                return true;
            }
            k += 1;
        }
        false
    }

    /// Applies one message received from the peer and lists what to do in
    /// reply. A `choke` drops every request in flight and gives the reserved
    /// piece back; while the peer chokes us no `request` goes out.
    pub fn handle(&mut self, state: &mut TorrentState, msg: &Message) -> (r: Result<Vec<SessionAction>, SessionError>)
        requires
            old(state).wf(),
            old(self).wf(old(state)),
        ensures
            final(state).wf(),
            final(self).wf(final(state)),
            final(state).num_pieces == old(state).num_pieces,
            final(state).bitfield == old(state).bitfield,
            final(state).info == old(state).info,
            final(state).peers == old(state).peers,
            final(self).started,
            final(self).am_choking == old(self).am_choking,
            final(self).peer_choking ==> (r matches Ok(acts) ==> forall|k: int| 0 <= k < acts@.len() ==> !is_request(#[trigger] acts@[k])),
            msg.id == Some(MessageId::Choke) ==> {
                &&& r is Ok
                &&& final(self).peer_choking
                &&& final(self).outstanding@.len() == 0
                &&& final(self).current is None
                &&& old(self).current matches Some(i) ==> !final(state).is_assigned(i as int)
            },
            msg.id == Some(MessageId::Unchoke) ==> r is Ok && !final(self).peer_choking,
            (msg.id == Some(MessageId::Unchoke) || msg.id == Some(MessageId::Have) || msg.id == Some(MessageId::Bitfield))
                && r is Ok ==> final(self).pumped(final(state)),
            msg.id == Some(MessageId::Piece) && msg.payload@.len() >= 8 && msg.payload@.len() - 8 <= MAX_BLOCK_LEN
                && old(self).outstanding@.contains(piece_request(msg.payload@)) ==> {
                &&& final(self).pumped(final(state))
                &&& old(self).current matches Some(i) ==> (old(self).outstanding@.len() == 1
                    && old(self).received + (msg.payload@.len() - 8) == old(self).next_offset
                    && old(self).next_offset >= piece_size(old(state).info.info_data.length, old(state).info.info_data.piece_length, i as int)
                    ==> (r matches Ok(acts) && acts@.len() >= 1 && acts@.last() == SessionAction::CheckPiece(i)))
            },
            !(msg.id == Some(MessageId::Choke) || msg.id == Some(MessageId::Unchoke)) ==> final(self).peer_choking == old(self).peer_choking,
            msg.id == Some(MessageId::Interested) ==> r is Ok && final(self).peer_interested,
            msg.id == Some(MessageId::NotInterested) ==> r is Ok && !final(self).peer_interested,
            msg.id == Some(MessageId::Bitfield) && old(self).started ==> r == Err::<Vec<SessionAction>, SessionError>(SessionError::LateBitfield),
            msg.id == Some(MessageId::Bitfield) && !old(self).started ==> r is Ok && forall|i: int| 0 <= i < old(state).num_pieces ==>
                #[trigger] bit_at(final(self).remote@, i) == bit_at(msg.payload@, i),
            msg.id == Some(MessageId::Have) && msg.payload@.len() == 4 && be32_at(msg.payload@, 0) < old(state).num_pieces ==> {
                &&& r is Ok
                &&& bit_at(final(self).remote@, be32_at(msg.payload@, 0) as int)
                &&& !old(self).am_interested && !old(state).has(be32_at(msg.payload@, 0) as int) ==> {
                    &&& final(self).am_interested
                    &&& r matches Ok(acts) && acts@.len() >= 1 && sends_interested(acts@[0])
                }
            },
            (msg.id is None || msg.id == Some(MessageId::Interested) || msg.id == Some(MessageId::NotInterested)
                || msg.id == Some(MessageId::Choke)) ==> (r matches Ok(acts) && acts@.len() == 0),
            (msg.id is None || msg.id == Some(MessageId::Interested) || msg.id == Some(MessageId::NotInterested)
                || msg.id == Some(MessageId::Request)) ==> *final(state) == *old(state),
            msg.id == Some(MessageId::Have) && msg.payload@.len() != 4 ==> r == Err::<Vec<SessionAction>, SessionError>(SessionError::BadPayload),
            (msg.id == Some(MessageId::Request) || msg.id == Some(MessageId::Cancel)) && msg.payload@.len() != 12
                ==> r == Err::<Vec<SessionAction>, SessionError>(SessionError::BadPayload),
            msg.id == Some(MessageId::Piece) && msg.payload@.len() < 8 ==> r == Err::<Vec<SessionAction>, SessionError>(SessionError::BadPayload),
            msg.id == Some(MessageId::Request) && msg.payload@.len() == 12 ==> (r matches Ok(acts) && {
                let (index, begin, length) = (be32_at(msg.payload@, 0), be32_at(msg.payload@, 4), be32_at(msg.payload@, 8));
                let serve = old(state).has(index as int) && !old(self).am_choking && length <= MAX_BLOCK_LEN;
                &&& acts@.len() == if serve { 1int } else { 0int }
                &&& serve ==> acts@[0] == (SessionAction::ServeBlock { index, begin, length })
            }),
            msg.id == Some(MessageId::Piece) && msg.payload@.len() >= 8 ==> (r matches Ok(acts) && {
                let req = (BlockRequest { index: be32_at(msg.payload@, 0), begin: be32_at(msg.payload@, 4), length: (msg.payload@.len() - 8) as u32 });
                let taken = msg.payload@.len() - 8 <= MAX_BLOCK_LEN && old(self).outstanding@.contains(req);
                &&& taken ==> acts@.len() >= 1 && stores(acts@[0], req.index, req.begin, msg.payload@.subrange(8, msg.payload@.len() as int))
                &&& !taken ==> acts@.len() == 0 && *final(state) == *old(state) && final(self).outstanding@ == old(self).outstanding@
            }),
            msg.id == Some(MessageId::Cancel) && msg.payload@.len() == 12 ==> (r matches Ok(acts) && {
                let req = (BlockRequest { index: be32_at(msg.payload@, 0), begin: be32_at(msg.payload@, 4), length: be32_at(msg.payload@, 8) });
                &&& acts@.len() == 0
                &&& *final(state) == *old(state)
                &&& old(self).outstanding@.contains(req) ==> final(self).outstanding@.len() + 1 == old(self).outstanding@.len()
                &&& !old(self).outstanding@.contains(req) ==> final(self).outstanding@ == old(self).outstanding@
            }),
    {
        let mut out: Vec<SessionAction> = Vec::new();
        let was_started = self.started;
        self.started = true;
        match msg.id {
            None => {},
            Some(MessageId::Choke) => {
                self.peer_choking = true;
                self.outstanding = Vec::new();
                match self.current {
                    Some(i) => {
                        state.release_piece(i);
                    },
                    None => {},
                }
                self.current = None;
            },
            Some(MessageId::Unchoke) => {
                self.peer_choking = false;
                self.pump(state, &mut out);
            },
            Some(MessageId::Interested) => {
                self.peer_interested = true;
            },
            Some(MessageId::NotInterested) => {
                self.peer_interested = false;
            },
            Some(MessageId::Have) => {
                if msg.payload.len() != 4 {
                    return Err(SessionError::BadPayload);
                }
                let index = read_be32(msg.payload.as_slice(), 0);
                if (index as usize) < state.num_pieces {
                    set_bit(&mut self.remote, index as usize);
                    if !state.check_piece(index as usize) && !self.am_interested {
                        self.am_interested = true;
                        out.push(SessionAction::Send(Message::bare(MessageId::Interested)));
                    }
                }
                self.pump(state, &mut out);
            },
            Some(MessageId::Bitfield) => {
                if was_started {
                    return Err(SessionError::LateBitfield);
                }
                self.remote = fit_bits(&msg.payload, state.num_pieces);
                if !self.am_interested && self.wants_any(state) {
                    self.am_interested = true;
                    out.push(SessionAction::Send(Message::bare(MessageId::Interested)));
                }
                self.pump(state, &mut out);
            },
            Some(MessageId::Request) => {
                if msg.payload.len() != 12 {
                    return Err(SessionError::BadPayload);
                }
                let index = read_be32(msg.payload.as_slice(), 0);
                let begin = read_be32(msg.payload.as_slice(), 4);
                let length = read_be32(msg.payload.as_slice(), 8);
                if state.check_piece(index as usize) && !self.am_choking && length <= MAX_BLOCK_LEN {
                    out.push(SessionAction::ServeBlock { index, begin, length });
                }
            },
            Some(MessageId::Piece) => {
                if msg.payload.len() < 8 {
                    return Err(SessionError::BadPayload);
                }
                let index = read_be32(msg.payload.as_slice(), 0);
                let begin = read_be32(msg.payload.as_slice(), 4);
                let block_len = msg.payload.len() - 8;
                if block_len <= MAX_BLOCK_LEN as usize {
                    let req = BlockRequest { index, begin, length: block_len as u32 };
                    if self.take_request(req) {
                        let block = copy_range(msg.payload.as_slice(), 8, msg.payload.len());
                        out.push(SessionAction::StoreBlock { index, begin, block });
                        if self.received <= u64::MAX - block_len as u64 {
                            self.received = self.received + block_len as u64;
                        }
                        match self.current {
                            Some(i) => {
                                if self.outstanding.len() == 0 && self.received == self.next_offset
                                    && self.piece_fully_requested(state, i) {
                                    out.push(SessionAction::CheckPiece(i));
                                    return Ok(out);
                                }
                            },
                            None => {},
                        }
                        self.pump(state, &mut out);
                    }
                }
            },
            Some(MessageId::Cancel) => {
                if msg.payload.len() != 12 {
                    return Err(SessionError::BadPayload);
                }
                let index = read_be32(msg.payload.as_slice(), 0);
                let begin = read_be32(msg.payload.as_slice(), 4);
                let length = read_be32(msg.payload.as_slice(), 8);
                self.take_request(BlockRequest { index, begin, length });
            },
            Some(_) => {},
        }
        Ok(out)
    }

    /// Whether every block of piece `i` has been requested.
    fn piece_fully_requested(&self, state: &TorrentState, i: usize) -> (r: bool)
        requires
            state.wf(),
        ensures
            r == (self.next_offset as int >= piece_size(state.info.info_data.length, state.info.info_data.piece_length, i as int)),
    {
        let piece_length = state.info.info_data.piece_length;
        let length = state.info.info_data.length;
        match (i as u64).checked_mul(piece_length) {
            Some(start) => {
                if start >= length {
                    return true;
                }
                let rest = length - start;
                let size = if rest < piece_length { rest } else { piece_length };
                self.next_offset >= size
            },
            None => {
                assert(i * piece_length > u64::MAX);
                true
            },
        }
    }

    /// Reports the hash check of the reserved piece. On a match the piece
    /// is held, a `have` goes to every peer, and the session asks for more.
    /// On a mismatch the piece goes back to the pool and nothing is sent:
    /// this peer gets no new work until its next message.
    pub fn piece_checked(&mut self, state: &mut TorrentState, ok: bool) -> (r: Vec<SessionAction>)
        requires
            old(state).wf(),
            old(self).wf(old(state)),
        ensures
            final(state).wf(),
            final(self).wf(final(state)),
            final(state).num_pieces == old(state).num_pieces,
            final(self).peer_choking == old(self).peer_choking,
            final(self).peer_choking ==> forall|k: int| 0 <= k < r@.len() ==> !is_request(#[trigger] r@[k]),
            ok ==> final(self).pumped(final(state)),
            !ok ==> r@.len() == 0 && final(self).current is None && final(self).outstanding@.len() == 0,
            old(self).current matches Some(i) ==> {
                &&& ok ==> final(state).has(i as int)
                &&& ok && i <= u32::MAX ==> r@.len() >= 1 && sends_have(r@[0], i as u32)
                &&& !ok ==> final(state).has(i as int) == old(state).has(i as int) && !final(state).is_assigned(i as int)
            },
    {
        let mut out: Vec<SessionAction> = Vec::new();
        let ghost before = *state;
        match self.current {
            Some(i) => {
                if ok {
                    state.mark_piece_complete(i);
                    assert(state.has(i as int));
                    if i <= u32::MAX as usize {
                        out.push(SessionAction::Send(Message::have(i as u32)));
                    }
                } else {
                    state.release_piece(i);
                    self.current = None;
                    self.outstanding = Vec::new();
                    return out;
                }
                self.current = None;
                self.outstanding = Vec::new();
            },
            None => {
                if !ok {
                    self.outstanding = Vec::new();
                    return out;
                }
            },
        }
        let ghost mid = *state;
        assert(old(self).current matches Some(i) ==> mid.has(i as int));
        self.pump(state, &mut out);
        out
    }

    /// Gives the reserved piece back, as when the connection is dropped.
    pub fn release(&mut self, state: &mut TorrentState)
        requires
            old(state).wf(),
            old(self).wf(old(state)),
        ensures
            final(state).wf(),
            final(self).wf(final(state)),
            final(self).current is None,
            old(self).current matches Some(i) ==> !final(state).is_assigned(i as int),
    {
        match self.current {
            Some(i) => {
                state.release_piece(i);
            },
            None => {},
        }
        self.current = None;
        self.outstanding = Vec::new();
    }
}

} // verus!
