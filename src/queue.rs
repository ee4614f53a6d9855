//! The download state shared by all peer sessions: the pieces held, the
//! pieces reserved by a session, and the per-peer connection flags.
use vstd::prelude::*;
use crate::bitfield::{bit_at, bytes_for, padding_clear, test_bit, set_bit, clear_bit, zeroed};
use crate::metainfo::{TorrentInfo, piece_count, pieces_for};
use crate::tracker::{Peer, PeerList};

verus! {

/// Choke and interest flags of one connection, with the remote endpoint.
pub struct PeerState {
    /// We refuse to serve this peer.
    pub am_choking: bool,
    /// We want pieces this peer has.
    pub am_interested: bool,
    /// The peer refuses to serve us.
    pub peer_choking: bool,
    /// The peer wants pieces we have.
    pub peer_interested: bool,
    pub peer_info: Peer,
}

impl PeerState {
    /// The state of a fresh connection: both sides choking, neither interested.
    pub fn new(peer_info: Peer) -> (r: PeerState)
        ensures
            r.am_choking && r.peer_choking,
            !r.am_interested && !r.peer_interested,
            r.peer_info == peer_info,
    {
        PeerState { am_choking: true, am_interested: false, peer_choking: true, peer_interested: false, peer_info }
    }
}

pub struct TorrentState {
    /// The pieces held locally, one bit per piece.
    pub bitfield: Vec<u8>,
    pub info: TorrentInfo,
    pub peers: Vec<PeerState>,
    /// `assigned[i]` holds while some session has reserved piece `i`.
    pub assigned: Vec<bool>,
    pub num_pieces: usize,
}

impl TorrentState {
    pub open spec fn wf(&self) -> bool {
        &&& self.bitfield.len() == bytes_for(self.num_pieces as nat)
        &&& padding_clear(self.bitfield@, self.num_pieces as nat)
        &&& self.assigned.len() == self.num_pieces
        &&& self.num_pieces + 7 <= usize::MAX
        &&& self.info.info_data.piece_length > 0
        &&& self.num_pieces == piece_count(self.info.info_data.length, self.info.info_data.piece_length)
    }

    /// Piece `i` is held locally.
    pub open spec fn has(&self, i: int) -> bool {
        0 <= i < self.num_pieces && bit_at(self.bitfield@, i)
    }

    /// Piece `i` is reserved by some session.
    pub open spec fn is_assigned(&self, i: int) -> bool {
        0 <= i < self.assigned.len() && self.assigned@[i]
    }

    /// Every piece is held.
    pub open spec fn complete(&self) -> bool {
        forall|i: int| 0 <= i < self.num_pieces ==> #[trigger] self.has(i)
    }

    /// A state with no piece held or reserved and every peer in its initial
    /// connection state.
    pub fn new(info: TorrentInfo, peer_list: &PeerList) -> (r: TorrentState)
        requires
            info.info_data.piece_length > 0,
            piece_count(info.info_data.length, info.info_data.piece_length) + 7 <= usize::MAX,
        ensures
            r.wf(),
            r.num_pieces == piece_count(info.info_data.length, info.info_data.piece_length),
            forall|i: int| !#[trigger] r.has(i),
            forall|i: int| !#[trigger] r.is_assigned(i),
            r.info == info,
            r.peers.len() == peer_list.peers.len(),
            forall|k: int| 0 <= k < r.peers.len() ==> {
                &&& (#[trigger] r.peers@[k]).peer_info == peer_list.peers@[k]
                &&& r.peers@[k].am_choking && r.peers@[k].peer_choking
                &&& !r.peers@[k].am_interested && !r.peers@[k].peer_interested
            },
    {
        let length = info.info_data.length;
        let piece_length = info.info_data.piece_length;
        let num = pieces_for(length, piece_length);
        let num_pieces = num as usize;

        let mut peers: Vec<PeerState> = Vec::new();
        let mut k: usize = 0;
        while k < peer_list.peers.len()
            invariant
                k <= peer_list.peers.len(),
                peers.len() == k,
                forall|j: int| 0 <= j < k ==> {
                    &&& (#[trigger] peers@[j]).peer_info == peer_list.peers@[j]
                    &&& peers@[j].am_choking && peers@[j].peer_choking
                    &&& !peers@[j].am_interested && !peers@[j].peer_interested
                },
            decreases peer_list.peers.len() - k,
        {
            let p = &peer_list.peers[k];
            let info_copy = Peer { ip: p.ip.clone(), port: p.port };
            peers.push(PeerState::new(info_copy));
            k += 1;
        }

        let mut assigned: Vec<bool> = Vec::with_capacity(num_pieces);
        while assigned.len() < num_pieces
            invariant
                assigned.len() <= num_pieces,
                forall|j: int| 0 <= j < assigned.len() ==> !assigned@[j],
            decreases num_pieces - assigned.len(),
        {
            assigned.push(false);
        }

        TorrentState { bitfield: zeroed(num_pieces), info, peers, assigned, num_pieces }
    }

    /// Whether piece `index` is held.
    pub fn check_piece(&self, index: usize) -> (r: bool)
        requires
            self.wf(),
        ensures
            r == self.has(index as int),
    {
        index < self.num_pieces && test_bit(&self.bitfield, index)
    }

    /// Marks piece `index` as held; an index past the last piece changes nothing.
    pub fn set_bitfield_on(&mut self, index: usize)
        requires
            old(self).wf(),
        ensures
            final(self).wf(),
            final(self).num_pieces == old(self).num_pieces,
            final(self).assigned == old(self).assigned,
            final(self).info == old(self).info,
            final(self).peers == old(self).peers,
            forall|i: int| #[trigger] final(self).has(i) == (old(self).has(i) || (i == index && index < old(self).num_pieces)),
    {
        if index < self.num_pieces {
            set_bit(&mut self.bitfield, index);
        }
    }

    /// Marks piece `index` as not held.
    pub fn set_bitfield_off(&mut self, index: usize)
        requires
            old(self).wf(),
        ensures
            final(self).wf(),
            final(self).num_pieces == old(self).num_pieces,
            final(self).assigned == old(self).assigned,
            final(self).info == old(self).info,
            final(self).peers == old(self).peers,
            forall|i: int| #[trigger] final(self).has(i) == (old(self).has(i) && i != index),
    {
        if index < self.num_pieces {
            clear_bit(&mut self.bitfield, index);
        }
    }

    /// The lowest piece not yet held, if any.
    pub fn get_next_required_piece(&self) -> (r: Option<usize>)
        requires
            self.wf(),
        ensures
            r matches Some(i) ==> i < self.num_pieces && !self.has(i as int) && forall|j: int| 0 <= j < i ==> #[trigger] self.has(j),
            r is None <==> self.complete(),
    {
        let mut i: usize = 0;
        while i < self.num_pieces
            invariant
                self.wf(),
                i <= self.num_pieces,
                forall|j: int| 0 <= j < i ==> #[trigger] self.has(j),
            decreases self.num_pieces - i,
        {
            if !self.check_piece(i) {
                return Some(i);
            }
            i += 1;
        }
        None
    }
    /// Records piece `index` as verified and held, and ends its reservation.
    pub fn mark_piece_complete(&mut self, index: usize)
        requires
            old(self).wf(),
            index < old(self).num_pieces,
        ensures
            final(self).wf(),
            final(self).num_pieces == old(self).num_pieces,
            final(self).info == old(self).info,
            final(self).peers == old(self).peers,
            forall|i: int| #[trigger] final(self).has(i) == (old(self).has(i) || i == index),
            forall|i: int| #[trigger] final(self).is_assigned(i) == (old(self).is_assigned(i) && i != index),
    {
        set_bit(&mut self.bitfield, index);
        self.assigned.set(index, false);
    }

    /// Ends the reservation of piece `index`, if any, so another session may take it.
    pub fn release_piece(&mut self, index: usize)
        requires
            old(self).wf(),
        ensures
            final(self).wf(),
            final(self).num_pieces == old(self).num_pieces,
            final(self).bitfield == old(self).bitfield,
            final(self).info == old(self).info,
            final(self).peers == old(self).peers,
            forall|i: int| #[trigger] final(self).is_assigned(i) == (old(self).is_assigned(i) && i != index),
    {
        if index < self.num_pieces {
            self.assigned.set(index, false);
        }
    }

    /// Piece `i` is one that a peer advertising `peer_bitfield` could serve
    /// and that nobody holds or has reserved.
    pub open spec fn can_reserve(&self, peer_bitfield: Seq<u8>, i: int) -> bool {
        &&& 0 <= i < self.num_pieces
        &&& !self.has(i)
        &&& !self.is_assigned(i)
        &&& bit_at(peer_bitfield, i)
    }

    /// Reserves the lowest piece that the peer has and that is neither held
    /// nor reserved; `None` when there is no such piece.
    pub fn reserve_next_piece_for(&mut self, peer_bitfield: &Vec<u8>) -> (r: Option<usize>)
        requires
            old(self).wf(),
        ensures
            final(self).wf(),
            final(self).num_pieces == old(self).num_pieces,
            final(self).bitfield == old(self).bitfield,
            final(self).info == old(self).info,
            final(self).peers == old(self).peers,
            match r {
                Some(i) => {
                    &&& old(self).can_reserve(peer_bitfield@, i as int)
                    &&& forall|j: int| 0 <= j < i ==> !#[trigger] old(self).can_reserve(peer_bitfield@, j)
                    &&& forall|j: int| #[trigger] final(self).is_assigned(j) == (old(self).is_assigned(j) || j == i)
                },
                None => {
                    &&& forall|j: int| !#[trigger] old(self).can_reserve(peer_bitfield@, j)
                    &&& final(self).assigned == old(self).assigned
                },
            },
    {
        let mut i: usize = 0;
        while i < self.num_pieces
            invariant
                self.wf(),
                i <= self.num_pieces,
                self.num_pieces == old(self).num_pieces,
                self.bitfield == old(self).bitfield,
                self.assigned == old(self).assigned,
                self.info == old(self).info,
                self.peers == old(self).peers,
                forall|j: int| 0 <= j < i ==> !#[trigger] self.can_reserve(peer_bitfield@, j),
            decreases self.num_pieces - i,
        {
            if !self.assigned[i] && !self.check_piece(i) && test_bit(peer_bitfield, i) {
                self.assigned.set(i, true);
                return Some(i);
            }
            i += 1;
        }
        None
    }

    /// A copy of the local bitfield, as sent in a `bitfield` message.
    pub fn snapshot_bitfield(&self) -> (r: Vec<u8>)
        requires
            self.wf(),
        ensures
            r@ == self.bitfield@,
    {
        self.bitfield.clone()
    }

    /// Whether every piece is held.
    pub fn is_complete(&self) -> (r: bool)
        requires
            self.wf(),
        ensures
            r == self.complete(),
    {
        self.get_next_required_piece().is_none()
    }
}

} // verus!
