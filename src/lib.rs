//! A BitTorrent leecher's protocol layer: metainfo decoding, tracker
//! announce, the peer wire codec, the shared piece state and the per-peer
//! session rules.
pub mod bencode;
pub mod bitfield;
pub mod bytes;
pub mod metainfo;
pub mod queue;
pub mod session;
pub mod tracker;
pub mod wire;
