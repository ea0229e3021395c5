//! A minimal BitTorrent client core: torrent metadata decoding, the info hash,
//! the tracker announce and its compact peer reply, and the peer handshake.

pub mod bencode;
pub mod peer;
pub mod text;
pub mod torrent;
pub mod tracker;
