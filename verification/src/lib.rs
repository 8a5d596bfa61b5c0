//! The core of a BitTorrent client: the bencode codec, the metainfo loader,
//! piece bookkeeping and selection, the storage layout, the peer wire codec
//! and the announce schema. Every function carries a contract that Verus
//! proves; the few calls into other crates are marked as trusted where they
//! stand.

pub mod bencode;
pub mod client;
pub mod error;
pub mod hash;
pub mod peer;
pub mod piece;
pub mod random;
pub mod storage;
pub mod text;
pub mod torrent;
pub mod tracker;
