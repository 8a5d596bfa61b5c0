//! The torrent descriptor: what a `.torrent` file says about the content,
//! and the info-hash that names it.

pub mod metainfo;
pub mod piece;

pub use metainfo::{parse_torrent, FileInfo, Metainfo, TorrentInfo};
pub use piece::{PieceHash, Pieces};
