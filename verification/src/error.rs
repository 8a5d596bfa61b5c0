use vstd::prelude::*;

verus! {

/// What can go wrong, by kind. Each variant carries a short text for people;
/// contracts speak of the kind only.
#[derive(Debug, Clone, PartialEq, Eq)]
pub enum BittorrentError {
    /// Malformed bencoding.
    BencodeError(String),
    /// Well-formed bencoding that is not a usable torrent descriptor.
    InvalidTorrent(String),
    /// The tracker reported a failure or sent a malformed response.
    TrackerError(String),
    /// Handshake failure or protocol violation on a peer connection.
    PeerError(String),
    /// Hash mismatch, block out of range or a piece in the wrong state.
    PieceError(String),
    /// A storage layout that cannot be addressed.
    StorageError(String),
    /// An announce URL that cannot be parsed.
    UrlParseError(String),
}

impl BittorrentError {
    /// The text carried by the error.
    pub fn message(&self) -> (text: &String)
        ensures
            *text == self.spec_message(),
    {
        match self {
            BittorrentError::BencodeError(s) => s,
            BittorrentError::InvalidTorrent(s) => s,
            BittorrentError::TrackerError(s) => s,
            BittorrentError::PeerError(s) => s,
            BittorrentError::PieceError(s) => s,
            BittorrentError::StorageError(s) => s,
            BittorrentError::UrlParseError(s) => s,
        }
    }

    pub open spec fn spec_message(&self) -> String {
        match self {
            BittorrentError::BencodeError(s) => *s,
            BittorrentError::InvalidTorrent(s) => *s,
            BittorrentError::TrackerError(s) => *s,
            BittorrentError::PeerError(s) => *s,
            BittorrentError::PieceError(s) => *s,
            BittorrentError::StorageError(s) => *s,
            BittorrentError::UrlParseError(s) => *s,
        }
    }
}

pub fn bencode_error(text: &str) -> (e: BittorrentError)
    ensures
        e is BencodeError,
        e.spec_message()@ == text@,
{
    BittorrentError::BencodeError(text.to_owned())
}

pub fn invalid_torrent(text: &str) -> (e: BittorrentError)
    ensures
        e is InvalidTorrent,
        e.spec_message()@ == text@,
{
    BittorrentError::InvalidTorrent(text.to_owned())
}

pub fn tracker_error(text: &str) -> (e: BittorrentError)
    ensures
        e is TrackerError,
        e.spec_message()@ == text@,
{
    BittorrentError::TrackerError(text.to_owned())
}

pub fn peer_error(text: &str) -> (e: BittorrentError)
    ensures
        e is PeerError,
        e.spec_message()@ == text@,
{
    BittorrentError::PeerError(text.to_owned())
}

pub fn piece_error(text: &str) -> (e: BittorrentError)
    ensures
        e is PieceError,
        e.spec_message()@ == text@,
{
    BittorrentError::PieceError(text.to_owned())
}

pub fn storage_error(text: &str) -> (e: BittorrentError)
    ensures
        e is StorageError,
        e.spec_message()@ == text@,
{
    BittorrentError::StorageError(text.to_owned())
}

} // verus!
