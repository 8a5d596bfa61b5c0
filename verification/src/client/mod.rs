//! What the swarm driver decides: whom to connect to, and how the download
//! of one piece from one peer goes on after each message. The driver itself,
//! with its sockets and timers, lives outside this library.

pub mod download;

pub use download::{DownloadAction, DownloadFailure, DownloadStep};

use vstd::prelude::*;
use crate::torrent::metainfo::Metainfo;
use crate::tracker::request::{TrackerEvent, TrackerRequest};
use crate::tracker::{generate_peer_id, peer_id_prefix};

verus! {

/// Configuration for the BitTorrent client
pub struct ClientConfig {
    pub download_dir: String,
    pub listen_port: u16,
    pub max_peers: usize,
}

impl Default for ClientConfig {
    fn default() -> (config: ClientConfig)
        ensures
            config.download_dir@ == "./downloads"@,
            config.listen_port == 6881,
            config.max_peers == 50,
    {
        ClientConfig { download_dir: "./downloads".to_owned(), listen_port: 6881, max_peers: 50 }
    }
}

/// A client: its configuration and the peer id under which it is known for
/// the whole run.
pub struct TorrentClient {
    config: ClientConfig,
    peer_id: [u8; 20],
}

/// How many connections to aim for among `peer_count` peers: as many as
/// there are peers, but no more than `max_peers`.
pub open spec fn spec_max_connections(max_peers: usize, peer_count: usize) -> usize {
    if max_peers < peer_count {
        max_peers
    } else {
        peer_count
    }
}

/// How many peers to try at most: twice the connections aimed for, as far
/// as there are peers.
pub open spec fn spec_max_attempts(max_peers: usize, peer_count: usize) -> usize {
    if 2 * spec_max_connections(max_peers, peer_count) < peer_count {
        (2 * spec_max_connections(max_peers, peer_count)) as usize
    } else {
        peer_count
    }
}

impl TorrentClient {
    pub closed spec fn spec_config(&self) -> ClientConfig {
        self.config
    }

    pub closed spec fn spec_peer_id(&self) -> [u8; 20] {
        self.peer_id
    }

    /// A client with a fresh peer id.
    pub fn new(config: ClientConfig) -> (client: TorrentClient)
        ensures
            client.spec_config() == config,
            client.spec_peer_id()@.subrange(0, 8) == peer_id_prefix(),
            forall|i: int| 8 <= i < 20 ==> 48 <= #[trigger] client.spec_peer_id()@[i] <= 122,
    {
        let peer_id = generate_peer_id();
        TorrentClient { config, peer_id }
    }

    pub fn config(&self) -> (config: &ClientConfig)
        ensures
            *config == self.spec_config(),
    {
        &self.config
    }

    pub fn peer_id(&self) -> (peer_id: [u8; 20])
        ensures
            peer_id == self.spec_peer_id(),
    {
        self.peer_id
    }

    /// The request that announces the start of the download of `metainfo`:
    /// everything is still left.
    pub fn announce_request(&self, metainfo: &Metainfo) -> (request: TrackerRequest)
        ensures
            request.info_hash == metainfo.info_hash,
            request.peer_id == self.spec_peer_id(),
            request.port == self.spec_config().listen_port,
            request.uploaded == 0,
            request.downloaded == 0,
            request.left == metainfo.info.total_length,
            request.event == Some(TrackerEvent::Started),
            request.compact,
    {
        TrackerRequest::new(
            metainfo.info_hash,
            self.peer_id,
            self.config.listen_port,
            metainfo.info.total_length,
        )
    }

    /// How many connections to aim for and how many peers to try among
    /// `peer_count` peers.
    pub fn connection_plan(&self, peer_count: usize) -> (plan: (usize, usize))
        ensures
            plan.0 == spec_max_connections(self.spec_config().max_peers, peer_count),
            plan.1 == spec_max_attempts(self.spec_config().max_peers, peer_count),
    {
        let max_connections: usize = if self.config.max_peers < peer_count {
            self.config.max_peers
        } else {
            peer_count
        };
        let attempts: usize = if max_connections < peer_count - max_connections {
            2 * max_connections
        } else {
            peer_count
        };
        (max_connections, attempts)
    }
}

} // verus!
