use vstd::prelude::*;
use vstd::slice::slice_subrange;

verus! {

/// Where a peer is to be reached: four address bytes from a compact list,
/// or the address as text from a list of dictionaries.
#[derive(Debug, Clone, PartialEq, Eq, Hash)]
pub enum PeerHost {
    V4(u8, u8, u8, u8),
    Text(String),
}

/// A peer in the swarm
#[derive(Debug, Clone, PartialEq, Eq, Hash)]
pub struct Peer {
    pub host: PeerHost,
    pub port: u16,
    pub peer_id: Option<Vec<u8>>,
}

/// The meaning of a `PeerHost`.
pub enum HostModel {
    V4(u8, u8, u8, u8),
    Text(Seq<char>),
}

/// The meaning of a `Peer`.
pub struct PeerModel {
    pub host: HostModel,
    pub port: u16,
    pub peer_id: Option<Seq<u8>>,
}

impl View for PeerHost {
    type V = HostModel;

    open spec fn view(&self) -> HostModel {
        match self {
            PeerHost::V4(a, b, c, d) => HostModel::V4(*a, *b, *c, *d),
            PeerHost::Text(t) => HostModel::Text(t@),
        }
    }
}

impl View for Peer {
    type V = PeerModel;

    open spec fn view(&self) -> PeerModel {
        PeerModel {
            host: self.host@,
            port: self.port,
            peer_id: match self.peer_id {
                Some(id) => Some(id@),
                None => None,
            },
        }
    }
}

pub open spec fn peers_view(peers: Seq<Peer>) -> Seq<PeerModel> {
    Seq::new(peers.len(), |i: int| peers[i]@)
}

/// The peer that six bytes of a compact list describe: four address
/// bytes, then the port, most significant byte first.
pub open spec fn compact_peer(b: Seq<u8>) -> PeerModel {
    PeerModel {
        host: HostModel::V4(b[0], b[1], b[2], b[3]),
        port: (b[4] * 256 + b[5]) as u16,
        peer_id: None,
    }
}

/// The peers of a compact list: one for every six bytes; a rest of fewer
/// than six bytes is passed over.
pub open spec fn compact_peers(data: Seq<u8>) -> Seq<PeerModel> {
    Seq::new((data.len() / 6) as nat, |i: int| compact_peer(data.subrange(6 * i, 6 * i + 6)))
}

impl Peer {
    pub fn new(host: PeerHost, port: u16) -> (peer: Peer)
        ensures
            peer.host == host,
            peer.port == port,
            peer.peer_id is None,
    {
        Peer { host, port, peer_id: None }
    }

    pub fn with_peer_id(host: PeerHost, port: u16, peer_id: Vec<u8>) -> (peer: Peer)
        ensures
            peer.host == host,
            peer.port == port,
            peer.peer_id == Some(peer_id),
    {
        Peer { host, port, peer_id: Some(peer_id) }
    }

    /// The peer in six bytes of compact form (4 address bytes, 2 port
    /// bytes).
    pub fn from_compact(data: &[u8]) -> (r: Option<Peer>)
        ensures
            match r {
                Some(peer) => data@.len() == 6 && peer@ == compact_peer(data@),
                None => data@.len() != 6,
            },
    {
        if data.len() != 6 {
            return None;
        }
        let port: u16 = (data[4] as u16) * 256 + data[5] as u16;
        Some(Peer::new(PeerHost::V4(data[0], data[1], data[2], data[3]), port))
    }

    /// The peers of a compact list.
    pub fn from_compact_list(data: &[u8]) -> (peers: Vec<Peer>)
        ensures
            peers_view(peers@) == compact_peers(data@),
    {
        let count: usize = data.len() / 6;
        let mut peers: Vec<Peer> = Vec::new();
        let mut i: usize = 0;
        while i < count
            invariant
                i <= count,
                count == data@.len() / 6,
                6 * count <= data.len(),
                peers@.len() == i,
                forall|j: int|
                    0 <= j < i ==> (#[trigger] peers@[j])@ == compact_peer(
                        data@.subrange(6 * j, 6 * j + 6),
                    ),
            decreases count - i,
        {
            match Peer::from_compact(slice_subrange(data, 6 * i, 6 * i + 6)) {
                Some(peer) => {
                    peers.push(peer);
                },
                None => {},
            }
            i += 1;
        }
        assert(peers_view(peers@) =~= compact_peers(data@));
        peers
    }
}

} // verus!
