use vstd::prelude::*;

verus! {

/// The choke and interest flags of a connection.
#[derive(Debug, Clone, Copy, PartialEq, Eq, Structural)]
pub struct PeerState {
    /// Whether we are choking the peer
    pub am_choking: bool,
    /// Whether we are interested in the peer
    pub am_interested: bool,
    /// Whether the peer is choking us
    pub peer_choking: bool,
    /// Whether the peer is interested in us
    pub peer_interested: bool,
}

impl PeerState {
    /// The state of a fresh connection: both sides choking, neither
    /// interested.
    pub open spec fn initial() -> PeerState {
        PeerState {
            am_choking: true,
            am_interested: false,
            peer_choking: true,
            peer_interested: false,
        }
    }
}

impl Default for PeerState {
    fn default() -> (state: PeerState)
        ensures
            state == PeerState::initial(),
    {
        PeerState {
            am_choking: true,
            am_interested: false,
            peer_choking: true,
            peer_interested: false,
        }
    }
}

} // verus!
