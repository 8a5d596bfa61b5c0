//! The announce schema: what is sent to a tracker and what comes back.

pub mod client;
pub mod peer;
pub mod request;
pub mod response;

pub use client::{announce_url, read_response};
pub use peer::{Peer, PeerHost};
pub use request::{TrackerEvent, TrackerRequest};
pub use response::TrackerResponse;

use vstd::prelude::*;
use crate::random::random_byte;

verus! {

/// What every peer id of this client starts with: `-RS0001-`.
pub open spec fn peer_id_prefix() -> Seq<u8> {
    seq![45u8, 82, 83, 48, 48, 48, 49, 45]
}

/// A fresh peer id: `-RS0001-`, then twelve random bytes between `0` and
/// `z`.
pub fn generate_peer_id() -> (peer_id: [u8; 20])
    ensures
        peer_id@.subrange(0, 8) == peer_id_prefix(),
        forall|i: int| 8 <= i < 20 ==> 48 <= #[trigger] peer_id@[i] <= 122,
{
    let mut peer_id: [u8; 20] = [0u8; 20];
    peer_id[0] = 45;
    peer_id[1] = 82;
    peer_id[2] = 83;
    peer_id[3] = 48;
    peer_id[4] = 48;
    peer_id[5] = 48;
    peer_id[6] = 49;
    peer_id[7] = 45;
    let mut i: usize = 8;
    while i < 20
        invariant
            8 <= i <= 20,
            peer_id@.subrange(0, 8) =~= peer_id_prefix(),
            forall|j: int| 8 <= j < i ==> 48 <= #[trigger] peer_id@[j] <= 122,
        decreases 20 - i,
    {
        let byte = random_byte(48, 122);
        peer_id[i] = byte;
        i += 1;
    }
    peer_id
}

} // verus!
