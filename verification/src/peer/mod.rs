//! The peer wire protocol: the handshake, the length-prefixed message
//! frames, and the state that a session keeps about the other side.

pub mod connection;
pub mod message;
pub mod protocol;
pub mod state;
pub mod wire;

pub use connection::PeerConnection;
pub use message::{BlockInfo, PeerMessage};
pub use protocol::{Handshake, PROTOCOL_STRING};
pub use state::PeerState;
