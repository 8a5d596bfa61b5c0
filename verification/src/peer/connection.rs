use vstd::prelude::*;
use vstd::slice::slice_to_vec;
use crate::bencode::order::bytes_eq;
use crate::error::{BittorrentError, peer_error};
use crate::peer::message::{MAX_MESSAGE_LENGTH, Message, PeerMessage};
use crate::peer::protocol::{Handshake, parse_handshake};
use crate::peer::state::PeerState;
use crate::peer::wire::{be_u32, take_u32};
use crate::piece::picker::{bit_set, has_piece_in_bitfield};

verus! {

/// Setting one bit of a byte sets that bit and no other.
pub proof fn lemma_set_bit(b: u8, k: usize, j: usize)
    requires
        k < 8,
        j < 8,
    ensures
        ((b | (1u8 << k)) >> j) & 1 == if j == k {
            1u8
        } else {
            (b >> j) & 1
        },
{
    assert(((b | (1u8 << k)) >> j) & 1 == if j == k {
        1u8
    } else {
        (b >> j) & 1
    }) by (bit_vector)
        requires
            k < 8,
            j < 8,
    ;
}

/// The flags after a message was sent: choke and unchoke set whether we
/// choke, interested and not-interested whether we are interested.
pub open spec fn after_sent(state: PeerState, message: Message) -> PeerState {
    match message {
        Message::Choke => PeerState { am_choking: true, ..state },
        Message::Unchoke => PeerState { am_choking: false, ..state },
        Message::Interested => PeerState { am_interested: true, ..state },
        Message::NotInterested => PeerState { am_interested: false, ..state },
        _ => state,
    }
}

/// The flags after a message was received: choke and unchoke set whether
/// the peer chokes, interested and not-interested whether it is
/// interested.
pub open spec fn after_received(state: PeerState, message: Message) -> PeerState {
    match message {
        Message::Choke => PeerState { peer_choking: true, ..state },
        Message::Unchoke => PeerState { peer_choking: false, ..state },
        Message::Interested => PeerState { peer_interested: true, ..state },
        Message::NotInterested => PeerState { peer_interested: false, ..state },
        _ => state,
    }
}

/// What a session knows about the other side of a connection.
pub struct PeerConnection {
    state: PeerState,
    peer_id: Option<[u8; 20]>,
    bitfield: Option<Vec<u8>>,
    piece_count: usize,
    /// Whether nothing has been received since the handshake.
    fresh: bool,
}

impl PeerConnection {
    pub closed spec fn spec_state(&self) -> PeerState {
        self.state
    }

    pub closed spec fn spec_peer_id(&self) -> Option<[u8; 20]> {
        self.peer_id
    }

    pub closed spec fn spec_bitfield(&self) -> Option<Seq<u8>> {
        match self.bitfield {
            Some(b) => Some(b@),
            None => None,
        }
    }

    pub closed spec fn spec_piece_count(&self) -> usize {
        self.piece_count
    }

    /// Whether nothing has been received since the handshake.
    pub closed spec fn fresh(&self) -> bool {
        self.fresh
    }

    /// Whether the peer is known to have piece `i`. Bits of a bitfield
    /// beyond the last piece say nothing.
    pub open spec fn peer_has(&self, i: usize) -> bool {
        &&& self.spec_bitfield() is Some
        &&& i < self.spec_piece_count()
        &&& bit_set(self.spec_bitfield()->Some_0, i)
    }

    /// The session after a handshake with the peer `peer_id`, for a torrent
    /// of `piece_count` pieces.
    pub fn new(peer_id: [u8; 20], piece_count: usize) -> (session: PeerConnection)
        ensures
            session.spec_state() == PeerState::initial(),
            session.spec_peer_id() == Some(peer_id),
            session.spec_bitfield() is None,
            session.spec_piece_count() == piece_count,
            session.fresh(),
    {
        PeerConnection {
            state: PeerState::default(),
            peer_id: Some(peer_id),
            bitfield: None,
            piece_count,
            fresh: true,
        }
    }

    /// Reads the handshake that the peer answered with and opens the
    /// session. A reply that is no handshake, or one for another
    /// info-hash, is refused.
    pub fn connect(reply: &[u8], info_hash: &[u8; 20], piece_count: usize) -> (r: Result<
        PeerConnection,
        BittorrentError,
    >)
        ensures
            match r {
                Ok(session) => {
                    &&& parse_handshake(reply@) matches Some((hash, id))
                    &&& hash == info_hash@
                    &&& session.spec_peer_id() matches Some(peer_id)
                    &&& peer_id@ == id
                    &&& session.spec_state() == PeerState::initial()
                    &&& session.spec_bitfield() is None
                    &&& session.spec_piece_count() == piece_count
                    &&& session.fresh()
                },
                Err(e) => {
                    &&& e is PeerError
                    &&& match parse_handshake(reply@) {
                        Some((hash, _)) => hash != info_hash@,
                        None => true,
                    }
                },
            },
    {
        let peer_handshake = match Handshake::from_bytes(reply) {
            Ok(h) => h,
            Err(e) => {
                return Err(e);
            },
        };
        if !bytes_eq(peer_handshake.info_hash.as_slice(), info_hash.as_slice()) {
            return Err(peer_error("Info hash mismatch"));
        }
        Ok(PeerConnection::new(peer_handshake.peer_id, piece_count))
    }

    /// Takes note of a message that was sent.
    pub fn send_message(&mut self, message: &PeerMessage)
        ensures
            final(self).spec_state() == after_sent(old(self).spec_state(), message@),
            final(self).spec_peer_id() == old(self).spec_peer_id(),
            final(self).spec_bitfield() == old(self).spec_bitfield(),
            final(self).spec_piece_count() == old(self).spec_piece_count(),
            final(self).fresh() == old(self).fresh(),
    {
        let state = self.state;
        match message {
            PeerMessage::Choke => {
                self.state = PeerState { am_choking: true, ..state };
            },
            PeerMessage::Unchoke => {
                self.state = PeerState { am_choking: false, ..state };
            },
            PeerMessage::Interested => {
                self.state = PeerState { am_interested: true, ..state };
            },
            PeerMessage::NotInterested => {
                self.state = PeerState { am_interested: false, ..state };
            },
            _ => {},
        }
    }

    /// Takes note of a message that was received.
    ///
    /// The four flag messages set the peer's flags. `have` marks the piece
    /// in the peer's bitfield. `bitfield` replaces the peer's bitfield, and
    /// is a protocol violation unless it is the first message after the
    /// handshake. After any message the session is no longer fresh.
    pub fn handle_message(&mut self, message: &PeerMessage) -> (r: Result<(), BittorrentError>)
        ensures
            final(self).spec_peer_id() == old(self).spec_peer_id(),
            final(self).spec_piece_count() == old(self).spec_piece_count(),
            !final(self).fresh(),
            match r {
                Ok(()) => {
                    &&& final(self).spec_state() == after_received(
                        old(self).spec_state(),
                        message@,
                    )
                    &&& match message@ {
                        Message::Bitfield { bitfield } => old(self).fresh() && final(self).spec_bitfield() == Some(bitfield),
                        Message::Have { piece_index } => forall|i: usize| #[trigger]
                            final(self).peer_has(i) == ((i == piece_index && i < old(self).spec_piece_count()) || old(self).peer_has(i)),
                        _ => final(self).spec_bitfield() == old(self).spec_bitfield(),
                    }
                },
                Err(e) => {
                    &&& e is PeerError
                    &&& message@ is Bitfield
                    &&& !old(self).fresh()
                    &&& final(self).spec_state() == old(self).spec_state()
                    &&& final(self).spec_bitfield() == old(self).spec_bitfield()
                },
            },
    {
        let was_fresh: bool = self.fresh;
        self.fresh = false;
        let state = self.state;
        match message {
            PeerMessage::Choke => {
                self.state = PeerState { peer_choking: true, ..state };
            },
            PeerMessage::Unchoke => {
                self.state = PeerState { peer_choking: false, ..state };
            },
            PeerMessage::Interested => {
                self.state = PeerState { peer_interested: true, ..state };
            },
            PeerMessage::NotInterested => {
                self.state = PeerState { peer_interested: false, ..state };
            },
            PeerMessage::Bitfield { bitfield } => {
                if !was_fresh {
                    return Err(peer_error("Bitfield after the first message"));
                }
                self.bitfield = Some(slice_to_vec(bitfield.as_slice()));
            },
            PeerMessage::Have { piece_index } => {
                let index: usize = *piece_index as usize;
                if index < self.piece_count {
                    let mut bits: Vec<u8> = match self.bitfield.take() {
                        Some(b) => b,
                        None => Vec::new(),
                    };
                    let ghost before = bits@;
                    let byte_index: usize = index / 8;
                    while bits.len() <= byte_index
                        invariant
                            before.len() <= bits@.len(),
                            forall|j: int| 0 <= j < before.len() ==> bits@[j] == before[j],
                            forall|j: int| before.len() <= j < bits@.len() ==> bits@[j] == 0,
                        decreases byte_index + 1 - bits.len(),
                    {
                        bits.push(0u8);
                    }
                    let ghost padded = bits@;
                    let bit_index: usize = 7 - (index % 8);
                    let byte: u8 = bits[byte_index];
                    bits.set(byte_index, byte | (1u8 << bit_index));
                    proof {
                        assert forall|i: usize| #[trigger]
                            bit_set(bits@, i) == (i == index || bit_set(before, i)) by {
                            let k: usize = (7 - i % 8) as usize;
                            if i / 8 < padded.len() {
                                if i / 8 == byte_index {
                                    lemma_set_bit(byte, bit_index, k);
                                }
                                if i / 8 >= before.len() {
                                    assert(padded[i as int / 8] == 0);
                                    assert((0u8 >> k) & 1 == 0) by (bit_vector);
                                }
                            }
                        }
                    }
                    self.bitfield = Some(bits);
                }
            },
            _ => {},
        }
        Ok(())
    }

    /// Check if peer has a specific piece
    pub fn has_piece(&self, piece_index: usize) -> (has: bool)
        ensures
            has == self.peer_has(piece_index),
    {
        match &self.bitfield {
            Some(bitfield) => piece_index < self.piece_count && has_piece_in_bitfield(
                bitfield.as_slice(),
                piece_index,
            ),
            None => false,
        }
    }

    /// Whether blocks may be asked for: the peer is not choking us.
    pub fn can_request(&self) -> (ok: bool)
        ensures
            ok == !self.spec_state().peer_choking,
    {
        !self.state.peer_choking
    }

    pub fn state(&self) -> (state: &PeerState)
        ensures
            *state == self.spec_state(),
    {
        &self.state
    }

    pub fn peer_id(&self) -> (id: Option<&[u8; 20]>)
        ensures
            match id {
                Some(id) => self.spec_peer_id() == Some(*id),
                None => self.spec_peer_id() is None,
            },
    {
        self.peer_id.as_ref()
    }

    /// The bitfield of the peer, as far as it is known.
    pub fn bitfield(&self) -> (bits: Option<&Vec<u8>>)
        ensures
            match bits {
                Some(b) => self.spec_bitfield() == Some(b@),
                None => self.spec_bitfield() is None,
            },
    {
        self.bitfield.as_ref()
    }
}

/// The length of the body that follows a length prefix of four bytes, or
/// nothing for a length above the limit.
pub open spec fn spec_frame_length(prefix: Seq<u8>) -> Option<usize> {
    if be_u32(prefix) <= MAX_MESSAGE_LENGTH {
        Some(be_u32(prefix) as usize)
    } else {
        None
    }
}

/// How many bytes of body to read after the length prefix of a frame. A
/// length above `MAX_MESSAGE_LENGTH` is refused.
pub fn frame_length(prefix: &[u8; 4]) -> (r: Result<usize, BittorrentError>)
    ensures
        match r {
            Ok(n) => spec_frame_length(prefix@) == Some(n),
            Err(e) => spec_frame_length(prefix@) is None && e is PeerError,
        },
{
    let (length, _) = take_u32(prefix.as_slice());
    if length > MAX_MESSAGE_LENGTH {
        return Err(peer_error("Message too long"));
    }
    Ok(length as usize)
}

} // verus!
