use vstd::prelude::*;
use vstd::slice::slice_subrange;
use crate::bencode::order::bytes_eq;
use crate::error::{BittorrentError, peer_error};

verus! {

/// The protocol name that opens every handshake: `BitTorrent protocol`.
pub const PROTOCOL_STRING: [u8; 19] = [
    66, 105, 116, 84, 111, 114, 114, 101, 110, 116, 32, 112, 114, 111, 116, 111, 99, 111, 108,
];

/// The length of a handshake in bytes.
pub const HANDSHAKE_LENGTH: usize = 68;

/// The first message on a connection, in either direction.
/// Format: `<pstrlen><pstr><reserved><info_hash><peer_id>`
#[derive(Debug, Clone, PartialEq, Eq)]
pub struct Handshake {
    pub info_hash: [u8; 20],
    pub peer_id: [u8; 20],
}

/// The 68 bytes of a handshake: the length of the protocol name, the name,
/// eight reserved bytes of zero, the info-hash and the peer id.
pub open spec fn handshake_bytes(info_hash: Seq<u8>, peer_id: Seq<u8>) -> Seq<u8> {
    seq![19u8] + PROTOCOL_STRING@ + Seq::new(8, |i: int| 0u8) + info_hash + peer_id
}

/// The info-hash and the peer id of the handshake that the input starts
/// with. The reserved bytes are not looked at, nor what follows the
/// handshake.
pub open spec fn parse_handshake(d: Seq<u8>) -> Option<(Seq<u8>, Seq<u8>)> {
    if d.len() >= 68 && d[0] == 19 && d.subrange(1, 20) == PROTOCOL_STRING@ {
        Some((d.subrange(28, 48), d.subrange(48, 68)))
    } else {
        None
    }
}

/// A handshake is read back from its bytes as it was.
pub proof fn lemma_handshake_round_trip(info_hash: Seq<u8>, peer_id: Seq<u8>)
    requires
        info_hash.len() == 20,
        peer_id.len() == 20,
    ensures
        handshake_bytes(info_hash, peer_id).len() == 68,
        parse_handshake(handshake_bytes(info_hash, peer_id)) == Some((info_hash, peer_id)),
{
    let d = handshake_bytes(info_hash, peer_id);
    assert(d.subrange(1, 20) =~= PROTOCOL_STRING@);
    assert(d.subrange(28, 48) =~= info_hash);
    assert(d.subrange(48, 68) =~= peer_id);
}

/// Copies twenty bytes out of `data`, from `start` on.
pub fn array20(data: &[u8], start: usize) -> (out: [u8; 20])
    requires
        start + 20 <= data@.len(),
    ensures
        out@ == data@.subrange(start as int, start + 20),
{
    let mut out: [u8; 20] = [0u8; 20];
    let mut i: usize = 0;
    while i < 20
        invariant
            i <= 20,
            start + 20 <= data.len(),
            forall|j: int| 0 <= j < i ==> out@[j] == data@[start + j],
        decreases 20 - i,
    {
        out[i] = data[start + i];
        i += 1;
    }
    assert(out@ =~= data@.subrange(start as int, start + 20));
    out
}

impl Handshake {
    pub fn new(info_hash: [u8; 20], peer_id: [u8; 20]) -> (h: Handshake)
        ensures
            h.info_hash == info_hash,
            h.peer_id == peer_id,
    {
        Handshake { info_hash, peer_id }
    }

    /// The 68 bytes of the handshake.
    pub fn to_bytes(&self) -> (bytes: Vec<u8>)
        ensures
            bytes@ == handshake_bytes(self.info_hash@, self.peer_id@),
            bytes@.len() == 68,
    {
        let mut buf: Vec<u8> = Vec::with_capacity(68);
        buf.push(19u8);
        let name = PROTOCOL_STRING;
        let mut i: usize = 0;
        while i < 19
            invariant
                i <= 19,
                name@ == PROTOCOL_STRING@,
                buf@ == seq![19u8] + name@.subrange(0, i as int),
            decreases 19 - i,
        {
            buf.push(name[i]);
            assert(buf@ =~= seq![19u8] + name@.subrange(0, i + 1));
            i += 1;
        }
        let mut i: usize = 0;
        while i < 8
            invariant
                i <= 8,
                buf@ == seq![19u8] + PROTOCOL_STRING@ + Seq::new(i as nat, |j: int| 0u8),
            decreases 8 - i,
        {
            buf.push(0u8);
            assert(buf@ =~= seq![19u8] + PROTOCOL_STRING@ + Seq::new((i + 1) as nat, |j: int| 0u8));
            i += 1;
        }
        let mut i: usize = 0;
        while i < 20
            invariant
                i <= 20,
                buf@ == seq![19u8] + PROTOCOL_STRING@ + Seq::new(8, |j: int| 0u8)
                    + self.info_hash@.subrange(0, i as int),
            decreases 20 - i,
        {
            buf.push(self.info_hash[i]);
            assert(buf@ =~= seq![19u8] + PROTOCOL_STRING@ + Seq::new(8, |j: int| 0u8)
                + self.info_hash@.subrange(0, i + 1));
            i += 1;
        }
        let mut i: usize = 0;
        while i < 20
            invariant
                i <= 20,
                buf@ == seq![19u8] + PROTOCOL_STRING@ + Seq::new(8, |j: int| 0u8)
                    + self.info_hash@.subrange(0, 20) + self.peer_id@.subrange(0, i as int),
            decreases 20 - i,
        {
            buf.push(self.peer_id[i]);
            assert(buf@ =~= seq![19u8] + PROTOCOL_STRING@ + Seq::new(8, |j: int| 0u8)
                + self.info_hash@.subrange(0, 20) + self.peer_id@.subrange(0, i + 1));
            i += 1;
        }
        assert(self.info_hash@.subrange(0, 20) =~= self.info_hash@);
        assert(self.peer_id@.subrange(0, 20) =~= self.peer_id@);
        buf
    }

    /// Reads the handshake that `data` starts with.
    pub fn from_bytes(data: &[u8]) -> (r: Result<Handshake, BittorrentError>)
        ensures
            match r {
                Ok(h) => parse_handshake(data@) == Some((h.info_hash@, h.peer_id@)),
                Err(e) => parse_handshake(data@) is None && e is PeerError,
            },
    {
        if data.len() < 68 {
            return Err(peer_error("Handshake too short"));
        }
        if data[0] != 19 {
            return Err(peer_error("Invalid protocol string length"));
        }
        let name = PROTOCOL_STRING;
        if !bytes_eq(slice_subrange(data, 1, 20), name.as_slice()) {
            return Err(peer_error("Invalid protocol string"));
        }
        let info_hash = array20(data, 28);
        let peer_id = array20(data, 48);
        Ok(Handshake { info_hash, peer_id })
    }
}

} // verus!
