use vstd::prelude::*;
use crate::error::{BittorrentError, invalid_torrent};
use crate::peer::protocol::array20;

verus! {

/// The SHA-1 digest that a piece must have: twenty bytes.
#[derive(Debug, Clone, Copy, PartialEq, Eq, Hash)]
pub struct PieceHash(pub [u8; 20]);

impl View for PieceHash {
    type V = Seq<u8>;

    open spec fn view(&self) -> Seq<u8> {
        self.0@
    }
}

impl PieceHash {
    pub fn new(hash: [u8; 20]) -> (h: PieceHash)
        ensures
            h@ == hash@,
    {
        PieceHash(hash)
    }

    /// The hash held in `slice`, which must have exactly twenty bytes.
    pub fn from_slice(slice: &[u8]) -> (r: Result<PieceHash, BittorrentError>)
        ensures
            match r {
                Ok(h) => slice@.len() == 20 && h@ == slice@,
                Err(e) => slice@.len() != 20 && e is InvalidTorrent,
            },
    {
        if slice.len() != 20 {
            return Err(invalid_torrent("Piece hash must be 20 bytes"));
        }
        let hash = array20(slice, 0);
        assert(slice@.subrange(0, 20) =~= slice@);
        Ok(PieceHash(hash))
    }

    pub fn as_bytes(&self) -> (bytes: &[u8; 20])
        ensures
            bytes@ == self@,
    {
        &self.0
    }
}

/// The expected hashes of all pieces, in piece order.
#[derive(Debug, Clone)]
pub struct Pieces {
    hashes: Vec<PieceHash>,
}

/// The hashes that a blob of concatenated digests holds: twenty bytes each.
pub open spec fn split_hashes(data: Seq<u8>) -> Seq<Seq<u8>> {
    Seq::new((data.len() / 20) as nat, |i: int| data.subrange(20 * i, 20 * i + 20))
}

impl View for Pieces {
    type V = Seq<Seq<u8>>;

    closed spec fn view(&self) -> Seq<Seq<u8>> {
        Seq::new(self.hashes@.len(), |i: int| self.hashes@[i]@)
    }
}

impl Pieces {
    /// Splits concatenated SHA-1 digests into piece hashes. The length of
    /// `data` must be a multiple of twenty.
    pub fn from_bytes(data: &[u8]) -> (r: Result<Pieces, BittorrentError>)
        ensures
            match r {
                Ok(p) => data@.len() % 20 == 0 && p@ == split_hashes(data@),
                Err(e) => data@.len() % 20 != 0 && e is InvalidTorrent,
            },
    {
        if data.len() % 20 != 0 {
            return Err(invalid_torrent("Pieces length must be multiple of 20"));
        }
        let count: usize = data.len() / 20;
        let mut hashes: Vec<PieceHash> = Vec::new();
        let mut i: usize = 0;
        while i < count
            invariant
                i <= count,
                count == data@.len() / 20,
                20 * count == data.len(),
                hashes@.len() == i,
                forall|j: int| 0 <= j < i ==> (#[trigger] hashes@[j])@ == data@.subrange(20 * j, 20 * j + 20),
            decreases count - i,
        {
            let hash = array20(data, 20 * i);
            hashes.push(PieceHash(hash));
            i += 1;
        }
        let pieces = Pieces { hashes };
        assert(pieces@ =~= split_hashes(data@));
        Ok(pieces)
    }

    /// The number of pieces.
    pub fn len(&self) -> (n: usize)
        ensures
            n == self@.len(),
    {
        self.hashes.len()
    }

    pub fn is_empty(&self) -> (empty: bool)
        ensures
            empty == (self@.len() == 0),
    {
        self.hashes.len() == 0
    }

    /// The hash of piece `index`, if there is such a piece.
    pub fn get(&self, index: usize) -> (r: Option<&PieceHash>)
        ensures
            match r {
                Some(h) => index < self@.len() && h@ == self@[index as int],
                None => index >= self@.len(),
            },
    {
        if index < self.hashes.len() {
            Some(&self.hashes[index])
        } else {
            None
        }
    }

    /// All hashes, in piece order.
    pub fn iter(&self) -> (hashes: &[PieceHash])
        ensures
            hashes@.len() == self@.len(),
            forall|i: int| 0 <= i < hashes@.len() ==> (#[trigger] hashes@[i])@ == self@[i],
    {
        self.hashes.as_slice()
    }
}

} // verus!
