use vstd::prelude::*;
use std::collections::HashMap;
use crate::error::{BittorrentError, piece_error};
use crate::hash::{sha1_digest, sha1_hash};
use crate::bencode::order::bytes_eq;
use crate::piece::{BLOCK_SIZE, PieceInfo, PieceState, count_state, lemma_count_state_update};
use crate::torrent::piece::Pieces;

verus! {

/// The length of piece `i` of `count` pieces: the piece length, but for the
/// last piece, which holds what is left of the total.
pub open spec fn piece_length_at(piece_length: u64, total_length: u64, count: int, i: int) -> u64 {
    if i == count - 1 && total_length % piece_length != 0 {
        (total_length % piece_length) as u64
    } else {
        piece_length
    }
}

/// The number of blocks in a piece of the given length.
pub open spec fn blocks_of(length: u64) -> int {
    (length + BLOCK_SIZE - 1) / (BLOCK_SIZE as int)
}

/// The blocks of a piece tile it: block `k` exists exactly when it starts
/// within the piece; every block but the last is whole; the last ends with
/// the piece, so a piece of a whole number of blocks has no short block and
/// any other piece has a short last one.
pub proof fn lemma_blocks_tile(length: u64, k: int)
    requires
        0 <= k,
    ensures
        k < blocks_of(length) <==> k * BLOCK_SIZE < length,
        k < blocks_of(length) - 1 ==> (k + 1) * BLOCK_SIZE <= length,
        length > 0 ==> (blocks_of(length) - 1) * BLOCK_SIZE < length <= blocks_of(length)
            * BLOCK_SIZE,
        length % (BLOCK_SIZE as u64) == 0 ==> blocks_of(length) * BLOCK_SIZE == length,
{
    let whole = length as int / 16384;
    assert(length == whole * 16384 + length as int % 16384);
    assert(BLOCK_SIZE == 16384);
}

/// `buffer` with `data` written over it from `offset` on.
pub open spec fn write_at(buffer: Seq<u8>, offset: int, data: Seq<u8>) -> Seq<u8> {
    Seq::new(
        buffer.len(),
        |i: int|
            if offset <= i < offset + data.len() {
                data[i - offset]
            } else {
                buffer[i]
            },
    )
}

/// The catalog of pieces and the buffers of those being downloaded.
pub struct PieceManager {
    piece_length: u64,
    total_length: u64,
    pieces: Vec<PieceInfo>,
    /// In-progress piece data
    downloading: HashMap<usize, Vec<u8>>,
    /// The bytes with which each complete piece was verified.
    verified: Ghost<Map<int, Seq<u8>>>,
}

impl PieceManager {
    /// The catalog.
    pub closed spec fn pieces(&self) -> Seq<PieceInfo> {
        self.pieces@
    }

    /// The assembly buffers, by piece index.
    pub closed spec fn buffers(&self) -> Map<usize, Seq<u8>> {
        self.downloading@.map_values(|v: Vec<u8>| v@)
    }

    /// The bytes with which each complete piece was verified.
    pub closed spec fn verified(&self) -> Map<int, Seq<u8>> {
        self.verified@
    }

    pub closed spec fn spec_piece_length(&self) -> u64 {
        self.piece_length
    }

    pub closed spec fn spec_total_length(&self) -> u64 {
        self.total_length
    }

    /// The states of the pieces, in piece order.
    pub open spec fn states(&self) -> Seq<PieceState> {
        Seq::new(self.pieces().len(), |i: int| self.pieces()[i].state)
    }

    /// What holds of every manager: each piece sits at its index; a piece has
    /// a buffer exactly while it is downloading, and the buffer has the length
    /// of the piece; a complete piece was verified with bytes whose SHA-1 is
    /// its expected hash.
    pub open spec fn wf(&self) -> bool {
        &&& forall|i: int| 0 <= i < self.pieces().len() ==> (#[trigger] self.pieces()[i]).index == i
        &&& forall|k: usize| #[trigger]
            self.buffers().contains_key(k) <==> (k < self.pieces().len() && self.pieces()[k as int].state
                == PieceState::Downloading)
        &&& forall|k: usize| #[trigger]
            self.buffers().contains_key(k) ==> self.buffers()[k].len() == self.pieces()[k as int].length
        &&& forall|i: int|
            0 <= i < self.pieces().len() && (#[trigger] self.pieces()[i]).state
                == PieceState::Complete ==> self.verified().contains_key(i) && sha1_hash(
                self.verified()[i],
            ) == self.pieces()[i].hash@
    }

    /// A catalog for `piece_hashes`, every piece missing.
    pub fn new(piece_length: u64, total_length: u64, piece_hashes: &Pieces) -> (manager:
        PieceManager)
        requires
            piece_length > 0,
        ensures
            manager.wf(),
            manager.spec_piece_length() == piece_length,
            manager.spec_total_length() == total_length,
            manager.pieces().len() == piece_hashes@.len(),
            manager.buffers() == Map::<usize, Seq<u8>>::empty(),
            forall|i: int|
                0 <= i < manager.pieces().len() ==> {
                    let piece = #[trigger] manager.pieces()[i];
                    &&& piece.state == PieceState::Missing
                    &&& piece.hash@ == piece_hashes@[i]
                    &&& piece.length == piece_length_at(
                        piece_length,
                        total_length,
                        piece_hashes@.len() as int,
                        i,
                    )
                },
    {
        let num_pieces = piece_hashes.len();
        let hashes = piece_hashes.iter();
        let mut pieces: Vec<PieceInfo> = Vec::new();
        let mut index: usize = 0;
        while index < num_pieces
            invariant
                index <= num_pieces,
                piece_length > 0,
                num_pieces == piece_hashes@.len(),
                hashes@.len() == num_pieces,
                forall|i: int| 0 <= i < hashes@.len() ==> (#[trigger] hashes@[i])@ == piece_hashes@[i],
                pieces@.len() == index,
                forall|i: int|
                    0 <= i < index ==> {
                        let piece = #[trigger] pieces@[i];
                        &&& piece.index == i
                        &&& piece.state == PieceState::Missing
                        &&& piece.hash@ == piece_hashes@[i]
                        &&& piece.length == piece_length_at(
                            piece_length,
                            total_length,
                            num_pieces as int,
                            i,
                        )
                    },
            decreases num_pieces - index,
        {
            let remainder: u64 = total_length % piece_length;
            let length: u64 = if index == num_pieces - 1 && remainder != 0 {
                remainder
            } else {
                piece_length
            };
            pieces.push(
                PieceInfo {
                    index,
                    length,
                    state: PieceState::Missing,
                    hash: *hashes[index].as_bytes(),
                },
            );
            index += 1;
        }
        let manager = PieceManager {
            piece_length,
            total_length,
            pieces,
            downloading: HashMap::new(),
            verified: Ghost(Map::empty()),
        };
        assert(manager.buffers() =~= Map::<usize, Seq<u8>>::empty());
        manager
    }

    /// Takes piece `piece_index` from missing to downloading and gives it a
    /// buffer of zeros of its length.
    pub fn start_piece(&mut self, piece_index: usize) -> (r: Result<(), BittorrentError>)
        requires
            old(self).wf(),
        ensures
            final(self).wf(),
            final(self).spec_piece_length() == old(self).spec_piece_length(),
            final(self).spec_total_length() == old(self).spec_total_length(),
            count_state(final(self).states(), PieceState::Complete) >= count_state(
                old(self).states(),
                PieceState::Complete,
            ),
            final(self).pieces().len() == old(self).pieces().len(),
            match r {
                Ok(()) => {
                    &&& piece_index < old(self).pieces().len()
                    &&& old(self).pieces()[piece_index as int].state == PieceState::Missing
                    &&& old(self).pieces()[piece_index as int].length <= usize::MAX
                    &&& final(self).states() == old(self).states().update(
                        piece_index as int,
                        PieceState::Downloading,
                    )
                    &&& final(self).buffers() == old(self).buffers().insert(
                        piece_index,
                        Seq::new(
                            old(self).pieces()[piece_index as int].length as nat,
                            |i: int| 0u8,
                        ),
                    )
                },
                Err(e) => {
                    &&& e is PieceError
                    &&& *final(self) == *old(self)
                    &&& (piece_index >= old(self).pieces().len() || old(self).pieces()[piece_index as int].state
                        != PieceState::Missing || old(self).pieces()[piece_index as int].length
                        > usize::MAX)
                },
            },
            forall|i: int|
                0 <= i < final(self).pieces().len() ==> {
                    &&& (#[trigger] final(self).pieces()[i]).length == old(self).pieces()[i].length
                    &&& final(self).pieces()[i].hash == old(self).pieces()[i].hash
                },
    {
        broadcast use vstd::std_specs::hash::group_hash_axioms;

        if piece_index >= self.pieces.len() {
            return Err(piece_error("Invalid piece index"));
        }
        if !(self.pieces[piece_index].state == PieceState::Missing) {
            return Err(piece_error("Piece already downloading or complete"));
        }
        let length: u64 = self.pieces[piece_index].length;
        if length > usize::MAX as u64 {
            return Err(piece_error("Piece too long for this machine"));
        }
        let hash = self.pieces[piece_index].hash;
        let mut buffer: Vec<u8> = Vec::new();
        let mut i: usize = 0;
        while i < length as usize
            invariant
                i <= length as usize,
                length <= usize::MAX,
                buffer@ == Seq::new(i as nat, |j: int| 0u8),
            decreases length as usize - i,
        {
            buffer.push(0u8);
            assert(buffer@ =~= Seq::new((i + 1) as nat, |j: int| 0u8));
            i += 1;
        }
        self.pieces.set(
            piece_index,
            PieceInfo { index: piece_index, length, state: PieceState::Downloading, hash },
        );
        self.downloading.insert(piece_index, buffer);
        assert(self.buffers() =~= old(self).buffers().insert(
            piece_index,
            Seq::new(length as nat, |i: int| 0u8),
        ));
        assert(self.states() =~= old(self).states().update(
            piece_index as int,
            PieceState::Downloading,
        ));
        proof {
            lemma_count_state_update(
                old(self).states(),
                piece_index as int,
                PieceState::Downloading,
                PieceState::Complete,
            );
        }
        Ok(())
    }

    /// Copies `data` into the buffer of piece `piece_index` at `offset`.
    pub fn add_block(&mut self, piece_index: usize, offset: u32, data: &[u8]) -> (r: Result<
        (),
        BittorrentError,
    >)
        requires
            old(self).wf(),
        ensures
            final(self).wf(),
            final(self).pieces() == old(self).pieces(),
            final(self).spec_piece_length() == old(self).spec_piece_length(),
            final(self).spec_total_length() == old(self).spec_total_length(),
            match r {
                Ok(()) => {
                    &&& old(self).buffers().contains_key(piece_index)
                    &&& offset + data@.len() <= old(self).buffers()[piece_index].len()
                    &&& final(self).buffers() == old(self).buffers().insert(
                        piece_index,
                        write_at(old(self).buffers()[piece_index], offset as int, data@),
                    )
                },
                Err(e) => {
                    &&& e is PieceError
                    &&& final(self).buffers() == old(self).buffers()
                    &&& (!old(self).buffers().contains_key(piece_index) || offset + data@.len()
                        > old(self).buffers()[piece_index].len())
                },
            },
    {
        broadcast use vstd::std_specs::hash::group_hash_axioms;

        let mut buffer: Vec<u8> = match self.downloading.remove(&piece_index) {
            Some(b) => b,
            None => {
                assert(self.buffers() =~= old(self).buffers());
                return Err(piece_error("Piece not being downloaded"));
            },
        };
        let ghost before = buffer@;
        assert(before == old(self).buffers()[piece_index]);
        let start: usize = offset as usize;
        if start > buffer.len() || data.len() > buffer.len() - start {
            self.downloading.insert(piece_index, buffer);
            assert(self.buffers() =~= old(self).buffers());
            return Err(piece_error("Block exceeds piece size"));
        }
        let mut i: usize = 0;
        while i < data.len()
            invariant
                i <= data.len(),
                buffer@.len() == before.len(),
                start + data.len() <= buffer.len(),
                forall|j: int|
                    0 <= j < buffer@.len() ==> buffer@[j] == if start <= j < start + i {
                        data@[j - start]
                    } else {
                        before[j]
                    },
            decreases data.len() - i,
        {
            buffer.set(start + i, data[i]);
            i += 1;
        }
        assert(buffer@ =~= write_at(before, offset as int, data@));
        self.downloading.insert(piece_index, buffer);
        assert(self.buffers() =~= old(self).buffers().insert(
            piece_index,
            write_at(before, offset as int, data@),
        ));
        Ok(())
    }

    /// Ends the download of piece `piece_index`, given the SHA-1 `digest` of
    /// its buffer: the piece is complete and its bytes are returned where the
    /// digest is the expected hash; otherwise it is missing again. Either
    /// way the buffer is gone.
    pub fn finish_piece(&mut self, piece_index: usize, digest: &[u8; 20]) -> (r: Result<
        Vec<u8>,
        BittorrentError,
    >)
        requires
            old(self).wf(),
            old(self).buffers().contains_key(piece_index) ==> digest@ == sha1_hash(
                old(self).buffers()[piece_index],
            ),
        ensures
            final(self).wf(),
            count_state(final(self).states(), PieceState::Complete) >= count_state(
                old(self).states(),
                PieceState::Complete,
            ),
            final(self).pieces().len() == old(self).pieces().len(),
            final(self).spec_piece_length() == old(self).spec_piece_length(),
            final(self).spec_total_length() == old(self).spec_total_length(),
            final(self).buffers() == old(self).buffers().remove(piece_index),
            match r {
                Ok(bytes) => {
                    &&& old(self).buffers().contains_key(piece_index)
                    &&& bytes@ == old(self).buffers()[piece_index]
                    &&& digest@ == old(self).pieces()[piece_index as int].hash@
                    &&& final(self).states() == old(self).states().update(
                        piece_index as int,
                        PieceState::Complete,
                    )
                },
                Err(e) => {
                    &&& e is PieceError
                    &&& if old(self).buffers().contains_key(piece_index) {
                        &&& digest@ != old(self).pieces()[piece_index as int].hash@
                        &&& final(self).states() == old(self).states().update(
                            piece_index as int,
                            PieceState::Missing,
                        )
                    } else {
                        final(self).states() == old(self).states()
                    }
                },
            },
            forall|i: int|
                0 <= i < final(self).pieces().len() ==> {
                    &&& (#[trigger] final(self).pieces()[i]).length == old(self).pieces()[i].length
                    &&& final(self).pieces()[i].hash == old(self).pieces()[i].hash
                },
    {
        broadcast use vstd::std_specs::hash::group_hash_axioms;

        let piece_data: Vec<u8> = match self.downloading.remove(&piece_index) {
            Some(b) => b,
            None => {
                assert(self.buffers() =~= old(self).buffers().remove(piece_index));
                assert(self.states() =~= old(self).states());
                return Err(piece_error("Piece not being downloaded"));
            },
        };
        assert(old(self).buffers().contains_key(piece_index));
        assert(piece_data@ == old(self).buffers()[piece_index]);
        assert(self.buffers() =~= old(self).buffers().remove(piece_index));
        let length: u64 = self.pieces[piece_index].length;
        let hash = self.pieces[piece_index].hash;
        if !bytes_eq(digest.as_slice(), hash.as_slice()) {
            self.pieces.set(
                piece_index,
                PieceInfo { index: piece_index, length, state: PieceState::Missing, hash },
            );
            assert(self.states() =~= old(self).states().update(
                piece_index as int,
                PieceState::Missing,
            ));
            proof {
                lemma_count_state_update(
                    old(self).states(),
                    piece_index as int,
                    PieceState::Missing,
                    PieceState::Complete,
                );
            }
            return Err(piece_error("Piece hash verification failed"));
        }
        self.pieces.set(
            piece_index,
            PieceInfo { index: piece_index, length, state: PieceState::Complete, hash },
        );
        proof {
            self.verified@ = self.verified@.insert(piece_index as int, piece_data@);
        }
        assert(self.states() =~= old(self).states().update(
            piece_index as int,
            PieceState::Complete,
        ));
        proof {
            lemma_count_state_update(
                old(self).states(),
                piece_index as int,
                PieceState::Complete,
                PieceState::Complete,
            );
        }
        Ok(piece_data)
    }

    /// Gives up the download of piece `piece_index`: a piece that is being
    /// downloaded is missing again and its buffer is gone; any other piece
    /// stays as it is.
    pub fn abort_piece(&mut self, piece_index: usize)
        requires
            old(self).wf(),
        ensures
            final(self).wf(),
            final(self).pieces().len() == old(self).pieces().len(),
            final(self).spec_piece_length() == old(self).spec_piece_length(),
            final(self).spec_total_length() == old(self).spec_total_length(),
            final(self).buffers() == old(self).buffers().remove(piece_index),
            final(self).states() == if old(self).buffers().contains_key(piece_index) {
                old(self).states().update(piece_index as int, PieceState::Missing)
            } else {
                old(self).states()
            },
            count_state(final(self).states(), PieceState::Complete) == count_state(
                old(self).states(),
                PieceState::Complete,
            ),
            forall|i: int|
                0 <= i < final(self).pieces().len() ==> {
                    &&& (#[trigger] final(self).pieces()[i]).length == old(self).pieces()[i].length
                    &&& final(self).pieces()[i].hash == old(self).pieces()[i].hash
                },
    {
        broadcast use vstd::std_specs::hash::group_hash_axioms;

        match self.downloading.remove(&piece_index) {
            Some(_) => {
                assert(old(self).buffers().contains_key(piece_index));
                assert(self.buffers() =~= old(self).buffers().remove(piece_index));
                let length: u64 = self.pieces[piece_index].length;
                let hash = self.pieces[piece_index].hash;
                self.pieces.set(
                    piece_index,
                    PieceInfo { index: piece_index, length, state: PieceState::Missing, hash },
                );
                assert(self.states() =~= old(self).states().update(
                    piece_index as int,
                    PieceState::Missing,
                ));
                proof {
                    lemma_count_state_update(
                        old(self).states(),
                        piece_index as int,
                        PieceState::Missing,
                        PieceState::Complete,
                    );
                }
            },
            None => {
                assert(self.buffers() =~= old(self).buffers().remove(piece_index));
                assert(self.states() =~= old(self).states());
            },
        }
    }

    /// Verifies piece `piece_index`: hashes its buffer and ends the download
    /// as `finish_piece` does.
    pub fn complete_piece(&mut self, piece_index: usize) -> (r: Result<Vec<u8>, BittorrentError>)
        requires
            old(self).wf(),
        ensures
            final(self).wf(),
            count_state(final(self).states(), PieceState::Complete) >= count_state(
                old(self).states(),
                PieceState::Complete,
            ),
            final(self).pieces().len() == old(self).pieces().len(),
            final(self).spec_piece_length() == old(self).spec_piece_length(),
            final(self).spec_total_length() == old(self).spec_total_length(),
            final(self).buffers() == old(self).buffers().remove(piece_index),
            match r {
                Ok(bytes) => {
                    &&& old(self).buffers().contains_key(piece_index)
                    &&& bytes@ == old(self).buffers()[piece_index]
                    &&& sha1_hash(bytes@) == old(self).pieces()[piece_index as int].hash@
                    &&& final(self).states() == old(self).states().update(
                        piece_index as int,
                        PieceState::Complete,
                    )
                },
                Err(e) => {
                    &&& e is PieceError
                    &&& if old(self).buffers().contains_key(piece_index) {
                        &&& sha1_hash(old(self).buffers()[piece_index]) != old(self).pieces()[piece_index as int].hash@
                        &&& final(self).states() == old(self).states().update(
                            piece_index as int,
                            PieceState::Missing,
                        )
                    } else {
                        final(self).states() == old(self).states()
                    }
                },
            },
            forall|i: int|
                0 <= i < final(self).pieces().len() ==> {
                    &&& (#[trigger] final(self).pieces()[i]).length == old(self).pieces()[i].length
                    &&& final(self).pieces()[i].hash == old(self).pieces()[i].hash
                },
    {
        broadcast use vstd::std_specs::hash::group_hash_axioms;

        let digest: [u8; 20] = match self.downloading.get(&piece_index) {
            Some(buffer) => sha1_digest(buffer.as_slice()),
            None => [0u8; 20],
        };
        self.finish_piece(piece_index, &digest)
    }

    /// The number of blocks in piece `piece_index`; none for a piece that
    /// does not exist.
    pub fn blocks_in_piece(&self, piece_index: usize) -> (n: usize)
        ensures
            piece_index >= self.pieces().len() ==> n == 0,
            piece_index < self.pieces().len() ==> n == blocks_of(
                self.pieces()[piece_index as int].length,
            ) as usize,
    {
        if piece_index >= self.pieces.len() {
            return 0;
        }
        let length: u64 = self.pieces[piece_index].length;
        let whole: u64 = length / (BLOCK_SIZE as u64);
        let blocks: u64 = if length % (BLOCK_SIZE as u64) != 0 {
            whole + 1
        } else {
            whole
        };
        assert(blocks == blocks_of(length));
        #[verifier::truncate]
        (blocks as usize)
    }

    /// The offset and the length of block `block_index` of piece
    /// `piece_index`: blocks have `BLOCK_SIZE` bytes, but for the last, which
    /// has what is left.
    pub fn get_block_info(&self, piece_index: usize, block_index: usize) -> (r: Option<(u32, u32)>)
        ensures
            match r {
                Some((offset, length)) => {
                    &&& piece_index < self.pieces().len()
                    &&& offset == block_index * BLOCK_SIZE
                    &&& offset < self.pieces()[piece_index as int].length
                    &&& length == if self.pieces()[piece_index as int].length - offset
                        < BLOCK_SIZE {
                        self.pieces()[piece_index as int].length - offset
                    } else {
                        BLOCK_SIZE as int
                    }
                },
                None => piece_index >= self.pieces().len() || block_index * BLOCK_SIZE
                    >= self.pieces()[piece_index as int].length || block_index * BLOCK_SIZE
                    > u32::MAX,
            },
    {
        if piece_index >= self.pieces.len() {
            return None;
        }
        let length: u64 = self.pieces[piece_index].length;
        if block_index > (u32::MAX / BLOCK_SIZE) as usize {
            return None;
        }
        let offset: u32 = (block_index as u32) * BLOCK_SIZE;
        if offset as u64 >= length {
            return None;
        }
        let left: u64 = length - offset as u64;
        let block_length: u32 = if left < BLOCK_SIZE as u64 {
            left as u32
        } else {
            BLOCK_SIZE
        };
        Some((offset, block_length))
    }

    /// The length of piece `piece_index`, if there is such a piece.
    pub fn piece_len(&self, piece_index: usize) -> (r: Option<u64>)
        ensures
            match r {
                Some(length) => piece_index < self.pieces().len() && length
                    == self.pieces()[piece_index as int].length,
                None => piece_index >= self.pieces().len(),
            },
    {
        if piece_index < self.pieces.len() {
            Some(self.pieces[piece_index].length)
        } else {
            None
        }
    }

    pub fn piece_count(&self) -> (n: usize)
        ensures
            n == self.pieces().len(),
    {
        self.pieces.len()
    }

    /// The number of complete pieces.
    pub fn complete_count(&self) -> (n: usize)
        ensures
            n == count_state(self.states(), PieceState::Complete),
    {
        let mut n: usize = 0;
        let mut i: usize = 0;
        let ghost states = self.states();
        assert(states.subrange(0, 0) =~= Seq::<PieceState>::empty());
        while i < self.pieces.len()
            invariant
                i <= self.pieces.len(),
                states == self.states(),
                n == count_state(states.subrange(0, i as int), PieceState::Complete),
                n <= i,
            decreases self.pieces.len() - i,
        {
            proof {
                assert(states.subrange(0, i + 1).drop_last() =~= states.subrange(0, i as int));
            }
            if self.pieces[i].state == PieceState::Complete {
                n += 1;
            }
            i += 1;
        }
        assert(states.subrange(0, states.len() as int) =~= states);
        n
    }

    /// Whether every piece is complete.
    pub fn is_complete(&self) -> (done: bool)
        ensures
            done == (count_state(self.states(), PieceState::Complete) == self.pieces().len()),
    {
        self.complete_count() == self.piece_count()
    }

    /// The state of piece `piece_index`, if there is such a piece.
    pub fn get_piece_state(&self, piece_index: usize) -> (r: Option<PieceState>)
        ensures
            match r {
                Some(state) => piece_index < self.pieces().len() && state
                    == self.pieces()[piece_index as int].state,
                None => piece_index >= self.pieces().len(),
            },
    {
        if piece_index < self.pieces.len() {
            Some(self.pieces[piece_index].state)
        } else {
            None
        }
    }
}

} // verus!
