use vstd::prelude::*;
use crate::piece::manager::PieceManager;
use crate::piece::{PieceState, count_in, count_state};
use crate::random::choose_random;

verus! {

/// Completed pieces after which selection turns from random to
/// rarest-first.
pub const BOOTSTRAP_PIECES: usize = 4;

/// Missing pieces at or below which endgame begins.
pub const ENDGAME_PIECES: usize = 5;

/// Whether `bitfield` has the bit of piece `piece_index` set. Bit 7 of
/// byte 0 is piece 0. A piece beyond the bitfield is not there.
pub open spec fn bit_set(bitfield: Seq<u8>, piece_index: usize) -> bool {
    piece_index / 8 < bitfield.len() && (bitfield[piece_index as int / 8] >> ((7 - piece_index
        % 8) as usize)) & 1 == 1
}

/// Whether a bitfield says that the peer has a piece.
pub fn has_piece_in_bitfield(bitfield: &[u8], piece_index: usize) -> (has: bool)
    ensures
        has == bit_set(bitfield@, piece_index),
{
    let byte_index: usize = piece_index / 8;
    let bit_index: usize = 7 - (piece_index % 8);
    if byte_index < bitfield.len() {
        (bitfield[byte_index] >> bit_index) & 1 == 1
    } else {
        false
    }
}

/// The availability counts after a peer's bitfield is taken in: one more
/// for each piece that the bitfield has, up to the largest count.
pub open spec fn counted(availability: Seq<u32>, bitfield: Seq<u8>) -> Seq<u32> {
    Seq::new(
        availability.len(),
        |i: int|
            if bit_set(bitfield, i as usize) && availability[i] < u32::MAX {
                (availability[i] + 1) as u32
            } else {
                availability[i]
            },
    )
}

/// Whether `chosen` is the first of `candidates` with the least
/// availability.
pub open spec fn is_rarest(availability: Seq<u32>, candidates: Seq<usize>, chosen: usize) -> bool {
    exists|k: int|
        {
            &&& 0 <= k < candidates.len()
            &&& #[trigger] candidates[k] == chosen
            &&& forall|j: int|
                0 <= j < candidates.len() ==> availability[chosen as int]
                    <= availability[#[trigger] candidates[j] as int]
            &&& forall|j: int|
                0 <= j < k ==> availability[chosen as int] < availability[#[trigger] candidates[j] as int]
        }
}

/// Whether piece `i` can be handed to the peer with `bitfield`: the peer
/// has it, the catalog has it missing, and, outside endgame, no one was
/// sent for it yet.
pub open spec fn eligible(
    states: Seq<PieceState>,
    manager: &PieceManager,
    bitfield: Seq<u8>,
    endgame: bool,
    i: usize,
) -> bool {
    &&& i < states.len()
    &&& i < manager.pieces().len()
    &&& manager.pieces()[i as int].state == PieceState::Missing
    &&& bit_set(bitfield, i)
    &&& (endgame || states[i as int] != PieceState::Downloading)
}

/// The eligible pieces below `n`, ascending.
pub open spec fn eligible_below(
    states: Seq<PieceState>,
    manager: &PieceManager,
    bitfield: Seq<u8>,
    endgame: bool,
    n: nat,
) -> Seq<usize>
    decreases n,
{
    if n == 0 {
        Seq::empty()
    } else if eligible(states, manager, bitfield, endgame, (n - 1) as usize) {
        eligible_below(states, manager, bitfield, endgame, (n - 1) as nat).push((n - 1) as usize)
    } else {
        eligible_below(states, manager, bitfield, endgame, (n - 1) as nat)
    }
}

/// Selects which piece to download next.
pub struct PiecePicker {
    total_pieces: usize,
    piece_states: Vec<PieceState>,
    /// How many peers have each piece
    piece_availability: Vec<u32>,
    /// Whether selection is still random
    random_first: bool,
    /// Number of pieces marked complete
    downloaded_count: usize,
    /// Whether endgame has begun
    endgame_mode: bool,
}

impl PiecePicker {
    pub closed spec fn states(&self) -> Seq<PieceState> {
        self.piece_states@
    }

    pub closed spec fn availability(&self) -> Seq<u32> {
        self.piece_availability@
    }

    pub closed spec fn random_first(&self) -> bool {
        self.random_first
    }

    pub closed spec fn downloaded_count(&self) -> usize {
        self.downloaded_count
    }

    pub closed spec fn endgame(&self) -> bool {
        self.endgame_mode
    }

    pub closed spec fn total(&self) -> usize {
        self.total_pieces
    }

    /// One state and one availability count for each piece.
    pub open spec fn wf(&self) -> bool {
        self.states().len() == self.total() && self.availability().len() == self.total()
    }

    /// Whether endgame holds after a look at the states: it has begun
    /// before, or at most `ENDGAME_PIECES` pieces, and at least one, are
    /// missing.
    pub open spec fn endgame_after(&self) -> bool {
        self.endgame() || 0 < count_state(self.states(), PieceState::Missing) <= ENDGAME_PIECES
    }

    /// A picker for `total_pieces` pieces, all missing, none seen at a peer.
    pub fn new(total_pieces: usize) -> (picker: PiecePicker)
        ensures
            picker.wf(),
            picker.total() == total_pieces,
            picker.states() == Seq::new(total_pieces as nat, |i: int| PieceState::Missing),
            picker.availability() == Seq::new(total_pieces as nat, |i: int| 0u32),
            picker.random_first(),
            picker.downloaded_count() == 0,
            !picker.endgame(),
    {
        let mut piece_states: Vec<PieceState> = Vec::new();
        let mut piece_availability: Vec<u32> = Vec::new();
        let mut i: usize = 0;
        while i < total_pieces
            invariant
                i <= total_pieces,
                piece_states@ == Seq::new(i as nat, |j: int| PieceState::Missing),
                piece_availability@ == Seq::new(i as nat, |j: int| 0u32),
            decreases total_pieces - i,
        {
            piece_states.push(PieceState::Missing);
            piece_availability.push(0);
            assert(piece_states@ =~= Seq::new((i + 1) as nat, |j: int| PieceState::Missing));
            assert(piece_availability@ =~= Seq::new((i + 1) as nat, |j: int| 0u32));
            i += 1;
        }
        PiecePicker {
            total_pieces,
            piece_states,
            piece_availability,
            random_first: true,
            downloaded_count: 0,
            endgame_mode: false,
        }
    }

    /// Takes in the bitfield of a peer: each piece that it has is counted
    /// once more. Bits beyond the last piece are ignored.
    pub fn update_peer_pieces(&mut self, bitfield: &[u8])
        requires
            old(self).wf(),
        ensures
            final(self).wf(),
            final(self).availability() == counted(old(self).availability(), bitfield@),
            final(self).states() == old(self).states(),
            final(self).total() == old(self).total(),
            final(self).random_first() == old(self).random_first(),
            final(self).downloaded_count() == old(self).downloaded_count(),
            final(self).endgame() == old(self).endgame(),
    {
        let mut piece_index: usize = 0;
        while piece_index < self.total_pieces
            invariant
                piece_index <= self.total_pieces,
                self.wf(),
                old(self).wf(),
                self.piece_states == old(self).piece_states,
                self.total_pieces == old(self).total_pieces,
                self.random_first == old(self).random_first,
                self.downloaded_count == old(self).downloaded_count,
                self.endgame_mode == old(self).endgame_mode,
                forall|j: int|
                    0 <= j < self.total_pieces ==> self.piece_availability@[j] == if j
                        < piece_index {
                        counted(old(self).availability(), bitfield@)[j]
                    } else {
                        old(self).availability()[j]
                    },
            decreases self.total_pieces - piece_index,
        {
            if has_piece_in_bitfield(bitfield, piece_index) {
                let count: u32 = self.piece_availability[piece_index];
                if count < u32::MAX {
                    self.piece_availability.set(piece_index, count + 1);
                }
            }
            piece_index += 1;
        }
        assert(self.availability() =~= counted(old(self).availability(), bitfield@));
    }

    /// Counts piece `piece_index` once more: a peer announced that it has
    /// it.
    pub fn add_peer_piece(&mut self, piece_index: usize)
        requires
            old(self).wf(),
        ensures
            final(self).wf(),
            final(self).states() == old(self).states(),
            final(self).total() == old(self).total(),
            final(self).random_first() == old(self).random_first(),
            final(self).downloaded_count() == old(self).downloaded_count(),
            final(self).endgame() == old(self).endgame(),
            final(self).availability() == if piece_index < old(self).total() && old(self).availability()[piece_index as int] < u32::MAX {
                old(self).availability().update(
                    piece_index as int,
                    (old(self).availability()[piece_index as int] + 1) as u32,
                )
            } else {
                old(self).availability()
            },
    {
        if piece_index < self.total_pieces {
            let count: u32 = self.piece_availability[piece_index];
            if count < u32::MAX {
                self.piece_availability.set(piece_index, count + 1);
            }
        }
    }

    /// Sets the state of piece `piece_index`, unless there is no such piece
    /// or it is complete: a complete piece stays complete.
    fn set_state(&mut self, piece_index: usize, state: PieceState)
        requires
            old(self).wf(),
        ensures
            final(self).wf(),
            final(self).availability() == old(self).availability(),
            final(self).total() == old(self).total(),
            final(self).random_first() == old(self).random_first(),
            final(self).downloaded_count() == old(self).downloaded_count(),
            final(self).endgame() == old(self).endgame(),
            final(self).states() == if piece_index < old(self).total() && old(self).states()[piece_index as int] != PieceState::Complete {
                old(self).states().update(piece_index as int, state)
            } else {
                old(self).states()
            },
    {
        if piece_index < self.total_pieces {
            if !(self.piece_states[piece_index] == PieceState::Complete) {
                self.piece_states.set(piece_index, state);
            }
        }
    }

    /// Marks a piece as being downloaded.
    pub fn mark_downloading(&mut self, piece_index: usize)
        requires
            old(self).wf(),
        ensures
            final(self).wf(),
            final(self).availability() == old(self).availability(),
            final(self).total() == old(self).total(),
            final(self).random_first() == old(self).random_first(),
            final(self).downloaded_count() == old(self).downloaded_count(),
            final(self).endgame() == old(self).endgame(),
            final(self).states() == if piece_index < old(self).total() && old(self).states()[piece_index as int] != PieceState::Complete {
                old(self).states().update(piece_index as int, PieceState::Downloading)
            } else {
                old(self).states()
            },
    {
        self.set_state(piece_index, PieceState::Downloading);
    }

    /// Marks a piece as missing again, as after a failed verification.
    pub fn mark_missing(&mut self, piece_index: usize)
        requires
            old(self).wf(),
        ensures
            final(self).wf(),
            final(self).availability() == old(self).availability(),
            final(self).total() == old(self).total(),
            final(self).random_first() == old(self).random_first(),
            final(self).downloaded_count() == old(self).downloaded_count(),
            final(self).endgame() == old(self).endgame(),
            final(self).states() == if piece_index < old(self).total() && old(self).states()[piece_index as int] != PieceState::Complete {
                old(self).states().update(piece_index as int, PieceState::Missing)
            } else {
                old(self).states()
            },
    {
        self.set_state(piece_index, PieceState::Missing);
    }

    /// Marks a piece as complete and counts it. From the fourth piece
    /// counted on, selection is rarest-first.
    pub fn mark_complete(&mut self, piece_index: usize)
        requires
            old(self).wf(),
        ensures
            final(self).wf(),
            final(self).availability() == old(self).availability(),
            final(self).total() == old(self).total(),
            final(self).endgame() == old(self).endgame(),
            piece_index >= old(self).total() ==> {
                &&& final(self).states() == old(self).states()
                &&& final(self).downloaded_count() == old(self).downloaded_count()
                &&& final(self).random_first() == old(self).random_first()
            },
            piece_index < old(self).total() ==> {
                &&& final(self).states() == old(self).states().update(
                    piece_index as int,
                    PieceState::Complete,
                )
                &&& final(self).downloaded_count() == if old(self).downloaded_count()
                    < usize::MAX {
                    (old(self).downloaded_count() + 1) as usize
                } else {
                    usize::MAX
                }
                &&& final(self).random_first() == (old(self).random_first() && final(self).downloaded_count() < BOOTSTRAP_PIECES)
            },
    {
        if piece_index < self.total_pieces {
            self.piece_states.set(piece_index, PieceState::Complete);
            if self.downloaded_count < usize::MAX {
                self.downloaded_count += 1;
            }
            if self.downloaded_count >= BOOTSTRAP_PIECES {
                self.random_first = false;
            }
        }
    }

    /// The pieces that can be handed to the peer with `bitfield`, ascending.
    pub fn candidates(&self, manager: &PieceManager, bitfield: &[u8], endgame: bool) -> (found:
        Vec<usize>)
        requires
            self.wf(),
        ensures
            found@ == eligible_below(self.states(), manager, bitfield@, endgame, self.total() as nat),
            forall|k: int|
                0 <= k < found@.len() ==> eligible(self.states(), 
                    manager,
                    bitfield@,
                    endgame,
                    #[trigger] found@[k],
                ),
            forall|i: usize|
                eligible(self.states(), manager, bitfield@, endgame, i) ==> found@.contains(i),
    {
        let mut found: Vec<usize> = Vec::new();
        let mut piece_index: usize = 0;
        while piece_index < self.total_pieces
            invariant
                piece_index <= self.total_pieces,
                self.wf(),
                found@ == eligible_below(self.states(), manager, bitfield@, endgame, piece_index as nat),
                forall|k: int|
                    0 <= k < found@.len() ==> eligible(self.states(), 
                        manager,
                        bitfield@,
                        endgame,
                        #[trigger] found@[k],
                    ),
                forall|i: usize|
                    i < piece_index && eligible(self.states(), manager, bitfield@, endgame, i)
                        ==> found@.contains(i),
            decreases self.total_pieces - piece_index,
        {
            let ghost before = found@;
            let missing: bool = match manager.get_piece_state(piece_index) {
                Some(state) => state == PieceState::Missing,
                None => false,
            };
            let free: bool = endgame || !(self.piece_states[piece_index]
                == PieceState::Downloading);
            if missing && free && has_piece_in_bitfield(bitfield, piece_index) {
                found.push(piece_index);
                assert(found@.last() == piece_index);
                assert forall|i: usize|
                    i < piece_index + 1 && eligible(self.states(), 
                        manager,
                        bitfield@,
                        endgame,
                        i,
                    ) implies found@.contains(i) by {
                    if i < piece_index {
                        assert(before.contains(i));
                        let k = choose|k: int| 0 <= k < before.len() && before[k] == i;
                        assert(found@[k] == i);
                    } else {
                        assert(found@[found@.len() - 1] == i);
                    }
                }
            }
            piece_index += 1;
        }
        found
    }

    /// The first of `candidates` with the least availability.
    pub fn rarest(&self, candidates: &Vec<usize>) -> (r: Option<usize>)
        requires
            self.wf(),
            forall|k: int| 0 <= k < candidates@.len() ==> #[trigger] candidates@[k] < self.total(),
        ensures
            match r {
                Some(chosen) => is_rarest(self.availability(), candidates@, chosen),
                None => candidates@.len() == 0,
            },
    {
        if candidates.len() == 0 {
            return None;
        }
        let mut best: usize = 0;
        let mut k: usize = 1;
        while k < candidates.len()
            invariant
                1 <= k <= candidates.len(),
                best < k,
                self.wf(),
                forall|j: int|
                    0 <= j < candidates@.len() ==> #[trigger] candidates@[j] < self.total(),
                forall|j: int|
                    0 <= j < k ==> self.availability()[candidates@[best as int] as int]
                        <= self.availability()[#[trigger] candidates@[j] as int],
                forall|j: int|
                    0 <= j < best ==> self.availability()[candidates@[best as int] as int]
                        < self.availability()[#[trigger] candidates@[j] as int],
            decreases candidates.len() - k,
        {
            if self.piece_availability[candidates[k]] < self.piece_availability[candidates[best]] {
                best = k;
            }
            k += 1;
        }
        let chosen: usize = candidates[best];
        assert(candidates@[best as int] == chosen);
        Some(chosen)
    }

    /// Hands out `selected`: outside endgame the piece is marked as being
    /// downloaded, in endgame the states stay as they are.
    pub fn assign(&mut self, selected: usize)
        requires
            old(self).wf(),
            selected < old(self).total(),
        ensures
            final(self).wf(),
            final(self).availability() == old(self).availability(),
            final(self).total() == old(self).total(),
            final(self).random_first() == old(self).random_first(),
            final(self).downloaded_count() == old(self).downloaded_count(),
            final(self).endgame() == old(self).endgame(),
            final(self).states() == if old(self).endgame() {
                old(self).states()
            } else {
                old(self).states().update(selected as int, PieceState::Downloading)
            },
    {
        if !self.endgame_mode {
            self.piece_states.set(selected, PieceState::Downloading);
        }
    }

    /// Picks the next piece for the peer with `peer_bitfield`.
    ///
    /// Endgame begins when at most `ENDGAME_PIECES` pieces are missing.
    /// Among the eligible pieces the choice is random while selection is
    /// still random, and the first of the rarest after that. Outside endgame
    /// the piece picked is marked as being downloaded.
    pub fn pick_piece(&mut self, piece_manager: &PieceManager, peer_bitfield: &[u8]) -> (r: Option<
        usize,
    >)
        requires
            old(self).wf(),
        ensures
            final(self).wf(),
            final(self).availability() == old(self).availability(),
            final(self).total() == old(self).total(),
            final(self).random_first() == old(self).random_first(),
            final(self).downloaded_count() == old(self).downloaded_count(),
            final(self).endgame() == old(self).endgame_after(),
            match r {
                Some(chosen) => {
                    &&& eligible(old(self).states(), 
                        piece_manager,
                        peer_bitfield@,
                        final(self).endgame(),
                        chosen,
                    )
                    &&& !old(self).random_first() ==> is_rarest(
                        old(self).availability(),
                        eligible_below(old(self).states(), 
                            piece_manager,
                            peer_bitfield@,
                            final(self).endgame(),
                            old(self).total() as nat,
                        ),
                        chosen,
                    )
                    &&& final(self).states() == if final(self).endgame() {
                        old(self).states()
                    } else {
                        old(self).states().update(chosen as int, PieceState::Downloading)
                    }
                },
                None => {
                    &&& final(self).states() == old(self).states()
                    &&& forall|i: usize|
                        !eligible(old(self).states(), 
                            piece_manager,
                            peer_bitfield@,
                            final(self).endgame(),
                            i,
                        )
                },
            },
    {
        let missing_count: usize = count_in(&self.piece_states, PieceState::Missing);
        if !self.endgame_mode && missing_count > 0 && missing_count <= ENDGAME_PIECES {
            self.endgame_mode = true;
        }
        let available: Vec<usize> = self.candidates(
            piece_manager,
            peer_bitfield,
            self.endgame_mode,
        );
        let selected: Option<usize> = if self.random_first {
            choose_random(&available)
        } else {
            self.rarest(&available)
        };
        match selected {
            Some(chosen) => {
                proof {
                    if self.random_first {
                        let k = choose|k: int| 0 <= k < available@.len() && available@[k] == chosen;
                        assert(available@[k] == chosen);
                    }
                }
                self.assign(chosen);
                Some(chosen)
            },
            None => {
                assert forall|i: usize|
                    !eligible(old(self).states(), 
                        piece_manager,
                        peer_bitfield@,
                        self.endgame(),
                        i,
                    ) by {
                    if eligible(old(self).states(), piece_manager, peer_bitfield@, self.endgame(), i) {
                        assert(available@.contains(i));
                    }
                }
                None
            },
        }
    }

    /// Whether endgame has begun.
    pub fn is_endgame(&self) -> (endgame: bool)
        ensures
            endgame == self.endgame(),
    {
        self.endgame_mode
    }

    /// Picks a piece for the peer with `peer_bitfield` by rarity alone: the
    /// first of the least available among the pieces that are missing here
    /// and present there. The states stay as they are.
    pub fn pick_piece_from_peer(&self, peer_bitfield: &[u8]) -> (r: Option<usize>)
        requires
            self.wf(),
        ensures
            match r {
                Some(chosen) => {
                    &&& self.wanted_from(peer_bitfield@, chosen)
                    &&& forall|i: usize|
                        self.wanted_from(peer_bitfield@, i) ==> self.availability()[chosen as int]
                            <= self.availability()[i as int]
                    &&& forall|i: usize|
                        i < chosen && self.wanted_from(peer_bitfield@, i)
                            ==> self.availability()[chosen as int] < self.availability()[i as int]
                },
                None => forall|i: usize| !self.wanted_from(peer_bitfield@, i),
            },
    {
        let mut best_piece: Option<usize> = None;
        let mut lowest_availability: u32 = u32::MAX;
        let mut piece_index: usize = 0;
        while piece_index < self.total_pieces
            invariant
                piece_index <= self.total_pieces,
                self.wf(),
                match best_piece {
                    Some(chosen) => {
                        &&& chosen < piece_index
                        &&& self.wanted_from(peer_bitfield@, chosen)
                        &&& lowest_availability == self.availability()[chosen as int]
                        &&& forall|i: usize|
                            i < piece_index && self.wanted_from(peer_bitfield@, i)
                                ==> lowest_availability <= self.availability()[i as int]
                        &&& forall|i: usize|
                            i < chosen && self.wanted_from(peer_bitfield@, i)
                                ==> lowest_availability < self.availability()[i as int]
                    },
                    None => lowest_availability == u32::MAX && forall|i: usize|
                        i < piece_index ==> !self.wanted_from(peer_bitfield@, i),
                },
            decreases self.total_pieces - piece_index,
        {
            if self.piece_states[piece_index] == PieceState::Missing && has_piece_in_bitfield(
                peer_bitfield,
                piece_index,
            ) {
                let availability: u32 = self.piece_availability[piece_index];
                if availability < lowest_availability {
                    lowest_availability = availability;
                    best_piece = Some(piece_index);
                }
            }
            piece_index += 1;
        }
        best_piece
    }

    /// Whether piece `i` is missing here, present at the peer with
    /// `bitfield`, and not yet counted at every peer there can be.
    pub open spec fn wanted_from(&self, bitfield: Seq<u8>, i: usize) -> bool {
        &&& i < self.total()
        &&& self.states()[i as int] == PieceState::Missing
        &&& bit_set(bitfield, i)
        &&& self.availability()[i as int] < u32::MAX
    }

    /// The number of complete pieces.
    pub fn complete_count(&self) -> (n: usize)
        ensures
            n == count_state(self.states(), PieceState::Complete),
    {
        count_in(&self.piece_states, PieceState::Complete)
    }

    /// Whether all pieces are complete.
    pub fn is_complete(&self) -> (done: bool)
        ensures
            done == (count_state(self.states(), PieceState::Complete) == self.total()),
    {
        self.complete_count() == self.total_pieces
    }
}

/// Bits beyond the last piece do not count: two bitfields that agree on the
/// pieces there are give the same availability.
pub proof fn lemma_trailing_bits_ignored(availability: Seq<u32>, a: Seq<u8>, b: Seq<u8>)
    requires
        availability.len() <= usize::MAX,
        forall|i: usize| i < availability.len() ==> bit_set(a, i) == bit_set(b, i),
    ensures
        counted(availability, a) == counted(availability, b),
{
    assert forall|i: int| 0 <= i < availability.len() implies counted(availability, a)[i]
        == counted(availability, b)[i] by {
        assert(bit_set(a, i as usize) == bit_set(b, i as usize));
    }
    assert(counted(availability, a) =~= counted(availability, b));
}

} // verus!
