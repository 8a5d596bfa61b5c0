//! Pieces: the catalog with its assembly buffers, and the picker that
//! chooses what to download next.

pub mod manager;
pub mod picker;

pub use manager::PieceManager;
pub use picker::PiecePicker;

use vstd::prelude::*;

verus! {

/// Standard block size (16 KiB)
pub const BLOCK_SIZE: u32 = 16384;

/// State of a piece
#[derive(Debug, Clone, Copy, PartialEq, Eq, Structural)]
pub enum PieceState {
    /// Not downloaded yet
    Missing,
    /// Currently downloading
    Downloading,
    /// Downloaded and verified
    Complete,
}

/// A piece of the catalog.
#[derive(Debug, Clone)]
pub struct PieceInfo {
    pub index: usize,
    pub length: u64,
    pub state: PieceState,
    pub hash: [u8; 20],
}

/// How many of `states` are `wanted`.
pub open spec fn count_state(states: Seq<PieceState>, wanted: PieceState) -> nat
    decreases states.len(),
{
    if states.len() == 0 {
        0
    } else {
        count_state(states.drop_last(), wanted) + if states.last() == wanted {
            1nat
        } else {
            0nat
        }
    }
}

/// There are no more of a state than there are states.
pub proof fn lemma_count_state_bound(states: Seq<PieceState>, wanted: PieceState)
    ensures
        count_state(states, wanted) <= states.len(),
    decreases states.len(),
{
    if states.len() > 0 {
        lemma_count_state_bound(states.drop_last(), wanted);
    }
}

/// Changing one state changes the count of a state by what leaves and what
/// comes.
pub proof fn lemma_count_state_update(
    states: Seq<PieceState>,
    i: int,
    to: PieceState,
    wanted: PieceState,
)
    requires
        0 <= i < states.len(),
    ensures
        count_state(states.update(i, to), wanted) == count_state(states, wanted) - (if states[i]
            == wanted {
            1int
        } else {
            0int
        }) + (if to == wanted {
            1int
        } else {
            0int
        }),
    decreases states.len(),
{
    let after = states.update(i, to);
    if i == states.len() - 1 {
        assert(after.drop_last() =~= states.drop_last());
    } else {
        assert(after.drop_last() =~= states.drop_last().update(i, to));
        lemma_count_state_update(states.drop_last(), i, to, wanted);
    }
}

/// The number of `wanted` among the first `n` states, counted one by one.
pub fn count_in(states: &Vec<PieceState>, wanted: PieceState) -> (n: usize)
    ensures
        n == count_state(states@, wanted),
{
    let mut n: usize = 0;
    let mut i: usize = 0;
    assert(states@.subrange(0, 0) =~= Seq::<PieceState>::empty());
    while i < states.len()
        invariant
            i <= states.len(),
            n == count_state(states@.subrange(0, i as int), wanted),
            n <= i,
        decreases states.len() - i,
    {
        proof {
            assert(states@.subrange(0, i + 1).drop_last() =~= states@.subrange(0, i as int));
        }
        if states[i] == wanted {
            n += 1;
        }
        i += 1;
    }
    assert(states@.subrange(0, states@.len() as int) =~= states@);
    n
}

} // verus!
