use vstd::prelude::*;
use rand::Rng;
use rand::seq::SliceRandom;

verus! {

/// Picks one of `candidates` at random.
///
/// Trusted: `SliceRandom::choose` on a slice, with the generator of
/// `rand::thread_rng`, returns `None` for an empty slice and otherwise a
/// reference to one of its elements. Which one depends on chance, so nothing
/// more is said of it.
#[verifier::external_body]
pub(crate) fn choose_random(candidates: &Vec<usize>) -> (chosen: Option<usize>)
    ensures
        match chosen {
            Some(c) => candidates@.contains(c),
            None => candidates@.len() == 0,
        },
{
    let mut rng = rand::thread_rng();
    match candidates.choose(&mut rng) {
        Some(c) => Some(*c),
        None => None,
    }
}

/// A random byte between `low` and `high`, both included.
///
/// Trusted: `Rng::gen_range` on an inclusive range, with the generator of
/// `rand::thread_rng`, returns a value within the range; it panics on an
/// empty range, which the precondition rules out.
#[verifier::external_body]
pub(crate) fn random_byte(low: u8, high: u8) -> (byte: u8)
    requires
        low <= high,
    ensures
        low <= byte <= high,
{
    let mut rng = rand::thread_rng();
    rng.gen_range(low..=high)
}

} // verus!
