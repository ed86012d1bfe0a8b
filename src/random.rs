//! The pseudo-random source of the engine: rand's `StdRng`, and the calls
//! the engine makes on it.

use rand::rngs::StdRng;
use rand::seq::{IndexedRandom, SliceRandom};
use rand::SeedableRng;
use vstd::prelude::*;

use crate::models::Mutation;

verus! {

#[verifier::external_type_specification]
#[verifier::external_body]
pub struct ExStdRng(StdRng);

/// Relies on `SeedableRng::seed_from_u64` for `StdRng`: a generator whose
/// stream is fixed by `seed`.
#[verifier::external_body]
pub(crate) fn seeded_rng(seed: u64) -> StdRng {
    StdRng::seed_from_u64(seed)
}

/// Relies on `SeedableRng::try_from_os_rng` for `StdRng`: a generator seeded
/// from the operating system's entropy source, or `None` when that source
/// fails.
#[verifier::external_body]
pub(crate) fn entropy_rng() -> Option<StdRng> {
    StdRng::try_from_os_rng().ok()
}

/// Relies on `SliceRandom::shuffle`: an in-place Fisher-Yates shuffle, which
/// only permutes the items.
#[verifier::external_body]
pub(crate) fn shuffle_mutations(v: &mut Vec<Mutation>, rng: &mut StdRng)
    ensures
        final(v)@.len() == old(v)@.len(),
        final(v)@.to_multiset() == old(v)@.to_multiset(),
{
    v.shuffle(rng)
}

/// Relies on `IndexedRandom::choose`: `None` for an empty slice, without
/// drawing from the generator, else one of its items.
#[verifier::external_body]
pub(crate) fn choose_word(words: &Vec<String>, rng: &mut StdRng) -> (r: Option<String>)
    ensures
        words.len() == 0 ==> *final(rng) == *old(rng),
        r is None <==> words.len() == 0,
        r is Some ==> exists|k: int| 0 <= k < words.len() && r->0@ == words[k]@,
{
    words.choose(rng).cloned()
}

} // verus!
