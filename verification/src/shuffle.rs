use vstd::prelude::*;

use crate::card::Card;
use rand::rngs::StdRng;
use rand::seq::SliceRandom;

verus! {

/// rand's standard generator, the injected source of randomness. Opaque to
/// the verifier: nothing is assumed about the values it yields.
#[verifier::external_type_specification]
#[verifier::external_body]
pub struct ExStdRng(StdRng);

/// Relies on rand's `SliceRandom::shuffle`: a Fisher-Yates shuffle that
/// permutes the slice in place by swaps, so the multiset of elements (and
/// hence the length) is unchanged, whatever the generator yields.
#[verifier::external_body]
pub(crate) fn shuffle_cards(cards: &mut Vec<Card>, rng: &mut StdRng)
    ensures
        final(cards)@.to_multiset() == old(cards)@.to_multiset(),
        final(cards)@.len() == old(cards)@.len(),
{
    cards.as_mut_slice().shuffle(rng);
}

} // verus!
