use vstd::prelude::*;

use crate::card::{
    Card, Rank, Suit, card_index, card_of_index, lemma_card_index_bijective, rank_of_index,
    suit_of_index,
};
use crate::error::GameError;
use crate::shuffle::shuffle_cards;
use rand::rngs::StdRng;

verus! {

/// The canonical fresh deck: all 52 cards, suit-major then rank-major, so
/// position i holds `card_of_index(i)`.
pub open spec fn full_deck() -> Seq<Card> {
    Seq::new(52, |i: int| card_of_index(i))
}

/// An ordered deck of cards. The top of the deck, from which the next card
/// is drawn, is the end of the sequence.
#[derive(Debug)]
pub struct Deck {
    cards: Vec<Card>,
}

impl View for Deck {
    type V = Seq<Card>;

    closed spec fn view(&self) -> Seq<Card> {
        self.cards@
    }
}

fn suit_for(i: usize) -> (s: Suit)
    requires
        i < 4,
    ensures
        s == suit_of_index(i as int),
{
    match i {
        0 => Suit::Spade,
        1 => Suit::Heart,
        2 => Suit::Diamond,
        _ => Suit::Club,
    }
}

fn rank_for(i: usize) -> (r: Rank)
    requires
        i < 13,
    ensures
        r == rank_of_index(i as int),
{
    match i {
        0 => Rank::A,
        1 => Rank::K,
        2 => Rank::Q,
        3 => Rank::J,
        4 => Rank::Ten,
        5 => Rank::Nine,
        6 => Rank::Eight,
        7 => Rank::Seven,
        8 => Rank::Six,
        9 => Rank::Five,
        10 => Rank::Four,
        11 => Rank::Three,
        _ => Rank::Two,
    }
}

impl Deck {
    /// Construct the full ordered deck: every (rank, suit) combination
    /// exactly once, in the canonical order.
    pub fn new() -> (d: Deck)
        ensures
            d@ == full_deck(),
            d@.len() == 52,
    {
        let mut cards: Vec<Card> = Vec::new();
        let mut i: usize = 0;
        while i < 52
            invariant
                i <= 52,
                cards@ == full_deck().take(i as int),
            decreases 52 - i,
        {
            let suit = suit_for(i / 13);
            let rank = rank_for(i % 13);
            cards.push(Card::new(&rank, &suit));
            proof {
                assert(cards@ =~= full_deck().take(i + 1));
            }
            i += 1;
        }
        proof {
            assert(cards@ =~= full_deck());
        }
        Deck { cards }
    }

    /// Number of cards remaining in the deck.
    pub fn len(&self) -> (n: usize)
        ensures
            n == self@.len(),
    {
        self.cards.len()
    }

    /// Permute the deck in place, drawing randomness from the injected
    /// generator. The cards themselves are conserved: the multiset of cards
    /// afterwards is the multiset before.
    pub fn shuffle(&mut self, rng: &mut StdRng)
        ensures
            final(self)@.to_multiset() == old(self)@.to_multiset(),
            final(self)@.len() == old(self)@.len(),
    {
        shuffle_cards(&mut self.cards, rng);
    }

    /// Remove and return the card at the top of the deck. Fails with
    /// `EmptyDeck`, leaving the deck untouched, exactly when no card remains.
    pub fn pop(&mut self) -> (r: Result<Card, GameError>)
        ensures
            old(self)@.len() == 0 ==> r == Err::<Card, GameError>(GameError::EmptyDeck)
                && final(self)@ == old(self)@,
            old(self)@.len() > 0 ==> r == Ok::<Card, GameError>(old(self)@.last())
                && final(self)@ == old(self)@.drop_last(),
    {
        match self.cards.pop() {
            Some(c) => Ok(c),
            None => Err(GameError::EmptyDeck),
        }
    }
}

/// Law: the full deck holds exactly 52 cards and no duplicate: distinct
/// positions hold distinct (rank, suit) pairs.
pub proof fn lemma_full_deck_no_duplicates()
    ensures
        full_deck().len() == 52,
        forall|i: int, j: int| 0 <= i < j < 52 ==> full_deck()[i] != full_deck()[j],
        full_deck().no_duplicates(),
{
    lemma_card_index_bijective();
    assert forall|i: int, j: int| 0 <= i < j < 52 implies full_deck()[i] != full_deck()[j] by {
        assert(card_index(card_of_index(i)) == i);
        assert(card_index(card_of_index(j)) == j);
    }
}

/// Law: every (rank, suit) combination is present in the full deck.
pub proof fn lemma_full_deck_complete()
    ensures
        forall|c: Card| #[trigger] full_deck().contains(c),
{
    lemma_card_index_bijective();
    assert forall|c: Card| #[trigger] full_deck().contains(c) by {
        let i = card_index(c);
        assert(0 <= i < 52 && card_of_index(i) == c);
        assert(full_deck()[i] == c);
    }
}

} // verus!
