use holdem::card::{Card, Rank, Suit};
use holdem::deck::Deck;
use holdem::error::GameError;
use rand::SeedableRng;
use rand::rngs::StdRng;

fn all_ranks() -> Vec<Rank> {
    vec![
        Rank::Two,
        Rank::Three,
        Rank::Four,
        Rank::Five,
        Rank::Six,
        Rank::Seven,
        Rank::Eight,
        Rank::Nine,
        Rank::Ten,
        Rank::J,
        Rank::Q,
        Rank::K,
        Rank::A,
    ]
}

fn all_suits() -> Vec<Suit> {
    vec![Suit::Spade, Suit::Heart, Suit::Diamond, Suit::Club]
}

fn drain(deck: &mut Deck) -> Vec<Card> {
    let mut cards = Vec::new();
    while let Ok(c) = deck.pop() {
        cards.push(c);
    }
    cards
}

#[test]
fn new_deck_has_52_unique_cards_all_combinations() {
    let mut deck = Deck::new();
    assert_eq!(deck.len(), 52);
    let cards = drain(&mut deck);
    assert_eq!(cards.len(), 52);
    for i in 0..cards.len() {
        for j in 0..cards.len() {
            if i != j {
                assert_ne!(cards[i], cards[j]);
            }
        }
    }
    for rank in all_ranks() {
        for suit in all_suits() {
            assert!(cards.iter().any(|c| c.rank == rank && c.suit == suit));
        }
    }
}

#[test]
fn fresh_deck_pops_in_canonical_order() {
    let mut deck = Deck::new();
    assert_eq!(
        deck.pop(),
        Ok(Card {
            rank: Rank::Two,
            suit: Suit::Club
        })
    );
    assert_eq!(
        deck.pop(),
        Ok(Card {
            rank: Rank::Three,
            suit: Suit::Club
        })
    );
    assert_eq!(deck.len(), 50);
}

#[test]
fn shuffle_preserves_the_multiset_of_cards() {
    let mut deck = Deck::new();
    let mut rng = StdRng::seed_from_u64(7);
    deck.shuffle(&mut rng);
    assert_eq!(deck.len(), 52);
    let cards = drain(&mut deck);
    for rank in all_ranks() {
        for suit in all_suits() {
            let occurrences = cards
                .iter()
                .filter(|c| c.rank == rank && c.suit == suit)
                .count();
            assert_eq!(occurrences, 1);
        }
    }
}

#[test]
fn shuffle_with_equal_seeds_is_reproducible() {
    let mut a = Deck::new();
    let mut b = Deck::new();
    let mut rng_a = StdRng::seed_from_u64(42);
    let mut rng_b = StdRng::seed_from_u64(42);
    a.shuffle(&mut rng_a);
    b.shuffle(&mut rng_b);
    assert_eq!(drain(&mut a), drain(&mut b));
}

#[test]
fn shuffle_with_different_seeds_differs() {
    let mut a = Deck::new();
    let mut b = Deck::new();
    let mut rng_a = StdRng::seed_from_u64(0);
    let mut rng_b = StdRng::seed_from_u64(1);
    a.shuffle(&mut rng_a);
    b.shuffle(&mut rng_b);
    assert_ne!(drain(&mut a), drain(&mut b));
}

#[test]
fn draw_from_empty_deck_fails_with_empty_deck() {
    let mut deck = Deck::new();
    for _ in 0..52 {
        assert!(deck.pop().is_ok());
    }
    assert_eq!(deck.len(), 0);
    assert_eq!(deck.pop(), Err(GameError::EmptyDeck));
    assert_eq!(deck.pop(), Err(GameError::EmptyDeck));
    assert_eq!(deck.len(), 0);
}

#[test]
fn display_renders_rank_then_suit_glyph() {
    let ace_of_spades = Card::new(&Rank::A, &Suit::Spade);
    assert_eq!(ace_of_spades.display(), "A\u{2660}");
    let ten_of_hearts = Card::new(&Rank::Ten, &Suit::Heart);
    assert_eq!(ten_of_hearts.display(), "Ten\u{2665}");
    let queen_of_diamonds = Card::new(&Rank::Q, &Suit::Diamond);
    assert_eq!(queen_of_diamonds.display(), "Q\u{2666}");
    let two_of_clubs = Card::new(&Rank::Two, &Suit::Club);
    assert_eq!(two_of_clubs.display(), "Two\u{2663}");
}
