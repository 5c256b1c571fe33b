//! A verified core for a Texas Hold 'em style dealing engine: the 52-card
//! deck model, shuffling through an injected random generator, and a
//! round-robin dealing protocol that neither loses nor duplicates a card.

pub mod card;
pub mod deck;
pub mod error;
pub mod game;
pub mod shuffle;
