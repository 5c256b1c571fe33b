use vstd::prelude::*;

verus! {

/// The two failure conditions of the dealing core.
#[derive(Debug, Clone, Copy, PartialEq, Eq, Structural)]
pub enum GameError {
    /// A draw was attempted on a deck with no remaining cards.
    EmptyDeck,
    /// Game construction was asked for a player count outside [2, 8].
    InvalidPlayerCount,
}

} // verus!
