use vstd::prelude::*;

verus! {

/// The four suits of a standard deck. Suits carry no ordering semantics;
/// they matter only for identity and for the display glyph.
#[derive(Debug, Clone, Copy, PartialEq, Eq, Structural)]
pub enum Suit {
    Spade,
    Heart,
    Diamond,
    Club,
}

/// The thirteen ranks, by conventional card strength (Two lowest, A highest).
#[derive(Debug, Clone, Copy, PartialEq, Eq, Structural)]
pub enum Rank {
    Two,
    Three,
    Four,
    Five,
    Six,
    Seven,
    Eight,
    Nine,
    Ten,
    J,
    Q,
    K,
    A,
}

/// A playing card: an immutable (rank, suit) pair. A full deck holds exactly
/// one card per combination, 13 x 4 = 52 in all.
#[derive(Debug, Clone, Copy, PartialEq, Eq, Structural)]
pub struct Card {
    pub rank: Rank,
    pub suit: Suit,
}

impl Card {
    pub fn new(rank: &Rank, suit: &Suit) -> (c: Card)
        ensures
            c == (Card { rank: *rank, suit: *suit }),
    {
        Card { rank: *rank, suit: *suit }
    }
}

/// Position of a suit in the canonical fresh-deck order.
pub open spec fn suit_index(s: Suit) -> int {
    match s {
        Suit::Spade => 0,
        Suit::Heart => 1,
        Suit::Diamond => 2,
        Suit::Club => 3,
    }
}

/// Position of a rank within one suit of the canonical fresh-deck order.
pub open spec fn rank_index(r: Rank) -> int {
    match r {
        Rank::A => 0,
        Rank::K => 1,
        Rank::Q => 2,
        Rank::J => 3,
        Rank::Ten => 4,
        Rank::Nine => 5,
        Rank::Eight => 6,
        Rank::Seven => 7,
        Rank::Six => 8,
        Rank::Five => 9,
        Rank::Four => 10,
        Rank::Three => 11,
        Rank::Two => 12,
    }
}

/// Inverse of `suit_index` on [0, 4).
pub open spec fn suit_of_index(i: int) -> Suit {
    if i == 0 {
        Suit::Spade
    } else if i == 1 {
        Suit::Heart
    } else if i == 2 {
        Suit::Diamond
    } else {
        Suit::Club
    }
}

/// Inverse of `rank_index` on [0, 13).
pub open spec fn rank_of_index(i: int) -> Rank {
    if i == 0 {
        Rank::A
    } else if i == 1 {
        Rank::K
    } else if i == 2 {
        Rank::Q
    } else if i == 3 {
        Rank::J
    } else if i == 4 {
        Rank::Ten
    } else if i == 5 {
        Rank::Nine
    } else if i == 6 {
        Rank::Eight
    } else if i == 7 {
        Rank::Seven
    } else if i == 8 {
        Rank::Six
    } else if i == 9 {
        Rank::Five
    } else if i == 10 {
        Rank::Four
    } else if i == 11 {
        Rank::Three
    } else {
        Rank::Two
    }
}

/// Position of a card in the canonical fresh deck: suit-major, rank-minor.
pub open spec fn card_index(c: Card) -> int {
    13 * suit_index(c.suit) + rank_index(c.rank)
}

/// The card standing at position `i` of the canonical fresh deck.
pub open spec fn card_of_index(i: int) -> Card {
    Card { rank: rank_of_index(i % 13), suit: suit_of_index(i / 13) }
}

/// `card_index` and `card_of_index` are inverse bijections between the 52
/// cards and the positions [0, 52); in particular distinct positions hold
/// distinct cards and every card has a position.
pub proof fn lemma_card_index_bijective()
    ensures
        forall|i: int| 0 <= i < 52 ==> #[trigger] card_index(card_of_index(i)) == i,
        forall|c: Card| 0 <= #[trigger] card_index(c) < 52 && card_of_index(card_index(c)) == c,
{
    assert forall|i: int| 0 <= i < 52 implies #[trigger] card_index(card_of_index(i)) == i by {
        let s = i / 13;
        let r = i % 13;
        assert(0 <= s < 4 && 0 <= r < 13);
        assert(suit_index(suit_of_index(s)) == s);
        assert(rank_index(rank_of_index(r)) == r);
        assert(i == 13 * s + r);
    }
    assert forall|c: Card| 0 <= #[trigger] card_index(c) < 52 && card_of_index(card_index(c))
        == c by {
        let s = suit_index(c.suit);
        let r = rank_index(c.rank);
        assert(0 <= s < 4 && 0 <= r < 13);
        assert((13 * s + r) / 13 == s && (13 * s + r) % 13 == r) by (nonlinear_arith)
            requires
                0 <= s < 4,
                0 <= r < 13,
        ;
        assert(card_of_index(13 * s + r) == c);
    }
}

/// The characters that render a rank, matching the rank's name.
pub open spec fn rank_label(r: Rank) -> Seq<char> {
    match r {
        Rank::A => seq!['A'],
        Rank::K => seq!['K'],
        Rank::Q => seq!['Q'],
        Rank::J => seq!['J'],
        Rank::Ten => seq!['T', 'e', 'n'],
        Rank::Nine => seq!['N', 'i', 'n', 'e'],
        Rank::Eight => seq!['E', 'i', 'g', 'h', 't'],
        Rank::Seven => seq!['S', 'e', 'v', 'e', 'n'],
        Rank::Six => seq!['S', 'i', 'x'],
        Rank::Five => seq!['F', 'i', 'v', 'e'],
        Rank::Four => seq!['F', 'o', 'u', 'r'],
        Rank::Three => seq!['T', 'h', 'r', 'e', 'e'],
        Rank::Two => seq!['T', 'w', 'o'],
    }
}

/// The glyph that renders a suit.
pub open spec fn suit_glyph(s: Suit) -> char {
    match s {
        Suit::Spade => '\u{2660}',
        Suit::Heart => '\u{2665}',
        Suit::Diamond => '\u{2666}',
        Suit::Club => '\u{2663}',
    }
}

/// The short human-readable token for a card: rank letters, then suit glyph.
pub open spec fn card_label(c: Card) -> Seq<char> {
    rank_label(c.rank).push(suit_glyph(c.suit))
}

fn rank_str(r: Rank) -> (s: &'static str)
    ensures
        s@ == rank_label(r),
{
    match r {
        Rank::A => {
            proof {
                reveal_strlit("A");
                assert("A"@ =~= rank_label(Rank::A));
            }
            "A"
        },
        Rank::K => {
            proof {
                reveal_strlit("K");
                assert("K"@ =~= rank_label(Rank::K));
            }
            "K"
        },
        Rank::Q => {
            proof {
                reveal_strlit("Q");
                assert("Q"@ =~= rank_label(Rank::Q));
            }
            "Q"
        },
        Rank::J => {
            proof {
                reveal_strlit("J");
                assert("J"@ =~= rank_label(Rank::J));
            }
            "J"
        },
        Rank::Ten => {
            proof {
                reveal_strlit("Ten");
                assert("Ten"@ =~= rank_label(Rank::Ten));
            }
            "Ten"
        },
        Rank::Nine => {
            proof {
                reveal_strlit("Nine");
                assert("Nine"@ =~= rank_label(Rank::Nine));
            }
            "Nine"
        },
        Rank::Eight => {
            proof {
                reveal_strlit("Eight");
                assert("Eight"@ =~= rank_label(Rank::Eight));
            }
            "Eight"
        },
        Rank::Seven => {
            proof {
                reveal_strlit("Seven");
                assert("Seven"@ =~= rank_label(Rank::Seven));
            }
            "Seven"
        },
        Rank::Six => {
            proof {
                reveal_strlit("Six");
                assert("Six"@ =~= rank_label(Rank::Six));
            }
            "Six"
        },
        Rank::Five => {
            proof {
                reveal_strlit("Five");
                assert("Five"@ =~= rank_label(Rank::Five));
            }
            "Five"
        },
        Rank::Four => {
            proof {
                reveal_strlit("Four");
                assert("Four"@ =~= rank_label(Rank::Four));
            }
            "Four"
        },
        Rank::Three => {
            proof {
                reveal_strlit("Three");
                assert("Three"@ =~= rank_label(Rank::Three));
            }
            "Three"
        },
        Rank::Two => {
            proof {
                reveal_strlit("Two");
                assert("Two"@ =~= rank_label(Rank::Two));
            }
            "Two"
        },
    }
}

fn suit_str(s: Suit) -> (t: &'static str)
    ensures
        t@ == seq![suit_glyph(s)],
{
    match s {
        Suit::Spade => {
            proof {
                reveal_strlit("\u{2660}");
                assert("\u{2660}"@ =~= seq![suit_glyph(Suit::Spade)]);
            }
            "\u{2660}"
        },
        Suit::Heart => {
            proof {
                reveal_strlit("\u{2665}");
                assert("\u{2665}"@ =~= seq![suit_glyph(Suit::Heart)]);
            }
            "\u{2665}"
        },
        Suit::Diamond => {
            proof {
                reveal_strlit("\u{2666}");
                assert("\u{2666}"@ =~= seq![suit_glyph(Suit::Diamond)]);
            }
            "\u{2666}"
        },
        Suit::Club => {
            proof {
                reveal_strlit("\u{2663}");
                assert("\u{2663}"@ =~= seq![suit_glyph(Suit::Club)]);
            }
            "\u{2663}"
        },
    }
}

impl Card {
    /// Render the card as its short human-readable token, e.g. A followed by
    /// the spade glyph.
    pub fn display(&self) -> (s: String)
        ensures
            s@ == card_label(*self),
    {
        let mut s = String::from_str(rank_str(self.rank));
        s.append(suit_str(self.suit));
        proof {
            assert(s@ =~= card_label(*self));
        }
        s
    }
}

} // verus!
