use vstd::prelude::*;

use crate::card::Card;
use crate::deck::{Deck, full_deck, lemma_full_deck_no_duplicates};
use crate::error::GameError;
use rand::rngs::StdRng;
use vstd::multiset::Multiset;

verus! {

broadcast use vstd::seq_lib::group_to_multiset_ensures;

/// One seat at the table: an identity label plus the ordered hand. The hand
/// starts empty and grows only by deals from the deck.
#[derive(Debug)]
pub struct Player {
    pub id: String,
    pub hand: Vec<Card>,
}

impl Player {
    pub fn new(id: String) -> (p: Player)
        ensures
            p.id == id,
            p.hand@ == Seq::<Card>::empty(),
    {
        Player { id, hand: Vec::new() }
    }
}

/// The decimal digit character for d in [0, 8), the legal player indices.
pub open spec fn digit_char(d: int) -> char {
    if d == 0 {
        '0'
    } else if d == 1 {
        '1'
    } else if d == 2 {
        '2'
    } else if d == 3 {
        '3'
    } else if d == 4 {
        '4'
    } else if d == 5 {
        '5'
    } else if d == 6 {
        '6'
    } else {
        '7'
    }
}

/// The identity label given to the player at seat i.
pub open spec fn player_label(i: int) -> Seq<char> {
    seq!['P', 'l', 'a', 'y', 'e', 'r', ' ', digit_char(i)]
}

fn digit_str(i: usize) -> (s: &'static str)
    requires
        i < 8,
    ensures
        s@ == seq![digit_char(i as int)],
{
    match i {
        0 => {
            proof {
                reveal_strlit("0");
                assert("0"@ =~= seq![digit_char(0)]);
            }
            "0"
        },
        1 => {
            proof {
                reveal_strlit("1");
                assert("1"@ =~= seq![digit_char(1)]);
            }
            "1"
        },
        2 => {
            proof {
                reveal_strlit("2");
                assert("2"@ =~= seq![digit_char(2)]);
            }
            "2"
        },
        3 => {
            proof {
                reveal_strlit("3");
                assert("3"@ =~= seq![digit_char(3)]);
            }
            "3"
        },
        4 => {
            proof {
                reveal_strlit("4");
                assert("4"@ =~= seq![digit_char(4)]);
            }
            "4"
        },
        5 => {
            proof {
                reveal_strlit("5");
                assert("5"@ =~= seq![digit_char(5)]);
            }
            "5"
        },
        6 => {
            proof {
                reveal_strlit("6");
                assert("6"@ =~= seq![digit_char(6)]);
            }
            "6"
        },
        _ => {
            proof {
                reveal_strlit("7");
                assert("7"@ =~= seq![digit_char(7)]);
            }
            "7"
        },
    }
}

fn label_for(i: usize) -> (s: String)
    requires
        i < 8,
    ensures
        s@ == player_label(i as int),
{
    let mut s = String::from_str("Player ");
    s.append(digit_str(i));
    proof {
        reveal_strlit("Player ");
        assert(s@ =~= player_label(i as int));
    }
    s
}

/// The multiset of cards held across a sequence of players' hands.
pub open spec fn hands_cards(players: Seq<Player>) -> Multiset<Card>
    decreases players.len(),
{
    if players.len() == 0 {
        Multiset::empty()
    } else {
        players.first().hand@.to_multiset().add(hands_cards(players.drop_first()))
    }
}

proof fn lemma_hands_cards_all_empty(players: Seq<Player>)
    requires
        forall|p: int| 0 <= p < players.len() ==> #[trigger] players[p].hand@ == Seq::<
            Card,
        >::empty(),
    ensures
        hands_cards(players) == Multiset::<Card>::empty(),
    decreases players.len(),
{
    if players.len() > 0 {
        assert(players[0].hand@ == Seq::<Card>::empty());
        assert(players.first().hand@.to_multiset().len() == 0);
        assert(players.first().hand@.to_multiset() =~= Multiset::<Card>::empty());
        assert(forall|p: int|
            0 <= p < players.drop_first().len() ==> #[trigger] players.drop_first()[p].hand@
                == players[p + 1].hand@);
        lemma_hands_cards_all_empty(players.drop_first());
        assert(hands_cards(players) =~= Multiset::<Card>::empty());
    }
}

/// Replacing player i's hand by the same hand with one more card pushed on
/// it inserts exactly that card into the multiset of held cards.
proof fn lemma_hands_cards_push(players: Seq<Player>, i: int, pl: Player, c: Card)
    requires
        0 <= i < players.len(),
        pl.hand@ == players[i].hand@.push(c),
    ensures
        hands_cards(players.update(i, pl)) == hands_cards(players).insert(c),
    decreases players.len(),
{
    let updated = players.update(i, pl);
    if i == 0 {
        assert(updated.first() == pl);
        assert(updated.drop_first() =~= players.drop_first());
        assert(pl.hand@.to_multiset() =~= players[0].hand@.to_multiset().insert(c));
        assert(hands_cards(updated) =~= hands_cards(players).insert(c));
    } else {
        assert(updated.first() == players.first());
        assert(updated.drop_first() =~= players.drop_first().update(i - 1, pl));
        assert(players.drop_first()[i - 1] == players[i]);
        lemma_hands_cards_push(players.drop_first(), i - 1, pl, c);
        assert(hands_cards(updated) =~= hands_cards(players).insert(c));
    }
}

/// The multiset of one player's hand counts into the multiset of all hands.
proof fn lemma_hands_cards_count_ge(players: Seq<Player>, i: int, c: Card)
    requires
        0 <= i < players.len(),
    ensures
        hands_cards(players).count(c) >= players[i].hand@.to_multiset().count(c),
    decreases players.len(),
{
    if i > 0 {
        lemma_hands_cards_count_ge(players.drop_first(), i - 1, c);
        assert(players.drop_first()[i - 1] == players[i]);
    }
}

/// Two different players' hands count into the multiset of all hands
/// independently.
proof fn lemma_hands_cards_count_two(players: Seq<Player>, i: int, j: int, c: Card)
    requires
        0 <= i < j < players.len(),
    ensures
        hands_cards(players).count(c) >= players[i].hand@.to_multiset().count(c)
            + players[j].hand@.to_multiset().count(c),
    decreases players.len(),
{
    if i == 0 {
        lemma_hands_cards_count_ge(players.drop_first(), j - 1, c);
        assert(players.drop_first()[j - 1] == players[j]);
    } else {
        lemma_hands_cards_count_two(players.drop_first(), i - 1, j - 1, c);
        assert(players.drop_first()[i - 1] == players[i]);
        assert(players.drop_first()[j - 1] == players[j]);
    }
}

/// A table: the fixed players, the single shared deck, and the community
/// card pool.
#[derive(Debug)]
pub struct Game {
    pub players: Vec<Player>,
    pub deck: Deck,
    pub community_cards: Vec<Card>,
}

/// Every card in play: the deck, all hands, and the community pool together.
pub open spec fn game_cards(g: Game) -> Multiset<Card> {
    g.deck@.to_multiset().add(hands_cards(g.players@)).add(g.community_cards@.to_multiset())
}

/// The card that round-robin dealing hands to player p in round t, when n
/// players sit at a table whose deck held deck0: cards leave from the top
/// (the end) of the deck, one per player per round.
pub open spec fn dealt_card(deck0: Seq<Card>, n: int, t: int, p: int) -> Card {
    deck0[deck0.len() - 1 - (t * n + p)]
}

/// The cards player p receives over the first `rounds` rounds, in draw order.
pub open spec fn dealt_cards(deck0: Seq<Card>, n: int, p: int, rounds: int) -> Seq<Card> {
    Seq::new(rounds as nat, |t: int| dealt_card(deck0, n, t, p))
}

impl Game {
    /// A well-formed game: a legal player count, and the cards in play are
    /// exactly the original 52-card set, none lost, none duplicated.
    pub open spec fn wf(self) -> bool {
        &&& 2 <= self.players@.len() <= 8
        &&& game_cards(self) == full_deck().to_multiset()
    }

    /// Initialize a game: `num_players` players with empty hands, a fresh
    /// shuffled deck, and an empty community pool. Rejects any player count
    /// outside [2, 8] without constructing anything.
    pub fn new(num_players: usize, rng: &mut StdRng) -> (r: Result<Game, GameError>)
        ensures
            match r {
                Ok(g) => {
                    &&& 2 <= num_players <= 8
                    &&& g.players@.len() == num_players
                    &&& forall|p: int|
                        0 <= p < num_players ==> #[trigger] g.players@[p].hand@ == Seq::<
                            Card,
                        >::empty()
                    &&& forall|p: int|
                        0 <= p < num_players ==> #[trigger] g.players@[p].id@ == player_label(p)
                    &&& g.deck@.to_multiset() == full_deck().to_multiset()
                    &&& g.deck@.len() == 52
                    &&& g.community_cards@ == Seq::<Card>::empty()
                    &&& g.wf()
                },
                Err(e) => e == GameError::InvalidPlayerCount && !(2 <= num_players <= 8),
            },
    {
        if num_players < 2 || num_players > 8 {
            return Err(GameError::InvalidPlayerCount);
        }
        let mut players: Vec<Player> = Vec::new();
        let mut i: usize = 0;
        while i < num_players
            invariant
                i <= num_players <= 8,
                players@.len() == i,
                forall|p: int| 0 <= p < i ==> #[trigger] players@[p].hand@ == Seq::<Card>::empty(),
                forall|p: int| 0 <= p < i ==> #[trigger] players@[p].id@ == player_label(p),
            decreases num_players - i,
        {
            players.push(Player::new(label_for(i)));
            i += 1;
        }
        let mut deck = Deck::new();
        deck.shuffle(rng);
        let game = Game { players, deck, community_cards: Vec::new() };
        proof {
            lemma_hands_cards_all_empty(game.players@);
            assert(game_cards(game) =~= full_deck().to_multiset());
        }
        Ok(game)
    }

    /// Deal `num_cards` cards to every player, one card per player per round
    /// in round-robin order, drawing each card from the top of the deck and
    /// appending it to the receiving hand. Succeeds exactly when the deck
    /// holds enough cards for every player; otherwise the deck is exhausted
    /// and `EmptyDeck` is reported. Either way no card is lost or duplicated.
    #[verifier::loop_isolation(false)]
    pub fn deal(&mut self, num_cards: u8) -> (r: Result<(), GameError>)
        ensures
            final(self).players@.len() == old(self).players@.len(),
            forall|q: int|
                0 <= q < old(self).players@.len()
                    ==> #[trigger] final(self).players@[q].id == old(self).players@[q].id,
            final(self).community_cards@ == old(self).community_cards@,
            game_cards(*final(self)) == game_cards(*old(self)),
            r is Ok <==> old(self).deck@.len() >= num_cards as int * old(self).players@.len(),
            r is Ok ==> final(self).deck@ == old(self).deck@.take(
                old(self).deck@.len() - num_cards as int * old(self).players@.len(),
            ),
            r is Ok ==> forall|q: int|
                0 <= q < old(self).players@.len() ==> #[trigger] final(self).players@[q].hand@
                    == old(self).players@[q].hand@ + dealt_cards(
                    old(self).deck@,
                    old(self).players@.len() as int,
                    q,
                    num_cards as int,
                ),
            r is Ok ==> forall|q: int|
                0 <= q < old(self).players@.len() ==> #[trigger] final(self).players@[q].hand@.len()
                    == old(self).players@[q].hand@.len() + num_cards,
            r is Ok ==> hands_cards(final(self).players@).len() == hands_cards(
                old(self).players@,
            ).len() + num_cards as int * old(self).players@.len(),
            r is Err ==> r == Err::<(), GameError>(GameError::EmptyDeck) && final(self).deck@.len()
                == 0,
            old(self).wf() ==> final(self).wf(),
    {
        let ghost deck0 = self.deck@;
        let ghost players0 = self.players@;
        let ghost community0 = self.community_cards@;
        let ghost cards0 = game_cards(*self);
        let n: usize = self.players.len();
        let mut t: u8 = 0;
        while t < num_cards
            invariant
                t <= num_cards,
                n == players0.len(),
                self.players@.len() == n,
                self.community_cards@ == community0,
                self.deck@ == deck0.take(deck0.len() - t as int * n as int),
                t as int * n as int <= deck0.len(),
                game_cards(*self) == cards0,
                forall|q: int|
                    0 <= q < n ==> #[trigger] self.players@[q].id == players0[q].id,
                forall|q: int|
                    0 <= q < n ==> #[trigger] self.players@[q].hand@ == players0[q].hand@
                        + dealt_cards(deck0, n as int, q, t as int),
            decreases num_cards - t,
        {
            let ghost t0 = t as int;
            let mut p: usize = 0;
            while p < n
                invariant
                    p <= n,
                    t0 < num_cards,
                    n == players0.len(),
                    self.players@.len() == n,
                    self.community_cards@ == community0,
                    self.deck@ == deck0.take(deck0.len() - (t0 * n as int + p as int)),
                    t0 * n as int + p as int <= deck0.len(),
                    game_cards(*self) == cards0,
                    forall|q: int|
                        0 <= q < n ==> #[trigger] self.players@[q].id == players0[q].id,
                    forall|q: int|
                        q < p && 0 <= q ==> #[trigger] self.players@[q].hand@ == players0[q].hand@
                            + dealt_cards(deck0, n as int, q, t0 + 1),
                    forall|q: int|
                        p <= q < n ==> #[trigger] self.players@[q].hand@ == players0[q].hand@
                            + dealt_cards(deck0, n as int, q, t0),
                decreases n - p,
            {
                let ghost pre = *self;
                let ghost m = t0 * n as int + p as int;
                let c = match self.deck.pop() {
                    Ok(c) => c,
                    Err(e) => {
                        proof {
                            assert(deck0.len() == m);
                            assert(m < (t0 + 1) * n as int) by (nonlinear_arith)
                                requires
                                    m == t0 * n as int + p as int,
                                    p < n,
                            ;
                            assert((t0 + 1) * n as int <= num_cards as int * n as int)
                                by (nonlinear_arith)
                                requires
                                    t0 + 1 <= num_cards as int,
                                    n as int >= 0,
                            ;
                        }
                        return Err(e);
                    },
                };
                proof {
                    assert(c == deck0[deck0.len() - 1 - m]);
                    assert(pre.deck@ =~= self.deck@.push(c));
                    assert(self.deck@ =~= deck0.take(deck0.len() - (m + 1)));
                }
                self.players[p].hand.push(c);
                proof {
                    let pl = self.players@[p as int];
                    assert(pl.hand@ == pre.players@[p as int].hand@.push(c));
                    assert(self.players@ =~= pre.players@.update(p as int, pl));
                    lemma_hands_cards_push(pre.players@, p as int, pl, c);
                    assert(game_cards(*self) =~= game_cards(pre));
                    assert((players0[p as int].hand@ + dealt_cards(deck0, n as int, p as int, t0))
                        .push(c) =~= players0[p as int].hand@ + dealt_cards(
                        deck0,
                        n as int,
                        p as int,
                        t0 + 1,
                    ));
                }
                p += 1;
            }
            proof {
                assert((t as int + 1) * n as int == t as int * n as int + n as int)
                    by (nonlinear_arith);
            }
            t += 1;
        }
        proof {
            assert(forall|q: int|
                0 <= q < n ==> (players0[q].hand@ + dealt_cards(
                    deck0,
                    n as int,
                    q,
                    num_cards as int,
                )).len() == players0[q].hand@.len() + num_cards);
            assert(game_cards(*self).len() == self.deck@.to_multiset().len() + hands_cards(
                self.players@,
            ).len() + self.community_cards@.to_multiset().len());
            assert(cards0.len() == deck0.to_multiset().len() + hands_cards(players0).len()
                + community0.to_multiset().len());
            assert(self.deck@.to_multiset().len() == deck0.len() - num_cards as int * n as int);
        }
        Ok(())
    }

    /// Draw one card from the deck and append it to the community pool; the
    /// same `EmptyDeck` failure as any other draw, and the same conservation
    /// of the cards in play.
    pub fn deal_community(&mut self) -> (r: Result<(), GameError>)
        ensures
            final(self).players@ == old(self).players@,
            game_cards(*final(self)) == game_cards(*old(self)),
            r is Ok <==> old(self).deck@.len() >= 1,
            r is Ok ==> final(self).deck@ == old(self).deck@.drop_last()
                && final(self).community_cards@ == old(self).community_cards@.push(
                old(self).deck@.last(),
            ),
            r is Err ==> r == Err::<(), GameError>(GameError::EmptyDeck) && final(self).deck@
                == old(self).deck@ && final(self).community_cards@ == old(self).community_cards@,
            old(self).wf() ==> final(self).wf(),
    {
        let ghost pre = *self;
        match self.deck.pop() {
            Ok(c) => {
                self.community_cards.push(c);
                proof {
                    assert(pre.deck@ =~= self.deck@.push(c));
                    assert(game_cards(*self) =~= game_cards(pre));
                }
                Ok(())
            },
            Err(e) => Err(e),
        }
    }
}

/// Law: in a well-formed game each card occurs at most once over the deck,
/// all hands, and the community pool together.
pub proof fn lemma_wf_cards_unique(g: Game)
    requires
        g.wf(),
    ensures
        forall|c: Card| #[trigger] game_cards(g).count(c) <= 1,
{
    lemma_full_deck_no_duplicates();
    full_deck().lemma_multiset_has_no_duplicates();
    assert forall|c: Card| #[trigger] game_cards(g).count(c) <= 1 by {
        if game_cards(g).count(c) > 1 {
            assert(full_deck().to_multiset().contains(c));
        }
    }
}

/// Law: in a well-formed game no card appears in more than one hand: a card
/// held by player p and by player q means p and q are the same seat.
pub proof fn lemma_hands_disjoint(g: Game, p: int, q: int, c: Card)
    requires
        g.wf(),
        0 <= p < g.players@.len(),
        0 <= q < g.players@.len(),
        g.players@[p].hand@.contains(c),
        g.players@[q].hand@.contains(c),
    ensures
        p == q,
{
    if p != q {
        let i = if p < q {
            p
        } else {
            q
        };
        let j = if p < q {
            q
        } else {
            p
        };
        lemma_hands_cards_count_two(g.players@, i, j, c);
        lemma_wf_cards_unique(g);
        assert(game_cards(g).count(c) >= hands_cards(g.players@).count(c));
    }
}

/// Law: in a well-formed game no player holds the same card twice.
pub proof fn lemma_hand_no_duplicates(g: Game, p: int)
    requires
        g.wf(),
        0 <= p < g.players@.len(),
    ensures
        g.players@[p].hand@.no_duplicates(),
{
    lemma_wf_cards_unique(g);
    assert forall|c: Card| g.players@[p].hand@.to_multiset().contains(c)
        implies g.players@[p].hand@.to_multiset().count(c) == 1 by {
        lemma_hands_cards_count_ge(g.players@, p, c);
        assert(game_cards(g).count(c) >= hands_cards(g.players@).count(c));
        assert(game_cards(g).count(c) <= 1);
    }
    g.players@[p].hand@.lemma_multiset_has_no_duplicates_conv();
}

} // verus!
