use holdem::card::Card;
use holdem::deck::Deck;
use holdem::error::GameError;
use holdem::game::Game;
use rand::SeedableRng;
use rand::rngs::StdRng;

fn seeded(seed: u64) -> StdRng {
    StdRng::seed_from_u64(seed)
}

fn all_held_cards(game: &Game) -> Vec<Card> {
    let mut held = Vec::new();
    for player in &game.players {
        for card in &player.hand {
            held.push(*card);
        }
    }
    held
}

#[test]
fn new_game_rejects_invalid_player_counts() {
    let mut rng = seeded(3);
    assert!(matches!(
        Game::new(0, &mut rng),
        Err(GameError::InvalidPlayerCount)
    ));
    assert!(matches!(
        Game::new(1, &mut rng),
        Err(GameError::InvalidPlayerCount)
    ));
    assert!(matches!(
        Game::new(9, &mut rng),
        Err(GameError::InvalidPlayerCount)
    ));
}

#[test]
fn new_game_accepts_both_bounds() {
    let mut rng = seeded(3);
    assert!(Game::new(2, &mut rng).is_ok());
    assert!(Game::new(8, &mut rng).is_ok());
}

#[test]
fn new_game_initial_state() {
    let mut rng = seeded(11);
    let game = Game::new(4, &mut rng).unwrap();
    assert_eq!(game.players.len(), 4);
    for (i, player) in game.players.iter().enumerate() {
        assert_eq!(player.id, format!("Player {}", i));
        assert!(player.hand.is_empty());
    }
    assert_eq!(game.deck.len(), 52);
    assert!(game.community_cards.is_empty());
}

#[test]
fn deal_end_to_end_four_players_two_cards() {
    let mut rng = seeded(5);
    let mut game = Game::new(4, &mut rng).unwrap();
    assert_eq!(game.deal(2), Ok(()));
    for player in &game.players {
        assert_eq!(player.hand.len(), 2);
    }
    let held = all_held_cards(&game);
    assert_eq!(held.len(), 8);
    for i in 0..held.len() {
        for j in 0..held.len() {
            if i != j {
                assert_ne!(held[i], held[j]);
            }
        }
    }
    assert_eq!(game.deck.len(), 44);
}

#[test]
fn deal_hands_out_cards_round_robin_from_the_top() {
    let mut rng = seeded(13);
    let mut game = Game::new(3, &mut rng).unwrap();
    assert_eq!(game.deal(2), Ok(()));

    let mut replay_rng = seeded(13);
    let mut replay = Deck::new();
    replay.shuffle(&mut replay_rng);
    let mut expected: Vec<Vec<Card>> = vec![Vec::new(), Vec::new(), Vec::new()];
    for _round in 0..2 {
        for hand in expected.iter_mut() {
            hand.push(replay.pop().unwrap());
        }
    }
    for (player, hand) in game.players.iter().zip(expected.iter()) {
        assert_eq!(&player.hand, hand);
    }
}

#[test]
fn deal_zero_cards_changes_nothing() {
    let mut rng = seeded(17);
    let mut game = Game::new(5, &mut rng).unwrap();
    assert_eq!(game.deal(0), Ok(()));
    for player in &game.players {
        assert!(player.hand.is_empty());
    }
    assert_eq!(game.deck.len(), 52);
}

#[test]
fn repeated_deals_append_to_hands() {
    let mut rng = seeded(19);
    let mut game = Game::new(4, &mut rng).unwrap();
    assert_eq!(game.deal(1), Ok(()));
    assert_eq!(game.deal(1), Ok(()));
    for player in &game.players {
        assert_eq!(player.hand.len(), 2);
    }
    assert_eq!(game.deck.len(), 44);
}

#[test]
fn deal_propagates_empty_deck_when_exhausted() {
    let mut rng = seeded(23);
    let mut game = Game::new(8, &mut rng).unwrap();
    // 8 x 7 = 56 > 52: the deck runs out mid-deal.
    assert_eq!(game.deal(7), Err(GameError::EmptyDeck));
    assert_eq!(game.deck.len(), 0);
    assert_eq!(all_held_cards(&game).len(), 52);
}

#[test]
fn deal_community_draws_one_card() {
    let mut rng = seeded(29);
    let mut game = Game::new(4, &mut rng).unwrap();
    assert_eq!(game.deal_community(), Ok(()));
    assert_eq!(game.community_cards.len(), 1);
    assert_eq!(game.deck.len(), 51);
    for player in &game.players {
        assert!(player.hand.is_empty());
    }
}

#[test]
fn deal_community_on_empty_deck_fails() {
    let mut rng = seeded(31);
    let mut game = Game::new(2, &mut rng).unwrap();
    while game.deck.len() > 0 {
        game.deal_community().unwrap();
    }
    assert_eq!(game.community_cards.len(), 52);
    assert_eq!(game.deal_community(), Err(GameError::EmptyDeck));
    assert_eq!(game.community_cards.len(), 52);
}
