use kabo::card::Card;
use kabo::game::{Game, GameError, GameEvent, PlayerState};
use kabo::pregame::PreGame;

/// A game of `players` players dealt from a deck in factory order.
fn sorted_game(players: usize) -> Game {
    let names = vec!["A", "B", "C", "D", "E"];
    let mut table = PreGame::deal(Card::sorted_deck(), names[..players].to_vec(), 4);
    for p in 0..players as u8 {
        table.peek(p, 0).unwrap();
        table.peek(p, 1).unwrap();
    }
    table.to_game()
}

fn shuffled_game() -> Game {
    let mut table = PreGame::new(vec!["A", "B", "C"], 4);
    for p in 0..3u8 {
        table.peek(p, 0).unwrap();
        table.peek(p, 1).unwrap();
    }
    table.to_game()
}

fn cards_at_rest(game: &Game) -> usize {
    let mut total = game.deck_len() + game.discard_len();
    for p in 0..game.player_count() as u8 {
        total += game.player(p).hand_len();
    }
    total
}

#[test]
fn draw_from_the_deck() {
    let mut game = sorted_game(3);
    assert_eq!(game.deck_draw(), Ok(vec![]));
    assert_eq!(game.hand_card(), Some(Card::new(10)));
    assert_eq!(game.deck_len(), 38);
    assert_eq!(game.discard_len(), 1);
    assert_eq!(game.current_player(), 0);
}

#[test]
fn draw_from_the_discard_pile() {
    let mut game = sorted_game(3);
    assert_eq!(game.discard_top(), Some(Card::new(13)));
    assert_eq!(game.discard_draw(), Ok(vec![]));
    assert_eq!(game.hand_card(), Some(Card::new(13)));
    assert_eq!(game.discard_len(), 0);
    assert_eq!(game.discard_top(), None);
    assert_eq!(game.deck_len(), 39);
}

#[test]
fn discard_ends_the_turn() {
    let mut game = sorted_game(3);
    game.deck_draw().unwrap();
    assert_eq!(
        game.discard(),
        Ok(vec![
            GameEvent::Discards { cards: vec![Card::new(10)] },
            GameEvent::EndTurn { next_player: 1 },
        ])
    );
    assert_eq!(game.hand_card(), None);
    assert_eq!(game.discard_top(), Some(Card::new(10)));
    assert_eq!(game.discard_len(), 2);
    assert_eq!(game.current_player(), 1);
}

#[test]
fn turn_wraps_after_the_last_player() {
    let mut game = sorted_game(3);
    for expected in [1u8, 2, 0, 1] {
        game.deck_draw().unwrap();
        let events = game.discard().unwrap();
        assert_eq!(events[1], GameEvent::EndTurn { next_player: expected });
        assert_eq!(game.current_player(), expected);
    }
}

#[test]
fn replace_semantics() {
    let mut game = sorted_game(3);
    game.deck_draw().unwrap();
    let held = game.hand_card().unwrap();
    let face_down = game.player(1).card(3).unwrap();
    assert_eq!(held, Card::new(10));
    assert_eq!(face_down, Card::new(12));
    let events = game.replace(1, 3).unwrap();
    assert_eq!(
        events,
        vec![
            GameEvent::Discards { cards: vec![face_down] },
            GameEvent::EndTurn { next_player: 1 },
        ]
    );
    assert_eq!(game.player(1).card(3), Some(held));
    assert_eq!(game.player(1).card(0), Some(Card::new(11)));
    assert_eq!(game.player(1).hand_len(), 4);
    assert_eq!(game.discard_top(), Some(face_down));
    assert_eq!(game.hand_card(), None);
    assert_eq!(game.current_player(), 1);
    assert_eq!(cards_at_rest(&game), 52);
}

#[test]
fn replace_at_a_missing_slot_changes_nothing() {
    let mut game = sorted_game(3);
    game.deck_draw().unwrap();
    assert_eq!(game.replace(0, 4), Err(GameError::InvalidIndex));
    assert_eq!(game.hand_card(), Some(Card::new(10)));
    assert_eq!(game.current_player(), 0);
    assert_eq!(game.discard_len(), 1);
    assert_eq!(game.player(0).card(3), Some(Card::new(13)));
}

#[test]
fn phase_guard_without_a_held_card() {
    let mut game = sorted_game(3);
    assert_eq!(game.discard(), Err(GameError::WrongPhase));
    assert_eq!(game.replace(0, 0), Err(GameError::WrongPhase));
    assert_eq!(game.multi_replace(0, vec![0, 1]), Err(GameError::WrongPhase));
    assert_eq!(game.multi_replace(0, vec![0]), Err(GameError::WrongPhase));
    assert_eq!(game.multi_replace(0, vec![]), Err(GameError::WrongPhase));
    assert_eq!(game.peek(0, 0), Err(GameError::WrongPhase));
    assert_eq!(game.hand_card(), None);
    assert_eq!(game.current_player(), 0);
    assert_eq!(game.deck_len(), 39);
    assert_eq!(game.discard_len(), 1);
    assert!(game.deck_draw().is_ok());
}

#[test]
fn phase_guard_with_a_held_card() {
    let mut game = sorted_game(3);
    game.deck_draw().unwrap();
    assert_eq!(game.deck_draw(), Err(GameError::WrongPhase));
    assert_eq!(game.discard_draw(), Err(GameError::WrongPhase));
    assert_eq!(game.announce_kabo(), Err(GameError::WrongPhase));
    assert_eq!(game.hand_card(), Some(Card::new(10)));
    assert_eq!(game.kabo(), None);
    assert_eq!(game.deck_len(), 38);
    assert_eq!(game.discard_len(), 1);
    assert!(game.discard().is_ok());
}

#[test]
fn peek_needs_a_seven_or_an_eight() {
    let mut game = sorted_game(3);
    game.deck_draw().unwrap();
    assert_eq!(game.peek(0, 0), Err(GameError::WrongCard));
    assert_eq!(game.hand_card(), Some(Card::new(10)));
    assert_eq!(game.current_player(), 0);
}

#[test]
fn multi_replace_needs_two_indices() {
    let mut game = sorted_game(3);
    game.deck_draw().unwrap();
    assert_eq!(game.multi_replace(0, vec![]), Err(GameError::InvalidIndex));
    assert_eq!(game.multi_replace(0, vec![1]), Err(GameError::InvalidIndex));
    assert_eq!(game.hand_card(), Some(Card::new(10)));
    assert_eq!(game.current_player(), 0);
    assert_eq!(game.discard_len(), 1);
}

#[test]
fn kabo_termination() {
    let mut game = sorted_game(3);
    game.deck_draw().unwrap();
    game.discard().unwrap();
    assert_eq!(
        game.announce_kabo(),
        Ok(vec![GameEvent::Kabo { player_index: 1 }, GameEvent::EndTurn { next_player: 2 }])
    );
    assert_eq!(game.kabo(), Some(1));
    assert_eq!(game.announce_kabo(), Err(GameError::AlreadyKabo { player_index: 1 }));

    game.deck_draw().unwrap();
    let events = game.discard().unwrap();
    assert_eq!(events[1], GameEvent::EndTurn { next_player: 0 });
    assert_eq!(game.announce_kabo(), Err(GameError::AlreadyKabo { player_index: 1 }));

    game.discard_draw().unwrap();
    let events = game.replace(0, 0).unwrap();
    assert_eq!(events.len(), 2);
    assert_eq!(events[1], GameEvent::GameOver);
    assert_eq!(game.current_player(), 1);
}

#[test]
fn kabo_alone_at_the_table() {
    let mut game = sorted_game(1);
    assert_eq!(
        game.announce_kabo(),
        Ok(vec![GameEvent::Kabo { player_index: 0 }, GameEvent::GameOver])
    );
    assert_eq!(game.current_player(), 0);
}

#[test]
fn deck_exhaustion() {
    let mut game = shuffled_game();
    let mut discarded: Vec<u8> = vec![game.discard_top().unwrap().rank()];
    for _ in 0..39 {
        assert_eq!(game.deck_draw(), Ok(vec![]));
        discarded.push(game.hand_card().unwrap().rank());
        game.discard().unwrap();
    }
    assert_eq!(game.deck_len(), 0);
    assert_eq!(game.discard_len(), 40);

    assert_eq!(game.deck_draw(), Ok(vec![GameEvent::DiscardShuffle]));
    assert_eq!(game.deck_len(), 39);
    assert_eq!(game.discard_len(), 0);
    assert!(game.hand_card().is_some());

    let mut refilled: Vec<u8> = Vec::new();
    refilled.push(game.hand_card().unwrap().rank());
    game.discard().unwrap();
    for _ in 0..39 {
        game.deck_draw().unwrap();
        refilled.push(game.hand_card().unwrap().rank());
        game.discard().unwrap();
    }
    discarded.sort();
    refilled.sort();
    assert_eq!(discarded, refilled);
}

#[test]
fn refill_takes_the_order_given() {
    let mut game = sorted_game(3);
    for _ in 0..39 {
        game.deck_draw().unwrap();
        game.discard().unwrap();
    }
    assert_eq!(game.discard_len(), 40);
    // The pile, bottom first: the 13 that was turned up, then the deck from its top down.
    let mut order: Vec<Card> = Card::sorted_deck()[..39].to_vec();
    order.push(Card::new(13));
    let events = game.refill_and_draw(order);
    assert_eq!(events, vec![GameEvent::DiscardShuffle]);
    assert_eq!(game.hand_card(), Some(Card::new(13)));
    assert_eq!(game.deck_len(), 39);
    assert_eq!(game.discard_len(), 0);
    game.discard().unwrap();
    game.deck_draw().unwrap();
    assert_eq!(game.hand_card(), Some(Card::new(10)));
}

#[test]
fn card_count_and_ranks_stay() {
    let mut game = shuffled_game();
    let mut seen: Vec<u8> = Vec::new();
    for p in 0..3u8 {
        for i in 0..4 {
            seen.push(game.player(p).card(i).unwrap().rank());
        }
    }
    seen.push(game.discard_top().unwrap().rank());
    assert_eq!(cards_at_rest(&game), 52);
    for turn in 0..39 {
        game.deck_draw().unwrap();
        seen.push(game.hand_card().unwrap().rank());
        assert_eq!(cards_at_rest(&game), 51);
        if turn % 2 == 0 {
            game.replace((turn % 3) as u8, (turn % 4) as u8).unwrap();
        } else {
            game.discard().unwrap();
        }
        assert_eq!(cards_at_rest(&game), 52);
    }
    for rank in 0..=13u8 {
        let count = seen.iter().filter(|r| **r == rank).count();
        let expected = if rank == 0 || rank == 13 { 2 } else { 4 };
        assert_eq!(count, expected, "rank {}", rank);
    }
}

#[test]
fn player_state_shows_the_phase() {
    let mut game = sorted_game(3);
    assert_eq!(game.player_state(0), PlayerState::AwaitingDraw);
    assert_eq!(game.player_state(1), PlayerState::Waiting);
    game.deck_draw().unwrap();
    assert_eq!(game.player_state(0), PlayerState::HoldingCard);
    assert_eq!(game.player_state(2), PlayerState::Waiting);
    game.discard().unwrap();
    assert_eq!(game.player_state(0), PlayerState::Waiting);
    assert_eq!(game.player_state(1), PlayerState::AwaitingDraw);
}

#[test]
fn table_without_players_keeps_the_cursor() {
    let mut game = PreGame::deal(Card::sorted_deck(), vec![], 4).to_game();
    game.deck_draw().unwrap();
    let events = game.discard().unwrap();
    assert_eq!(events[1], GameEvent::EndTurn { next_player: 0 });
    assert_eq!(game.current_player(), 0);
}
