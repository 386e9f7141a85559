use kabo::card::Card;
use kabo::pregame::{PreGame, PreGameError};

fn ranks_of(table: &PreGame, player_index: u8, hand_size: usize) -> Vec<u8> {
    let mut ranks = Vec::new();
    for i in 0..hand_size {
        ranks.push(table.player(player_index).card(i).unwrap().rank());
    }
    ranks
}

#[test]
fn sorted_deck_has_the_standard_ranks() {
    let deck = Card::sorted_deck();
    assert_eq!(deck.len(), 52);
    for rank in 0..=13u8 {
        let count = deck.iter().filter(|c| c.rank() == rank).count();
        let expected = if rank == 0 || rank == 13 { 2 } else { 4 };
        assert_eq!(count, expected, "rank {}", rank);
    }
    assert_eq!(deck[0].rank(), 0);
    assert_eq!(deck[2].rank(), 1);
    assert_eq!(deck[5].rank(), 1);
    assert_eq!(deck[6].rank(), 2);
    assert_eq!(deck[49].rank(), 12);
    assert_eq!(deck[50].rank(), 13);
    assert_eq!(deck[51].rank(), 13);
}

#[test]
fn full_deck_is_a_shuffled_standard_deck() {
    let deck = Card::full_deck();
    assert_eq!(deck.len(), 52);
    for rank in 0..=13u8 {
        let count = deck.iter().filter(|c| c.rank() == rank).count();
        let expected = if rank == 0 || rank == 13 { 2 } else { 4 };
        assert_eq!(count, expected, "rank {}", rank);
    }
    // Three shuffles that all leave the deck in factory order do not happen.
    let sorted = Card::sorted_deck();
    let moved = deck != sorted || Card::full_deck() != sorted || Card::full_deck() != sorted;
    assert!(moved);
}

#[test]
fn card_new_keeps_the_rank() {
    assert_eq!(Card::new(0).rank(), 0);
    assert_eq!(Card::new(7).rank(), 7);
    assert_eq!(Card::new(13).rank(), 13);
    assert_eq!(Card::new(5), Card::new(5));
    assert_ne!(Card::new(5), Card::new(6));
}

#[test]
fn deal_takes_cards_off_the_top() {
    let table = PreGame::deal(Card::sorted_deck(), vec!["A", "B", "C"], 4);
    assert_eq!(table.deck_len(), 39);
    assert_eq!(table.discard_len(), 1);
    assert_eq!(table.player_count(), 3);
    assert_eq!(table.player(0).name(), "A");
    assert_eq!(table.player(1).name(), "B");
    assert_eq!(table.player(2).name(), "C");
    assert_eq!(ranks_of(&table, 0, 4), vec![12, 12, 12, 13]);
    assert_eq!(ranks_of(&table, 1, 4), vec![11, 11, 11, 12]);
    assert_eq!(ranks_of(&table, 2, 4), vec![10, 10, 10, 11]);
    assert_eq!(table.total_peeks_left(), 6);
    assert_eq!(table.total_card_amout(), 52);
}

#[test]
fn deal_without_players_or_cards() {
    let table = PreGame::deal(Card::sorted_deck(), vec![], 4);
    assert_eq!(table.deck_len(), 51);
    assert_eq!(table.player_count(), 0);
    assert_eq!(table.total_peeks_left(), 0);
    assert_eq!(table.total_card_amout(), 52);

    let table = PreGame::deal(Card::sorted_deck(), vec!["A", "B"], 0);
    assert_eq!(table.deck_len(), 51);
    assert_eq!(table.player(1).hand_len(), 0);
    assert_eq!(table.total_peeks_left(), 4);
    assert_eq!(table.total_card_amout(), 52);
}

#[test]
fn deal_seats_any_number_of_players_without_cards() {
    let names: Vec<&str> = vec!["N"; 300];
    let table = PreGame::deal(Card::sorted_deck(), names, 0);
    assert_eq!(table.player_count(), 300);
    assert_eq!(table.total_peeks_left(), 600);
    assert_eq!(table.peeks_left(0), 2);
    assert_eq!(table.peeks_left(255), 2);
    assert_eq!(table.player(255).hand_len(), 0);
    assert_eq!(table.deck_len(), 51);
    assert_eq!(table.discard_len(), 1);
    assert_eq!(table.total_card_amout(), 52);

    let mut table = PreGame::new(vec!["N"; 128], 0);
    assert_eq!(table.player_count(), 128);
    assert_eq!(table.total_peeks_left(), 256);
    assert_eq!(table.peek(127, 0), Err(PreGameError::InvalidIndex));
    assert_eq!(table.total_peeks_left(), 256);
}

#[test]
fn deal_can_empty_the_deck() {
    let table = PreGame::deal(Card::sorted_deck(), vec!["A", "B", "C"], 17);
    assert_eq!(table.deck_len(), 0);
    assert_eq!(table.player(0).hand_len(), 17);
    assert_eq!(table.player(2).hand_len(), 17);
    assert_eq!(table.player(2).card(0).unwrap().rank(), 0);
    assert_eq!(table.total_card_amout(), 52);
}

#[test]
fn example_scenario() {
    let mut table = PreGame::new(vec!["A", "B", "C"], 4);
    assert_eq!(table.deck_len(), 39);
    assert_eq!(table.discard_len(), 1);
    assert_eq!(table.total_card_amout(), 52);
    for p in 0..3u8 {
        assert_eq!(table.peeks_left(p), 2);
        assert_eq!(table.player(p).hand_len(), 4);
    }

    let seen = table.peek(0, 0).unwrap();
    assert_eq!(Some(seen), table.player(0).card(0));
    assert_eq!(table.peeks_left(0), 1);
    assert_eq!(table.total_peeks_left(), 5);

    table.peek(0, 1).unwrap();
    table.peek(1, 0).unwrap();
    table.peek(1, 1).unwrap();
    table.peek(2, 0).unwrap();
    table.peek(2, 1).unwrap();
    assert_eq!(table.total_peeks_left(), 0);

    let game = table.to_game();
    assert_eq!(game.current_player(), 0);
    assert_eq!(game.hand_card(), None);
    assert_eq!(game.kabo(), None);
    assert_eq!(game.deck_len(), 39);
    assert_eq!(game.discard_len(), 1);
    assert_eq!(game.player_count(), 3);
}

#[test]
fn peek_allowance() {
    let mut table = PreGame::new(vec!["A", "B", "C"], 4);
    for p in 0..3u8 {
        assert!(table.peek(p, 3).is_ok());
        assert!(table.peek(p, 3).is_ok());
    }
    assert_eq!(table.total_peeks_left(), 0);
    for p in 0..3u8 {
        assert_eq!(table.peek(p, 0), Err(PreGameError::NoPeeksLeft));
        assert_eq!(table.peeks_left(p), 0);
    }
    assert_eq!(table.total_peeks_left(), 0);
}

#[test]
fn peek_reveals_the_card_asked_for() {
    let mut table = PreGame::deal(Card::sorted_deck(), vec!["A", "B", "C"], 4);
    assert_eq!(table.peek(0, 3), Ok(Card::new(13)));
    assert_eq!(table.peek(1, 0), Ok(Card::new(11)));
    assert_eq!(table.peek(2, 3), Ok(Card::new(11)));
    assert_eq!(table.peeks_left(0), 1);
    assert_eq!(table.peeks_left(1), 1);
    assert_eq!(table.peeks_left(2), 1);
    assert_eq!(table.total_peeks_left(), 3);
}

#[test]
fn peek_at_a_missing_card_costs_nothing() {
    let mut table = PreGame::new(vec!["A", "B"], 4);
    assert_eq!(table.peek(1, 4), Err(PreGameError::InvalidIndex));
    assert_eq!(table.peek(1, 255), Err(PreGameError::InvalidIndex));
    assert_eq!(table.peeks_left(1), 2);
    assert_eq!(table.total_peeks_left(), 4);
    assert!(table.peek(1, 0).is_ok());
    assert!(table.peek(1, 0).is_ok());
    // Without peeks the missing allowance is reported first.
    assert_eq!(table.peek(1, 4), Err(PreGameError::NoPeeksLeft));
    assert_eq!(table.total_peeks_left(), 2);
    assert_eq!(table.total_card_amout(), 52);
}
