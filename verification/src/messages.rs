//! The vocabulary that a session layer exchanges with the players.

use crate::card::Card;
use crate::game::GameError;
use vstd::prelude::*;

verus! {

/// What a player can ask the engine to do on their turn.
#[derive(Debug, Clone, PartialEq, Eq)]
pub enum Action {
    // Before a card is held
    DeckDraw,
    DiscardDraw,
    Kabo,
    // While a card is held
    Replace { card_index: u8 },
    MultiReplace { card_type: Card, card_indices: Vec<u8> },
    Peek { card_index: u8 },
    Spy { other_player_index: u8, card_index: u8 },
    Swap { my_card_index: u8, other_player_index: u8, other_card_index: u8 },
    Discard,
}

/// What a player sends.
#[derive(Debug, Clone, PartialEq, Eq)]
pub enum Player {
    // At any time
    AskState { player_index: u8 },
    Play { action: Action },
}

/// What the session layer sends.
#[derive(Debug, Clone, PartialEq, Eq)]
pub enum Server {
    // For everybody
    StartTurn { player_index: u8 },
    ActionSuccess { player_index: u8, action: Action, discards: Vec<Card> },
    MultiReplaceFailure { player_index: u8, card_type_claimed: Card, cards_seen: Vec<(u8, Card)> },
    // For one player
    CardDrawn { card: Card },
    CardSeen { player_index: u8, card_index: u8, card: Card },
    Error { error: GameError },
}

} // verus!
