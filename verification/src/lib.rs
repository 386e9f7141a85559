//! A turn engine for the card game Kabo: a shared deck and discard pile,
//! face-down hands, a setup phase with a peek allowance, and the turn state
//! machine that ends once the round returns to the player who called Kabo.

pub mod card;
pub mod player;
pub mod game;
pub mod pregame;
pub mod laws;
pub mod messages;
