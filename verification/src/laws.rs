//! What holds of every table and of every game, whatever was played.

use crate::card::{copies, lemma_standard_deck_count, lemma_standard_deck_len, Card};
use crate::game::{lemma_step_keeps_invariant, GameEventView, GameView};
use crate::player::lemma_hands_len;
use crate::pregame::{lemma_peeks_within_total, peek_sum, PreGameView};
use vstd::multiset::*;
use vstd::prelude::*;
use vstd::seq_lib::*;

verus! {

/// Deck, discard pile and hands of a game hold 52 cards between turns, and
/// 51 while the drawn card is held.
pub proof fn lemma_game_card_count(game: GameView)
    requires
        game.wf(),
    ensures
        game.held is None ==> game.cards_at_rest() == 52,
        game.held is Some ==> game.cards_at_rest() == 51,
{
    broadcast use group_multiset_axioms;

    game.deck.to_multiset_ensures();
    game.discard.to_multiset_ensures();
    lemma_hands_len(game.players);
    lemma_standard_deck_len();
}

/// The cards of a game, the held card among them, hold each rank as often as
/// the deck does: 0 and 13 twice, the ranks between four times, no other rank.
pub proof fn lemma_game_rank_multiplicity(game: GameView, card: Card)
    requires
        game.wf(),
    ensures
        game.cards().count(card) == copies(card@),
{
    lemma_standard_deck_count(card);
}

/// Deck, discard pile and hands of a table before play hold 52 cards.
pub proof fn lemma_table_card_count(table: PreGameView)
    requires
        table.wf(),
    ensures
        table.cards_at_rest() == 52,
{
    broadcast use group_multiset_axioms;

    table.deck.to_multiset_ensures();
    table.discard.to_multiset_ensures();
    lemma_hands_len(table.players);
    lemma_standard_deck_len();
}

/// The cards of a table before play hold each rank as often as the deck does.
pub proof fn lemma_table_rank_multiplicity(table: PreGameView, card: Card)
    requires
        table.wf(),
    ensures
        table.cards().count(card) == copies(card@),
{
    lemma_standard_deck_count(card);
}

/// Once the peeks of a table are spent, no player has one left: whoever asks
/// for another is refused.
pub proof fn lemma_peeks_spent(table: PreGameView, player_index: int)
    requires
        table.wf(),
        table.total_peeks == 0,
        0 <= player_index < table.players.len(),
    ensures
        table.peeks[player_index] == 0,
{
    lemma_peeks_within_total(table.peeks, player_index);
}

/// Peeks that are all spent add up to none.
pub proof fn lemma_spent_peeks_sum(peeks: Seq<u8>)
    requires
        forall|i: int| 0 <= i < peeks.len() ==> #[trigger] peeks[i] == 0,
    ensures
        peek_sum(peeks) == 0,
    decreases peeks.len(),
{
    if peeks.len() > 0 {
        lemma_spent_peeks_sum(peeks.drop_last());
    }
}

/// A game can start exactly when no player has a peek left: the total that
/// `to_game` asks to be 0 is 0 then and only then. Such a table seats no more
/// players than a seat index reaches.
pub proof fn lemma_start_needs_spent_peeks(table: PreGameView)
    requires
        table.wf(),
    ensures
        table.total_peeks == 0 <==> (forall|i: int|
            0 <= i < table.peeks.len() ==> #[trigger] table.peeks[i] == 0),
        table.total_peeks == 0 ==> table.players.len() <= 256 && table.start().wf(),
{
    broadcast use group_multiset_axioms;

    if table.total_peeks == 0 {
        assert forall|i: int| 0 <= i < table.peeks.len() implies #[trigger] table.peeks[i]
            == 0 by {
            lemma_peeks_within_total(table.peeks, i);
        }
        if table.peeks.len() > 256 {
            assert(table.peeks[256] == 0);
        }
        assert(table.start().cards() =~= table.cards());
    }
    if forall|i: int| 0 <= i < table.peeks.len() ==> #[trigger] table.peeks[i] == 0 {
        lemma_spent_peeks_sum(table.peeks);
    }
}

/// Ending a turn moves the cursor to the next seat, and to the first after
/// the last, and changes nothing else; it reports that the game is over
/// exactly when that seat is the Kabo caller's, and the next player otherwise.
pub proof fn lemma_end_turn(game: GameView)
    requires
        1 <= game.players.len() <= 256,
        game.current < game.players.len(),
    ensures
        ({
            let after = game.end_turn();
            let next = (game.current + 1) % (game.players.len() as int);
            &&& after == (GameView { current: after.current, ..game })
            &&& after.current == next
            &&& after.turn_event() == (if game.kabo == Some(after.current) {
                GameEventView::GameOver
            } else {
                GameEventView::EndTurn { next_player: after.current }
            })
        }),
{
    let seats = game.players.len() as int;
    if game.current + 1 < seats {
        vstd::arithmetic::div_mod::lemma_small_mod((game.current + 1) as nat, seats as nat);
    } else {
        vstd::arithmetic::div_mod::lemma_mod_self_0(seats);
    }
}

/// Replacing a face-down card by the held card leaves the held card in its
/// slot, the displaced card on top of the discard pile and no card held; the
/// other slots of that hand and the deck stay as they were, and the turn
/// passes on once.
pub proof fn lemma_replace_semantics(game: GameView, player_index: int, card_index: int)
    requires
        game.held is Some,
        0 <= player_index < game.players.len(),
        0 <= card_index < game.players[player_index].hand.len(),
    ensures
        ({
            let after = game.exchange(player_index, card_index).discard_held();
            let hand = game.players[player_index].hand;
            &&& after.players[player_index].hand[card_index] == game.held.unwrap()
            &&& after.players[player_index].hand.len() == hand.len()
            &&& forall|i: int|
                0 <= i < hand.len() && i != card_index
                    ==> #[trigger] after.players[player_index].hand[i] == hand[i]
            &&& after.discard.last() == hand[card_index]
            &&& after.discard.drop_last() == game.discard
            &&& after.held is None
            &&& after.deck == game.deck
            &&& after.kabo == game.kabo
            &&& after.current == game.next_player()
        }),
{
    let after = game.exchange(player_index, card_index).discard_held();
    assert(after.discard.drop_last() =~= game.discard);
}

/// A play: a run of states, each reached from the one before by one action
/// that was not refused.
pub open spec fn is_play(play: Seq<GameView>) -> bool {
    forall|i: int| 0 <= i < play.len() - 1 ==> (#[trigger] play[i]).step(play[i + 1])
}

/// Every state of a play that starts from a game in order is in order: its
/// cards are those of the standard deck.
pub proof fn lemma_play_keeps_invariant(play: Seq<GameView>, at: int)
    requires
        is_play(play),
        0 <= at < play.len(),
        play[0].wf(),
    ensures
        play[at].wf(),
    decreases at,
{
    if at > 0 {
        lemma_play_keeps_invariant(play, at - 1);
        assert(play[at - 1].step(play[at]));
        lemma_step_keeps_invariant(play[at - 1], play[at]);
    }
}

/// The number of turns that ended within the first `steps` actions of a play.
/// An action ends the turn unless it draws, which leaves a card held.
pub open spec fn turns_ended(play: Seq<GameView>, steps: int) -> nat
    decreases steps,
{
    if steps <= 0 {
        0
    } else {
        turns_ended(play, steps - 1) + if play[steps].held is None {
            1nat
        } else {
            0nat
        }
    }
}

/// The seat that is reached from seat `from` after `count` turns at a table
/// of `seats` seats, for at most one round.
pub open spec fn seat_after(from: int, count: int, seats: int) -> int {
    if from + count < seats {
        from + count
    } else {
        from + count - seats
    }
}

/// An action keeps the players in their seats and the Kabo caller, if there is
/// one. A draw leaves the turn where it is; every other action passes it to
/// the next player.
pub proof fn lemma_step_seating(game: GameView, next: GameView)
    requires
        game.step(next),
    ensures
        next.players.len() == game.players.len(),
        game.kabo is Some ==> next.kabo == game.kabo,
        game.kabo is None ==> next.kabo is None || (next.kabo == Some(game.current)
            && game.held is None && next == game.call_kabo()),
        next.held is Some ==> game.held is None && next.current == game.current && next.kabo
            == game.kabo,
        next.held is None ==> next.current == game.next_player(),
{
}

/// Once a player has called Kabo, the caller stays the same, the turn goes
/// round the seats in order, and each action that ends a turn reports the
/// next player until the turn comes back to the caller: that action, and no
/// other, reports that the game is over. `play` starts with the state in which
/// Kabo is called.
pub proof fn lemma_kabo_round(play: Seq<GameView>, at: int)
    requires
        is_play(play),
        1 <= at < play.len(),
        play[0].wf(),
        play[0].held is None,
        play[0].kabo is None,
        play[1] == play[0].call_kabo(),
        turns_ended(play, at) <= play[0].seats(),
    ensures
        play[at].players.len() == play[0].players.len(),
        play[at].kabo == Some(play[0].current),
        1 <= turns_ended(play, at),
        play[at].current == seat_after(
            play[0].current as int,
            turns_ended(play, at) as int,
            play[0].seats() as int,
        ),
        play[at].held is None ==> play[at].turn_event() == (if turns_ended(play, at)
            == play[0].seats() {
            GameEventView::GameOver
        } else {
            GameEventView::EndTurn { next_player: play[at].current }
        }),
    decreases at,
{
    assert(play[at - 1].step(play[at]));
    lemma_step_seating(play[at - 1], play[at]);
    if at > 1 {
        lemma_kabo_round(play, at - 1);
    } else {
        assert(turns_ended(play, 0) == 0);
    }
}

} // verus!
