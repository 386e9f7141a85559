//! The turn engine: one operation per player action, each guarded by whether
//! a card is held, and the Kabo protocol that ends the game.

use crate::card::{lemma_pile_empty, lemma_pile_exchange, lemma_pile_top, shuffle, standard_deck, Card};
use crate::player::{hand_total, hands, lemma_hands_update, player_views, Player, PlayerView};
use vstd::multiset::*;
use vstd::prelude::*;
use vstd::seq_lib::*;

verus! {

/// What an action makes known, in the order in which it happened.
#[derive(Debug, PartialEq, Eq, Clone)]
pub enum GameEvent {
    DiscardShuffle,
    Discards { cards: Vec<Card> },
    Kabo { player_index: u8 },
    EndTurn { next_player: u8 },
    Seen { player_index: u8, card_index: u8, card: Card },
    GameOver,
}

/// An event as the contracts speak of it.
pub enum GameEventView {
    DiscardShuffle,
    Discards { cards: Seq<Card> },
    Kabo { player_index: u8 },
    EndTurn { next_player: u8 },
    Seen { player_index: u8, card_index: u8, card: Card },
    GameOver,
}

impl View for GameEvent {
    type V = GameEventView;

    open spec fn view(&self) -> GameEventView {
        match *self {
            GameEvent::DiscardShuffle => GameEventView::DiscardShuffle,
            GameEvent::Discards { cards } => GameEventView::Discards { cards: cards@ },
            GameEvent::Kabo { player_index } => GameEventView::Kabo { player_index },
            GameEvent::EndTurn { next_player } => GameEventView::EndTurn { next_player },
            GameEvent::Seen { player_index, card_index, card } => GameEventView::Seen {
                player_index,
                card_index,
                card,
            },
            GameEvent::GameOver => GameEventView::GameOver,
        }
    }
}

/// A list of events as the contracts speak of it.
pub open spec fn event_views(events: Seq<GameEvent>) -> Seq<GameEventView> {
    events.map_values(|e: GameEvent| e@)
}

/// Why an action was refused. A refused action changes nothing.
#[derive(Debug, PartialEq, Eq, Clone, Structural)]
pub enum GameError {
    WrongPhase,
    AlreadyKabo { player_index: u8 },
    WrongCard,
    InvalidIndex,
}

/// What an action returns.
pub type Status = Result<Vec<GameEvent>, GameError>;

/// What a player is seen to be doing.
#[derive(Debug, PartialEq, Eq, Clone, Copy, Structural)]
pub enum PlayerState {
    /// It is another player's turn.
    Waiting,
    /// It is this player's turn and they have yet to draw.
    AwaitingDraw,
    /// It is this player's turn and they hold a drawn card.
    HoldingCard,
}

/// A game in progress.
#[derive(Debug, Clone)]
pub struct Game {
    deck: Vec<Card>,
    discard_pile: Vec<Card>,
    players: Vec<Player>,
    current_player: u8,
    kabo: Option<u8>,
    hand_card: Option<Card>,
}

/// The state of a game: both piles bottom first, the players in seating
/// order, whose turn it is, who called Kabo, and the card drawn but not yet
/// resolved.
pub struct GameView {
    pub deck: Seq<Card>,
    pub discard: Seq<Card>,
    pub players: Seq<PlayerView>,
    pub current: u8,
    pub kabo: Option<u8>,
    pub held: Option<Card>,
}

impl GameView {
    /// The held card as a multiset of at most one card.
    pub open spec fn held_cards(self) -> Multiset<Card> {
        match self.held {
            Some(card) => Multiset::singleton(card),
            None => Multiset::empty(),
        }
    }

    /// All cards of the game, wherever they lie.
    pub open spec fn cards(self) -> Multiset<Card> {
        self.deck.to_multiset().add(self.discard.to_multiset()).add(hands(self.players)).add(
            self.held_cards(),
        )
    }

    /// The number of cards in deck, discard pile and hands.
    pub open spec fn cards_at_rest(self) -> nat {
        self.deck.len() + self.discard.len() + hand_total(self.players)
    }

    /// `index` addresses a player, or is 0 at a table without players.
    pub open spec fn seat(self, index: u8) -> bool {
        index == 0 || index < self.players.len()
    }

    /// The invariant of a game: there are no more players than a seat index
    /// reaches, the cursor and the Kabo caller address seats, and the cards
    /// are those of the standard deck.
    pub open spec fn wf(self) -> bool {
        &&& self.players.len() <= 256
        &&& self.seat(self.current)
        &&& (self.kabo matches Some(caller) ==> self.seat(caller))
        &&& self.cards() == standard_deck()
    }

    /// Whose turn comes after the current one: the next seat, and the first
    /// after the last.
    pub open spec fn next_player(self) -> u8 {
        if self.current + 1 >= self.players.len() {
            0
        } else {
            (self.current + 1) as u8
        }
    }

    /// The state after the turn has passed on.
    pub open spec fn end_turn(self) -> GameView {
        GameView { current: self.next_player(), ..self }
    }

    /// The number of seats that the turn goes round: one at a table without
    /// players, where the cursor stays at 0.
    pub open spec fn seats(self) -> nat {
        if self.players.len() == 0 {
            1
        } else {
            self.players.len()
        }
    }

    /// The event by which the turn arrived at the current player: the game
    /// is over if that is the Kabo caller.
    pub open spec fn turn_event(self) -> GameEventView {
        if self.kabo == Some(self.current) {
            GameEventView::GameOver
        } else {
            GameEventView::EndTurn { next_player: self.current }
        }
    }

    /// The state after the top of the deck was drawn.
    pub open spec fn draw_deck(self) -> GameView
        recommends
            self.deck.len() > 0,
    {
        GameView { deck: self.deck.drop_last(), held: Some(self.deck.last()), ..self }
    }

    /// The state after the deck was refilled with `shuffled` in place of the
    /// discard pile and its top was drawn.
    pub open spec fn refill_and_draw(self, shuffled: Seq<Card>) -> GameView
        recommends
            shuffled.len() > 0,
    {
        GameView {
            deck: shuffled.drop_last(),
            discard: Seq::empty(),
            held: Some(shuffled.last()),
            ..self
        }
    }

    /// The state after the top of the discard pile was drawn.
    pub open spec fn draw_discard(self) -> GameView
        recommends
            self.discard.len() > 0,
    {
        GameView { discard: self.discard.drop_last(), held: Some(self.discard.last()), ..self }
    }

    /// The state after the held card went onto the discard pile and the turn
    /// passed on.
    pub open spec fn discard_held(self) -> GameView
        recommends
            self.held is Some,
    {
        GameView { discard: self.discard.push(self.held.unwrap()), held: None, ..self }.end_turn()
    }

    /// The state after the held card and the card at `card_index` of player
    /// `player_index` changed places.
    pub open spec fn exchange(self, player_index: int, card_index: int) -> GameView
        recommends
            self.held is Some,
            0 <= player_index < self.players.len(),
            0 <= card_index < self.players[player_index].hand.len(),
    {
        let player = self.players[player_index];
        GameView {
            players: self.players.update(
                player_index,
                PlayerView {
                    name: player.name,
                    hand: player.hand.update(card_index, self.held.unwrap()),
                },
            ),
            held: Some(player.hand[card_index]),
            ..self
        }
    }

    /// The state after the current player called Kabo and the turn passed on.
    pub open spec fn call_kabo(self) -> GameView {
        GameView { kabo: Some(self.current), ..self }.end_turn()
    }

    /// `next` is this state after the deck was refilled with the cards of the
    /// discard pile in some order and its top was drawn.
    pub open spec fn refilled(self, next: GameView) -> bool {
        exists|shuffled: Seq<Card>|
            {
                &&& shuffled.to_multiset() == self.discard.to_multiset()
                &&& next == #[trigger] self.refill_and_draw(shuffled)
            }
    }

    /// `next` is this state after the held card replaced some face-down card,
    /// which was discarded, and the turn passed on.
    pub open spec fn replaced(self, next: GameView) -> bool {
        exists|player_index: int, card_index: int|
            {
                &&& 0 <= player_index < self.players.len()
                &&& 0 <= card_index < self.players[player_index].hand.len()
                &&& next == (#[trigger] self.exchange(player_index, card_index)).discard_held()
            }
    }

    /// `next` is this state after one action that was not refused.
    pub open spec fn step(self, next: GameView) -> bool {
        if self.held is None {
            ||| self.deck.len() > 0 && next == self.draw_deck()
            ||| self.deck.len() == 0 && self.discard.len() >= 4 && self.refilled(next)
            ||| self.discard.len() > 0 && next == self.draw_discard()
            ||| self.kabo is None && next == self.call_kabo()
        } else {
            ||| next == self.discard_held()
            ||| self.replaced(next)
        }
    }

    /// What player `player_index` is seen to be doing.
    pub open spec fn state_of(self, player_index: u8) -> PlayerState {
        if player_index != self.current {
            PlayerState::Waiting
        } else if self.held is Some {
            PlayerState::HoldingCard
        } else {
            PlayerState::AwaitingDraw
        }
    }
}

/// A draw from the deck moves a card and loses none.
proof fn lemma_draw_deck_cards(game: GameView)
    requires
        game.held is None,
        game.deck.len() > 0,
    ensures
        game.draw_deck().cards() == game.cards(),
{
    broadcast use group_multiset_axioms;

    lemma_pile_top(game.deck);
    assert(game.draw_deck().cards() =~= game.cards());
}

/// A draw from the discard pile moves a card and loses none.
proof fn lemma_draw_discard_cards(game: GameView)
    requires
        game.held is None,
        game.discard.len() > 0,
    ensures
        game.draw_discard().cards() == game.cards(),
{
    broadcast use group_multiset_axioms;

    lemma_pile_top(game.discard);
    assert(game.draw_discard().cards() =~= game.cards());
}

/// Refilling the deck from the discard pile moves the cards and loses none.
proof fn lemma_refill_cards(game: GameView, shuffled: Seq<Card>)
    requires
        game.held is None,
        game.deck.len() == 0,
        game.discard.len() > 0,
        shuffled.to_multiset() == game.discard.to_multiset(),
    ensures
        shuffled.len() == game.discard.len(),
        game.refill_and_draw(shuffled).cards() == game.cards(),
{
    broadcast use group_multiset_axioms;

    shuffled.to_multiset_ensures();
    game.discard.to_multiset_ensures();
    lemma_pile_top(shuffled);
    lemma_pile_empty(game.deck);
    lemma_pile_empty(Seq::<Card>::empty());
    assert(game.refill_and_draw(shuffled).cards() =~= game.cards());
}

/// Discarding the held card moves it and loses none.
proof fn lemma_discard_held_cards(game: GameView)
    requires
        game.held is Some,
    ensures
        game.discard_held().cards() == game.cards(),
{
    broadcast use group_multiset_axioms;
    broadcast use to_multiset_build;

    assert(game.discard_held().cards() =~= game.cards());
}

/// The held card and a face-down card change places and none is lost.
proof fn lemma_exchange_cards(game: GameView, player_index: int, card_index: int)
    requires
        game.held is Some,
        0 <= player_index < game.players.len(),
        0 <= card_index < game.players[player_index].hand.len(),
    ensures
        game.exchange(player_index, card_index).cards() == game.cards(),
{
    broadcast use group_multiset_axioms;

    let after = game.exchange(player_index, card_index);
    let hand = game.players[player_index].hand;
    let held = game.held.unwrap();
    lemma_hands_update(game.players, player_index, after.players[player_index]);
    lemma_pile_exchange(hand, card_index, held);
    let was = hands(game.players).add(after.players[player_index].hand.to_multiset());
    let is = hands(after.players).add(hand.to_multiset());
    assert forall|c: Card| after.cards().count(c) == game.cards().count(c) by {
        assert(was.count(c) == is.count(c));
        assert(hand.update(card_index, held).to_multiset().insert(hand[card_index]).count(c)
            == hand.to_multiset().insert(held).count(c));
    }
    assert(after.cards() =~= game.cards());
}

/// No action creates or destroys a card, and the cursor and the Kabo caller
/// keep addressing seats: the invariant of a game holds after every action.
pub proof fn lemma_step_keeps_invariant(game: GameView, next: GameView)
    requires
        game.wf(),
        game.step(next),
    ensures
        next.wf(),
{
    if game.held is None {
        if game.deck.len() > 0 && next == game.draw_deck() {
            lemma_draw_deck_cards(game);
        } else if game.deck.len() == 0 && game.discard.len() >= 4 && game.refilled(next) {
            let shuffled = choose|shuffled: Seq<Card>|
                {
                    &&& shuffled.to_multiset() == game.discard.to_multiset()
                    &&& next == #[trigger] game.refill_and_draw(shuffled)
                };
            lemma_refill_cards(game, shuffled);
        } else if game.discard.len() > 0 && next == game.draw_discard() {
            lemma_draw_discard_cards(game);
        }
    } else {
        if next == game.discard_held() {
            lemma_discard_held_cards(game);
        } else {
            let (p, i) = choose|p: int, i: int|
                {
                    &&& 0 <= p < game.players.len()
                    &&& 0 <= i < game.players[p].hand.len()
                    &&& next == (#[trigger] game.exchange(p, i)).discard_held()
                };
            lemma_exchange_cards(game, p, i);
            lemma_discard_held_cards(game.exchange(p, i));
        }
    }
}

impl View for Game {
    type V = GameView;

    closed spec fn view(&self) -> GameView {
        GameView {
            deck: self.deck@,
            discard: self.discard_pile@,
            players: player_views(self.players@),
            current: self.current_player,
            kabo: self.kabo,
            held: self.hand_card,
        }
    }
}

impl Game {
    /// A game at its start: the first player is to draw, nobody has called Kabo.
    pub(crate) fn from_parts(deck: Vec<Card>, discard_pile: Vec<Card>, players: Vec<Player>) -> (game:
        Game)
        ensures
            game@ == (GameView {
                deck: deck@,
                discard: discard_pile@,
                players: player_views(players@),
                current: 0,
                kabo: None,
                held: None,
            }),
    {
        Game { deck, discard_pile, players, current_player: 0, kabo: None, hand_card: None }
    }

    /// Draws the top of the deck. An empty deck is first refilled with the
    /// shuffled discard pile, which must then hold at least four cards.
    pub fn deck_draw(&mut self) -> (status: Status)
        requires
            old(self)@.wf(),
            old(self)@.held is None && old(self)@.deck.len() == 0 ==> old(self)@.discard.len() >= 4,
        ensures
            final(self)@.wf(),
            match status {
                Err(error) => {
                    &&& old(self)@.held is Some
                    &&& error == GameError::WrongPhase
                    &&& final(self)@ == old(self)@
                },
                Ok(events) => {
                    &&& old(self)@.held is None
                    &&& old(self)@.deck.len() > 0 ==> {
                        &&& final(self)@ == old(self)@.draw_deck()
                        &&& events@.len() == 0
                    }
                    &&& old(self)@.deck.len() == 0 ==> {
                        &&& old(self)@.refilled(final(self)@)
                        &&& event_views(events@) == seq![GameEventView::DiscardShuffle]
                    }
                    &&& old(self)@.step(final(self)@)
                },
            },
    {
        if self.hand_card.is_some() {
            return Err(GameError::WrongPhase);
        }
        if self.deck.len() > 0 {
            let card = self.deck.pop().unwrap();
            self.hand_card = Some(card);
            proof {
                assert(self@.deck =~= old(self)@.deck.drop_last());
                lemma_step_keeps_invariant(old(self)@, self@);
            }
            Ok(Vec::new())
        } else {
            let mut pile = self.discard_pile.clone();
            assert(pile@ =~= self.discard_pile@);
            shuffle(&mut pile);
            let ghost shuffled = pile@;
            let events = self.refill_and_draw(pile);
            assert(self@ == old(self)@.refill_and_draw(shuffled));
            Ok(events)
        }
    }

    /// Makes `shuffled`, the cards of the discard pile in a new order, the
    /// deck, leaves the discard pile empty, and draws the top of the new deck.
    pub fn refill_and_draw(&mut self, shuffled: Vec<Card>) -> (events: Vec<GameEvent>)
        requires
            old(self)@.wf(),
            old(self)@.held is None,
            old(self)@.deck.len() == 0,
            old(self)@.discard.len() >= 4,
            shuffled@.to_multiset() == old(self)@.discard.to_multiset(),
        ensures
            final(self)@.wf(),
            final(self)@ == old(self)@.refill_and_draw(shuffled@),
            old(self)@.step(final(self)@),
            event_views(events@) == seq![GameEventView::DiscardShuffle],
    {
        proof {
            lemma_refill_cards(old(self)@, shuffled@);
        }
        self.deck = shuffled;
        self.discard_pile = Vec::new();
        let card = self.deck.pop().unwrap();
        self.hand_card = Some(card);
        let mut events: Vec<GameEvent> = Vec::new();
        events.push(GameEvent::DiscardShuffle);
        proof {
            assert(self@.deck =~= shuffled@.drop_last());
            assert(self@.discard =~= Seq::<Card>::empty());
            assert(self@ == old(self)@.refill_and_draw(shuffled@));
            lemma_step_keeps_invariant(old(self)@, self@);
            assert(event_views(events@) =~= seq![GameEventView::DiscardShuffle]);
        }
        events
    }

    /// Draws the visible top of the discard pile, which must not be empty.
    pub fn discard_draw(&mut self) -> (status: Status)
        requires
            old(self)@.wf(),
            old(self)@.held is None ==> old(self)@.discard.len() > 0,
        ensures
            final(self)@.wf(),
            match status {
                Err(error) => {
                    &&& old(self)@.held is Some
                    &&& error == GameError::WrongPhase
                    &&& final(self)@ == old(self)@
                },
                Ok(events) => {
                    &&& old(self)@.held is None
                    &&& final(self)@ == old(self)@.draw_discard()
                    &&& old(self)@.step(final(self)@)
                    &&& events@.len() == 0
                },
            },
    {
        if self.hand_card.is_some() {
            return Err(GameError::WrongPhase);
        }
        let card = self.discard_pile.pop().unwrap();
        self.hand_card = Some(card);
        proof {
            assert(self@.discard =~= old(self)@.discard.drop_last());
            lemma_step_keeps_invariant(old(self)@, self@);
        }
        Ok(Vec::new())
    }

    /// The current player calls Kabo: the game ends when the turn comes back
    /// to them. Only one player can call it.
    pub fn announce_kabo(&mut self) -> (status: Status)
        requires
            old(self)@.wf(),
        ensures
            final(self)@.wf(),
            match status {
                Err(error) => {
                    &&& final(self)@ == old(self)@
                    &&& error == (match old(self)@.kabo {
                        Some(player_index) if old(self)@.held is None => GameError::AlreadyKabo {
                            player_index,
                        },
                        _ => GameError::WrongPhase,
                    })
                    &&& old(self)@.held is Some || old(self)@.kabo is Some
                },
                Ok(events) => {
                    &&& old(self)@.held is None
                    &&& old(self)@.kabo is None
                    &&& final(self)@ == old(self)@.call_kabo()
                    &&& old(self)@.step(final(self)@)
                    &&& event_views(events@) == seq![
                        GameEventView::Kabo { player_index: old(self)@.current },
                        final(self)@.turn_event(),
                    ]
                },
            },
    {
        if self.hand_card.is_some() {
            return Err(GameError::WrongPhase);
        }
        if let Some(player_index) = self.kabo {
            return Err(GameError::AlreadyKabo { player_index });
        }
        self.kabo = Some(self.current_player);
        let kabo_event = GameEvent::Kabo { player_index: self.current_player };
        let end_event = self.end_turn();
        let mut events: Vec<GameEvent> = Vec::new();
        events.push(kabo_event);
        events.push(end_event);
        proof {
            lemma_step_keeps_invariant(old(self)@, self@);
            assert(event_views(events@) =~= seq![
                GameEventView::Kabo { player_index: old(self)@.current },
                self@.turn_event(),
            ]);
        }
        Ok(events)
    }

    /// Puts the held card onto the discard pile and ends the turn.
    pub fn discard(&mut self) -> (status: Status)
        requires
            old(self)@.wf(),
        ensures
            final(self)@.wf(),
            match status {
                Err(error) => {
                    &&& old(self)@.held is None
                    &&& error == GameError::WrongPhase
                    &&& final(self)@ == old(self)@
                },
                Ok(events) => {
                    &&& old(self)@.held is Some
                    &&& final(self)@ == old(self)@.discard_held()
                    &&& old(self)@.step(final(self)@)
                    &&& event_views(events@) == seq![
                        GameEventView::Discards { cards: seq![old(self)@.held.unwrap()] },
                        final(self)@.turn_event(),
                    ]
                },
            },
    {
        if self.hand_card.is_none() {
            return Err(GameError::WrongPhase);
        }
        let events = self.discard_and_end();
        proof {
            lemma_step_keeps_invariant(old(self)@, self@);
        }
        Ok(events)
    }

    /// Lays the held card face down at `card_index` of player `player_index`,
    /// discards the card that lay there, and ends the turn.
    pub fn replace(&mut self, player_index: u8, card_index: u8) -> (status: Status)
        requires
            old(self)@.wf(),
            old(self)@.held is Some ==> player_index < old(self)@.players.len(),
        ensures
            final(self)@.wf(),
            match status {
                Err(error) => {
                    &&& final(self)@ == old(self)@
                    &&& error == (if old(self)@.held is None {
                        GameError::WrongPhase
                    } else {
                        GameError::InvalidIndex
                    })
                    &&& old(self)@.held is None || card_index >= old(self)@.players[player_index as int].hand.len()
                },
                Ok(events) => {
                    &&& old(self)@.held is Some
                    &&& card_index < old(self)@.players[player_index as int].hand.len()
                    &&& final(self)@ == old(self)@.exchange(
                        player_index as int,
                        card_index as int,
                    ).discard_held()
                    &&& old(self)@.step(final(self)@)
                    &&& event_views(events@) == seq![
                        GameEventView::Discards {
                            cards: seq![
                                old(self)@.players[player_index as int].hand[card_index as int],
                            ],
                        },
                        final(self)@.turn_event(),
                    ]
                },
            },
    {
        let held = match self.hand_card {
            Some(card) => card,
            None => {
                return Err(GameError::WrongPhase);
            },
        };
        if card_index as usize >= self.players[player_index as usize].hand_len() {
            return Err(GameError::InvalidIndex);
        }
        let displaced = self.players[player_index as usize].exchange(card_index as usize, held);
        self.hand_card = Some(displaced);
        proof {
            let exchanged = old(self)@.exchange(player_index as int, card_index as int);
            assert(self@.players =~= exchanged.players);
            assert(self@ == exchanged);
        }
        let events = self.discard_and_end();
        proof {
            lemma_step_keeps_invariant(old(self)@, self@);
        }
        Ok(events)
    }

    /// Replaces several cards of one player at once. The action is refused as
    /// `WrongPhase` while no card is held, and as `InvalidIndex` when fewer
    /// than two indices come with a held card. How the cards are exchanged
    /// when neither refusal applies is not settled, so the function is only
    /// for the inputs that it refuses.
    pub fn multi_replace(&mut self, player_index: u8, card_indices: Vec<u8>) -> (status: Status)
        requires
            old(self)@.held is None || card_indices@.len() < 2,
        ensures
            final(self)@ == old(self)@,
            status == Err::<Vec<GameEvent>, GameError>(
                if old(self)@.held is None {
                    GameError::WrongPhase
                } else {
                    GameError::InvalidIndex
                },
            ),
    {
        if self.hand_card.is_none() {
            return Err(GameError::WrongPhase);
        }
        if card_indices.len() < 2 {
            return Err(GameError::InvalidIndex);
        }
        vstd::pervasive::unreached()
    }

    /// Looks at a face-down card by spending a held 7 or 8. The action is
    /// refused as `WrongPhase` while no card is held and as `WrongCard` for a
    /// held card of another rank. What is revealed when neither refusal
    /// applies is not settled, so the function is only for the inputs that it
    /// refuses.
    pub fn peek(&mut self, player_index: u8, card_index: u8) -> (status: Status)
        requires
            old(self)@.held matches Some(card) ==> card@ != 7 && card@ != 8,
        ensures
            final(self)@ == old(self)@,
            status == Err::<Vec<GameEvent>, GameError>(
                if old(self)@.held is None {
                    GameError::WrongPhase
                } else {
                    GameError::WrongCard
                },
            ),
    {
        let card = match self.hand_card {
            Some(card) => card,
            None => {
                return Err(GameError::WrongPhase);
            },
        };
        if !(card.rank() == 7 || card.rank() == 8) {
            return Err(GameError::WrongCard);
        }
        vstd::pervasive::unreached()
    }

    /// Passes the turn on, and says whether that ended the game.
    pub(crate) fn end_turn(&mut self) -> (event: GameEvent)
        requires
            old(self)@.held is None,
            old(self)@.players.len() <= 256,
        ensures
            final(self)@ == old(self)@.end_turn(),
            event@ == final(self)@.turn_event(),
    {
        if self.current_player as usize + 1 >= self.players.len() {
            self.current_player = 0;
        } else {
            self.current_player += 1;
        }
        if let Some(kabo_index) = self.kabo {
            if kabo_index == self.current_player {
                return GameEvent::GameOver;
            }
        }
        GameEvent::EndTurn { next_player: self.current_player }
    }

    /// Discards the held card and ends the turn.
    pub(crate) fn discard_and_end(&mut self) -> (events: Vec<GameEvent>)
        requires
            old(self)@.held is Some,
            old(self)@.players.len() <= 256,
        ensures
            final(self)@ == old(self)@.discard_held(),
            event_views(events@) == seq![
                GameEventView::Discards { cards: seq![old(self)@.held.unwrap()] },
                final(self)@.turn_event(),
            ],
    {
        let card = self.hand_card.unwrap();
        self.discard_pile.push(card);
        self.hand_card = None;
        let mut cards: Vec<Card> = Vec::new();
        cards.push(card);
        let mut events: Vec<GameEvent> = Vec::new();
        events.push(GameEvent::Discards { cards });
        let end_event = self.end_turn();
        events.push(end_event);
        proof {
            assert(cards@ =~= seq![card]);
            assert(event_views(events@) =~= seq![
                GameEventView::Discards { cards: seq![card] },
                self@.turn_event(),
            ]);
        }
        events
    }

    /// Whose turn it is.
    pub fn current_player(&self) -> (index: u8)
        ensures
            index == self@.current,
    {
        self.current_player
    }

    /// Who called Kabo, if anybody has.
    pub fn kabo(&self) -> (caller: Option<u8>)
        ensures
            caller == self@.kabo,
    {
        self.kabo
    }

    /// The card that was drawn and is not yet resolved.
    pub fn hand_card(&self) -> (card: Option<Card>)
        ensures
            card == self@.held,
    {
        self.hand_card
    }

    /// The number of cards in the deck.
    pub fn deck_len(&self) -> (len: usize)
        ensures
            len == self@.deck.len(),
    {
        self.deck.len()
    }

    /// The number of cards on the discard pile.
    pub fn discard_len(&self) -> (len: usize)
        ensures
            len == self@.discard.len(),
    {
        self.discard_pile.len()
    }

    /// The visible card on top of the discard pile.
    pub fn discard_top(&self) -> (card: Option<Card>)
        ensures
            card == (if self@.discard.len() > 0 {
                Some(self@.discard.last())
            } else {
                None
            }),
    {
        let len = self.discard_pile.len();
        if len > 0 {
            Some(self.discard_pile[len - 1])
        } else {
            None
        }
    }

    /// The number of players.
    pub fn player_count(&self) -> (count: usize)
        ensures
            count == self@.players.len(),
    {
        self.players.len()
    }

    /// The player in seat `player_index`.
    pub fn player(&self, player_index: u8) -> (player: &Player)
        requires
            player_index < self@.players.len(),
        ensures
            player@ == self@.players[player_index as int],
    {
        &self.players[player_index as usize]
    }

    /// What player `player_index` is seen to be doing: nothing of their hand.
    pub fn player_state(&self, player_index: u8) -> (state: PlayerState)
        ensures
            state == self@.state_of(player_index),
    {
        if player_index != self.current_player {
            PlayerState::Waiting
        } else if self.hand_card.is_some() {
            PlayerState::HoldingCard
        } else {
            PlayerState::AwaitingDraw
        }
    }
}

} // verus!
