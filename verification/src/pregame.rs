//! Setup: the deal, and the two peeks that each player has before play.

use crate::card::{lemma_pile_top, standard_deck, Card};
use crate::game::{Game, GameView};
use crate::player::{
    hand_total, hands, lemma_hands_len, lemma_hands_push, player_views, Player, PlayerView,
};
use vstd::multiset::*;
use vstd::prelude::*;
use vstd::seq_lib::*;

verus! {

/// Why a peek was refused. A refused peek changes nothing.
#[derive(Debug, Clone, PartialEq, Eq, Structural)]
pub enum PreGameError {
    NoPeeksLeft,
    InvalidIndex,
}

/// A table before play: each player may look at two cards of their own hand.
#[derive(Debug, Clone)]
pub struct PreGame {
    deck: Vec<Card>,
    discard_pile: Vec<Card>,
    players: Vec<Player>,
    peeks: Vec<u8>,
    total_peeks_left: u128,
}

/// The state of a table before play: both piles bottom first, the players in
/// seating order, the peeks that each has left, and the peeks left in all.
pub struct PreGameView {
    pub deck: Seq<Card>,
    pub discard: Seq<Card>,
    pub players: Seq<PlayerView>,
    pub peeks: Seq<u8>,
    pub total_peeks: nat,
}

/// The sum of the players' peeks.
pub open spec fn peek_sum(peeks: Seq<u8>) -> nat
    decreases peeks.len(),
{
    if peeks.len() == 0 {
        0
    } else {
        peek_sum(peeks.drop_last()) + peeks.last() as nat
    }
}

/// The names as the contracts speak of them.
pub open spec fn name_views(names: Seq<&str>) -> Seq<Seq<char>> {
    names.map_values(|name: &str| name@)
}

proof fn lemma_peek_sum_push(peeks: Seq<u8>, peek: u8)
    ensures
        peek_sum(peeks.push(peek)) == peek_sum(peeks) + peek,
{
    assert(peeks.push(peek).drop_last() =~= peeks);
}

proof fn lemma_peek_sum_update(peeks: Seq<u8>, i: int, peek: u8)
    requires
        0 <= i < peeks.len(),
    ensures
        peek_sum(peeks.update(i, peek)) + peeks[i] == peek_sum(peeks) + peek,
    decreases peeks.len(),
{
    let changed = peeks.update(i, peek);
    if i == peeks.len() - 1 {
        assert(changed.drop_last() =~= peeks.drop_last());
    } else {
        lemma_peek_sum_update(peeks.drop_last(), i, peek);
        assert(changed.drop_last() =~= peeks.drop_last().update(i, peek));
    }
}

/// No player has more peeks left than all players together.
pub proof fn lemma_peeks_within_total(peeks: Seq<u8>, player_index: int)
    requires
        0 <= player_index < peeks.len(),
    ensures
        peeks[player_index] <= peek_sum(peeks),
    decreases peeks.len(),
{
    if player_index < peeks.len() - 1 {
        lemma_peeks_within_total(peeks.drop_last(), player_index);
    }
}

proof fn lemma_hand_total_prefix(players: Seq<PlayerView>, i: int)
    requires
        0 <= i <= players.len(),
    ensures
        hand_total(players.subrange(0, i)) <= hand_total(players),
    decreases players.len(),
{
    if i == players.len() {
        assert(players.subrange(0, i) =~= players);
    } else {
        lemma_hand_total_prefix(players.drop_last(), i);
        assert(players.drop_last().subrange(0, i) =~= players.subrange(0, i));
    }
}

impl PreGameView {
    /// All cards on the table, wherever they lie.
    pub open spec fn cards(self) -> Multiset<Card> {
        self.deck.to_multiset().add(self.discard.to_multiset()).add(hands(self.players))
    }

    /// The number of cards in deck, discard pile and hands.
    pub open spec fn cards_at_rest(self) -> nat {
        self.deck.len() + self.discard.len() + hand_total(self.players)
    }

    /// The invariant of a table before play: every player has a count of at
    /// most two peeks, a player whom no seat index reaches has both, the
    /// total is their sum, and the cards are those of the standard deck.
    pub open spec fn wf(self) -> bool {
        &&& forall|i: int| 256 <= i < self.peeks.len() ==> #[trigger] self.peeks[i] == 2
        &&& self.peeks.len() == self.players.len()
        &&& forall|i: int| 0 <= i < self.peeks.len() ==> #[trigger] self.peeks[i] <= 2
        &&& self.total_peeks == peek_sum(self.peeks)
        &&& self.cards() == standard_deck()
    }

    /// The table after `deck` was dealt: its top card starts the discard
    /// pile, then each player in turn takes `hand_size` cards off the top,
    /// in the order in which they lay; everybody has two peeks.
    pub open spec fn dealt(deck: Seq<Card>, names: Seq<Seq<char>>, hand_size: int) -> PreGameView
        recommends
            deck.len() == 52,
            names.len() * hand_size <= 51,
    {
        PreGameView {
            deck: deck.subrange(0, 51 - names.len() * hand_size),
            discard: seq![deck[51]],
            players: Seq::new(
                names.len(),
                |i: int|
                    PlayerView {
                        name: names[i],
                        hand: deck.subrange(51 - (i + 1) * hand_size, 51 - i * hand_size),
                    },
            ),
            peeks: Seq::new(names.len(), |i: int| 2u8),
            total_peeks: 2 * names.len(),
        }
    }

    /// The table after player `player_index` spent a peek.
    pub open spec fn spend_peek(self, player_index: int) -> PreGameView
        recommends
            0 <= player_index < self.peeks.len(),
            self.peeks[player_index] > 0,
            self.total_peeks > 0,
    {
        PreGameView {
            peeks: self.peeks.update(player_index, (self.peeks[player_index] - 1) as u8),
            total_peeks: (self.total_peeks - 1) as nat,
            ..self
        }
    }

    /// The game that starts from this table: the first player is to draw,
    /// nobody has called Kabo, no card is held.
    pub open spec fn start(self) -> GameView {
        GameView {
            deck: self.deck,
            discard: self.discard,
            players: self.players,
            current: 0,
            kabo: None,
            held: None,
        }
    }
}

impl View for PreGame {
    type V = PreGameView;

    closed spec fn view(&self) -> PreGameView {
        PreGameView {
            deck: self.deck@,
            discard: self.discard_pile@,
            players: player_views(self.players@),
            peeks: self.peeks@,
            total_peeks: self.total_peeks_left as nat,
        }
    }
}

impl PreGame {
    /// Shuffles a full deck and deals it to the players named: see `deal`.
    /// There must be cards enough for the hands and one to turn up.
    pub fn new(names: Vec<&str>, cards_per_player: u8) -> (table: PreGame)
        requires
            names@.len() * cards_per_player <= 51,
        ensures
            table@.wf(),
            exists|deck: Seq<Card>|
                {
                    &&& deck.len() == 52
                    &&& deck.to_multiset() == standard_deck()
                    &&& table@ == #[trigger] PreGameView::dealt(
                        deck,
                        name_views(names@),
                        cards_per_player as int,
                    )
                },
    {
        let deck = Card::full_deck();
        let ghost order = deck@;
        let table = PreGame::deal(deck, names, cards_per_player);
        assert(table@ == PreGameView::dealt(order, name_views(names@), cards_per_player as int));
        table
    }

    /// Deals `deck`, a full deck in any order, to the players named: the top
    /// card is turned up as the discard pile, then each player takes
    /// `cards_per_player` cards off the top and is given two peeks.
    pub fn deal(deck: Vec<Card>, names: Vec<&str>, cards_per_player: u8) -> (table: PreGame)
        requires
            deck@.to_multiset() == standard_deck(),
            names@.len() * cards_per_player <= 51,
        ensures
            deck@.len() == 52,
            table@.wf(),
            table@ == PreGameView::dealt(deck@, name_views(names@), cards_per_player as int),
    {
        let ghost full = deck@;
        let ghost rest = full.drop_last();
        let ghost size = cards_per_player as int;
        proof {
            full.to_multiset_ensures();
            crate::card::lemma_standard_deck_len();
            lemma_pile_top(full);
        }
        let mut deck = deck;
        let first_card = deck.pop().unwrap();
        let mut discard_pile: Vec<Card> = Vec::new();
        discard_pile.push(first_card);
        let mut players: Vec<Player> = Vec::with_capacity(names.len());
        let mut peeks: Vec<u8> = Vec::with_capacity(names.len());
        let mut seat: usize = 0;
        proof {
            assert(deck@ =~= rest);
            assert(hands(player_views(players@)) =~= Multiset::<Card>::empty());
            assert(deck@.to_multiset().add(hands(player_views(players@))) =~= rest.to_multiset())
                by {
                broadcast use group_multiset_axioms;

            }
        }
        while seat < names.len()
            invariant
                full.len() == 52,
                rest == full.drop_last(),
                size == cards_per_player,
                names@.len() * size <= 51,
                seat <= names@.len(),
                seat * size <= 51,
                deck@ == full.subrange(0, 51 - seat * size),
                players@.len() == seat,
                peeks@.len() == seat,
                forall|j: int|
                    0 <= j < seat ==> (#[trigger] players@[j])@ == (PlayerView {
                        name: names@[j]@,
                        hand: full.subrange(51 - (j + 1) * size, 51 - j * size),
                    }),
                forall|j: int| 0 <= j < seat ==> #[trigger] peeks@[j] == 2,
                peek_sum(peeks@) == 2 * seat,
                deck@.to_multiset().add(hands(player_views(players@))) == rest.to_multiset(),
            decreases names@.len() - seat,
        {
            let name: String = names[seat].to_owned();
            proof {
                assert((seat + 1) * size <= names@.len() * size) by (nonlinear_arith)
                    requires
                        seat + 1 <= names@.len(),
                        size >= 0,
                ;
                assert((seat + 1) * size == seat * size + size) by (nonlinear_arith);
            }
            let drain_index = deck.len() - cards_per_player as usize;
            let ghost before = deck@;
            let ghost seated = player_views(players@);
            let cards: Vec<Card> = deck.split_off(drain_index);
            let player = Player::new(name, cards);
            proof {
                assert(before =~= deck@ + cards@);
                lemma_multiset_commutative(deck@, cards@);
                lemma_hands_push(seated, player@);
                lemma_peek_sum_push(peeks@, 2u8);
                assert(player_views(players@.push(player)) =~= seated.push(player@));
                assert(deck@.to_multiset().add(hands(seated.push(player@))) =~= rest.to_multiset())
                    by {
                    broadcast use group_multiset_axioms;

                }
                assert(deck@ =~= full.subrange(0, 51 - (seat + 1) * size));
                assert(cards@ =~= full.subrange(51 - (seat + 1) * size, 51 - seat * size));
            }
            players.push(player);
            peeks.push(2);
            seat += 1;
        }
        let total_peeks_left: u128 = 2 * (players.len() as u128);
        let table = PreGame { deck, discard_pile, players, peeks, total_peeks_left };
        proof {
            let goal = PreGameView::dealt(full, name_views(names@), size);
            assert(table@.deck =~= goal.deck);
            assert(table@.discard =~= goal.discard);
            assert(table@.players =~= goal.players);
            assert(table@.peeks =~= goal.peeks);
            assert(table@.cards() =~= standard_deck()) by {
                broadcast use group_multiset_axioms;
                broadcast use to_multiset_build;

                assert(table@.discard =~= Seq::<Card>::empty().push(full.last()));
                crate::card::lemma_pile_empty(Seq::<Card>::empty());
            }
        }
        table
    }

    /// Shows player `player_index` the card at `card_index` of their own hand
    /// and takes one of their peeks for it. A player without peeks is refused
    /// with `NoPeeksLeft`, a card that is not there with `InvalidIndex`; a
    /// refusal costs no peek. The caller vouches for `player_index`.
    pub fn peek(&mut self, player_index: u8, card_index: u8) -> (seen: Result<Card, PreGameError>)
        requires
            old(self)@.wf(),
            player_index < old(self)@.players.len(),
        ensures
            final(self)@.wf(),
            match seen {
                Ok(card) => {
                    &&& old(self)@.peeks[player_index as int] > 0
                    &&& card_index < old(self)@.players[player_index as int].hand.len()
                    &&& card == old(self)@.players[player_index as int].hand[card_index as int]
                    &&& final(self)@ == old(self)@.spend_peek(player_index as int)
                },
                Err(error) => {
                    &&& final(self)@ == old(self)@
                    &&& error == (if old(self)@.peeks[player_index as int] == 0 {
                        PreGameError::NoPeeksLeft
                    } else {
                        PreGameError::InvalidIndex
                    })
                    &&& (old(self)@.peeks[player_index as int] == 0 || card_index >= old(
                        self,
                    )@.players[player_index as int].hand.len())
                },
            },
    {
        let seat = player_index as usize;
        let peeks_left = self.peeks[seat];
        if peeks_left == 0 {
            return Err(PreGameError::NoPeeksLeft);
        }
        match self.players[seat].card(card_index as usize) {
            Some(card) => {
                proof {
                    lemma_peek_sum_update(self@.peeks, seat as int, (peeks_left - 1) as u8);
                    lemma_peeks_within_total(self@.peeks, seat as int);
                }
                self.peeks[seat] = peeks_left - 1;
                self.total_peeks_left -= 1;
                assert(self@.peeks =~= old(self)@.peeks.update(seat as int, (peeks_left - 1) as u8));
                Ok(card)
            },
            None => Err(PreGameError::InvalidIndex),
        }
    }

    /// Starts the game once every peek is spent.
    pub fn to_game(self) -> (game: Game)
        requires
            self@.wf(),
            self@.total_peeks == 0,
        ensures
            game@ == self@.start(),
            game@.wf(),
    {
        let game = Game::from_parts(self.deck, self.discard_pile, self.players);
        proof {
            if self@.peeks.len() > 256 {
                lemma_peeks_within_total(self@.peeks, 256);
            }
            assert(game@.cards() =~= self@.cards()) by {
                broadcast use group_multiset_axioms;

            }
        }
        game
    }

    /// The number of cards in deck, discard pile and hands: always 52.
    pub fn total_card_amout(&self) -> (total: usize)
        requires
            self@.wf(),
        ensures
            total == self@.cards_at_rest(),
            total == 52,
    {
        proof {
            broadcast use group_multiset_axioms;

            self@.deck.to_multiset_ensures();
            self@.discard.to_multiset_ensures();
            lemma_hands_len(self@.players);
            crate::card::lemma_standard_deck_len();
        }
        let mut total: usize = self.deck.len() + self.discard_pile.len();
        let mut seat: usize = 0;
        while seat < self.players.len()
            invariant
                seat <= self.players@.len(),
                self@.cards_at_rest() == 52,
                total == self@.deck.len() + self@.discard.len() + hand_total(
                    self@.players.subrange(0, seat as int),
                ),
            decreases self.players@.len() - seat,
        {
            proof {
                lemma_hand_total_prefix(self@.players, seat as int + 1);
                assert(self@.players.subrange(0, seat as int + 1).drop_last()
                    =~= self@.players.subrange(0, seat as int));
            }
            total += self.players[seat].hand_len();
            seat += 1;
        }
        assert(self@.players.subrange(0, seat as int) =~= self@.players);
        total
    }

    /// The number of players.
    pub fn player_count(&self) -> (count: usize)
        ensures
            count == self@.players.len(),
    {
        self.players.len()
    }

    /// The player in seat `player_index`.
    pub fn player(&self, player_index: u8) -> (player: &Player)
        requires
            player_index < self@.players.len(),
        ensures
            player@ == self@.players[player_index as int],
    {
        &self.players[player_index as usize]
    }

    /// The peeks that player `player_index` has left.
    pub fn peeks_left(&self, player_index: u8) -> (peeks: u8)
        requires
            player_index < self@.peeks.len(),
        ensures
            peeks == self@.peeks[player_index as int],
    {
        self.peeks[player_index as usize]
    }

    /// The peeks that all players together have left.
    pub fn total_peeks_left(&self) -> (peeks: u128)
        ensures
            peeks == self@.total_peeks,
    {
        self.total_peeks_left
    }

    /// The number of cards in the deck.
    pub fn deck_len(&self) -> (len: usize)
        ensures
            len == self@.deck.len(),
    {
        self.deck.len()
    }

    /// The number of cards on the discard pile.
    pub fn discard_len(&self) -> (len: usize)
        ensures
            len == self@.discard.len(),
    {
        self.discard_pile.len()
    }
}

} // verus!
