//! A player: a name and a hand of face-down cards.

use crate::card::Card;
use vstd::multiset::*;
use vstd::prelude::*;
use vstd::seq_lib::*;

verus! {

/// A player at the table.
#[derive(Debug, Clone)]
pub struct Player {
    name: String,
    cards: Vec<Card>,
}

/// What a player is: the name and the hand, by position.
pub struct PlayerView {
    pub name: Seq<char>,
    pub hand: Seq<Card>,
}

impl View for Player {
    type V = PlayerView;

    closed spec fn view(&self) -> PlayerView {
        PlayerView { name: self.name@, hand: self.cards@ }
    }
}

/// The players of a table as the contracts speak of them.
pub open spec fn player_views(players: Seq<Player>) -> Seq<PlayerView> {
    players.map_values(|p: Player| p@)
}

/// The cards of all the hands together.
pub open spec fn hands(players: Seq<PlayerView>) -> Multiset<Card>
    decreases players.len(),
{
    if players.len() == 0 {
        Multiset::empty()
    } else {
        hands(players.drop_last()).add(players.last().hand.to_multiset())
    }
}

/// The number of cards in all the hands together.
pub open spec fn hand_total(players: Seq<PlayerView>) -> nat
    decreases players.len(),
{
    if players.len() == 0 {
        0
    } else {
        hand_total(players.drop_last()) + players.last().hand.len()
    }
}

/// The hands hold as many cards as their lengths add up to.
pub proof fn lemma_hands_len(players: Seq<PlayerView>)
    ensures
        hands(players).len() == hand_total(players),
    decreases players.len(),
{
    broadcast use group_multiset_axioms;

    if players.len() > 0 {
        lemma_hands_len(players.drop_last());
        players.last().hand.to_multiset_ensures();
    }
}

/// A player who sits down adds their hand to the cards in the hands.
pub proof fn lemma_hands_push(players: Seq<PlayerView>, p: PlayerView)
    ensures
        hands(players.push(p)) == hands(players).add(p.hand.to_multiset()),
        hand_total(players.push(p)) == hand_total(players) + p.hand.len(),
{
    assert(players.push(p).drop_last() =~= players);
}

/// Changing one player's hand takes that hand out of the cards in the hands
/// and puts the new one in.
pub proof fn lemma_hands_update(players: Seq<PlayerView>, i: int, p: PlayerView)
    requires
        0 <= i < players.len(),
    ensures
        hands(players.update(i, p)).add(players[i].hand.to_multiset()) == hands(players).add(
            p.hand.to_multiset(),
        ),
    decreases players.len(),
{
    broadcast use group_multiset_axioms;

    let changed = players.update(i, p);
    let rest = players.drop_last();
    if i == players.len() - 1 {
        assert(changed.drop_last() =~= rest);
        assert(changed.last() == p);
        assert(hands(changed) == hands(rest).add(p.hand.to_multiset()));
        assert(hands(players) == hands(rest).add(players[i].hand.to_multiset()));
    } else {
        lemma_hands_update(rest, i, p);
        assert(changed.drop_last() =~= rest.update(i, p));
        assert(changed.last() == players.last());
        assert(hands(changed) == hands(rest.update(i, p)).add(players.last().hand.to_multiset()));
        assert(hands(players) == hands(rest).add(players.last().hand.to_multiset()));
        assert(rest[i] == players[i]);
        let moved = hands(rest.update(i, p)).add(players[i].hand.to_multiset());
        let kept = hands(rest).add(p.hand.to_multiset());
        assert forall|c: Card|
            hands(changed).add(players[i].hand.to_multiset()).count(c) == hands(players).add(
                p.hand.to_multiset(),
            ).count(c) by {
            assert(moved.count(c) == kept.count(c));
        }
    }
    assert(hands(changed).add(players[i].hand.to_multiset()) =~= hands(players).add(
        p.hand.to_multiset(),
    ));
}

impl Player {
    /// A player called `name` who holds `cards`.
    pub fn new(name: String, cards: Vec<Card>) -> (player: Player)
        ensures
            player@ == (PlayerView { name: name@, hand: cards@ }),
    {
        Player { name, cards }
    }

    /// The player's name.
    pub fn name(&self) -> (name: &str)
        ensures
            name@ == self@.name,
    {
        self.name.as_str()
    }

    /// The number of cards in the hand.
    pub fn hand_len(&self) -> (len: usize)
        ensures
            len == self@.hand.len(),
    {
        self.cards.len()
    }

    /// The card at `index` of the hand, if there is one.
    pub fn card(&self, index: usize) -> (card: Option<Card>)
        ensures
            card == (if index < self@.hand.len() {
                Some(self@.hand[index as int])
            } else {
                None
            }),
    {
        if index < self.cards.len() {
            Some(self.cards[index])
        } else {
            None
        }
    }

    /// Puts `card` face down at `index` and hands back the card that lay there.
    pub fn exchange(&mut self, index: usize, card: Card) -> (displaced: Card)
        requires
            index < old(self)@.hand.len(),
        ensures
            displaced == old(self)@.hand[index as int],
            final(self)@ == (PlayerView {
                name: old(self)@.name,
                hand: old(self)@.hand.update(index as int, card),
            }),
    {
        let displaced = self.cards[index];
        self.cards[index] = card;
        displaced
    }
}

} // verus!
