//! Cards, the fixed composition of the deck, and shuffling.

use rand::Rng;
use vstd::multiset::*;
use vstd::prelude::*;
use vstd::seq_lib::*;

verus! {

/// Number of cards in play.
pub const DECK_SIZE: usize = 52;

/// A playing card. Its view is its rank.
#[derive(Debug, Clone, Copy, PartialEq, Eq, Structural)]
pub struct Card(u8);

impl View for Card {
    type V = u8;

    closed spec fn view(&self) -> u8 {
        self.0
    }
}

/// How many cards of rank `rank` the deck holds: two of the lowest and of the
/// highest rank, four of each rank between, none of any other.
pub open spec fn copies(rank: u8) -> nat {
    if rank == 0 || rank == 13 {
        2
    } else if rank <= 12 {
        4
    } else {
        0
    }
}

/// Rank of the card at position `i` of the deck in factory order.
pub open spec fn rank_at(i: int) -> u8 {
    if i < 2 {
        0u8
    } else if i < 50 {
        ((i - 2) / 4 + 1) as u8
    } else {
        13u8
    }
}

/// The deck in factory order: ranks ascending.
pub closed spec fn factory_order() -> Seq<Card> {
    Seq::new(52, |i: int| Card(rank_at(i)))
}

/// The cards of a game as a multiset: what deck, discard pile, hands and the
/// held card together always amount to.
pub open spec fn standard_deck() -> Multiset<Card> {
    factory_order().to_multiset()
}

/// Number of positions below `n` in factory order that hold rank `rank`.
spec fn placed(n: int, rank: u8) -> nat
    decreases n,
{
    if n <= 0 {
        0
    } else {
        placed(n - 1, rank) + if rank_at(n - 1) == rank { 1nat } else { 0nat }
    }
}

/// The closed form of `placed` within the deck.
spec fn placed_closed(n: int, rank: u8) -> int {
    let start: int = if rank == 0 { 0 } else if rank <= 12 { 4 * rank - 2 } else { 50 };
    if rank > 13 || n <= start {
        0
    } else if n - start >= copies(rank) {
        copies(rank) as int
    } else {
        n - start
    }
}

proof fn lemma_placed_closed(n: int, rank: u8)
    requires
        0 <= n <= 52,
    ensures
        placed(n, rank) == placed_closed(n, rank),
    decreases n,
{
    if n > 0 {
        lemma_placed_closed(n - 1, rank);
    }
}

proof fn lemma_prefix_count(n: int, c: Card)
    requires
        0 <= n <= 52,
    ensures
        factory_order().subrange(0, n).to_multiset().count(c) == placed(n, c@),
    decreases n,
{
    broadcast use group_multiset_axioms;
    broadcast use to_multiset_build;

    let order = factory_order();
    if n == 0 {
        assert(order.subrange(0, 0) =~= Seq::<Card>::empty());
        order.subrange(0, 0).to_multiset_ensures();
        assert(order.subrange(0, 0).to_multiset().len() == 0);
    } else {
        lemma_prefix_count(n - 1, c);
        let before = order.subrange(0, n - 1);
        assert(order.subrange(0, n) =~= before.push(order[n - 1]));
        assert(order.subrange(0, n).to_multiset() =~= before.to_multiset().insert(order[n - 1]));
        assert(order[n - 1] == Card(rank_at(n - 1)));
    }
}

/// Two cards of one rank are the same card.
pub proof fn lemma_card_is_its_rank(a: Card, b: Card)
    requires
        a@ == b@,
    ensures
        a == b,
{
}

/// The deck holds 52 cards.
pub proof fn lemma_standard_deck_len()
    ensures
        standard_deck().len() == 52,
{
    factory_order().to_multiset_ensures();
}

/// The deck holds each card as often as `copies` says of its rank.
pub proof fn lemma_standard_deck_count(c: Card)
    ensures
        standard_deck().count(c) == copies(c@),
{
    lemma_prefix_count(52, c);
    lemma_placed_closed(52, c@);
    assert(factory_order().subrange(0, 52) =~= factory_order());
}

/// Every card of the deck has a rank of at most 13.
pub proof fn lemma_standard_deck_ranks(c: Card)
    requires
        standard_deck().count(c) > 0,
    ensures
        c@ <= 13,
{
    lemma_standard_deck_count(c);
}

/// An empty pile holds no card.
pub proof fn lemma_pile_empty(pile: Seq<Card>)
    requires
        pile.len() == 0,
    ensures
        pile.to_multiset() == Multiset::<Card>::empty(),
{
    pile.to_multiset_ensures();
    lemma_multiset_empty_len(pile.to_multiset());
    assert(pile.to_multiset() =~= Multiset::<Card>::empty());
}

/// A pile is its top card together with the cards below it.
pub proof fn lemma_pile_top(pile: Seq<Card>)
    requires
        pile.len() > 0,
    ensures
        pile.to_multiset() == pile.drop_last().to_multiset().insert(pile.last()),
{
    broadcast use to_multiset_build;

    assert(pile =~= pile.drop_last().push(pile.last()));
}

/// Exchanging the card at one position takes that card out and puts the other in.
pub proof fn lemma_pile_exchange(pile: Seq<Card>, i: int, card: Card)
    requires
        0 <= i < pile.len(),
    ensures
        pile.update(i, card).to_multiset().insert(pile[i]) == pile.to_multiset().insert(card),
{
    broadcast use group_multiset_axioms;

    to_multiset_remove(pile, i);
    to_multiset_insert(pile.remove(i), i, card);
    to_multiset_contains(pile, pile[i]);
    assert(pile.contains(pile[i]));
    assert(pile.update(i, card) =~= pile.remove(i).insert(i, card));
    assert(pile.update(i, card).to_multiset().insert(pile[i]) =~= pile.to_multiset().insert(card));
}

/// Shuffles `cards` in place with `rand::Rng::shuffle` on `rand::thread_rng()`.
/// That shuffle only swaps elements of the slice, so the cards are the same
/// afterwards; their order is left open. Not proved, but read off the source of
/// `rand`. The generator of the thread is seeded from the operating system and
/// gives up where that has no entropy to offer.
#[verifier::external_body]
pub(crate) fn shuffle(cards: &mut Vec<Card>)
    ensures
        final(cards)@.to_multiset() == old(cards)@.to_multiset(),
{
    rand::thread_rng().shuffle(cards.as_mut_slice());
}

impl Card {
    /// A card's rank is at most 13.
    #[verifier::type_invariant]
    spec fn in_domain(self) -> bool {
        self.0 <= 13
    }

    /// The card of rank `number`.
    pub fn new(number: u8) -> (card: Card)
        requires
            number <= 13,
        ensures
            card@ == number,
    {
        Card(number)
    }

    /// The rank of the card.
    pub fn rank(&self) -> (rank: u8)
        ensures
            rank == self@,
            rank <= 13,
    {
        proof {
            use_type_invariant(self);
        }
        self.0
    }

    /// All 52 cards in factory order.
    pub fn sorted_deck() -> (cards: Vec<Card>)
        ensures
            cards@ == factory_order(),
    {
        let mut cards: Vec<Card> = Vec::with_capacity(DECK_SIZE);
        cards.push(Card::new(0));
        cards.push(Card::new(0));
        let mut rank: u8 = 1;
        while rank < 13
            invariant
                1 <= rank <= 13,
                cards@.len() == 4 * rank - 2,
                forall|i: int| 0 <= i < cards@.len() ==> (#[trigger] cards@[i])@ == rank_at(i),
            decreases 13 - rank,
        {
            let mut copy: u8 = 0;
            while copy < 4
                invariant
                    1 <= rank < 13,
                    copy <= 4,
                    cards@.len() == 4 * rank - 2 + copy,
                    forall|i: int| 0 <= i < cards@.len() ==> (#[trigger] cards@[i])@ == rank_at(i),
                decreases 4 - copy,
            {
                cards.push(Card::new(rank));
                copy += 1;
            }
            rank += 1;
        }
        cards.push(Card::new(13));
        cards.push(Card::new(13));
        assert(cards@ =~= factory_order());
        cards
    }

    /// All 52 cards in an order left to chance.
    pub fn full_deck() -> (cards: Vec<Card>)
        ensures
            cards@.to_multiset() == standard_deck(),
            cards@.len() == DECK_SIZE,
    {
        let mut cards = Card::sorted_deck();
        shuffle(&mut cards);
        proof {
            cards@.to_multiset_ensures();
            lemma_standard_deck_len();
        }
        cards
    }
}

} // verus!
