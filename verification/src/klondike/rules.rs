//! Klondike placement rules.

use vstd::prelude::*;
use crate::klondike::card::{spec_is_red, rank_value, Card, Rank};
use crate::klondike::pile::Pile;

verus! {

/// `upper` may sit directly on `lower` in a tableau run: opposite colours and
/// `upper` is exactly one rank below `lower`.
pub open spec fn stacks_on(upper: Card, lower: Card) -> bool {
    &&& spec_is_red(upper.suit) != spec_is_red(lower.suit)
    &&& rank_value(upper.rank) + 1 == rank_value(lower.rank)
}

/// A foundation pile whose cards are `pile` accepts `card`: an Ace on an
/// empty pile, otherwise the next rank of the top card's suit.
pub open spec fn foundation_accepts(card: Card, pile: Seq<Card>) -> bool {
    if pile.len() == 0 {
        card.rank == Rank::Ace
    } else {
        &&& card.suit == pile.last().suit
        &&& rank_value(card.rank) == rank_value(pile.last().rank) + 1
    }
}

/// A tableau column whose cards are `pile` accepts `card` (as the bottom of
/// a moved run): a King on an empty column, otherwise a face-up top card
/// that `card` stacks on.
pub open spec fn tableau_accepts(card: Card, pile: Seq<Card>) -> bool {
    if pile.len() == 0 {
        card.rank == Rank::King
    } else {
        pile.last().face_up && stacks_on(card, pile.last())
    }
}

/// Every card of `cards` stacks on the one before it.
pub open spec fn is_tableau_run(cards: Seq<Card>) -> bool {
    forall|i: int| 0 <= i < cards.len() - 1 ==> #[trigger] stacks_on(cards[i + 1], cards[i])
}

/// Whether `card` may be placed on the foundation pile `pile`.
pub fn can_place_on_foundation(card: &Card, pile: &Pile) -> (ok: bool)
    ensures
        ok == foundation_accepts(*card, pile.cards@),
{
    let n = pile.cards.len();
    if n == 0 {
        match card.rank {
            Rank::Ace => true,
            _ => false,
        }
    } else {
        let top = &pile.cards[n - 1];
        card.suit == top.suit && card.rank.value() == top.rank.value() + 1
    }
}

/// Whether `card` (the bottom of a run being moved) may be placed on the
/// tableau pile `pile`.
pub fn can_place_on_tableau(card: &Card, pile: &Pile) -> (ok: bool)
    ensures
        ok == tableau_accepts(*card, pile.cards@),
{
    let n = pile.cards.len();
    if n == 0 {
        match card.rank {
            Rank::King => true,
            _ => false,
        }
    } else {
        let top = &pile.cards[n - 1];
        top.face_up && card.suit.is_red() != top.suit.is_red() && card.rank.value() + 1
            == top.rank.value()
    }
}

/// Whether `cards` (bottom first) form a valid descending, alternating-colour
/// tableau run.
pub fn is_valid_tableau_sequence(cards: &[Card]) -> (ok: bool)
    ensures
        ok == is_tableau_run(cards@),
{
    let n = cards.len();
    if n < 2 {
        return true;
    }
    let mut i: usize = 0;
    while i + 1 < n
        invariant
            n == cards@.len(),
            n >= 2,
            i + 1 <= n,
            forall|j: int| 0 <= j < i ==> #[trigger] stacks_on(cards@[j + 1], cards@[j]),
        decreases n - i,
    {
        let lower = &cards[i];
        let upper = &cards[i + 1];
        if !(upper.suit.is_red() != lower.suit.is_red() && upper.rank.value() + 1
            == lower.rank.value()) {
            assert(!stacks_on(cards@[i as int + 1], cards@[i as int]));
            return false;
        }
        i = i + 1;
    }
    true
}

} // verus!
