//! Pile identities and pile contents.

use vstd::prelude::*;
use crate::klondike::card::Card;

verus! {

/// Which pile on the table a stack of cards belongs to.
#[derive(Debug, Clone, Copy, PartialEq, Eq, Structural)]
pub enum PileType {
    /// The face-down draw pile.
    Stock,
    /// The face-up discard pile fed by the stock.
    Waste,
    /// One of the four foundation slots (0..=3). A slot claims the suit of
    /// its bottom card.
    Foundation(u8),
    /// One of the seven tableau columns (0..=6).
    Tableau(usize),
}

/// A pile: its identity and its cards, bottom first.
pub struct Pile {
    /// Which pile this is.
    pub pile_type: PileType,
    /// The cards, bottom (index 0) to top (last).
    pub cards: Vec<Card>,
}

impl Pile {
    /// An empty pile of the given type.
    pub fn new(pile_type: PileType) -> (p: Pile)
        ensures
            p.pile_type == pile_type,
            p.cards@ == Seq::<Card>::empty(),
    {
        Pile { pile_type, cards: Vec::new() }
    }

    /// The top card, if any.
    pub fn top(&self) -> (c: Option<Card>)
        ensures
            self.cards@.len() == 0 ==> c is None,
            self.cards@.len() > 0 ==> c == Some(self.cards@.last()),
    {
        if self.cards.len() == 0 {
            None
        } else {
            Some(self.cards[self.cards.len() - 1])
        }
    }
}

} // verus!
