//! Cards, suits and ranks.

use vstd::prelude::*;

verus! {

/// Card suit.
#[derive(Debug, Clone, Copy, PartialEq, Eq, Structural, Hash)]
pub enum Suit {
    Clubs,
    Diamonds,
    Hearts,
    Spades,
}

/// Whether `suit` is one of the two red suits.
pub open spec fn spec_is_red(suit: Suit) -> bool {
    suit == Suit::Diamonds || suit == Suit::Hearts
}

impl Suit {
    /// Returns `true` for red suits (Diamonds, Hearts).
    pub fn is_red(self) -> (red: bool)
        ensures
            red == spec_is_red(self),
    {
        match self {
            Suit::Diamonds | Suit::Hearts => true,
            _ => false,
        }
    }

    /// Returns `true` for black suits (Clubs, Spades).
    pub fn is_black(self) -> (black: bool)
        ensures
            black == !spec_is_red(self),
            black <==> (self == Suit::Clubs || self == Suit::Spades),
    {
        !self.is_red()
    }
}

/// Card rank, Ace through King.
#[derive(Debug, Clone, Copy, PartialEq, Eq, Structural, Hash)]
pub enum Rank {
    Ace,
    Two,
    Three,
    Four,
    Five,
    Six,
    Seven,
    Eight,
    Nine,
    Ten,
    Jack,
    Queen,
    King,
}

/// Numeric value of a rank: Ace = 1 up to King = 13.
pub open spec fn rank_value(rank: Rank) -> nat {
    match rank {
        Rank::Ace => 1,
        Rank::Two => 2,
        Rank::Three => 3,
        Rank::Four => 4,
        Rank::Five => 5,
        Rank::Six => 6,
        Rank::Seven => 7,
        Rank::Eight => 8,
        Rank::Nine => 9,
        Rank::Ten => 10,
        Rank::Jack => 11,
        Rank::Queen => 12,
        Rank::King => 13,
    }
}

impl Rank {
    /// Numeric value: Ace = 1, King = 13.
    pub fn value(self) -> (v: u8)
        ensures
            v == rank_value(self),
            1 <= v <= 13,
    {
        match self {
            Rank::Ace => 1,
            Rank::Two => 2,
            Rank::Three => 3,
            Rank::Four => 4,
            Rank::Five => 5,
            Rank::Six => 6,
            Rank::Seven => 7,
            Rank::Eight => 8,
            Rank::Nine => 9,
            Rank::Ten => 10,
            Rank::Jack => 11,
            Rank::Queen => 12,
            Rank::King => 13,
        }
    }
}

/// Distinct ranks have distinct values, so a rank is determined by its value.
pub proof fn lemma_rank_value_injective(a: Rank, b: Rank)
    ensures
        rank_value(a) == rank_value(b) <==> a == b,
{
}

/// A single playing card.
#[derive(Debug, Clone, Copy, PartialEq, Eq, Structural)]
pub struct Card {
    /// Unique identifier for this card within the deal. Stable across moves.
    pub id: u32,
    /// The card's suit.
    pub suit: Suit,
    /// The card's rank.
    pub rank: Rank,
    /// Whether the card is visible to the player. Face-down cards may not be moved.
    pub face_up: bool,
}

} // verus!
