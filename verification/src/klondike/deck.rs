//! The 52-card deck, seeded shuffling and the Klondike deal.

use rand::seq::SliceRandom;
use rand::SeedableRng;
use vstd::prelude::*;
use crate::klondike::card::{Card, Rank, Suit};
use crate::klondike::pile::{Pile, PileType};

verus! {

/// Suit of the `i`-th block of thirteen cards in a fresh deck.
pub open spec fn suit_at(i: int) -> Suit {
    if i == 0 {
        Suit::Clubs
    } else if i == 1 {
        Suit::Diamonds
    } else if i == 2 {
        Suit::Hearts
    } else {
        Suit::Spades
    }
}

/// The `i`-th rank, Ace (0) through King (12).
pub open spec fn rank_at(i: int) -> Rank {
    if i == 0 {
        Rank::Ace
    } else if i == 1 {
        Rank::Two
    } else if i == 2 {
        Rank::Three
    } else if i == 3 {
        Rank::Four
    } else if i == 4 {
        Rank::Five
    } else if i == 5 {
        Rank::Six
    } else if i == 6 {
        Rank::Seven
    } else if i == 7 {
        Rank::Eight
    } else if i == 8 {
        Rank::Nine
    } else if i == 9 {
        Rank::Ten
    } else if i == 10 {
        Rank::Jack
    } else if i == 11 {
        Rank::Queen
    } else {
        Rank::King
    }
}

/// The card with id `i` in a fresh deck: suits in Clubs, Diamonds, Hearts,
/// Spades order, Ace to King within each suit, all face down.
pub open spec fn fresh_card(i: int) -> Card {
    Card { id: i as u32, suit: suit_at(i / 13), rank: rank_at(i % 13), face_up: false }
}

/// The cards of a fresh, unshuffled deck.
pub open spec fn fresh_deck() -> Seq<Card> {
    Seq::new(52, |i: int| fresh_card(i))
}

/// What rand's `SliceRandom::shuffle` leaves in `cards` when driven by
/// `StdRng::seed_from_u64(seed)`.
pub uninterp spec fn seeded_shuffle(cards: Seq<Card>, seed: u64) -> Seq<Card>;

/// `seq` with its last card turned face up.
pub open spec fn flip_top(seq: Seq<Card>) -> Seq<Card> {
    if seq.len() == 0 {
        seq
    } else {
        seq.update(seq.len() - 1, Card { face_up: true, ..seq.last() })
    }
}

/// Index of the first card dealt to column `c`: columns take 1, 2, ... 7 cards.
pub open spec fn deal_start(c: int) -> int {
    c * (c + 1) / 2
}

/// The cards dealt to tableau column `c` from `cards`.
pub open spec fn dealt_column(cards: Seq<Card>, c: int) -> Seq<Card> {
    flip_top(cards.subrange(deal_start(c), deal_start(c) + c + 1))
}

/// The cards left in the stock after the deal.
pub open spec fn dealt_stock(cards: Seq<Card>) -> Seq<Card> {
    cards.subrange(28, cards.len() as int)
}

/// A deck of cards, bottom first.
pub struct Deck {
    /// The cards; the deal takes them from index 0 upward.
    pub cards: Vec<Card>,
}

/// Shuffles `cards` in place with rand's `SliceRandom::shuffle`, using a
/// `StdRng` seeded from `seed`. Trusted: the result is the named shuffle of
/// the input, and (rand documents shuffle as a permutation) the same cards
/// in some order.
#[verifier::external_body]
fn shuffle_with_seed(cards: &mut Vec<Card>, seed: u64)
    ensures
        final(cards)@ == seeded_shuffle(old(cards)@, seed),
        final(cards)@.to_multiset() == old(cards)@.to_multiset(),
{
    let mut rng = rand::rngs::StdRng::seed_from_u64(seed);
    cards.shuffle(&mut rng);
}

impl Deck {
    /// A fresh 52-card deck: ids 0..=51, all face down.
    pub fn new() -> (d: Deck)
        ensures
            d.cards@ == fresh_deck(),
    {
        let suits = [Suit::Clubs, Suit::Diamonds, Suit::Hearts, Suit::Spades];
        let ranks = [
            Rank::Ace,
            Rank::Two,
            Rank::Three,
            Rank::Four,
            Rank::Five,
            Rank::Six,
            Rank::Seven,
            Rank::Eight,
            Rank::Nine,
            Rank::Ten,
            Rank::Jack,
            Rank::Queen,
            Rank::King,
        ];
        let mut cards: Vec<Card> = Vec::new();
        let mut s: usize = 0;
        while s < 4
            invariant
                s <= 4,
                cards@.len() == 13 * s,
                forall|i: int| 0 <= i < 13 * s ==> #[trigger] cards@[i] == fresh_card(i),
                forall|i: int| 0 <= i < 4 ==> #[trigger] suits@[i] == suit_at(i),
                forall|i: int| 0 <= i < 13 ==> #[trigger] ranks@[i] == rank_at(i),
            decreases 4 - s,
        {
            let mut r: usize = 0;
            while r < 13
                invariant
                    s < 4,
                    r <= 13,
                    cards@.len() == 13 * s + r,
                    forall|i: int| 0 <= i < 13 * s + r ==> #[trigger] cards@[i] == fresh_card(i),
                    forall|i: int| 0 <= i < 4 ==> #[trigger] suits@[i] == suit_at(i),
                    forall|i: int| 0 <= i < 13 ==> #[trigger] ranks@[i] == rank_at(i),
                decreases 13 - r,
            {
                let id = (13 * s + r) as u32;
                let card = Card { id, suit: suits[s], rank: ranks[r], face_up: false };
                proof {
                    let k = 13 * s + r;
                    assert(k / 13 == s && k % 13 == r) by (nonlinear_arith)
                        requires
                            k == 13 * s + r,
                            r < 13,
                    ;
                    assert(card == fresh_card(k as int));
                }
                cards.push(card);
                r = r + 1;
            }
            s = s + 1;
        }
        assert(cards@ =~= fresh_deck());
        Deck { cards }
    }

    /// Shuffles the deck deterministically from `seed`.
    pub fn shuffle(&mut self, seed: u64)
        ensures
            final(self).cards@ == seeded_shuffle(old(self).cards@, seed),
            final(self).cards@.to_multiset() == old(self).cards@.to_multiset(),
    {
        shuffle_with_seed(&mut self.cards, seed);
    }
}

/// Copies the cards dealt to column `c` out of `cards`.
fn deal_column(cards: &Vec<Card>, c: usize) -> (col: Vec<Card>)
    requires
        c < 7,
        cards@.len() >= 28,
    ensures
        col@ == dealt_column(cards@, c as int),
{
    let starts: [usize; 7] = [0, 1, 3, 6, 10, 15, 21];
    let start = starts[c];
    assert(start == deal_start(c as int)) by {
        assert(deal_start(0) == 0);
        assert(deal_start(1) == 1);
        assert(deal_start(2) == 3);
        assert(deal_start(3) == 6);
        assert(deal_start(4) == 10);
        assert(deal_start(5) == 15);
        assert(deal_start(6) == 21);
    }
    let mut col: Vec<Card> = Vec::new();
    let mut k: usize = 0;
    while k <= c
        invariant
            c < 7,
            start == deal_start(c as int),
            start + c < 28,
            cards@.len() >= 28,
            k <= c + 1,
            col@ == cards@.subrange(start as int, start + k),
        decreases c + 1 - k,
    {
        col.push(cards[start + k]);
        assert(col@ =~= cards@.subrange(start as int, start + k + 1));
        k = k + 1;
    }
    let last = col.len() - 1;
    let mut top = col[last];
    top.face_up = true;
    col.set(last, top);
    assert(col@ =~= dealt_column(cards@, c as int));
    col
}

/// Deals a Klondike layout from `deck`: column `c` takes the next `c + 1`
/// cards with its top card turned face up; the rest form the stock.
pub fn deal_klondike(deck: Deck) -> (res: ([Pile; 7], Pile))
    requires
        deck.cards@.len() >= 28,
    ensures
        forall|c: int|
            0 <= c < 7 ==> (#[trigger] res.0[c]).cards@ == dealt_column(deck.cards@, c)
                && res.0[c].pile_type == PileType::Tableau(c as usize),
        res.1.cards@ == dealt_stock(deck.cards@),
        res.1.pile_type == PileType::Stock,
{
    let cards = deck.cards;
    let piles = [
        Pile { pile_type: PileType::Tableau(0), cards: deal_column(&cards, 0) },
        Pile { pile_type: PileType::Tableau(1), cards: deal_column(&cards, 1) },
        Pile { pile_type: PileType::Tableau(2), cards: deal_column(&cards, 2) },
        Pile { pile_type: PileType::Tableau(3), cards: deal_column(&cards, 3) },
        Pile { pile_type: PileType::Tableau(4), cards: deal_column(&cards, 4) },
        Pile { pile_type: PileType::Tableau(5), cards: deal_column(&cards, 5) },
        Pile { pile_type: PileType::Tableau(6), cards: deal_column(&cards, 6) },
    ];
    let mut stock: Vec<Card> = Vec::new();
    let n = cards.len();
    let mut k: usize = 28;
    while k < n
        invariant
            n == cards@.len(),
            28 <= k <= n,
            stock@ == cards@.subrange(28, k as int),
        decreases n - k,
    {
        stock.push(cards[k]);
        assert(stock@ =~= cards@.subrange(28, k + 1));
        k = k + 1;
    }
    (piles, Pile { pile_type: PileType::Stock, cards: stock })
}

/// The deal hands out every card exactly once, in order: column `c` takes
/// the `c + 1` cards right after those of column `c - 1`, the seven columns
/// together take the first 28, the stock keeps the rest, and every column
/// card but the top one is dealt as it lay in the deck.
pub proof fn lemma_deal_covers_deck(cards: Seq<Card>)
    requires
        cards.len() >= 28,
    ensures
        deal_start(0) == 0,
        forall|c: int| 0 <= c < 7 ==> #[trigger] deal_start(c + 1) == deal_start(c) + c + 1,
        deal_start(7) == 28,
        forall|c: int| 0 <= c < 7 ==> (#[trigger] dealt_column(cards, c)).len() == c + 1,
        forall|c: int, k: int|
            0 <= c < 7 && 0 <= k < c ==> #[trigger] dealt_column(cards, c)[k] == cards[deal_start(c)
                + k],
        forall|c: int|
            0 <= c < 7 ==> (#[trigger] dealt_column(cards, c)).last() == (Card {
                face_up: true,
                ..cards[deal_start(c) + c]
            }),
        dealt_stock(cards).len() + 28 == cards.len(),
{
    assert forall|c: int| 0 <= c < 7 implies #[trigger] deal_start(c + 1) == deal_start(c) + c
        + 1 by {
        assert(deal_start(c + 1) == deal_start(c) + c + 1) by (nonlinear_arith)
            requires
                0 <= c,
        {
            assert((c + 1) * (c + 2) == c * (c + 1) + 2 * (c + 1));
        }
    }
    assert(deal_start(7) == 28);
    assert forall|c: int| 0 <= c < 7 implies 0 <= #[trigger] deal_start(c) && deal_start(c) + c
        + 1 <= 28 by {
        assert(0 <= deal_start(c) && deal_start(c) + c + 1 <= 28) by (nonlinear_arith)
            requires
                0 <= c < 7,
        {
            assert(c * (c + 1) <= 6 * (c + 1));
            assert((c + 1) * (c + 2) <= 56) by (nonlinear_arith)
                requires
                    0 <= c < 7,
            ;
            assert(c * (c + 1) + 2 * (c + 1) == (c + 1) * (c + 2));
        }
    }
}

} // verus!
