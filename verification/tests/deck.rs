use solitaire_quest::klondike::card::{Card, Rank, Suit};
use solitaire_quest::klondike::deck::{deal_klondike, Deck};
use solitaire_quest::klondike::pile::{Pile, PileType};
use solitaire_quest::klondike::rules::{
    can_place_on_foundation, can_place_on_tableau, is_valid_tableau_sequence,
};

fn card(id: u32, suit: Suit, rank: Rank, face_up: bool) -> Card {
    Card { id, suit, rank, face_up }
}

#[test]
fn new_deck_is_ordered_and_face_down() {
    let d = Deck::new();
    assert_eq!(d.cards.len(), 52);
    for (i, c) in d.cards.iter().enumerate() {
        assert_eq!(c.id, i as u32);
        assert!(!c.face_up);
        assert_eq!(c.rank.value() as usize, i % 13 + 1);
    }
    assert_eq!(d.cards[0].suit, Suit::Clubs);
    assert_eq!(d.cards[13].suit, Suit::Diamonds);
    assert_eq!(d.cards[26].suit, Suit::Hearts);
    assert_eq!(d.cards[51].suit, Suit::Spades);
}

#[test]
fn shuffle_is_a_seeded_permutation() {
    let mut a = Deck::new();
    let mut b = Deck::new();
    a.shuffle(42);
    b.shuffle(42);
    assert_eq!(a.cards, b.cards, "same seed, same order");
    assert_ne!(a.cards, Deck::new().cards, "a shuffle moves cards");
    let mut ids: Vec<u32> = a.cards.iter().map(|c| c.id).collect();
    ids.sort();
    assert_eq!(ids, (0..52).collect::<Vec<u32>>());
    let mut c = Deck::new();
    c.shuffle(43);
    assert_ne!(a.cards, c.cards, "different seeds, different orders");
}

#[test]
fn deal_klondike_builds_seven_columns_and_stock() {
    let deck = Deck::new();
    let (columns, stock) = deal_klondike(deck);
    let mut next = 0u32;
    for (c, col) in columns.iter().enumerate() {
        assert_eq!(col.pile_type, PileType::Tableau(c));
        assert_eq!(col.cards.len(), c + 1);
        for (k, card) in col.cards.iter().enumerate() {
            assert_eq!(card.id, next);
            next += 1;
            assert_eq!(card.face_up, k == c, "only the top card is face up");
        }
    }
    assert_eq!(stock.pile_type, PileType::Stock);
    assert_eq!(stock.cards.len(), 24);
    assert_eq!(stock.cards[0].id, 28);
    assert!(stock.cards.iter().all(|c| !c.face_up));
}

#[test]
fn pile_top_is_last_card() {
    let mut p = Pile::new(PileType::Waste);
    assert_eq!(p.top(), None);
    p.cards.push(card(1, Suit::Hearts, Rank::Ace, true));
    p.cards.push(card(2, Suit::Spades, Rank::Two, true));
    assert_eq!(p.top().map(|c| c.id), Some(2));
}

#[test]
fn foundation_accepts_ace_then_same_suit_ascending() {
    let mut f = Pile::new(PileType::Foundation(0));
    assert!(can_place_on_foundation(&card(0, Suit::Hearts, Rank::Ace, true), &f));
    assert!(!can_place_on_foundation(&card(1, Suit::Hearts, Rank::Two, true), &f));
    f.cards.push(card(0, Suit::Hearts, Rank::Ace, true));
    assert!(can_place_on_foundation(&card(1, Suit::Hearts, Rank::Two, true), &f));
    assert!(!can_place_on_foundation(&card(2, Suit::Diamonds, Rank::Two, true), &f));
    assert!(!can_place_on_foundation(&card(3, Suit::Hearts, Rank::Three, true), &f));
}

#[test]
fn tableau_accepts_king_on_empty_and_alternating_descending() {
    let mut t = Pile::new(PileType::Tableau(3));
    assert!(can_place_on_tableau(&card(0, Suit::Spades, Rank::King, true), &t));
    assert!(!can_place_on_tableau(&card(1, Suit::Spades, Rank::Queen, true), &t));
    t.cards.push(card(0, Suit::Spades, Rank::King, true));
    assert!(can_place_on_tableau(&card(1, Suit::Hearts, Rank::Queen, true), &t));
    assert!(!can_place_on_tableau(&card(2, Suit::Clubs, Rank::Queen, true), &t));
    assert!(!can_place_on_tableau(&card(3, Suit::Hearts, Rank::Jack, true), &t));
    t.cards[0].face_up = false;
    assert!(!can_place_on_tableau(&card(1, Suit::Hearts, Rank::Queen, true), &t));
}

#[test]
fn tableau_sequences() {
    assert!(is_valid_tableau_sequence(&[]));
    let run = [
        card(0, Suit::Spades, Rank::Nine, true),
        card(1, Suit::Hearts, Rank::Eight, true),
        card(2, Suit::Clubs, Rank::Seven, true),
    ];
    assert!(is_valid_tableau_sequence(&run));
    let broken = [
        card(0, Suit::Spades, Rank::Nine, true),
        card(1, Suit::Clubs, Rank::Eight, true),
    ];
    assert!(!is_valid_tableau_sequence(&broken));
}
