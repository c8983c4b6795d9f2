use solitaire_quest::klondike::card::{Card, Rank, Suit};

#[test]
fn rank_values_are_sequential() {
    let ranks = [
        Rank::Ace, Rank::Two, Rank::Three, Rank::Four, Rank::Five,
        Rank::Six, Rank::Seven, Rank::Eight, Rank::Nine, Rank::Ten,
        Rank::Jack, Rank::Queen, Rank::King,
    ];
    for (i, r) in ranks.iter().enumerate() {
        assert_eq!(r.value(), (i + 1) as u8);
    }
}

#[test]
fn suit_red_and_black_are_complementary() {
    for suit in [Suit::Clubs, Suit::Diamonds, Suit::Hearts, Suit::Spades] {
        assert_ne!(suit.is_red(), suit.is_black(), "{suit:?} must be exactly one of red/black");
    }
    assert!(Suit::Diamonds.is_red() && Suit::Hearts.is_red());
    assert!(Suit::Clubs.is_black() && Suit::Spades.is_black());
}

#[test]
fn card_fields_round_trip() {
    let c = Card { id: 7, suit: Suit::Hearts, rank: Rank::Queen, face_up: true };
    let d = c;
    assert_eq!(c, d);
    assert_eq!(d.rank.value(), 12);
}
