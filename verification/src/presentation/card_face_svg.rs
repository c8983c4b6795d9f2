//! SVG markup for the card-face and card-back artwork.
//!
//! Faces show the rank in the top-left corner with a small suit glyph below
//! it and a large glyph in the bottom-right corner. Hearts and spades are
//! drawn filled, diamonds and clubs outlined. Backs are a scanline pattern
//! whose top-left badge takes one of five accent colours.

use vstd::prelude::*;
use crate::klondike::card::{Rank, Suit};

verus! {

/// Rasterisation size in pixels, width by height.
pub const TARGET: (u32, u32) = (256, 384);

/// Face background.
pub const BG_FACE: &'static str = "#1a1a1a";
/// Hearts and diamonds.
pub const SUIT_RED: &'static str = "#fb9fb1";
/// Spades and clubs.
pub const SUIT_DARK: &'static str = "#d0d0d0";
/// Back background.
pub const BACK_BG: &'static str = "#151515";
/// Back scanline colour.
pub const BACK_SCANLINE: &'static str = "#1a1a1a";
/// Back border.
pub const BACK_BORDER: &'static str = "#353535";
/// Back monogram colour.
pub const BACK_MONOGRAM: &'static str = "#505050";

/// The five back-theme accent colours; slot 0 is the canonical one.
pub const BACK_ACCENTS: [&'static str; 5] = ["#6fc2ef", "#acc267", "#e1a3ee", "#fb9fb1", "#ddb26f"];

/// Every rank, Ace to King.
pub const ALL_RANKS: [Rank; 13] = [
    Rank::Ace,
    Rank::Two,
    Rank::Three,
    Rank::Four,
    Rank::Five,
    Rank::Six,
    Rank::Seven,
    Rank::Eight,
    Rank::Nine,
    Rank::Ten,
    Rank::Jack,
    Rank::Queen,
    Rank::King,
];

/// Every suit in Clubs, Diamonds, Hearts, Spades order.
pub const ALL_SUITS: [Suit; 4] = [Suit::Clubs, Suit::Diamonds, Suit::Hearts, Suit::Spades];

/// Pieces of the face template, in order; the colours, rank, glyph path and
/// glyph paint are substituted between them.
pub const FACE_0: &'static str = "<svg xmlns=\"http://www.w3.org/2000/svg\" width=\"256\" height=\"384\" viewBox=\"0 0 256 384\">\n  <rect x=\"1\" y=\"1\" width=\"254\" height=\"382\" rx=\"16\" ry=\"16\"\n        fill=\"";
pub const FACE_1: &'static str = "\" stroke=\"";
pub const FACE_2: &'static str = "\" stroke-width=\"2\"/>\n\n  <!-- Top-left rank in JetBrains-Mono-styled FiraMono (rank digits\n       and letters render correctly in FiraMono; only the suit glyphs\n       needed to escape to paths). -->\n  <text x=\"14\" y=\"44\" font-family=\"Fira Mono\" font-size=\"36\" font-weight=\"700\"\n        fill=\"";
pub const FACE_3: &'static str = "\">";
pub const FACE_4: &'static str = "</text>\n\n  <!-- Top-left small suit glyph at (14, 50), 20 × 20.\n       `suit_path_d` is authored in a 32-unit box, so scale 0.625\n       lands the visible glyph at 20 px. -->\n  <g transform=\"translate(14 50) scale(0.625)\">\n    <path d=\"";
pub const FACE_5: &'static str = "\" ";
pub const FACE_6: &'static str = "/>\n  </g>\n\n  <!-- Bottom-right large suit glyph at (178, 286), 64 × 64.\n       Visible bottom-right at (242, 350), visible top-left at\n       (178, 286). Same upright orientation as the top-left small\n       glyph — no 180° rotation applied. -->\n  <g transform=\"translate(178 286) scale(2)\">\n    <path d=\"";
pub const FACE_7: &'static str = "\" ";
pub const FACE_8: &'static str = "/>\n  </g>\n</svg>";

/// Pieces of the back template, in order; the palette colours and the badge
/// accent are substituted between them.
pub const BACK_0: &'static str = "<svg xmlns=\"http://www.w3.org/2000/svg\" width=\"256\" height=\"384\" viewBox=\"0 0 256 384\">\n  <defs>\n    <pattern id=\"scanlines\" x=\"0\" y=\"0\" width=\"2\" height=\"4\" patternUnits=\"userSpaceOnUse\">\n      <rect x=\"0\" y=\"0\" width=\"2\" height=\"2\" fill=\"";
pub const BACK_1: &'static str = "\"/>\n    </pattern>\n  </defs>\n\n  <!-- Background fill, then scanlines on top (the scanlines stay\n       darker than BACK_BG so the \"off\" rows show through). -->\n  <rect x=\"1\" y=\"1\" width=\"254\" height=\"382\" rx=\"16\" ry=\"16\"\n        fill=\"";
pub const BACK_2: &'static str = "\" stroke=\"";
pub const BACK_3: &'static str = "\" stroke-width=\"2\"/>\n  <rect x=\"1\" y=\"1\" width=\"254\" height=\"382\" rx=\"16\" ry=\"16\"\n        fill=\"url(#scanlines)\"/>\n\n  <!-- Top-left accent badge (the only theme-varying element). -->\n  <rect x=\"12\" y=\"12\" width=\"24\" height=\"32\" fill=\"";
pub const BACK_4: &'static str = "\"/>\n\n  <!-- Bottom-right \"▌RS\" monogram in JetBrains-Mono-styled FiraMono. -->\n  <text x=\"244\" y=\"368\" font-family=\"Fira Mono\" font-size=\"24\"\n        fill=\"";
pub const BACK_5: &'static str = "\" text-anchor=\"end\">&#x258C;RS</text>\n</svg>";

/// The rank part of a face's file name: `A`, `2`..`10`, `J`, `Q`, `K`.
pub open spec fn rank_file(rank: Rank) -> Seq<char> {
    match rank {
        Rank::Ace => "A"@,
        Rank::Two => "2"@,
        Rank::Three => "3"@,
        Rank::Four => "4"@,
        Rank::Five => "5"@,
        Rank::Six => "6"@,
        Rank::Seven => "7"@,
        Rank::Eight => "8"@,
        Rank::Nine => "9"@,
        Rank::Ten => "10"@,
        Rank::Jack => "J"@,
        Rank::Queen => "Q"@,
        Rank::King => "K"@,
    }
}

/// The suit part of a face's file name: `C`, `D`, `H`, `S`.
pub open spec fn suit_file(suit: Suit) -> Seq<char> {
    match suit {
        Suit::Clubs => "C"@,
        Suit::Diamonds => "D"@,
        Suit::Hearts => "H"@,
        Suit::Spades => "S"@,
    }
}

/// Lowercase suit word used in theme file names.
pub open spec fn suit_token(suit: Suit) -> Seq<char> {
    match suit {
        Suit::Clubs => "clubs"@,
        Suit::Diamonds => "diamonds"@,
        Suit::Hearts => "hearts"@,
        Suit::Spades => "spades"@,
    }
}

/// Lowercase rank word used in theme file names.
pub open spec fn rank_token(rank: Rank) -> Seq<char> {
    match rank {
        Rank::Ace => "ace"@,
        Rank::Two => "2"@,
        Rank::Three => "3"@,
        Rank::Four => "4"@,
        Rank::Five => "5"@,
        Rank::Six => "6"@,
        Rank::Seven => "7"@,
        Rank::Eight => "8"@,
        Rank::Nine => "9"@,
        Rank::Ten => "10"@,
        Rank::Jack => "jack"@,
        Rank::Queen => "queen"@,
        Rank::King => "king"@,
    }
}

/// The rank component of a face's file name: `A`, `2`..`10`, `J`, `Q`, `K`.
pub fn rank_filename(rank: Rank) -> (s: &'static str)
    ensures
        s@ == rank_file(rank),
{
    match rank {
        Rank::Ace => "A",
        Rank::Two => "2",
        Rank::Three => "3",
        Rank::Four => "4",
        Rank::Five => "5",
        Rank::Six => "6",
        Rank::Seven => "7",
        Rank::Eight => "8",
        Rank::Nine => "9",
        Rank::Ten => "10",
        Rank::Jack => "J",
        Rank::Queen => "Q",
        Rank::King => "K",
    }
}

/// The suit component of a face's file name: `C`, `D`, `H`, `S`.
pub fn suit_filename(suit: Suit) -> (s: &'static str)
    ensures
        s@ == suit_file(suit),
{
    match suit {
        Suit::Clubs => "C",
        Suit::Diamonds => "D",
        Suit::Hearts => "H",
        Suit::Spades => "S",
    }
}

/// Lowercase full-word suit token of theme SVG file names (`spades_ace.svg`).
pub fn theme_suit_token(suit: Suit) -> (s: &'static str)
    ensures
        s@ == suit_token(suit),
{
    match suit {
        Suit::Clubs => "clubs",
        Suit::Diamonds => "diamonds",
        Suit::Hearts => "hearts",
        Suit::Spades => "spades",
    }
}

/// Lowercase full-word rank token of theme SVG file names (`ace`, `2`..`10`,
/// `jack`, `queen`, `king`).
pub fn theme_rank_token(rank: Rank) -> (s: &'static str)
    ensures
        s@ == rank_token(rank),
{
    match rank {
        Rank::Ace => "ace",
        Rank::Two => "2",
        Rank::Three => "3",
        Rank::Four => "4",
        Rank::Five => "5",
        Rank::Six => "6",
        Rank::Seven => "7",
        Rank::Eight => "8",
        Rank::Nine => "9",
        Rank::Ten => "10",
        Rank::Jack => "jack",
        Rank::Queen => "queen",
        Rank::King => "king",
    }
}

/// How a suit glyph is painted.
#[derive(Debug, Clone, Copy, PartialEq, Eq, Structural)]
pub enum GlyphPaint {
    /// Solid fill.
    Filled,
    /// Outline only (3 px stroke at output scale).
    Outlined,
}

/// Colour and paint style of a suit's glyph: hearts filled red, diamonds
/// outlined red, spades filled dark, clubs outlined dark.
pub open spec fn suit_style(suit: Suit) -> (Seq<char>, GlyphPaint) {
    match suit {
        Suit::Hearts => (SUIT_RED@, GlyphPaint::Filled),
        Suit::Diamonds => (SUIT_RED@, GlyphPaint::Outlined),
        Suit::Spades => (SUIT_DARK@, GlyphPaint::Filled),
        Suit::Clubs => (SUIT_DARK@, GlyphPaint::Outlined),
    }
}

/// SVG paint attributes for a glyph in `colour`.
pub open spec fn glyph_attrs(colour: Seq<char>, paint: GlyphPaint) -> Seq<char> {
    match paint {
        GlyphPaint::Filled => "fill=\""@ + colour + "\""@,
        GlyphPaint::Outlined => "fill=\"none\" stroke=\""@ + colour + "\" stroke-width=\"3\""@,
    }
}

/// Path data tracing a suit's silhouette in a 32 × 32 box.
pub open spec fn suit_path(suit: Suit) -> Seq<char> {
    match suit {
        Suit::Hearts => "M16,28 C 8,22 2,17 2,11 C 2,7 5,4 9,4 C 12,4 14,6 16,9 C 18,6 20,4 23,4 C 27,4 30,7 30,11 C 30,17 24,22 16,28 Z"@,
        Suit::Diamonds => "M16,2 L 29,16 L 16,30 L 3,16 Z"@,
        Suit::Spades => "M16,4 C 9,9 2,14 2,21 C 2,25 5,28 9,28 C 13,28 14,26 14,24 L 13,30 L 19,30 L 18,24 C 18,26 19,28 23,28 C 27,28 30,25 30,21 C 30,14 23,9 16,4 Z"@,
        Suit::Clubs => "M16,4 C 13,4 10,7 10,10 C 10,12 11,13 12,14 C 9,14 4,17 4,21 C 4,24 7,27 10,27 C 12,27 14,26 14,24 L 13,30 L 19,30 L 18,24 C 18,26 20,27 22,27 C 25,27 28,24 28,21 C 28,17 23,14 20,14 C 21,13 22,12 22,10 C 22,7 19,4 16,4 Z"@,
    }
}

/// The complete face markup for `rank` of `suit`.
pub open spec fn face_markup(rank: Rank, suit: Suit) -> Seq<char> {
    let colour = suit_style(suit).0;
    let attrs = glyph_attrs(colour, suit_style(suit).1);
    FACE_0@ + BG_FACE@ + FACE_1@ + colour + FACE_2@ + colour + FACE_3@ + rank_file(rank) + FACE_4@
        + suit_path(suit) + FACE_5@ + attrs + FACE_6@ + suit_path(suit) + FACE_7@ + attrs
        + FACE_8@
}

/// The complete back markup with badge colour `accent`.
pub open spec fn back_markup(accent: Seq<char>) -> Seq<char> {
    BACK_0@ + BACK_SCANLINE@ + BACK_1@ + BACK_BG@ + BACK_2@ + BACK_BORDER@ + BACK_3@ + accent
        + BACK_4@ + BACK_MONOGRAM@ + BACK_5@
}

fn suit_paint(suit: Suit) -> (r: (&'static str, GlyphPaint))
    ensures
        r.0@ == suit_style(suit).0,
        r.1 == suit_style(suit).1,
{
    match suit {
        Suit::Hearts => (SUIT_RED, GlyphPaint::Filled),
        Suit::Diamonds => (SUIT_RED, GlyphPaint::Outlined),
        Suit::Spades => (SUIT_DARK, GlyphPaint::Filled),
        Suit::Clubs => (SUIT_DARK, GlyphPaint::Outlined),
    }
}

fn glyph_paint_attrs(colour: &str, paint: GlyphPaint) -> (s: String)
    ensures
        s@ == glyph_attrs(colour@, paint),
{
    let mut s = String::new();
    match paint {
        GlyphPaint::Filled => {
            s.append("fill=\"");
            s.append(colour);
            s.append("\"");
        },
        GlyphPaint::Outlined => {
            s.append("fill=\"none\" stroke=\"");
            s.append(colour);
            s.append("\" stroke-width=\"3\"");
        },
    }
    assert(s@ =~= glyph_attrs(colour@, paint));
    s
}

fn suit_path_d(suit: Suit) -> (s: &'static str)
    ensures
        s@ == suit_path(suit),
{
    match suit {
        Suit::Hearts => "M16,28 C 8,22 2,17 2,11 C 2,7 5,4 9,4 C 12,4 14,6 16,9 C 18,6 20,4 23,4 C 27,4 30,7 30,11 C 30,17 24,22 16,28 Z",
        Suit::Diamonds => "M16,2 L 29,16 L 16,30 L 3,16 Z",
        Suit::Spades => "M16,4 C 9,9 2,14 2,21 C 2,25 5,28 9,28 C 13,28 14,26 14,24 L 13,30 L 19,30 L 18,24 C 18,26 19,28 23,28 C 27,28 30,25 30,21 C 30,14 23,9 16,4 Z",
        Suit::Clubs => "M16,4 C 13,4 10,7 10,10 C 10,12 11,13 12,14 C 9,14 4,17 4,21 C 4,24 7,27 10,27 C 12,27 14,26 14,24 L 13,30 L 19,30 L 18,24 C 18,26 20,27 22,27 C 25,27 28,24 28,21 C 28,17 23,14 20,14 C 21,13 22,12 22,10 C 22,7 19,4 16,4 Z",
    }
}

/// The SVG document for one face card.
pub fn face_svg(rank: Rank, suit: Suit) -> (svg: String)
    ensures
        svg@ == face_markup(rank, suit),
{
    let (colour, paint) = suit_paint(suit);
    let path_d = suit_path_d(suit);
    let rank_text = rank_filename(rank);
    let small_glyph_attrs = glyph_paint_attrs(colour, paint);
    let large_glyph_attrs = glyph_paint_attrs(colour, paint);
    let mut s = String::new();
    s.append(FACE_0);
    s.append(BG_FACE);
    s.append(FACE_1);
    s.append(colour);
    s.append(FACE_2);
    s.append(colour);
    s.append(FACE_3);
    s.append(rank_text);
    s.append(FACE_4);
    s.append(path_d);
    s.append(FACE_5);
    s.append(small_glyph_attrs.as_str());
    s.append(FACE_6);
    s.append(path_d);
    s.append(FACE_7);
    s.append(large_glyph_attrs.as_str());
    s.append(FACE_8);
    assert(s@ =~= face_markup(rank, suit));
    s
}

/// The SVG document for a card back whose badge is `accent`.
pub fn back_svg(accent: &str) -> (svg: String)
    ensures
        svg@ == back_markup(accent@),
{
    let mut s = String::new();
    s.append(BACK_0);
    s.append(BACK_SCANLINE);
    s.append(BACK_1);
    s.append(BACK_BG);
    s.append(BACK_2);
    s.append(BACK_BORDER);
    s.append(BACK_3);
    s.append(accent);
    s.append(BACK_4);
    s.append(BACK_MONOGRAM);
    s.append(BACK_5);
    assert(s@ =~= back_markup(accent@));
    s
}

} // verus!
