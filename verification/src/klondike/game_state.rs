//! Game-wide settings shared by the solver and the statistics code.

use vstd::prelude::*;

verus! {

/// How many cards a click on the stock turns over.
#[derive(Debug, Clone, Copy, PartialEq, Eq, Structural)]
pub enum DrawMode {
    /// One card per draw.
    DrawOne,
    /// Three cards per draw.
    DrawThree,
}

/// Number of cards one draw turns over in `mode`.
pub open spec fn draw_count(mode: DrawMode) -> nat {
    match mode {
        DrawMode::DrawOne => 1,
        DrawMode::DrawThree => 3,
    }
}

/// The game modes a deal can be played in.
#[derive(Debug, Clone, Copy, PartialEq, Eq, Structural)]
pub enum GameMode {
    /// Standard scored Klondike.
    Classic,
    /// Relaxed play: no time pressure.
    Zen,
    /// Fixed-seed challenge ladder; undo is disabled.
    Challenge,
    /// Ten-minute sessions counting wins.
    TimeAttack,
}

} // verus!
