//! Text of the replay overlay: the banner, the progress readout, the
//! pause button, the game caption and the fixed scrub and keybind labels.

use vstd::prelude::*;
use crate::presentation::text::{decimal, push_decimal, push_signed_decimal, signed_decimal};

verus! {

/// Where replay playback stands, with what the overlay text reads of it.
#[derive(Debug, Clone, Copy, PartialEq, Eq, Structural)]
pub enum ReplayPhase {
    /// No replay is playing.
    Inactive,
    /// A replay is playing: `cursor` of its `total` moves are applied.
    Playing {
        cursor: usize,
        total: usize,
        paused: bool,
        /// Calendar year the replayed game was recorded in.
        recorded_year: i32,
        /// Day of that year (1 = January 1st).
        recorded_ordinal: u32,
    },
    /// The replay reached its end.
    Completed,
}

/// The banner label: `▌ replay` while playing, `▌ replay complete` once
/// finished, and no label (the overlay is gone) otherwise.
pub fn banner_label(phase: ReplayPhase) -> (s: Option<&'static str>)
    ensures
        match phase {
            ReplayPhase::Inactive => s is None,
            ReplayPhase::Playing { .. } => s matches Some(t) && t@ == "\u{258C} replay"@,
            ReplayPhase::Completed => s matches Some(t) && t@ == "\u{258C} replay complete"@,
        },
{
    match phase {
        ReplayPhase::Inactive => None,
        ReplayPhase::Playing { .. } => Some("\u{258C} replay"),
        ReplayPhase::Completed => Some("\u{258C} replay complete"),
    }
}

/// The centre progress readout for `phase`.
pub open spec fn progress_line(phase: ReplayPhase) -> Seq<char> {
    match phase {
        ReplayPhase::Playing { cursor, total, .. } => "MOVE "@ + decimal(cursor as nat) + "/"@
            + decimal(total as nat),
        ReplayPhase::Completed => "REPLAY COMPLETE"@,
        ReplayPhase::Inactive => Seq::empty(),
    }
}

/// Formats the centre progress readout: `MOVE n/m` while playing,
/// `REPLAY COMPLETE` once finished, empty otherwise.
pub fn format_progress(phase: ReplayPhase) -> (s: String)
    ensures
        s@ == progress_line(phase),
{
    let mut s = String::new();
    match phase {
        ReplayPhase::Playing { cursor, total, .. } => {
            s.append("MOVE ");
            push_decimal(&mut s, cursor as u64);
            s.append("/");
            push_decimal(&mut s, total as u64);
        },
        ReplayPhase::Completed => s.append("REPLAY COMPLETE"),
        ReplayPhase::Inactive => {},
    }
    assert(s@ =~= progress_line(phase));
    s
}

/// The Pause / Resume button label: `Pause` while running, `Resume` while
/// paused, empty when nothing plays.
pub fn pause_button_label(phase: ReplayPhase) -> (s: &'static str)
    ensures
        s@ == match phase {
            ReplayPhase::Playing { paused: true, .. } => "Resume"@,
            ReplayPhase::Playing { paused: false, .. } => "Pause"@,
            _ => ""@,
        },
{
    match phase {
        ReplayPhase::Playing { paused: true, .. } => "Resume",
        ReplayPhase::Playing { paused: false, .. } => "Pause",
        _ => "",
    }
}

/// `n` zero-padded to at least three digits.
pub open spec fn three_digits(n: nat) -> Seq<char> {
    if n < 10 {
        "00"@ + decimal(n)
    } else if n < 100 {
        "0"@ + decimal(n)
    } else {
        decimal(n)
    }
}

/// The caption naming the replayed game, `GAME #year-ddd`.
pub open spec fn caption_line(year: i32, ordinal: u32) -> Seq<char> {
    "GAME #"@ + signed_decimal(year as int) + "-"@ + three_digits(ordinal as nat)
}

/// The caption naming the replayed game by the year and zero-padded day of
/// the year it was recorded, e.g. `GAME #2026-122`; `None` when nothing
/// plays.
pub fn format_game_caption(phase: ReplayPhase) -> (r: Option<String>)
    ensures
        match phase {
            ReplayPhase::Playing { recorded_year, recorded_ordinal, .. } => r matches Some(s) && s@
                == caption_line(recorded_year, recorded_ordinal),
            _ => r is None,
        },
{
    match phase {
        ReplayPhase::Playing { recorded_year, recorded_ordinal, .. } => {
            let mut s = String::new();
            s.append("GAME #");
            push_signed_decimal(&mut s, recorded_year as i64);
            s.append("-");
            if recorded_ordinal < 10 {
                s.append("00");
            } else if recorded_ordinal < 100 {
                s.append("0");
            }
            push_decimal(&mut s, recorded_ordinal as u64);
            proof {
                reveal_strlit("00");
                reveal_strlit("0");
            }
            assert(s@ =~= caption_line(recorded_year, recorded_ordinal));
            Some(s)
        },
        _ => None,
    }
}

/// The labels of the five scrub-bar notches, left to right.
pub fn scrub_notch_labels() -> (labels: [&'static str; 5])
    ensures
        labels[0]@ == "0%"@,
        labels[1]@ == "25%"@,
        labels[2]@ == "50%"@,
        labels[3]@ == "75%"@,
        labels[4]@ == "100%"@,
{
    ["0%", "25%", "50%", "75%", "100%"]
}

/// The mode indicator on the left of the keybind footer.
pub fn keybind_footer_mode_text() -> (s: &'static str)
    ensures
        s@ == "\u{258C} NORMAL \u{2502} replay"@,
{
    "\u{258C} NORMAL \u{2502} replay"
}

/// The keybind hints on the right of the footer: only the keys that are
/// wired (Space, Esc and the arrows).
pub fn keybind_footer_hint_text() -> (s: &'static str)
    ensures
        s@ == "[SPACE] pause/resume \u{00B7} [ESC] stop \u{00B7} [\u{2190}\u{2192}] step"@,
{
    "[SPACE] pause/resume \u{00B7} [ESC] stop \u{00B7} [\u{2190}\u{2192}] step"
}

} // verus!
