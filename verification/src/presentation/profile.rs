//! Profile-screen text: the XP bar arithmetic and the summary lines.

use vstd::prelude::*;
use crate::progression::progress::spec_level_for_xp;
use crate::presentation::text::{decimal, push_decimal};
use crate::records::achievements::AchievementRecord;

verus! {

/// XP at which `level` starts: 500 per level below 10, 1 000 per level after.
pub open spec fn level_start_xp(level: u32) -> int {
    if level < 10 {
        level * 500
    } else {
        5_000 + (level - 10) * 1_000
    }
}

/// XP spanned by `level`.
pub open spec fn level_span_xp(level: u32) -> int {
    if level < 10 {
        500
    } else {
        1_000
    }
}

/// XP earned within `level`, clamped to `[0, span]`.
pub open spec fn xp_done_in_level(total_xp: u64, level: u32) -> int {
    if total_xp <= level_start_xp(level) {
        0
    } else if total_xp - level_start_xp(level) >= level_span_xp(level) {
        level_span_xp(level)
    } else {
        total_xp - level_start_xp(level)
    }
}

/// Returns `(xp_span_for_level, xp_done_in_level)` for `total_xp` at `level`:
/// the level's width and how much of it is covered, clamped to `[0, span]`.
pub fn xp_progress(total_xp: u64, level: u32) -> (r: (u64, u64))
    ensures
        r.0 == level_span_xp(level),
        r.1 == xp_done_in_level(total_xp, level),
        r.1 <= r.0,
{
    let level_start: u64 = if level < 10 {
        level as u64 * 500
    } else {
        5_000 + (level as u64 - 10) * 1_000
    };
    let xp_span: u64 = if level < 10 {
        500
    } else {
        1_000
    };
    let above = total_xp.saturating_sub(level_start);
    let xp_done = if above < xp_span {
        above
    } else {
        xp_span
    };
    (xp_span, xp_done)
}

/// Every XP total lies within the level it earns: at or above that level's
/// starting XP and below the start of the next level. So the profile bar of
/// the player's own level shows the XP earned since the level began.
pub proof fn lemma_level_brackets_xp(xp: u64)
    requires
        xp < 5_000 || (xp - 5_000) / 1_000 <= u32::MAX - 10,
    ensures
        level_start_xp(spec_level_for_xp(xp)) <= xp,
        xp < level_start_xp(spec_level_for_xp(xp)) + level_span_xp(spec_level_for_xp(xp)),
{
    if xp < 5_000 {
        vstd::arithmetic::div_mod::lemma_fundamental_div_mod(xp as int, 500);
        assert(xp / 500 < 10);
    } else {
        let q = (xp - 5_000) / 1_000;
        vstd::arithmetic::div_mod::lemma_fundamental_div_mod((xp - 5_000) as int, 1_000);
        assert(spec_level_for_xp(xp) == 10 + q);
    }
}

/// The profile's progression headline: level, total XP, progress through
/// the level and that progress in whole percent.
pub open spec fn level_line(total_xp: u64, level: u32) -> Seq<char> {
    let span = level_span_xp(level);
    let done = xp_done_in_level(total_xp, level);
    "Level "@ + decimal(level as nat) + "  \u{2014}  "@ + decimal(total_xp as nat) + " XP  ("@
        + decimal(done as nat) + "/"@ + decimal(span as nat) + " to next, "@ + decimal(
        (done * 100 / span) as nat,
    ) + "%)"@
}

/// Builds the profile's progression headline, e.g.
/// `Level 1  —  750 XP  (250/500 to next, 50%)`.
pub fn profile_level_line(total_xp: u64, level: u32) -> (s: String)
    ensures
        s@ == level_line(total_xp, level),
{
    let (xp_span, xp_done) = xp_progress(total_xp, level);
    let pct: u64 = if xp_span == 0 {
        100
    } else {
        xp_done * 100 / xp_span
    };
    let mut s = String::new();
    s.append("Level ");
    push_decimal(&mut s, level as u64);
    s.append("  \u{2014}  ");
    push_decimal(&mut s, total_xp);
    s.append(" XP  (");
    push_decimal(&mut s, xp_done);
    s.append("/");
    push_decimal(&mut s, xp_span);
    s.append(" to next, ");
    push_decimal(&mut s, pct);
    s.append("%)");
    assert(s@ =~= level_line(total_xp, level));
    s
}

/// Builds the profile's streak and unlock counts line, e.g.
/// `Daily streak: 3  |  Card backs: 2  |  Backgrounds: 1`.
pub fn profile_unlocks_line(daily_streak: u32, card_backs: usize, backgrounds: usize) -> (s: String)
    ensures
        s@ == "Daily streak: "@ + decimal(daily_streak as nat) + "  |  Card backs: "@ + decimal(
            card_backs as nat,
        ) + "  |  Backgrounds: "@ + decimal(backgrounds as nat),
{
    let mut s = String::new();
    s.append("Daily streak: ");
    push_decimal(&mut s, daily_streak as u64);
    s.append("  |  Card backs: ");
    push_decimal(&mut s, card_backs as u64);
    s.append("  |  Backgrounds: ");
    push_decimal(&mut s, backgrounds as u64);
    assert(s@ =~= "Daily streak: "@ + decimal(daily_streak as nat) + "  |  Card backs: "@
        + decimal(card_backs as nat) + "  |  Backgrounds: "@ + decimal(backgrounds as nat));
    s
}

/// The number of unlocked records.
pub open spec fn unlocked_count(records: Seq<AchievementRecord>) -> nat
    decreases records.len(),
{
    if records.len() == 0 {
        0
    } else {
        unlocked_count(records.drop_last()) + if records.last().unlocked {
            1nat
        } else {
            0nat
        }
    }
}

/// Builds the achievements summary, `N / 18 unlocked`, out of the 18
/// achievements the game defines.
pub fn achievements_unlocked_line(records: &[AchievementRecord]) -> (s: String)
    ensures
        s@ == decimal(unlocked_count(records@)) + " / 18 unlocked"@,
{
    let mut count: u64 = 0;
    let mut i: usize = 0;
    while i < records.len()
        invariant
            i <= records@.len(),
            count == unlocked_count(records@.subrange(0, i as int)),
            count <= i,
        decreases records@.len() - i,
    {
        proof {
            let pre = records@.subrange(0, i as int);
            let next = records@.subrange(0, i + 1);
            assert(next.drop_last() =~= pre);
        }
        if records[i].unlocked {
            count = count + 1;
        }
        i = i + 1;
    }
    assert(records@.subrange(0, records@.len() as int) =~= records@);
    let mut s = String::new();
    push_decimal(&mut s, count);
    s.append(" / 18 unlocked");
    s
}

/// The best single score for display, or an em dash before any scored win.
pub open spec fn best_score_text(best: u32) -> Seq<char> {
    if best == 0 {
        "\u{2014}"@
    } else {
        decimal(best as nat)
    }
}

/// Builds the profile's streak line, e.g.
/// `Win streak: 2 current, 5 best  |  Best score: 1500`.
pub fn profile_streak_line(current: u32, best: u32, best_score: u32) -> (s: String)
    ensures
        s@ == "Win streak: "@ + decimal(current as nat) + " current, "@ + decimal(best as nat)
            + " best  |  Best score: "@ + best_score_text(best_score),
{
    let mut s = String::new();
    s.append("Win streak: ");
    push_decimal(&mut s, current as u64);
    s.append(" current, ");
    push_decimal(&mut s, best as u64);
    s.append(" best  |  Best score: ");
    if best_score == 0 {
        s.append("\u{2014}");
    } else {
        push_decimal(&mut s, best_score as u64);
    }
    assert(s@ =~= "Win streak: "@ + decimal(current as nat) + " current, "@ + decimal(best as nat)
        + " best  |  Best score: "@ + best_score_text(best_score));
    s
}

} // verus!
