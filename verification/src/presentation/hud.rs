//! HUD text: what the heads-up display shows for a game in progress.

use vstd::prelude::*;
use crate::klondike::game_state::{DrawMode, GameMode};
use crate::presentation::text::{
    decimal, format_minutes_seconds, minutes_seconds, push_decimal, push_signed_decimal,
    signed_decimal,
};

verus! {

/// The label of a game mode on the home screen's mode badge.
pub fn mode_label(mode: GameMode) -> (s: &'static str)
    ensures
        s@ == match mode {
            GameMode::Classic => "Classic"@,
            GameMode::Zen => "Zen"@,
            GameMode::Challenge => "Challenge"@,
            GameMode::TimeAttack => "Time Attack"@,
        },
{
    match mode {
        GameMode::Classic => "Classic",
        GameMode::Zen => "Zen",
        GameMode::Challenge => "Challenge",
        GameMode::TimeAttack => "Time Attack",
    }
}

/// Formats a time limit in seconds as `m:ss` for HUD display, e.g. 300
/// seconds as `5:00`.
pub fn format_time_limit(secs: u64) -> (s: String)
    ensures
        s@ == minutes_seconds(secs),
{
    format_minutes_seconds(secs)
}

/// The constraints of the active daily challenge that the HUD shows.
#[derive(Debug, Clone, Copy, PartialEq, Eq, Structural)]
pub struct DailyChallenge {
    /// Time limit in seconds, if the challenge has one.
    pub max_time_secs: Option<u64>,
    /// Score to reach, if the challenge has one.
    pub target_score: Option<u32>,
}

/// The HUD line for a daily challenge's constraints: its time limit when it
/// has one, else its score goal, else nothing.
pub open spec fn challenge_line(dc: DailyChallenge) -> Seq<char> {
    match dc.max_time_secs {
        Some(secs) => "Limit: "@ + minutes_seconds(secs),
        None => match dc.target_score {
            Some(score) => "Goal: "@ + decimal(score as nat) + " pts"@,
            None => Seq::empty(),
        },
    }
}

/// Builds the HUD text for the active daily challenge constraints:
/// `Limit: mm:ss` when a time limit is set, `Goal: N pts` when a score
/// target is set, or an empty string when the challenge has no extra
/// constraints.
pub fn challenge_hud_text(dc: &DailyChallenge) -> (s: String)
    ensures
        s@ == challenge_line(*dc),
{
    let mut s = String::new();
    match dc.max_time_secs {
        Some(secs) => {
            s.append("Limit: ");
            let limit = format_time_limit(secs);
            s.append(limit.as_str());
        },
        None => match dc.target_score {
            Some(score) => {
                s.append("Goal: ");
                push_decimal(&mut s, score as u64);
                s.append(" pts");
            },
            None => {},
        },
    }
    assert(s@ =~= challenge_line(*dc));
    s
}

/// The values of a game in progress that the HUD reads.
#[derive(Debug, Clone, Copy, PartialEq, Eq, Structural)]
pub struct HudGame {
    pub score: i32,
    pub move_count: u32,
    pub undo_count: u32,
    pub elapsed_seconds: u64,
    pub mode: GameMode,
    pub draw_mode: DrawMode,
    pub is_won: bool,
}

/// The HUD's text fields.
#[derive(Debug, Clone, PartialEq, Eq)]
pub struct HudText {
    pub score: String,
    pub moves: String,
    pub mode: String,
    pub challenge: String,
    pub undos: String,
    pub auto_complete: String,
}

/// Score line: hidden in Zen mode, which has no score display.
pub open spec fn score_line(g: HudGame) -> Seq<char> {
    if g.mode == GameMode::Zen {
        Seq::empty()
    } else {
        "Score: "@ + signed_decimal(g.score as int)
    }
}

/// The score is hidden in Zen mode and only there: in every other mode the
/// score line reads `Score: ` and the score, the same whatever the mode.
pub proof fn lemma_score_shown_outside_zen(g: HudGame)
    ensures
        score_line(g).len() == 0 <==> g.mode == GameMode::Zen,
        g.mode != GameMode::Zen ==> score_line(g) == "Score: "@ + signed_decimal(g.score as int),
        g.mode != GameMode::Zen ==> score_line(g) == score_line(
            HudGame { mode: GameMode::Classic, ..g },
        ),
{
    reveal_strlit("Score: ");
}

/// Mode badge: `Draw 3` for Classic draw-three, nothing for Classic
/// draw-one, and the mode's name otherwise.
pub open spec fn mode_line(g: HudGame) -> Seq<char> {
    match g.mode {
        GameMode::Classic => match g.draw_mode {
            DrawMode::DrawOne => Seq::empty(),
            DrawMode::DrawThree => "Draw 3"@,
        },
        GameMode::Zen => "ZEN"@,
        GameMode::Challenge => "CHALLENGE"@,
        GameMode::TimeAttack => "TIME ATTACK"@,
    }
}

/// Daily-challenge line: hidden once the game is won or without a challenge.
pub open spec fn daily_line(g: HudGame, daily: Option<DailyChallenge>) -> Seq<char> {
    if g.is_won {
        Seq::empty()
    } else {
        match daily {
            Some(dc) => challenge_line(dc),
            None => Seq::empty(),
        }
    }
}

/// Undo counter: hidden until the first undo.
pub open spec fn undo_line(g: HudGame) -> Seq<char> {
    if g.undo_count == 0 {
        Seq::empty()
    } else {
        "Undos: "@ + decimal(g.undo_count as nat)
    }
}

/// When the HUD lines show: the undo counter once there has been an undo;
/// the daily-challenge line only while the game is not won and a challenge
/// is active, its time limit taking precedence over its score goal; the
/// mode badge in every mode but Classic draw-one, a different badge for each
/// mode.
pub proof fn lemma_hud_lines_visibility(g: HudGame, daily: Option<DailyChallenge>)
    ensures
        undo_line(g).len() == 0 <==> g.undo_count == 0,
        g.is_won || daily is None ==> daily_line(g, daily).len() == 0,
        !g.is_won ==> match daily {
            Some(dc) => match dc.max_time_secs {
                Some(secs) => daily_line(g, daily) == "Limit: "@ + minutes_seconds(secs),
                None => match dc.target_score {
                    Some(sc) => daily_line(g, daily) == "Goal: "@ + decimal(sc as nat) + " pts"@,
                    None => true,
                },
            },
            None => true,
        },
        mode_line(g).len() == 0 <==> (g.mode == GameMode::Classic && g.draw_mode
            == DrawMode::DrawOne),
        forall|h: HudGame|
            #![trigger mode_line(h)]
            mode_line(h).len() > 0 && mode_line(g).len() > 0 && h.mode != g.mode ==> mode_line(h)
                != mode_line(g),
{
    reveal_strlit("Undos: ");
    reveal_strlit("Draw 3");
    reveal_strlit("ZEN");
    reveal_strlit("CHALLENGE");
    reveal_strlit("TIME ATTACK");
    assert forall|h: HudGame|
        #![trigger mode_line(h)]
        mode_line(h).len() > 0 && mode_line(g).len() > 0 && h.mode != g.mode implies mode_line(h)
            != mode_line(g) by {
        if mode_line(h) == mode_line(g) {
            assert(mode_line(h).len() == mode_line(g).len());
            assert(mode_line(h)[0] == mode_line(g)[0]);
        }
    }
}

/// Computes the HUD text for `game`, the active daily challenge if any, and
/// whether auto-complete is running.
pub fn hud_text(game: &HudGame, daily: Option<DailyChallenge>, auto_complete: bool) -> (t: HudText)
    ensures
        t.score@ == score_line(*game),
        t.moves@ == "Moves: "@ + decimal(game.move_count as nat),
        t.mode@ == mode_line(*game),
        t.challenge@ == daily_line(*game, daily),
        t.undos@ == undo_line(*game),
        t.auto_complete@ == (if auto_complete {
            "AUTO"@
        } else {
            Seq::<char>::empty()
        }),
{
    let mut score = String::new();
    if game.mode != GameMode::Zen {
        score.append("Score: ");
        push_signed_decimal(&mut score, game.score as i64);
    }
    let mut moves = String::new();
    moves.append("Moves: ");
    push_decimal(&mut moves, game.move_count as u64);
    let mut mode = String::new();
    match game.mode {
        GameMode::Classic => match game.draw_mode {
            DrawMode::DrawOne => {},
            DrawMode::DrawThree => mode.append("Draw 3"),
        },
        GameMode::Zen => mode.append("ZEN"),
        GameMode::Challenge => mode.append("CHALLENGE"),
        GameMode::TimeAttack => mode.append("TIME ATTACK"),
    }
    let challenge = if game.is_won {
        String::new()
    } else {
        match daily {
            Some(dc) => challenge_hud_text(&dc),
            None => String::new(),
        }
    };
    let mut undos = String::new();
    if game.undo_count != 0 {
        undos.append("Undos: ");
        push_decimal(&mut undos, game.undo_count as u64);
    }
    let mut auto = String::new();
    if auto_complete {
        auto.append("AUTO");
    }
    proof {
        assert(score@ =~= score_line(*game));
        assert(moves@ =~= "Moves: "@ + decimal(game.move_count as nat));
        assert(mode@ =~= mode_line(*game));
        assert(undos@ =~= undo_line(*game));
    }
    HudText { score, moves, mode, challenge, undos, auto_complete: auto }
}

/// The time display: empty in Zen mode, which has no timer; the Time Attack
/// countdown (`time_attack_remaining` whole seconds) while a session runs;
/// otherwise the game's elapsed time; both as `m:ss`.
pub fn hud_time_text(game: &HudGame, time_attack_remaining: Option<u64>) -> (s: String)
    ensures
        s@ == (if game.mode == GameMode::Zen {
            Seq::<char>::empty()
        } else {
            match time_attack_remaining {
                Some(rem) => minutes_seconds(rem),
                None => minutes_seconds(game.elapsed_seconds),
            }
        }),
{
    if game.mode == GameMode::Zen {
        return String::new();
    }
    match time_attack_remaining {
        Some(rem) => format_minutes_seconds(rem),
        None => format_minutes_seconds(game.elapsed_seconds),
    }
}

} // verus!
