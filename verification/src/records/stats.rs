//! Win bookkeeping on [`StatsSnapshot`].

use vstd::prelude::*;
use crate::klondike::game_state::{DrawMode, GameMode};
use crate::progression::clock::now_utc;
use crate::progression::stats::{stats_after_abandon, StatsSnapshot};

verus! {

/// `score` clamped below at zero.
pub open spec fn clamp_score(score: i32) -> u32 {
    if score < 0 {
        0
    } else {
        score as u32
    }
}

/// `x + y`, capped at `u64::MAX`.
pub open spec fn sat_add(x: u64, y: u64) -> u64 {
    if x + y > u64::MAX {
        u64::MAX
    } else {
        (x + y) as u64
    }
}

/// The smaller of two times where 0 stands for "no time yet".
pub open spec fn min_ignore_zero(existing: u64, candidate: u64) -> u64 {
    if existing == 0 {
        candidate
    } else if candidate == 0 {
        existing
    } else if existing <= candidate {
        existing
    } else {
        candidate
    }
}

/// The statistics after a win with `score`, `time_seconds` in `draw_mode`
/// (all fields but the modification time).
pub open spec fn stats_after_win(
    s: StatsSnapshot,
    score: i32,
    time_seconds: u64,
    draw_mode: DrawMode,
) -> StatsSnapshot {
    let prev_wins = s.games_won;
    let streak = (s.win_streak_current + 1) as u32;
    let sc = clamp_score(score);
    StatsSnapshot {
        games_played: (s.games_played + 1) as u32,
        games_won: (s.games_won + 1) as u32,
        win_streak_current: streak,
        win_streak_best: if streak > s.win_streak_best {
            streak
        } else {
            s.win_streak_best
        },
        lifetime_score: sat_add(s.lifetime_score, sc as u64),
        best_single_score: if sc > s.best_single_score {
            sc
        } else {
            s.best_single_score
        },
        fastest_win_seconds: if time_seconds < s.fastest_win_seconds {
            time_seconds
        } else {
            s.fastest_win_seconds
        },
        avg_time_seconds: if prev_wins == 0 {
            time_seconds
        } else {
            ((s.avg_time_seconds * prev_wins + time_seconds) / (prev_wins + 1)) as u64
        },
        draw_one_wins: if draw_mode == DrawMode::DrawOne {
            (s.draw_one_wins + 1) as u32
        } else {
            s.draw_one_wins
        },
        draw_three_wins: if draw_mode == DrawMode::DrawThree {
            (s.draw_three_wins + 1) as u32
        } else {
            s.draw_three_wins
        },
        ..s
    }
}

/// The statistics after updating the per-mode bests for a win in `mode`
/// (all fields but the modification time).
pub open spec fn stats_after_mode_win(
    s: StatsSnapshot,
    score: i32,
    time_seconds: u64,
    mode: GameMode,
) -> StatsSnapshot {
    let sc = clamp_score(score);
    match mode {
        GameMode::Classic => StatsSnapshot {
            classic_best_score: if sc > s.classic_best_score {
                sc
            } else {
                s.classic_best_score
            },
            classic_fastest_win_seconds: min_ignore_zero(
                s.classic_fastest_win_seconds,
                time_seconds,
            ),
            ..s
        },
        GameMode::Zen => StatsSnapshot {
            zen_best_score: if sc > s.zen_best_score {
                sc
            } else {
                s.zen_best_score
            },
            zen_fastest_win_seconds: min_ignore_zero(s.zen_fastest_win_seconds, time_seconds),
            ..s
        },
        GameMode::Challenge => StatsSnapshot {
            challenge_best_score: if sc > s.challenge_best_score {
                sc
            } else {
                s.challenge_best_score
            },
            challenge_fastest_win_seconds: min_ignore_zero(
                s.challenge_fastest_win_seconds,
                time_seconds,
            ),
            ..s
        },
        GameMode::TimeAttack => s,
    }
}

/// What a win does to the lifetime statistics: one more game played and
/// won, none more lost; the streak grows by one and the best streak keeps
/// up with it; the best score and the fastest time take the new game into
/// account; the average win time becomes the mean, rounded down, of the win
/// times so far (losses and abandons do not enter it); and the win is
/// counted under its draw mode.
pub proof fn lemma_win_statistics(s: StatsSnapshot, score: i32, time_seconds: u64, draw_mode: DrawMode)
    requires
        s.games_played < u32::MAX,
        s.games_won < u32::MAX,
        s.win_streak_current < u32::MAX,
        s.draw_one_wins < u32::MAX,
        s.draw_three_wins < u32::MAX,
    ensures
        ({
            let a = stats_after_win(s, score, time_seconds, draw_mode);
            let w = s.games_won as int;
            &&& a.games_played == s.games_played + 1
            &&& a.games_won == s.games_won + 1
            &&& a.games_lost == s.games_lost
            &&& a.win_streak_current == s.win_streak_current + 1
            &&& a.win_streak_best >= a.win_streak_current
            &&& a.win_streak_best >= s.win_streak_best
            &&& (a.win_streak_best == s.win_streak_best || a.win_streak_best
                == a.win_streak_current)
            &&& a.best_single_score >= s.best_single_score
            &&& score >= 0 ==> a.best_single_score >= score
            &&& (a.best_single_score == s.best_single_score || a.best_single_score == score)
            &&& a.fastest_win_seconds <= s.fastest_win_seconds
            &&& a.fastest_win_seconds <= time_seconds
            &&& (a.fastest_win_seconds == s.fastest_win_seconds || a.fastest_win_seconds
                == time_seconds)
            &&& w == 0 ==> a.avg_time_seconds == time_seconds
            &&& w > 0 ==> a.avg_time_seconds * (w + 1) <= s.avg_time_seconds * w + time_seconds
            &&& w > 0 ==> s.avg_time_seconds * w + time_seconds < (a.avg_time_seconds + 1) * (w
                + 1)
            &&& a.draw_one_wins + a.draw_three_wins == s.draw_one_wins + s.draw_three_wins + 1
            &&& draw_mode == DrawMode::DrawOne ==> a.draw_one_wins == s.draw_one_wins + 1
            &&& draw_mode == DrawMode::DrawThree ==> a.draw_three_wins == s.draw_three_wins + 1
        }),
{
    let w = s.games_won as int;
    if w > 0 {
        let avg = s.avg_time_seconds as int;
        let t = time_seconds as int;
        let num = avg * w + t;
        let den = w + 1;
        let q = num / den;
        assert(q * den <= num && num < (q + 1) * den) by (nonlinear_arith)
            requires
                den > 0,
                q == num / den,
        ;
        assert(q <= u64::MAX) by (nonlinear_arith)
            requires
                0 <= avg <= u64::MAX,
                0 <= t <= u64::MAX,
                w >= 1,
                num == avg * w + t,
                den == w + 1,
                q * den <= num,
        ;
        assert(0 <= q) by (nonlinear_arith)
            requires
                num >= 0,
                den > 0,
                q == num / den,
        ;
    }
}

/// `new` is the better of the best score `old` and the game's `score` (a
/// negative score counting as no better than any best).
pub open spec fn is_best_of(old: u32, new: u32, score: i32) -> bool {
    &&& new >= old
    &&& score >= 0 ==> new >= score
    &&& (new == old || new == score)
}

/// `new` is the faster of the recorded time `old` and the game's time `t`,
/// where 0 on either side means no time.
pub open spec fn is_fastest_of(old: u64, new: u64, t: u64) -> bool {
    &&& old == 0 ==> new == t
    &&& t == 0 ==> new == old
    &&& old != 0 && t != 0 ==> new <= old && new <= t && (new == old || new == t)
}

/// What a win does to the per-mode records: the best score and fastest
/// time of the game's mode take it into account, the other modes' records
/// stay as they were, and a Time Attack win changes nothing; the lifetime
/// counters are untouched.
pub proof fn lemma_mode_win_statistics(s: StatsSnapshot, score: i32, time_seconds: u64, mode: GameMode)
    ensures
        ({
            let a = stats_after_mode_win(s, score, time_seconds, mode);
            &&& a.games_played == s.games_played && a.games_won == s.games_won
            &&& a.avg_time_seconds == s.avg_time_seconds
            &&& mode == GameMode::Classic ==> is_best_of(
                s.classic_best_score,
                a.classic_best_score,
                score,
            ) && is_fastest_of(s.classic_fastest_win_seconds, a.classic_fastest_win_seconds, time_seconds)
            &&& mode != GameMode::Classic ==> a.classic_best_score == s.classic_best_score
                && a.classic_fastest_win_seconds == s.classic_fastest_win_seconds
            &&& mode == GameMode::Zen ==> is_best_of(s.zen_best_score, a.zen_best_score, score)
                && is_fastest_of(s.zen_fastest_win_seconds, a.zen_fastest_win_seconds, time_seconds)
            &&& mode != GameMode::Zen ==> a.zen_best_score == s.zen_best_score
                && a.zen_fastest_win_seconds == s.zen_fastest_win_seconds
            &&& mode == GameMode::Challenge ==> is_best_of(
                s.challenge_best_score,
                a.challenge_best_score,
                score,
            ) && is_fastest_of(
                s.challenge_fastest_win_seconds,
                a.challenge_fastest_win_seconds,
                time_seconds,
            )
            &&& mode != GameMode::Challenge ==> a.challenge_best_score == s.challenge_best_score
                && a.challenge_fastest_win_seconds == s.challenge_fastest_win_seconds
            &&& mode == GameMode::TimeAttack ==> a == s
        }),
{
}

/// Game-logic mutation helpers for [`StatsSnapshot`].
pub trait StatsExt {
    /// Whether the win counters the next win increments are below their maximum.
    spec fn win_counters_have_room(&self, draw_mode: DrawMode) -> bool;

    /// Updates the lifetime statistics from a completed win.
    fn update_on_win(&mut self, score: i32, time_seconds: u64, draw_mode: &DrawMode)
        requires
            old(self).win_counters_have_room(*draw_mode),
    ;

    /// Updates the best score and fastest time for `mode`. Time Attack has
    /// no per-game bests and leaves them unchanged.
    fn update_per_mode_bests(&mut self, score: i32, time_seconds: u64, mode: GameMode);
}

impl StatsExt for StatsSnapshot {
    open spec fn win_counters_have_room(&self, draw_mode: DrawMode) -> bool {
        &&& self.games_played < u32::MAX
        &&& self.games_won < u32::MAX
        &&& self.win_streak_current < u32::MAX
        &&& draw_mode == DrawMode::DrawOne ==> self.draw_one_wins < u32::MAX
        &&& draw_mode == DrawMode::DrawThree ==> self.draw_three_wins < u32::MAX
    }

    fn update_on_win(&mut self, score: i32, time_seconds: u64, draw_mode: &DrawMode)
        ensures
            *final(self) == (StatsSnapshot {
                last_modified: final(self).last_modified,
                ..stats_after_win(*old(self), score, time_seconds, *draw_mode)
            }),
            final(self).last_modified.nanos < 1_000_000_000,
    {
        let prev_wins = self.games_won;
        self.games_played = self.games_played + 1;
        self.games_won = self.games_won + 1;
        self.win_streak_current = self.win_streak_current + 1;
        if self.win_streak_current > self.win_streak_best {
            self.win_streak_best = self.win_streak_current;
        }
        let score_u32: u32 = if score < 0 {
            0
        } else {
            score as u32
        };
        self.lifetime_score = self.lifetime_score.saturating_add(score_u32 as u64);
        if score_u32 > self.best_single_score {
            self.best_single_score = score_u32;
        }
        if time_seconds < self.fastest_win_seconds {
            self.fastest_win_seconds = time_seconds;
        }
        self.avg_time_seconds = if prev_wins == 0 {
            time_seconds
        } else {
            let avg = self.avg_time_seconds as u128;
            let prev = prev_wins as u128;
            proof {
                assert(avg * prev <= 0xffff_ffff_ffff_ffffu128 * 0xffff_ffffu128) by (nonlinear_arith)
                    requires
                        avg <= 0xffff_ffff_ffff_ffffu128,
                        prev <= 0xffff_ffffu128,
                ;
            }
            #[verifier::truncate] (((avg * prev + time_seconds as u128) / self.games_won as u128) as u64)
        };
        match draw_mode {
            DrawMode::DrawOne => self.draw_one_wins = self.draw_one_wins + 1,
            DrawMode::DrawThree => self.draw_three_wins = self.draw_three_wins + 1,
        }
        self.last_modified = now_utc();
    }

    fn update_per_mode_bests(&mut self, score: i32, time_seconds: u64, mode: GameMode)
        ensures
            *final(self) == (StatsSnapshot {
                last_modified: final(self).last_modified,
                ..stats_after_mode_win(*old(self), score, time_seconds, mode)
            }),
            final(self).last_modified.nanos < 1_000_000_000,
    {
        let score_u32: u32 = if score < 0 {
            0
        } else {
            score as u32
        };
        match mode {
            GameMode::Classic => {
                if score_u32 > self.classic_best_score {
                    self.classic_best_score = score_u32;
                }
                self.classic_fastest_win_seconds = min_ignore_zero_exec(
                    self.classic_fastest_win_seconds,
                    time_seconds,
                );
            },
            GameMode::Zen => {
                if score_u32 > self.zen_best_score {
                    self.zen_best_score = score_u32;
                }
                self.zen_fastest_win_seconds = min_ignore_zero_exec(
                    self.zen_fastest_win_seconds,
                    time_seconds,
                );
            },
            GameMode::Challenge => {
                if score_u32 > self.challenge_best_score {
                    self.challenge_best_score = score_u32;
                }
                self.challenge_fastest_win_seconds = min_ignore_zero_exec(
                    self.challenge_fastest_win_seconds,
                    time_seconds,
                );
            },
            GameMode::TimeAttack => {},
        }
        self.last_modified = now_utc();
    }
}

/// Zero-aware minimum: 0 means "no time recorded yet".
fn min_ignore_zero_exec(existing: u64, candidate: u64) -> (m: u64)
    ensures
        m == min_ignore_zero(existing, candidate),
{
    if existing == 0 {
        candidate
    } else if candidate == 0 {
        existing
    } else if existing <= candidate {
        existing
    } else {
        candidate
    }
}

/// A win never lowers the best streak, keeps the best streak at least the
/// current one, and never raises the fastest time.
pub proof fn lemma_win_streak_best_dominates(
    s: StatsSnapshot,
    score: i32,
    time_seconds: u64,
    draw_mode: DrawMode,
)
    requires
        s.win_counters_have_room(draw_mode),
    ensures
        stats_after_win(s, score, time_seconds, draw_mode).win_streak_best >= s.win_streak_best,
        stats_after_win(s, score, time_seconds, draw_mode).win_streak_best >= stats_after_win(
            s,
            score,
            time_seconds,
            draw_mode,
        ).win_streak_current,
        stats_after_win(s, score, time_seconds, draw_mode).fastest_win_seconds
            <= s.fastest_win_seconds,
        stats_after_win(s, score, time_seconds, draw_mode).fastest_win_seconds <= time_seconds,
{
}

/// The zero-aware minimum adopts the first real time and never raises a
/// recorded one.
pub proof fn lemma_min_ignore_zero(existing: u64, candidate: u64)
    ensures
        existing == 0 ==> min_ignore_zero(existing, candidate) == candidate,
        existing != 0 ==> min_ignore_zero(existing, candidate) <= existing,
        existing != 0 ==> min_ignore_zero(existing, candidate) != 0,
{
}

/// Every game played is counted once as won or lost.
pub open spec fn tallies_balanced(s: StatsSnapshot) -> bool {
    s.games_played == s.games_won + s.games_lost
}

/// Wins, abandons and per-mode updates keep the tallies balanced, never lower
/// the best streak or the best single score, and never raise the fastest
/// win.
pub proof fn lemma_updates_keep_tallies(
    s: StatsSnapshot,
    score: i32,
    time_seconds: u64,
    draw_mode: DrawMode,
    mode: GameMode,
)
    requires
        tallies_balanced(s),
        s.games_played < u32::MAX,
        s.games_lost < u32::MAX,
        s.win_counters_have_room(draw_mode),
    ensures
        tallies_balanced(stats_after_win(s, score, time_seconds, draw_mode)),
        tallies_balanced(stats_after_abandon(s)),
        tallies_balanced(stats_after_mode_win(s, score, time_seconds, mode)),
        stats_after_abandon(s).win_streak_best == s.win_streak_best,
        stats_after_win(s, score, time_seconds, draw_mode).best_single_score
            >= s.best_single_score,
        stats_after_win(s, score, time_seconds, draw_mode).lifetime_score >= s.lifetime_score,
{
}

} // verus!
