//! Cumulative game statistics shared with the sync server.

use vstd::prelude::*;
use crate::progression::clock::{now_utc, Timestamp};

verus! {

/// Cumulative game statistics.
#[derive(Debug, Clone, Copy, PartialEq, Eq, Structural)]
pub struct StatsSnapshot {
    /// Total number of games started (won + lost + abandoned).
    pub games_played: u32,
    /// Number of games won.
    pub games_won: u32,
    /// Number of games lost or abandoned.
    pub games_lost: u32,
    /// Current win streak length.
    pub win_streak_current: u32,
    /// All-time best win streak.
    pub win_streak_best: u32,
    /// Rolling average of win times in seconds.
    pub avg_time_seconds: u64,
    /// Fastest single win time in seconds. `u64::MAX` when no wins recorded yet.
    pub fastest_win_seconds: u64,
    /// Sum of all winning scores.
    pub lifetime_score: u64,
    /// Highest score achieved in a single game.
    pub best_single_score: u32,
    /// Wins achieved in Draw-One mode.
    pub draw_one_wins: u32,
    /// Wins achieved in Draw-Three mode.
    pub draw_three_wins: u32,
    /// Best Classic-mode score; 0 means no Classic win yet.
    pub classic_best_score: u32,
    /// Fastest Classic-mode win in seconds; 0 means no Classic win yet.
    pub classic_fastest_win_seconds: u64,
    /// Best Zen-mode score; 0 means no Zen win yet.
    pub zen_best_score: u32,
    /// Fastest Zen-mode win in seconds; 0 means no Zen win yet.
    pub zen_fastest_win_seconds: u64,
    /// Best Challenge-mode score; 0 means no Challenge win yet.
    pub challenge_best_score: u32,
    /// Fastest Challenge-mode win in seconds; 0 means no Challenge win yet.
    pub challenge_fastest_win_seconds: u64,
    /// Wall-clock time of the last modification.
    pub last_modified: Timestamp,
}

impl Default for StatsSnapshot {
    fn default() -> (s: Self)
        ensures
            s == (StatsSnapshot {
                games_played: 0,
                games_won: 0,
                games_lost: 0,
                win_streak_current: 0,
                win_streak_best: 0,
                avg_time_seconds: 0,
                fastest_win_seconds: u64::MAX,
                lifetime_score: 0,
                best_single_score: 0,
                draw_one_wins: 0,
                draw_three_wins: 0,
                classic_best_score: 0,
                classic_fastest_win_seconds: 0,
                zen_best_score: 0,
                zen_fastest_win_seconds: 0,
                challenge_best_score: 0,
                challenge_fastest_win_seconds: 0,
                last_modified: Timestamp { secs: 0, nanos: 0 },
            }),
    {
        StatsSnapshot {
            games_played: 0,
            games_won: 0,
            games_lost: 0,
            win_streak_current: 0,
            win_streak_best: 0,
            avg_time_seconds: 0,
            fastest_win_seconds: u64::MAX,
            lifetime_score: 0,
            best_single_score: 0,
            draw_one_wins: 0,
            draw_three_wins: 0,
            classic_best_score: 0,
            classic_fastest_win_seconds: 0,
            zen_best_score: 0,
            zen_fastest_win_seconds: 0,
            challenge_best_score: 0,
            challenge_fastest_win_seconds: 0,
            last_modified: Timestamp::unix_epoch(),
        }
    }
}

/// The statistics after an abandoned game (all fields but the modification
/// time): one more game played and lost, and the current win streak broken.
pub open spec fn stats_after_abandon(s: StatsSnapshot) -> StatsSnapshot {
    StatsSnapshot {
        games_played: (s.games_played + 1) as u32,
        games_lost: (s.games_lost + 1) as u32,
        win_streak_current: 0,
        ..s
    }
}

/// What an abandoned game does to the lifetime statistics: one more game
/// played and lost, no more won, the current streak broken; the best
/// streak, the scores and the win times are untouched.
pub proof fn lemma_abandon_statistics(s: StatsSnapshot)
    requires
        s.games_played < u32::MAX,
        s.games_lost < u32::MAX,
    ensures
        ({
            let a = stats_after_abandon(s);
            &&& a.games_played == s.games_played + 1
            &&& a.games_lost == s.games_lost + 1
            &&& a.games_won == s.games_won
            &&& a.win_streak_current == 0
            &&& a.win_streak_best == s.win_streak_best
            &&& a.avg_time_seconds == s.avg_time_seconds
            &&& a.fastest_win_seconds == s.fastest_win_seconds
            &&& a.lifetime_score == s.lifetime_score
            &&& a.best_single_score == s.best_single_score
            &&& a.draw_one_wins == s.draw_one_wins
            &&& a.draw_three_wins == s.draw_three_wins
        }),
{
}

impl StatsSnapshot {
    /// Records an abandoned game: one more game played and lost, and the
    /// current win streak broken. The best streak is kept.
    pub fn record_abandoned(&mut self)
        requires
            old(self).games_played < u32::MAX,
            old(self).games_lost < u32::MAX,
        ensures
            *final(self) == (StatsSnapshot {
                last_modified: final(self).last_modified,
                ..stats_after_abandon(*old(self))
            }),
            final(self).last_modified.nanos < 1_000_000_000,
    {
        self.games_played = self.games_played + 1;
        self.games_lost = self.games_lost + 1;
        self.win_streak_current = 0;
        self.last_modified = now_utc();
    }
}

} // verus!
