//! Player progression: XP, level, daily-challenge streak, weekly goals.

use vstd::prelude::*;
use crate::progression::clock::{now_utc, Timestamp};
use crate::progression::goals::GoalProgress;

verus! {

/// The day number (days since the Common Era, 0001-01-01 being day 1, as
/// chrono's `num_days_from_ce` counts) of the last representable calendar
/// date, 262142-12-31. No date follows it.
pub const LAST_CE_DAY: i32 = 95_745_399;

/// Level reached with `xp` total experience: 500 XP per level up to level
/// 10, then 1 000 XP per level (the count of thousands kept to 32 bits).
pub open spec fn spec_level_for_xp(xp: u64) -> u32 {
    if xp < 5_000 {
        (xp / 500) as u32
    } else {
        (10 + ((xp - 5_000) / 1_000) as u32) as u32
    }
}

/// `level_for_xp(xp)` is computed without overflowing 32 bits.
pub open spec fn level_fits(xp: u64) -> bool {
    xp < 5_000 || ((xp - 5_000) / 1_000) as u32 <= u32::MAX - 10
}

/// XP-to-level calculation.
///
/// - Levels 1–10:  `level = floor(total_xp / 500)`
/// - Levels 11+:   `level = 10 + floor((total_xp - 5_000) / 1_000)`
pub fn level_for_xp(xp: u64) -> (level: u32)
    requires
        level_fits(xp),
    ensures
        level == spec_level_for_xp(xp),
{
    if xp < 5_000 {
        (xp / 500) as u32
    } else {
        10 + #[verifier::truncate] (((xp - 5_000) / 1_000) as u32)
    }
}

/// More XP never means a lower level (while the level stays below 2^32).
pub proof fn lemma_level_monotonic(a: u64, b: u64)
    requires
        a <= b,
        b - 5_000 < 1_000 * 4_294_967_286,
    ensures
        spec_level_for_xp(a) <= spec_level_for_xp(b),
{
    assert(a / 500 <= b / 500) by (nonlinear_arith)
        requires
            a <= b,
    ;
    if a >= 5_000 {
        assert((a - 5_000) / 1_000 <= (b - 5_000) / 1_000) by (nonlinear_arith)
            requires
                5_000 <= a <= b,
        ;
    } else if b >= 5_000 {
        assert(a / 500 <= 9) by (nonlinear_arith)
            requires
                a < 5_000,
        ;
    }
}

/// Persisted player progression state.
#[derive(Debug, Clone)]
pub struct PlayerProgress {
    /// Total XP accumulated across all games.
    pub total_xp: u64,
    /// Current player level, recomputed from `total_xp`.
    pub level: u32,
    /// Day number (see [`LAST_CE_DAY`]) of the last completed daily challenge.
    pub daily_challenge_last_completed: Option<i32>,
    /// Current daily-challenge streak length.
    pub daily_challenge_streak: u32,
    /// Per-goal progress counters for the current ISO week.
    pub weekly_goal_progress: GoalProgress,
    /// ISO week key (e.g. `"2026-W17"`) the weekly counters belong to.
    pub weekly_goal_week_iso: Option<String>,
    /// Indices of unlocked card-back designs (0 is always unlocked).
    pub unlocked_card_backs: Vec<usize>,
    /// Indices of unlocked background designs (0 is always unlocked).
    pub unlocked_backgrounds: Vec<usize>,
    /// Index of the next Challenge-mode seed to serve to this player.
    pub challenge_index: u32,
    /// Wall-clock time of the last modification.
    pub last_modified: Timestamp,
}

impl Default for PlayerProgress {
    fn default() -> (p: Self)
        ensures
            p.total_xp == 0,
            p.level == 0,
            p.daily_challenge_last_completed is None,
            p.daily_challenge_streak == 0,
            p.weekly_goal_progress@ == Map::<Seq<char>, u32>::empty(),
            p.weekly_goal_week_iso is None,
            p.unlocked_card_backs@ == seq![0usize],
            p.unlocked_backgrounds@ == seq![0usize],
            p.challenge_index == 0,
            p.last_modified == (Timestamp { secs: 0, nanos: 0 }),
    {
        let mut backs: Vec<usize> = Vec::new();
        backs.push(0);
        let mut backgrounds: Vec<usize> = Vec::new();
        backgrounds.push(0);
        PlayerProgress {
            total_xp: 0,
            level: 0,
            daily_challenge_last_completed: None,
            daily_challenge_streak: 0,
            weekly_goal_progress: GoalProgress::new(),
            weekly_goal_week_iso: None,
            unlocked_card_backs: backs,
            unlocked_backgrounds: backgrounds,
            challenge_index: 0,
            last_modified: Timestamp::unix_epoch(),
        }
    }
}

/// `x + y`, capped at `u64::MAX`.
pub open spec fn sat_add_u64(x: u64, y: u64) -> u64 {
    if x + y > u64::MAX {
        u64::MAX
    } else {
        (x + y) as u64
    }
}

/// `x + 1`, capped at `u32::MAX`.
pub open spec fn sat_inc_u32(x: u32) -> u32 {
    if x == u32::MAX {
        x
    } else {
        (x + 1) as u32
    }
}

/// A weekly counter after one more win towards `target`: one more, unless
/// it already reached `target`.
pub open spec fn weekly_counter_after(cur: u32, target: u32) -> u32 {
    if cur >= target {
        cur
    } else {
        sat_inc_u32(cur)
    }
}

/// The counter for `goal_id` in `progress` (0 when absent).
pub open spec fn weekly_counter(progress: Map<Seq<char>, u32>, goal_id: Seq<char>) -> u32 {
    if progress.dom().contains(goal_id) {
        progress[goal_id]
    } else {
        0
    }
}

/// A weekly counter never passes its target, and reports completion at most
/// once: completion is the step that reaches the target, and after it every
/// further step leaves the counter where it is.
pub proof fn lemma_weekly_counter_capped(cur: u32, target: u32)
    ensures
        cur <= target ==> weekly_counter_after(cur, target) <= target,
        weekly_counter_after(cur, target) >= cur,
        cur >= target ==> weekly_counter_after(cur, target) == cur,
        weekly_counter_after(cur, target) >= target ==> weekly_counter_after(
            weekly_counter_after(cur, target),
            target,
        ) == weekly_counter_after(cur, target),
{
}

impl PlayerProgress {
    /// Adds XP (saturating) and recomputes the level. Returns the previous
    /// level so callers can detect level-ups.
    pub fn add_xp(&mut self, amount: u64) -> (prev_level: u32)
        requires
            level_fits(sat_add_u64(old(self).total_xp, amount)),
        ensures
            prev_level == old(self).level,
            final(self).total_xp == sat_add_u64(old(self).total_xp, amount),
            final(self).level == spec_level_for_xp(final(self).total_xp),
            final(self).last_modified.nanos < 1_000_000_000,
            final(self).daily_challenge_last_completed == old(self).daily_challenge_last_completed,
            final(self).daily_challenge_streak == old(self).daily_challenge_streak,
            final(self).weekly_goal_progress@ == old(self).weekly_goal_progress@,
            final(self).weekly_goal_week_iso == old(self).weekly_goal_week_iso,
            final(self).unlocked_card_backs@ == old(self).unlocked_card_backs@,
            final(self).unlocked_backgrounds@ == old(self).unlocked_backgrounds@,
            final(self).challenge_index == old(self).challenge_index,
    {
        let prev_level = self.level;
        self.total_xp = self.total_xp.saturating_add(amount);
        self.level = level_for_xp(self.total_xp);
        self.last_modified = now_utc();
        prev_level
    }

    /// `true` if the current level is above `prev_level`.
    pub fn leveled_up_from(&self, prev_level: u32) -> (up: bool)
        ensures
            up == (self.level > prev_level),
    {
        self.level > prev_level
    }

    /// Clears the weekly counters and records `current` as the week when the
    /// stored week key differs from it. Returns whether it rolled over.
    pub fn roll_weekly_goals_if_new_week(&mut self, current: &str) -> (rolled: bool)
        ensures
            rolled == !(old(self).weekly_goal_week_iso matches Some(w) && w@ == current@),
            rolled ==> final(self).weekly_goal_progress@ == Map::<Seq<char>, u32>::empty(),
            rolled ==> (final(self).weekly_goal_week_iso matches Some(w) && w@ == current@),
            rolled ==> final(self).last_modified.nanos < 1_000_000_000,
            !rolled ==> final(self).weekly_goal_progress@ == old(self).weekly_goal_progress@
                && final(self).weekly_goal_week_iso == old(self).weekly_goal_week_iso
                && final(self).last_modified == old(self).last_modified,
            final(self).total_xp == old(self).total_xp,
            final(self).level == old(self).level,
            final(self).daily_challenge_last_completed == old(self).daily_challenge_last_completed,
            final(self).daily_challenge_streak == old(self).daily_challenge_streak,
            final(self).unlocked_card_backs@ == old(self).unlocked_card_backs@,
            final(self).unlocked_backgrounds@ == old(self).unlocked_backgrounds@,
            final(self).challenge_index == old(self).challenge_index,
    {
        let cur = String::from_str(current);
        let same = match &self.weekly_goal_week_iso {
            Some(w) => *w == cur,
            None => false,
        };
        if same {
            return false;
        }
        self.weekly_goal_progress.clear();
        self.weekly_goal_week_iso = Some(cur);
        self.last_modified = now_utc();
        true
    }

    /// Adds one to the counter for `goal_id` unless it already reached
    /// `target` (a missing counter starts at 0). Returns `true` when this
    /// call took the counter from below `target` to `target` or above.
    pub fn record_weekly_progress(&mut self, goal_id: &str, target: u32) -> (completed: bool)
        ensures
            ({
                let cur = weekly_counter(old(self).weekly_goal_progress@, goal_id@);
                let new = weekly_counter_after(cur, target);
                &&& final(self).weekly_goal_progress@ == old(self).weekly_goal_progress@.insert(
                    goal_id@,
                    new,
                )
                &&& completed == (cur < target && new >= target)
                &&& cur >= target ==> final(self).last_modified == old(self).last_modified
                &&& cur < target ==> final(self).last_modified.nanos < 1_000_000_000
            }),
            final(self).total_xp == old(self).total_xp,
            final(self).level == old(self).level,
            final(self).daily_challenge_last_completed == old(self).daily_challenge_last_completed,
            final(self).daily_challenge_streak == old(self).daily_challenge_streak,
            final(self).weekly_goal_week_iso == old(self).weekly_goal_week_iso,
            final(self).unlocked_card_backs@ == old(self).unlocked_card_backs@,
            final(self).unlocked_backgrounds@ == old(self).unlocked_backgrounds@,
            final(self).challenge_index == old(self).challenge_index,
    {
        let cur: u32 = match self.weekly_goal_progress.get(goal_id) {
            Some(v) => *v,
            None => 0,
        };
        if cur >= target {
            self.weekly_goal_progress.insert(String::from_str(goal_id), cur);
            return false;
        }
        let new = cur.saturating_add(1);
        self.weekly_goal_progress.insert(String::from_str(goal_id), new);
        self.last_modified = now_utc();
        new >= target
    }

    /// Records a daily-challenge completion on day `date`.
    ///
    /// - Same day as the last completion: nothing changes (returns `false`).
    /// - The day after the last completion: the streak grows by one.
    /// - Otherwise (first completion, or a gap): the streak restarts at 1.
    pub fn record_daily_completion(&mut self, date: i32) -> (recorded: bool)
        requires
            old(self).daily_challenge_last_completed matches Some(last) ==> last == date || last
                < LAST_CE_DAY,
        ensures
            recorded == !(old(self).daily_challenge_last_completed == Some(date)),
            !recorded ==> final(self).daily_challenge_streak == old(self).daily_challenge_streak
                && final(self).daily_challenge_last_completed
                == old(self).daily_challenge_last_completed && final(self).last_modified
                == old(self).last_modified,
            recorded ==> final(self).daily_challenge_last_completed == Some(date),
            recorded ==> final(self).last_modified.nanos < 1_000_000_000,
            recorded ==> final(self).daily_challenge_streak == (if old(
                self,
            ).daily_challenge_last_completed == Some((date - 1) as i32) && date > i32::MIN {
                sat_inc_u32(old(self).daily_challenge_streak)
            } else {
                1
            }),
            final(self).total_xp == old(self).total_xp,
            final(self).level == old(self).level,
            final(self).weekly_goal_progress@ == old(self).weekly_goal_progress@,
            final(self).weekly_goal_week_iso == old(self).weekly_goal_week_iso,
            final(self).unlocked_card_backs@ == old(self).unlocked_card_backs@,
            final(self).unlocked_backgrounds@ == old(self).unlocked_backgrounds@,
            final(self).challenge_index == old(self).challenge_index,
    {
        match self.daily_challenge_last_completed {
            Some(last) => {
                if last == date {
                    return false;
                }
                if last + 1 == date {
                    self.daily_challenge_streak = self.daily_challenge_streak.saturating_add(1);
                } else {
                    self.daily_challenge_streak = 1;
                }
            },
            None => {
                self.daily_challenge_streak = 1;
            },
        }
        self.daily_challenge_last_completed = Some(date);
        self.last_modified = now_utc();
        true
    }
}

} // verus!
