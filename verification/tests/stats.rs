use solitaire_quest::klondike::game_state::{DrawMode, GameMode};
use solitaire_quest::progression::stats::StatsSnapshot;
use solitaire_quest::records::stats::StatsExt;

#[test]
fn default_stats_are_all_zero() {
    let s = StatsSnapshot::default();
    assert_eq!(s.games_played, 0);
    assert_eq!(s.games_won, 0);
    assert_eq!(s.win_streak_current, 0);
    assert_eq!(s.win_streak_best, 0);
    assert_eq!(s.lifetime_score, 0);
    assert_eq!(s.best_single_score, 0);
    assert_eq!(s.fastest_win_seconds, u64::MAX);
}

#[test]
fn first_win_sets_all_fields() {
    let mut s = StatsSnapshot::default();
    s.update_on_win(1500, 120, &DrawMode::DrawOne);
    assert_eq!(s.games_played, 1);
    assert_eq!(s.games_won, 1);
    assert_eq!(s.win_streak_current, 1);
    assert_eq!(s.win_streak_best, 1);
    assert_eq!(s.lifetime_score, 1500);
    assert_eq!(s.best_single_score, 1500);
    assert_eq!(s.fastest_win_seconds, 120);
    assert_eq!(s.avg_time_seconds, 120);
    assert_eq!(s.draw_one_wins, 1);
    assert_eq!(s.draw_three_wins, 0);
}

#[test]
fn streak_tracks_across_wins() {
    let mut s = StatsSnapshot::default();
    for _ in 0..3 {
        s.update_on_win(100, 60, &DrawMode::DrawOne);
    }
    assert_eq!(s.win_streak_current, 3);
    assert_eq!(s.win_streak_best, 3);
}

#[test]
fn record_abandoned_resets_streak_and_increments_played() {
    let mut s = StatsSnapshot::default();
    s.update_on_win(100, 60, &DrawMode::DrawOne);
    s.update_on_win(100, 60, &DrawMode::DrawOne);
    assert_eq!(s.win_streak_current, 2);
    s.record_abandoned();
    assert_eq!(s.games_played, 3);
    assert_eq!(s.games_lost, 1);
    assert_eq!(s.win_streak_current, 0);
    assert_eq!(s.win_streak_best, 2);
}

#[test]
fn fastest_win_takes_minimum() {
    let mut s = StatsSnapshot::default();
    s.update_on_win(100, 300, &DrawMode::DrawOne);
    s.update_on_win(100, 120, &DrawMode::DrawOne);
    s.update_on_win(100, 500, &DrawMode::DrawOne);
    assert_eq!(s.fastest_win_seconds, 120);
}

#[test]
fn avg_time_is_correct_rolling_average() {
    let mut s = StatsSnapshot::default();
    s.update_on_win(100, 100, &DrawMode::DrawOne);
    s.update_on_win(100, 200, &DrawMode::DrawOne);
    s.update_on_win(100, 300, &DrawMode::DrawOne);
    assert_eq!(s.avg_time_seconds, 200);
}

#[test]
fn avg_time_rounds_down() {
    let mut s = StatsSnapshot::default();
    s.update_on_win(100, 100, &DrawMode::DrawOne);
    s.update_on_win(100, 101, &DrawMode::DrawOne);
    // (100 * 1 + 101) / 2 = 100 with integer division.
    assert_eq!(s.avg_time_seconds, 100);
}

#[test]
fn best_score_updates_only_on_higher_score() {
    let mut s = StatsSnapshot::default();
    s.update_on_win(500, 60, &DrawMode::DrawOne);
    s.update_on_win(300, 60, &DrawMode::DrawOne);
    assert_eq!(s.best_single_score, 500);
    s.update_on_win(800, 60, &DrawMode::DrawOne);
    assert_eq!(s.best_single_score, 800);
}

#[test]
fn negative_score_treated_as_zero() {
    let mut s = StatsSnapshot::default();
    s.update_on_win(-50, 60, &DrawMode::DrawOne);
    assert_eq!(s.best_single_score, 0);
    assert_eq!(s.lifetime_score, 0);
}

#[test]
fn draw_three_wins_tracked_separately() {
    let mut s = StatsSnapshot::default();
    s.update_on_win(100, 60, &DrawMode::DrawOne);
    s.update_on_win(100, 60, &DrawMode::DrawThree);
    assert_eq!(s.draw_one_wins, 1);
    assert_eq!(s.draw_three_wins, 1);
}

#[test]
fn win_streak_best_never_decreases_after_shorter_subsequent_streak() {
    let mut s = StatsSnapshot::default();
    // Build a streak of 5.
    for _ in 0..5 {
        s.update_on_win(100, 60, &DrawMode::DrawOne);
    }
    assert_eq!(s.win_streak_best, 5);
    // Lose (abandon), resetting current.
    s.record_abandoned();
    assert_eq!(s.win_streak_current, 0);
    assert_eq!(s.win_streak_best, 5, "best must survive the loss");
    // Win once — current becomes 1, best must remain 5.
    s.update_on_win(100, 60, &DrawMode::DrawOne);
    assert_eq!(s.win_streak_current, 1);
    assert_eq!(s.win_streak_best, 5, "best must not drop to match shorter streak");
}

#[test]
fn lifetime_score_saturates_at_u64_max() {
    let mut s = StatsSnapshot { lifetime_score: u64::MAX - 100, ..Default::default() };
    s.update_on_win(200, 60, &DrawMode::DrawOne);
    assert_eq!(s.lifetime_score, u64::MAX, "lifetime_score must saturate, not overflow");
}

#[test]
fn classic_win_updates_classic_best_score_only() {
    let mut s = StatsSnapshot::default();
    s.update_per_mode_bests(1500, 200, GameMode::Classic);
    assert_eq!(s.classic_best_score, 1500);
    assert_eq!(s.classic_fastest_win_seconds, 200);
    // Other modes untouched.
    assert_eq!(s.zen_best_score, 0);
    assert_eq!(s.zen_fastest_win_seconds, 0);
    assert_eq!(s.challenge_best_score, 0);
    assert_eq!(s.challenge_fastest_win_seconds, 0);
}

#[test]
fn zen_win_updates_zen_best_score_only() {
    let mut s = StatsSnapshot::default();
    s.update_per_mode_bests(1800, 600, GameMode::Zen);
    assert_eq!(s.zen_best_score, 1800);
    assert_eq!(s.zen_fastest_win_seconds, 600);
    assert_eq!(s.classic_best_score, 0);
    assert_eq!(s.challenge_best_score, 0);
}

#[test]
fn challenge_win_updates_challenge_best_score_only() {
    let mut s = StatsSnapshot::default();
    s.update_per_mode_bests(2400, 480, GameMode::Challenge);
    assert_eq!(s.challenge_best_score, 2400);
    assert_eq!(s.challenge_fastest_win_seconds, 480);
    assert_eq!(s.classic_best_score, 0);
    assert_eq!(s.zen_best_score, 0);
}

#[test]
fn time_attack_win_does_not_touch_per_mode_bests() {
    let mut s = StatsSnapshot::default();
    s.update_per_mode_bests(9999, 1, GameMode::TimeAttack);
    assert_eq!(s.classic_best_score, 0);
    assert_eq!(s.zen_best_score, 0);
    assert_eq!(s.challenge_best_score, 0);
    assert_eq!(s.classic_fastest_win_seconds, 0);
    assert_eq!(s.zen_fastest_win_seconds, 0);
    assert_eq!(s.challenge_fastest_win_seconds, 0);
}

#[test]
fn per_mode_best_score_takes_max_across_calls() {
    let mut s = StatsSnapshot::default();
    s.update_per_mode_bests(500, 200, GameMode::Classic);
    s.update_per_mode_bests(200, 200, GameMode::Classic);
    s.update_per_mode_bests(900, 200, GameMode::Classic);
    assert_eq!(s.classic_best_score, 900);
}

#[test]
fn per_mode_fastest_uses_zero_aware_min() {
    let mut s = StatsSnapshot::default();
    s.update_per_mode_bests(100, 240, GameMode::Classic);
    assert_eq!(s.classic_fastest_win_seconds, 240);
    s.update_per_mode_bests(100, 120, GameMode::Classic);
    assert_eq!(s.classic_fastest_win_seconds, 120);
    s.update_per_mode_bests(100, 300, GameMode::Classic);
    assert_eq!(s.classic_fastest_win_seconds, 120);
}

#[test]
fn per_mode_fastest_ignores_a_zero_second_win() {
    let mut s = StatsSnapshot::default();
    s.update_per_mode_bests(100, 240, GameMode::Zen);
    s.update_per_mode_bests(100, 0, GameMode::Zen);
    assert_eq!(s.zen_fastest_win_seconds, 240);
}

#[test]
fn negative_score_treated_as_zero_in_per_mode() {
    let mut s = StatsSnapshot::default();
    s.update_per_mode_bests(-50, 240, GameMode::Classic);
    assert_eq!(s.classic_best_score, 0);
    // Time still recorded — a win with a low score is still a win.
    assert_eq!(s.classic_fastest_win_seconds, 240);
}

#[test]
fn fastest_win_seconds_defaults_to_max() {
    let s = StatsSnapshot::default();
    assert_eq!(s.fastest_win_seconds, u64::MAX);
}

#[test]
fn record_abandoned_increments_played_and_lost() {
    let mut s = StatsSnapshot::default();
    s.record_abandoned();
    assert_eq!(s.games_played, 1);
    assert_eq!(s.games_lost, 1);
    assert_eq!(s.games_won, 0);
}

#[test]
fn record_abandoned_resets_win_streak() {
    let mut s = StatsSnapshot { win_streak_current: 5, ..Default::default() };
    s.record_abandoned();
    assert_eq!(s.win_streak_current, 0, "abandoned game must break the win streak");
}

#[test]
fn record_abandoned_preserves_best_streak() {
    let mut s = StatsSnapshot { win_streak_best: 7, win_streak_current: 7, ..Default::default() };
    s.record_abandoned();
    assert_eq!(s.win_streak_best, 7, "best streak must not be reduced on abandon");
    assert_eq!(s.win_streak_current, 0);
}

#[test]
fn per_mode_fields_default_to_zero() {
    let s = StatsSnapshot::default();
    assert_eq!(s.classic_best_score, 0);
    assert_eq!(s.classic_fastest_win_seconds, 0);
    assert_eq!(s.zen_best_score, 0);
    assert_eq!(s.zen_fastest_win_seconds, 0);
    assert_eq!(s.challenge_best_score, 0);
    assert_eq!(s.challenge_fastest_win_seconds, 0);
}
