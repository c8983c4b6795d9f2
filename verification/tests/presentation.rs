use solitaire_quest::klondike::card::{Rank, Suit};
use solitaire_quest::klondike::pile::{Pile, PileType};
use solitaire_quest::presentation::card_face_svg::{
    back_svg, face_svg, rank_filename, suit_filename, theme_rank_token, theme_suit_token,
    ALL_RANKS, ALL_SUITS, BACK_ACCENTS,
};
use solitaire_quest::klondike::game_state::{DrawMode, GameMode};
use solitaire_quest::presentation::hud::{
    challenge_hud_text, format_time_limit, hud_text, hud_time_text, mode_label, DailyChallenge,
    HudGame,
};
use solitaire_quest::presentation::pause::build_level_streak_line;
use solitaire_quest::presentation::profile::{
    achievements_unlocked_line, profile_level_line, profile_streak_line, profile_unlocks_line,
    xp_progress,
};
use solitaire_quest::progression::clock::Timestamp;
use solitaire_quest::records::achievements::AchievementRecord;
use solitaire_quest::presentation::selection::{
    cycle_next_pile, handle_selection_key, selectable_piles, MoveRequest, SelectionKey,
};
use solitaire_quest::presentation::user_dir::{
    set_user_theme_dir, user_theme_dir, user_theme_dir_for, PathStyle, Platform,
};
use solitaire_quest::presentation::win_summary::format_win_time;

const BG_FACE: &str = "#1a1a1a";
const BACK_BG: &str = "#151515";
const BACK_SCANLINE: &str = "#1a1a1a";
const BACK_BORDER: &str = "#353535";
const BACK_MONOGRAM: &str = "#505050";

fn reference_face(colour: &str, rank_text: &str, path_d: &str, glyph_attrs: &str) -> String {
    let small_glyph_attrs = glyph_attrs;
    let large_glyph_attrs = glyph_attrs;
    format!(
        r##"<svg xmlns="http://www.w3.org/2000/svg" width="256" height="384" viewBox="0 0 256 384">
  <rect x="1" y="1" width="254" height="382" rx="16" ry="16"
        fill="{BG_FACE}" stroke="{colour}" stroke-width="2"/>

  <!-- Top-left rank in JetBrains-Mono-styled FiraMono (rank digits
       and letters render correctly in FiraMono; only the suit glyphs
       needed to escape to paths). -->
  <text x="14" y="44" font-family="Fira Mono" font-size="36" font-weight="700"
        fill="{colour}">{rank_text}</text>

  <!-- Top-left small suit glyph at (14, 50), 20 × 20.
       `suit_path_d` is authored in a 32-unit box, so scale 0.625
       lands the visible glyph at 20 px. -->
  <g transform="translate(14 50) scale(0.625)">
    <path d="{path_d}" {small_glyph_attrs}/>
  </g>

  <!-- Bottom-right large suit glyph at (178, 286), 64 × 64.
       Visible bottom-right at (242, 350), visible top-left at
       (178, 286). Same upright orientation as the top-left small
       glyph — no 180° rotation applied. -->
  <g transform="translate(178 286) scale(2)">
    <path d="{path_d}" {large_glyph_attrs}/>
  </g>
</svg>"##
    )
}

fn reference_back(accent: &str) -> String {
    format!(
        r##"<svg xmlns="http://www.w3.org/2000/svg" width="256" height="384" viewBox="0 0 256 384">
  <defs>
    <pattern id="scanlines" x="0" y="0" width="2" height="4" patternUnits="userSpaceOnUse">
      <rect x="0" y="0" width="2" height="2" fill="{BACK_SCANLINE}"/>
    </pattern>
  </defs>

  <!-- Background fill, then scanlines on top (the scanlines stay
       darker than BACK_BG so the "off" rows show through). -->
  <rect x="1" y="1" width="254" height="382" rx="16" ry="16"
        fill="{BACK_BG}" stroke="{BACK_BORDER}" stroke-width="2"/>
  <rect x="1" y="1" width="254" height="382" rx="16" ry="16"
        fill="url(#scanlines)"/>

  <!-- Top-left accent badge (the only theme-varying element). -->
  <rect x="12" y="12" width="24" height="32" fill="{accent}"/>

  <!-- Bottom-right "▌RS" monogram in JetBrains-Mono-styled FiraMono. -->
  <text x="244" y="368" font-family="Fira Mono" font-size="24"
        fill="{BACK_MONOGRAM}" text-anchor="end">&#x258C;RS</text>
</svg>"##
    )
}

fn new_game(mode: GameMode, draw_mode: DrawMode) -> HudGame {
    HudGame {
        score: 0,
        move_count: 0,
        undo_count: 0,
        elapsed_seconds: 0,
        mode,
        draw_mode,
        is_won: false,
    }
}

fn piles_from(names: &[&str]) -> Vec<PileType> {
    names
        .iter()
        .map(|&n| match n {
            "Waste" => PileType::Waste,
            "T0" => PileType::Tableau(0),
            "T1" => PileType::Tableau(1),
            "T2" => PileType::Tableau(2),
            _ => PileType::Waste,
        })
        .collect()
}

#[test]
fn user_theme_dir_for_appends_solitaire_quest_themes() {
    let dir = user_theme_dir_for("/tmp/data", PathStyle::Unix);
    assert_eq!(dir, "/tmp/data/solitaire_quest/themes", "user dir must nest under solitaire_quest/themes");
}

#[test]
fn user_theme_dir_for_handles_empty_root() {
    let dir = user_theme_dir_for("", PathStyle::Unix);
    assert_eq!(dir, "solitaire_quest/themes");
}

#[test]
fn user_theme_dir_for_does_not_double_a_trailing_slash() {
    assert_eq!(user_theme_dir_for("/tmp/data/", PathStyle::Unix), "/tmp/data/solitaire_quest/themes");
}

#[test]
fn user_theme_dir_desktop_ignores_override_mobile_needs_it() {
    let data = Some("/home/u/.local/share");
    let themes = "/home/u/.local/share/solitaire_quest/themes".to_string();
    assert_eq!(user_theme_dir(Platform::Desktop, PathStyle::Unix, Some("/sdcard/themes"), data), themes);
    assert_eq!(user_theme_dir(Platform::Desktop, PathStyle::Unix, None, data), themes);
    assert_eq!(user_theme_dir(Platform::Mobile, PathStyle::Unix, Some("/sdcard/themes"), data), "/sdcard/themes");
    assert_eq!(user_theme_dir(Platform::Other, PathStyle::Unix, Some("/x"), None), "/x");
}

#[test]
fn user_theme_dir_for_windows_paths() {
    assert_eq!(
        user_theme_dir_for("C:\\Users\\u\\AppData\\Roaming", PathStyle::Windows),
        "C:\\Users\\u\\AppData\\Roaming\\solitaire_quest\\themes"
    );
    assert_eq!(user_theme_dir_for("C:\\data/", PathStyle::Windows), "C:\\data/solitaire_quest\\themes");
    assert_eq!(user_theme_dir_for("C:", PathStyle::Windows), "C:solitaire_quest\\themes");
    assert_eq!(user_theme_dir_for("", PathStyle::Windows), "solitaire_quest\\themes");
}

#[test]
fn user_theme_dir_for_matches_path_join_here() {
    let base = "/srv/data";
    let joined = std::path::PathBuf::from(base).join("solitaire_quest").join("themes");
    assert_eq!(user_theme_dir_for(base, PathStyle::Unix), joined.to_string_lossy());
}

#[test]
fn set_user_theme_dir_first_writer_wins() {
    let mut slot: Option<String> = None;
    assert_eq!(set_user_theme_dir(&mut slot, "/first".to_string()), Ok(()));
    assert_eq!(set_user_theme_dir(&mut slot, "/second".to_string()), Err("/second".to_string()));
    assert_eq!(slot, Some("/first".to_string()));
}

#[test]
fn xp_progress_at_zero() {
    assert_eq!(xp_progress(0, 0), (500, 0));
}

#[test]
fn xp_progress_halfway_through_level_1() {
    // Level 1 starts at 500 XP; span is 500.  At 750 XP: done = 250.
    assert_eq!(xp_progress(750, 1), (500, 250));
}

#[test]
fn xp_progress_at_level_10() {
    // Level 10 is the first post-table level (span = 1000, starts at 5000).
    assert_eq!(xp_progress(5_000, 10), (1_000, 0));
}

#[test]
fn xp_progress_past_level_ten() {
    assert_eq!(xp_progress(6_400, 11), (1_000, 400));
}

#[test]
fn format_time_limit_300_is_5_00() {
    assert_eq!(format_time_limit(300), "5:00");
}

#[test]
fn format_time_limit_zero() {
    assert_eq!(format_time_limit(0), "0:00");
}

#[test]
fn format_time_limit_pads_seconds() {
    assert_eq!(format_time_limit(65), "1:05");
}

#[test]
fn challenge_hud_text_shows_time_limit() {
    assert_eq!(challenge_hud_text(&DailyChallenge { max_time_secs: Some(300), target_score: None }), "Limit: 5:00");
}

#[test]
fn challenge_hud_text_shows_score_goal() {
    assert_eq!(challenge_hud_text(&DailyChallenge { max_time_secs: None, target_score: Some(4000) }), "Goal: 4000 pts");
}

#[test]
fn challenge_hud_text_empty_when_no_constraints() {
    assert_eq!(challenge_hud_text(&DailyChallenge { max_time_secs: None, target_score: None }), "");
}

#[test]
fn challenge_hud_text_prefers_time_limit_over_goal() {
    assert_eq!(challenge_hud_text(&DailyChallenge { max_time_secs: Some(90), target_score: Some(4000) }), "Limit: 1:30");
}

#[test]
fn level_streak_both_present() {
    assert_eq!(build_level_streak_line(Some(7), Some(3)), "Level 7   Win streak: 3");
}

#[test]
fn level_streak_only_level() {
    assert_eq!(build_level_streak_line(Some(5), None), "Level 5");
}

#[test]
fn level_streak_only_streak() {
    assert_eq!(build_level_streak_line(None, Some(4)), "Win streak: 4");
}

#[test]
fn level_streak_neither() {
    assert_eq!(build_level_streak_line(None, None), "");
}

#[test]
fn cycle_next_pile_from_none() {
    let available = piles_from(&["Waste", "T0", "T1"]);
    let result = cycle_next_pile(&available, None);
    assert_eq!(result, Some(PileType::Waste));
}

#[test]
fn cycle_next_pile_from_waste() {
    let available = piles_from(&["Waste", "T0", "T1"]);
    let result = cycle_next_pile(&available, Some(&PileType::Waste));
    assert_eq!(result, Some(PileType::Tableau(0)));
}

#[test]
fn cycle_next_pile_wraps() {
    let available = piles_from(&["Waste", "T0", "T1"]);
    let result = cycle_next_pile(&available, Some(&PileType::Tableau(1)));
    assert_eq!(result, Some(PileType::Waste));
}

#[test]
fn cycle_next_pile_empty_returns_none() {
    let result = cycle_next_pile(&[], None);
    assert!(result.is_none());
}

#[test]
fn cycle_next_pile_single_element_wraps_to_itself() {
    let available = vec![PileType::Waste];
    let result = cycle_next_pile(&available, Some(&PileType::Waste));
    assert_eq!(result, Some(PileType::Waste));
}

#[test]
fn cycle_next_pile_skips_unavailable_piles() {
    let available = piles_from(&["Waste", "T2"]);
    let result = cycle_next_pile(&available, Some(&PileType::Waste));
    assert_eq!(result, Some(PileType::Tableau(2)));
}

#[test]
fn format_win_time_zero() {
    assert_eq!(format_win_time(0), "0:00");
}

#[test]
fn format_win_time_one_minute_five_seconds() {
    assert_eq!(format_win_time(65), "1:05");
}

#[test]
fn format_win_time_exact_minute() {
    assert_eq!(format_win_time(120), "2:00");
}

#[test]
fn format_win_time_large() {
    // 3661 s = 61 min 1 s
    assert_eq!(format_win_time(3661), "61:01");
}

#[test]
fn format_win_time_59_seconds() {
    assert_eq!(format_win_time(59), "0:59");
}

#[test]
fn card_file_names_and_theme_tokens() {
    let files: Vec<&str> = ALL_RANKS.iter().map(|r| rank_filename(*r)).collect();
    assert_eq!(files, vec!["A", "2", "3", "4", "5", "6", "7", "8", "9", "10", "J", "Q", "K"]);
    let suits: Vec<&str> = ALL_SUITS.iter().map(|s| suit_filename(*s)).collect();
    assert_eq!(suits, vec!["C", "D", "H", "S"]);
    let tokens: Vec<&str> = ALL_SUITS.iter().map(|s| theme_suit_token(*s)).collect();
    assert_eq!(tokens, vec!["clubs", "diamonds", "hearts", "spades"]);
    assert_eq!(theme_rank_token(Rank::Ace), "ace");
    assert_eq!(theme_rank_token(Rank::Ten), "10");
    assert_eq!(theme_rank_token(Rank::Jack), "jack");
    assert_eq!(theme_rank_token(Rank::Queen), "queen");
    assert_eq!(theme_rank_token(Rank::King), "king");
}

#[test]
fn face_svg_for_ace_of_hearts_matches_template() {
    let expected = reference_face(
        "#fb9fb1",
        "A",
        "M16,28 C 8,22 2,17 2,11 C 2,7 5,4 9,4 C 12,4 14,6 16,9 C 18,6 20,4 23,4 C 27,4 30,7 30,11 C 30,17 24,22 16,28 Z",
        "fill=\"#fb9fb1\"",
    );
    assert_eq!(face_svg(Rank::Ace, Suit::Hearts), expected);
}

#[test]
fn face_svg_for_ten_of_diamonds_uses_outline() {
    let expected = reference_face(
        "#fb9fb1",
        "10",
        "M16,2 L 29,16 L 16,30 L 3,16 Z",
        "fill=\"none\" stroke=\"#fb9fb1\" stroke-width=\"3\"",
    );
    assert_eq!(face_svg(Rank::Ten, Suit::Diamonds), expected);
}

#[test]
fn face_svg_dark_suits_use_dark_colour() {
    let spade = face_svg(Rank::King, Suit::Spades);
    assert!(spade.contains("fill=\"#d0d0d0\">K</text>"));
    let club = face_svg(Rank::Queen, Suit::Clubs);
    assert!(club.contains("fill=\"none\" stroke=\"#d0d0d0\" stroke-width=\"3\""));
}

#[test]
fn back_svg_matches_template_for_every_accent() {
    for accent in BACK_ACCENTS {
        assert_eq!(back_svg(accent), reference_back(accent));
    }
}

#[test]
fn score_reflects_game_state() {
    let mut g = new_game(GameMode::Classic, DrawMode::DrawOne);
    g.score = 750;
    assert_eq!(hud_text(&g, None, false).score, "Score: 750");
    g.score = -40;
    assert_eq!(hud_text(&g, None, false).score, "Score: -40");
}

#[test]
fn moves_reflects_game_state() {
    let mut g = new_game(GameMode::Classic, DrawMode::DrawOne);
    g.move_count = 42;
    assert_eq!(hud_text(&g, None, false).moves, "Moves: 42");
}

#[test]
fn draw_three_mode_shows_draw_3_badge() {
    let g = new_game(GameMode::Classic, DrawMode::DrawThree);
    assert_eq!(hud_text(&g, None, false).mode, "Draw 3");
    let g1 = new_game(GameMode::Classic, DrawMode::DrawOne);
    assert_eq!(hud_text(&g1, None, false).mode, "");
    assert_eq!(hud_text(&new_game(GameMode::TimeAttack, DrawMode::DrawOne), None, false).mode, "TIME ATTACK");
}

#[test]
fn zen_mode_hides_score() {
    let mut g = new_game(GameMode::Zen, DrawMode::DrawOne);
    g.score = 999;
    let t = hud_text(&g, None, false);
    assert_eq!(t.score, "");
    assert_eq!(t.mode, "ZEN");
    assert_eq!(hud_time_text(&g, None), "");
}

#[test]
fn time_display_uses_mm_ss_format() {
    let mut g = new_game(GameMode::Classic, DrawMode::DrawOne);
    g.elapsed_seconds = 125;
    assert_eq!(hud_time_text(&g, None), "2:05");
    assert_eq!(hud_time_text(&g, Some(599)), "9:59");
}

#[test]
fn challenge_hud_shows_time_limit_when_resource_present() {
    let g = new_game(GameMode::Classic, DrawMode::DrawOne);
    let dc = DailyChallenge { max_time_secs: Some(300), target_score: None };
    assert_eq!(hud_text(&g, Some(dc), false).challenge, "Limit: 5:00");
    assert_eq!(hud_text(&g, None, false).challenge, "");
}

#[test]
fn challenge_hud_clears_on_win() {
    let mut g = new_game(GameMode::Classic, DrawMode::DrawOne);
    g.is_won = true;
    let dc = DailyChallenge { max_time_secs: None, target_score: Some(4000) };
    assert_eq!(hud_text(&g, Some(dc), false).challenge, "");
}

#[test]
fn undos_hud_empty_at_game_start() {
    let g = new_game(GameMode::Classic, DrawMode::DrawOne);
    assert_eq!(hud_text(&g, None, false).undos, "");
}

#[test]
fn undos_hud_shows_count_after_undo() {
    let mut g = new_game(GameMode::Classic, DrawMode::DrawOne);
    g.undo_count = 3;
    assert_eq!(hud_text(&g, None, false).undos, "Undos: 3");
}

#[test]
fn auto_complete_badge_shows_auto_when_active() {
    let g = new_game(GameMode::Classic, DrawMode::DrawOne);
    assert_eq!(hud_text(&g, None, true).auto_complete, "AUTO");
}

#[test]
fn auto_complete_badge_empty_when_inactive() {
    let g = new_game(GameMode::Classic, DrawMode::DrawOne);
    assert_eq!(hud_text(&g, None, false).auto_complete, "");
}

#[test]
fn profile_lines() {
    assert_eq!(profile_level_line(750, 1), "Level 1  \u{2014}  750 XP  (250/500 to next, 50%)");
    assert_eq!(profile_level_line(5_000, 10), "Level 10  \u{2014}  5000 XP  (0/1000 to next, 0%)");
    assert_eq!(profile_unlocks_line(3, 2, 1), "Daily streak: 3  |  Card backs: 2  |  Backgrounds: 1");
    assert_eq!(profile_streak_line(2, 5, 1500), "Win streak: 2 current, 5 best  |  Best score: 1500");
    assert_eq!(profile_streak_line(0, 0, 0), "Win streak: 0 current, 0 best  |  Best score: \u{2014}");
    let mut won = AchievementRecord::locked("first_win");
    won.unlock(Timestamp { secs: 10, nanos: 0 });
    let records = vec![AchievementRecord::locked("century"), won];
    assert_eq!(achievements_unlocked_line(&records), "1 / 18 unlocked");
    assert_eq!(achievements_unlocked_line(&[]), "0 / 18 unlocked");
}

#[test]
fn selection_keys_cycle_clear_and_activate() {
    let available = piles_from(&["Waste", "T0"]);
    let mut selected = None;
    assert_eq!(handle_selection_key(&mut selected, false, SelectionKey::Tab, &available, None), None);
    assert_eq!(selected, Some(PileType::Waste));
    assert_eq!(handle_selection_key(&mut selected, false, SelectionKey::Tab, &available, None), None);
    assert_eq!(selected, Some(PileType::Tableau(0)));
    // No destination: nothing happens.
    assert_eq!(handle_selection_key(&mut selected, false, SelectionKey::Activate, &available, None), None);
    assert_eq!(selected, Some(PileType::Tableau(0)));
    let req = handle_selection_key(
        &mut selected,
        false,
        SelectionKey::Activate,
        &available,
        Some(PileType::Foundation(2)),
    );
    assert_eq!(
        req,
        Some(MoveRequest { from: PileType::Tableau(0), to: PileType::Foundation(2), count: 1 })
    );
    assert_eq!(selected, None);
    selected = Some(PileType::Waste);
    assert_eq!(handle_selection_key(&mut selected, false, SelectionKey::Escape, &available, None), None);
    assert_eq!(selected, None);
}

#[test]
fn challenge_hud_empty_when_no_daily_resource() {
    let g = new_game(GameMode::Classic, DrawMode::DrawOne);
    assert_eq!(hud_text(&g, None, false).challenge, "");
}

#[test]
fn challenge_hud_shows_score_goal_when_resource_present() {
    let g = new_game(GameMode::Classic, DrawMode::DrawOne);
    let dc = DailyChallenge { max_time_secs: None, target_score: Some(4000) };
    assert_eq!(hud_text(&g, Some(dc), false).challenge, "Goal: 4000 pts");
}

#[test]
fn selection_keys_are_ignored_while_paused() {
    let available = piles_from(&["Waste", "T0"]);
    let mut selected = Some(PileType::Waste);
    assert_eq!(handle_selection_key(&mut selected, true, SelectionKey::Tab, &available, None), None);
    assert_eq!(selected, Some(PileType::Waste));
    let req = handle_selection_key(&mut selected, true, SelectionKey::Activate, &available, Some(PileType::Tableau(0)));
    assert_eq!(req, None);
    assert_eq!(selected, Some(PileType::Waste));
}

#[test]
fn selectable_piles_are_those_with_a_face_up_top_in_cycle_order() {
    let up = |id: u32| solitaire_quest::klondike::card::Card { id, suit: Suit::Hearts, rank: Rank::Five, face_up: true };
    let down = |id: u32| solitaire_quest::klondike::card::Card { id, suit: Suit::Clubs, rank: Rank::Two, face_up: false };
    let piles = vec![
        Pile { pile_type: PileType::Tableau(3), cards: vec![down(1), up(2)] },
        Pile { pile_type: PileType::Tableau(1), cards: vec![down(3)] },
        Pile { pile_type: PileType::Waste, cards: vec![up(4)] },
        Pile { pile_type: PileType::Foundation(2), cards: vec![] },
        Pile { pile_type: PileType::Stock, cards: vec![down(5)] },
    ];
    assert_eq!(selectable_piles(&piles), vec![PileType::Waste, PileType::Tableau(3)]);
}

#[test]
fn mode_badge_labels() {
    assert_eq!(mode_label(GameMode::Classic), "Classic");
    assert_eq!(mode_label(GameMode::Zen), "Zen");
    assert_eq!(mode_label(GameMode::Challenge), "Challenge");
    assert_eq!(mode_label(GameMode::TimeAttack), "Time Attack");
}
