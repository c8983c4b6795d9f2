use solitaire_quest::presentation::replay::{
    banner_label, format_game_caption, format_progress, keybind_footer_hint_text,
    keybind_footer_mode_text, pause_button_label, scrub_notch_labels, ReplayPhase,
};

fn playing(total: usize, cursor: usize, paused: bool) -> ReplayPhase {
    ReplayPhase::Playing { cursor, total, paused, recorded_year: 2026, recorded_ordinal: 122 }
}

#[test]
fn pause_button_label_reads_pause_when_running() {
    assert_eq!(pause_button_label(playing(5, 0, false)), "Pause");
}

#[test]
fn pause_button_label_reads_resume_when_paused() {
    assert_eq!(pause_button_label(playing(5, 0, true)), "Resume");
}

#[test]
fn pause_button_label_is_empty_off_state() {
    assert_eq!(pause_button_label(ReplayPhase::Inactive), "");
    assert_eq!(pause_button_label(ReplayPhase::Completed), "");
}

#[test]
fn overlay_progress_text_reflects_cursor() {
    assert_eq!(format_progress(playing(10, 5, false)), "MOVE 5/10");
    assert_eq!(format_progress(ReplayPhase::Completed), "REPLAY COMPLETE");
    assert_eq!(format_progress(ReplayPhase::Inactive), "");
}

#[test]
fn overlay_text_changes_on_completed() {
    assert_eq!(banner_label(playing(10, 5, false)), Some("\u{258C} replay"));
    assert_eq!(banner_label(ReplayPhase::Completed), Some("\u{258C} replay complete"));
    assert_eq!(banner_label(ReplayPhase::Inactive), None);
}

#[test]
fn format_game_caption_covers_state_corners() {
    assert_eq!(format_game_caption(ReplayPhase::Inactive), None);
    assert_eq!(format_game_caption(ReplayPhase::Completed), None);
    assert_eq!(format_game_caption(playing(10, 5, false)), Some("GAME #2026-122".to_string()));
    let early = ReplayPhase::Playing { cursor: 0, total: 10, paused: false, recorded_year: 2026, recorded_ordinal: 5 };
    assert_eq!(format_game_caption(early), Some("GAME #2026-005".to_string()));
}

#[test]
fn scrub_notch_labels_are_quarter_mark_percents() {
    assert_eq!(scrub_notch_labels(), ["0%", "25%", "50%", "75%", "100%"]);
}

#[test]
fn keybind_footer_helpers_carry_expected_text() {
    assert_eq!(keybind_footer_mode_text(), "\u{258C} NORMAL \u{2502} replay");
    assert_eq!(
        keybind_footer_hint_text(),
        "[SPACE] pause/resume \u{00B7} [ESC] stop \u{00B7} [\u{2190}\u{2192}] step"
    );
}

#[test]
fn keybind_footer_hint_lists_space_and_esc() {
    let hint = keybind_footer_hint_text();
    assert!(hint.contains("[SPACE]"));
    assert!(hint.contains("[ESC]"));
}

#[test]
fn keybind_footer_hint_lists_arrow_steps() {
    assert!(keybind_footer_hint_text().contains("[\u{2190}\u{2192}] step"));
}
