use solitaire_quest::klondike::difficulty::{DifficultyIndexResource, DifficultyLevel};

const EASY: [u64; 4] = [11, 22, 33, 44];
const MEDIUM: [u64; 3] = [101, 202, 303];

#[test]
fn easy_request_dispatches_seed_from_easy_catalog() {
    let mut index = DifficultyIndexResource::default();
    let seed = index.next_seed(DifficultyLevel::Easy, Some(&EASY)).expect("catalog seed");
    assert!(EASY.contains(&seed), "seed {seed} not in the Easy catalog");
}

#[test]
fn successive_easy_requests_cycle_through_catalog() {
    let mut index = DifficultyIndexResource::default();
    let first = index.next_seed(DifficultyLevel::Easy, Some(&EASY));
    let second = index.next_seed(DifficultyLevel::Easy, Some(&EASY));
    assert_ne!(first, second, "successive Easy requests should produce different seeds");
}

#[test]
fn medium_request_dispatches_seed_from_medium_catalog() {
    let mut index = DifficultyIndexResource::default();
    let seed = index.next_seed(DifficultyLevel::Medium, Some(&MEDIUM)).expect("catalog seed");
    assert!(MEDIUM.contains(&seed));
}

#[test]
fn random_request_dispatches_some_seed_with_random_mode() {
    // Random has no catalog: the caller falls back to a clock seed.
    let mut index = DifficultyIndexResource::default();
    assert_eq!(index.next_seed(DifficultyLevel::Random, None), None);
}

#[test]
fn different_tier_cursors_are_independent() {
    let mut index = DifficultyIndexResource::default();
    let easy = index.next_seed(DifficultyLevel::Easy, Some(&EASY));
    let medium = index.next_seed(DifficultyLevel::Medium, Some(&MEDIUM));
    assert_ne!(easy, medium, "Easy and Medium should draw from independent catalogs");
    assert_eq!(medium, Some(101), "Medium's cursor must not have moved with Easy's");
}

#[test]
fn cursor_wraps_modulo_catalog_length() {
    let mut index = DifficultyIndexResource::default();
    let seeds: Vec<Option<u64>> =
        (0..6).map(|_| index.next_seed(DifficultyLevel::Hard, Some(&MEDIUM))).collect();
    assert_eq!(seeds, vec![Some(101), Some(202), Some(303), Some(101), Some(202), Some(303)]);
}

#[test]
fn empty_or_missing_catalog_falls_back_without_moving_the_cursor() {
    let mut index = DifficultyIndexResource::default();
    assert_eq!(index.next_seed(DifficultyLevel::Expert, Some(&[])), None);
    assert_eq!(index.next_seed(DifficultyLevel::Expert, None), None);
    assert_eq!(index.next_seed(DifficultyLevel::Expert, Some(&EASY)), Some(11));
}
