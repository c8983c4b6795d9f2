use std::collections::HashSet;

use solitaire_quest::klondike::card::{Card, Rank, Suit};
use solitaire_quest::klondike::game_state::DrawMode;
use solitaire_quest::klondike::solver::{
    longest_face_up_run, try_solve, SolverConfig, SolverMove, SolverResult, SolverState,
};

fn synthetic(
    tableau: [Vec<Card>; 7],
    foundation: [Vec<Card>; 4],
    stock: Vec<Card>,
    waste: Vec<Card>,
    draw_mode: DrawMode,
) -> SolverState {
    SolverState {
        tableau,
        foundation,
        stock,
        waste,
        draw_mode,
        just_drew: false,
        consecutive_draws: 0,
        last_move: None,
    }
}

fn empty_columns() -> [Vec<Card>; 7] {
    core::array::from_fn(|_| Vec::new())
}

fn empty_foundations() -> [Vec<Card>; 4] {
    core::array::from_fn(|_| Vec::new())
}

fn ace(suit: Suit, id: u32) -> Card {
    Card { id, suit, rank: Rank::Ace, face_up: true }
}

fn rank_card(suit: Suit, rank: Rank, id: u32) -> Card {
    Card { id, suit, rank, face_up: true }
}

fn full_run(suit: Suit, base_id: u32) -> Vec<Card> {
    let ranks = [
        Rank::Ace, Rank::Two, Rank::Three, Rank::Four, Rank::Five,
        Rank::Six, Rank::Seven, Rank::Eight, Rank::Nine, Rank::Ten,
        Rank::Jack, Rank::Queen, Rank::King,
    ];
    ranks
        .iter()
        .enumerate()
        .map(|(i, r)| Card { id: base_id + i as u32, suit, rank: *r, face_up: true })
        .collect()
}

#[test]
fn solver_recognises_obviously_winnable_deal() {
    let mut foundations: [Vec<Card>; 4] = empty_foundations();
    for (slot, suit) in [Suit::Clubs, Suit::Diamonds, Suit::Hearts, Suit::Spades]
        .iter()
        .enumerate()
    {
        let mut full = full_run(*suit, (slot as u32) * 13);
        full.pop();
        foundations[slot] = full;
    }
    let mut tableau = empty_columns();
    tableau[0] = vec![rank_card(Suit::Clubs, Rank::King, 100)];
    tableau[1] = vec![rank_card(Suit::Diamonds, Rank::King, 101)];
    tableau[2] = vec![rank_card(Suit::Hearts, Rank::King, 102)];
    tableau[3] = vec![rank_card(Suit::Spades, Rank::King, 103)];

    let state = synthetic(tableau, foundations, Vec::new(), Vec::new(), DrawMode::DrawOne);
    let mut visited: HashSet<u64> = HashSet::new();
    let mut moves_consumed: u64 = 0;
    let mut budget_exceeded = false;
    let cfg = SolverConfig::default();
    let won = state.search(&cfg, &mut visited, &mut moves_consumed, &mut budget_exceeded);

    assert!(won, "obviously-winnable position must be recognised as Winnable");
    assert!(!budget_exceeded);
    assert!(
        moves_consumed < 1000,
        "near-finished deal should solve in well under 1k moves; consumed {moves_consumed}"
    );
}

#[test]
fn solver_recognises_obviously_unwinnable_deal() {
    let mut tableau = empty_columns();
    tableau[0] = vec![
        Card { id: 0, suit: Suit::Spades, rank: Rank::Ace, face_up: true },
        Card { id: 1, suit: Suit::Spades, rank: Rank::Two, face_up: true },
    ];
    tableau[1] = vec![rank_card(Suit::Clubs, Rank::King, 2)];

    let state = synthetic(tableau, empty_foundations(), Vec::new(), Vec::new(), DrawMode::DrawOne);
    let cfg = SolverConfig::default();
    let mut visited: HashSet<u64> = HashSet::new();
    let mut moves_consumed: u64 = 0;
    let mut budget_exceeded = false;
    let won = state.search(&cfg, &mut visited, &mut moves_consumed, &mut budget_exceeded);
    assert!(!won, "buried Ace under same-suit Two with no recovery must not solve");
    assert!(!budget_exceeded, "small synthetic state must complete within budget");
}

#[test]
fn solver_returns_inconclusive_when_budget_exceeded() {
    let cfg = SolverConfig { move_budget: 50, state_budget: 50 };
    let result = try_solve(0, DrawMode::DrawOne, &cfg);
    assert_eq!(
        result,
        SolverResult::Inconclusive,
        "very tight budgets must surface as Inconclusive on a real deal"
    );
}

#[test]
fn solver_is_deterministic() {
    let cfg = SolverConfig { move_budget: 5_000, state_budget: 5_000 };
    let r1 = try_solve(7, DrawMode::DrawOne, &cfg);
    let r2 = try_solve(7, DrawMode::DrawOne, &cfg);
    let r3 = try_solve(7, DrawMode::DrawOne, &cfg);
    assert_eq!(r1, r2, "repeat solves must yield the same result");
    assert_eq!(r2, r3);
}

#[test]
fn solver_handles_draw_three_mode() {
    let cfg = SolverConfig { move_budget: 5_000, state_budget: 5_000 };
    let r1 = try_solve(123, DrawMode::DrawThree, &cfg);
    let r2 = try_solve(123, DrawMode::DrawThree, &cfg);
    assert_eq!(r1, r2, "DrawThree solver must be deterministic");
}

#[test]
fn try_solve_winnable_synthetic_via_real_init_path() {
    let cfg = SolverConfig::default();
    let _verdict = try_solve(42, DrawMode::DrawOne, &cfg);
}

#[test]
fn longest_face_up_run_handles_face_down_at_top() {
    let cards = vec![Card { id: 1, suit: Suit::Spades, rank: Rank::King, face_up: false }];
    assert_eq!(longest_face_up_run(&cards), 0);
}

#[test]
fn longest_face_up_run_extends_through_valid_run() {
    let cards = vec![
        Card { id: 0, suit: Suit::Spades, rank: Rank::Two, face_up: false },
        Card { id: 1, suit: Suit::Spades, rank: Rank::King, face_up: true },
        Card { id: 2, suit: Suit::Hearts, rank: Rank::Queen, face_up: true },
        Card { id: 3, suit: Suit::Clubs, rank: Rank::Jack, face_up: true },
    ];
    assert_eq!(longest_face_up_run(&cards), 3);
}

#[test]
fn longest_face_up_run_breaks_on_invalid_sequence() {
    let cards = vec![
        Card { id: 1, suit: Suit::Spades, rank: Rank::King, face_up: true },
        Card { id: 2, suit: Suit::Hearts, rank: Rank::Queen, face_up: true },
        Card { id: 3, suit: Suit::Clubs, rank: Rank::Queen, face_up: true },
    ];
    assert_eq!(longest_face_up_run(&cards), 1);
}

#[test]
fn target_foundation_slot_prefers_claimed_suit() {
    let mut state = synthetic(
        empty_columns(),
        empty_foundations(),
        Vec::new(),
        Vec::new(),
        DrawMode::DrawOne,
    );
    state.foundation[1].push(ace(Suit::Hearts, 0));
    assert_eq!(state.target_foundation_slot(Suit::Hearts), Some(1));
}

#[test]
fn target_foundation_slot_falls_back_to_empty() {
    let state = synthetic(
        empty_columns(),
        empty_foundations(),
        Vec::new(),
        Vec::new(),
        DrawMode::DrawOne,
    );
    assert_eq!(state.target_foundation_slot(Suit::Spades), Some(0));
}

// ---------------------------------------------------------------------------
// Further checks of the move generator, move application and hashing
// ---------------------------------------------------------------------------

#[test]
fn initial_deal_has_klondike_shape() {
    let s = SolverState::initial(11, DrawMode::DrawOne);
    for (c, col) in s.tableau.iter().enumerate() {
        assert_eq!(col.len(), c + 1);
        assert!(col.last().unwrap().face_up);
        assert!(col[..c].iter().all(|card| !card.face_up));
    }
    assert_eq!(s.stock.len(), 24);
    assert!(s.waste.is_empty());
    let mut ids: Vec<u32> = s.tableau.iter().flatten().chain(s.stock.iter()).map(|c| c.id).collect();
    ids.sort();
    assert_eq!(ids, (0..52).collect::<Vec<u32>>());
}

#[test]
fn different_seeds_give_different_deals() {
    let a = SolverState::initial(1, DrawMode::DrawOne);
    let b = SolverState::initial(2, DrawMode::DrawOne);
    assert_ne!(a.canonical_hash(), b.canonical_hash());
}

#[test]
fn zero_budget_is_inconclusive() {
    let cfg = SolverConfig { move_budget: 0, state_budget: 10 };
    assert_eq!(try_solve(3, DrawMode::DrawOne, &cfg), SolverResult::Inconclusive);
}

#[test]
fn enumerate_orders_foundation_moves_first_and_draw_last() {
    let mut tableau = empty_columns();
    tableau[0] = vec![ace(Suit::Hearts, 0)];
    tableau[1] = vec![rank_card(Suit::Spades, Rank::Eight, 1)];
    tableau[2] = vec![rank_card(Suit::Hearts, Rank::Seven, 2)];
    let stock = vec![Card { id: 3, suit: Suit::Clubs, rank: Rank::Five, face_up: false }];
    let state = synthetic(tableau, empty_foundations(), stock, Vec::new(), DrawMode::DrawOne);
    let moves = state.enumerate_moves();
    assert_eq!(
        moves,
        vec![
            SolverMove::TableauToFoundation { from: 0, slot: 0 },
            SolverMove::TableauToTableau { from: 2, to: 1, count: 1 },
            SolverMove::Draw,
        ]
    );
}

#[test]
fn apply_tableau_move_flips_exposed_card() {
    let mut tableau = empty_columns();
    tableau[0] = vec![
        Card { id: 0, suit: Suit::Clubs, rank: Rank::Two, face_up: false },
        rank_card(Suit::Hearts, Rank::Seven, 1),
    ];
    tableau[1] = vec![rank_card(Suit::Spades, Rank::Eight, 2)];
    let mut state = synthetic(tableau, empty_foundations(), Vec::new(), Vec::new(), DrawMode::DrawOne);
    state.consecutive_draws = 4;
    let undo = state.apply_move(SolverMove::TableauToTableau { from: 0, to: 1, count: 1 });
    assert_eq!(undo.prev_consec, 4);
    assert_eq!(state.consecutive_draws, 0);
    assert_eq!(state.tableau[0].len(), 1);
    assert!(state.tableau[0][0].face_up);
    assert_eq!(state.tableau[1].iter().map(|c| c.id).collect::<Vec<_>>(), vec![2, 1]);
}

#[test]
fn draw_three_then_recycle_reverses_face_down() {
    let stock: Vec<Card> = (0..4)
        .map(|i| Card { id: i, suit: Suit::Clubs, rank: Rank::Two, face_up: false })
        .collect();
    let mut state = synthetic(empty_columns(), empty_foundations(), stock, Vec::new(), DrawMode::DrawThree);
    state.apply_move(SolverMove::Draw);
    assert_eq!(state.stock.iter().map(|c| c.id).collect::<Vec<_>>(), vec![0]);
    assert_eq!(state.waste.iter().map(|c| c.id).collect::<Vec<_>>(), vec![1, 2, 3]);
    assert!(state.waste.iter().all(|c| c.face_up));
    state.apply_move(SolverMove::Draw);
    assert!(state.stock.is_empty());
    state.apply_move(SolverMove::Draw);
    assert_eq!(state.stock.iter().map(|c| c.id).collect::<Vec<_>>(), vec![0, 3, 2, 1]);
    assert!(state.stock.iter().all(|c| !c.face_up));
    assert!(state.waste.is_empty());
    assert_eq!(state.consecutive_draws, 3);
    assert!(state.just_drew);
}

#[test]
fn hash_ignores_search_flags() {
    let mut a = SolverState::initial(5, DrawMode::DrawOne);
    let h = a.canonical_hash();
    a.just_drew = true;
    a.consecutive_draws = 9;
    a.last_move = Some(SolverMove::Draw);
    assert_eq!(a.canonical_hash(), h);
}

#[test]
fn move_undoing_the_previous_one_is_not_offered() {
    let mut tableau = empty_columns();
    tableau[0] = vec![
        rank_card(Suit::Diamonds, Rank::Queen, 0),
        rank_card(Suit::Clubs, Rank::Jack, 1),
    ];
    tableau[1] = vec![rank_card(Suit::Hearts, Rank::Queen, 2)];
    let p = synthetic(tableau, empty_foundations(), Vec::new(), Vec::new(), DrawMode::DrawOne);
    assert!(p.enumerate_moves().contains(&SolverMove::TableauToTableau { from: 0, to: 1, count: 1 }));
    let mut s = p.clone();
    s.apply_move(SolverMove::TableauToTableau { from: 0, to: 1, count: 1 });
    assert_eq!(s.last_move, Some(SolverMove::TableauToTableau { from: 0, to: 1, count: 1 }));
    assert!(!s.enumerate_moves().contains(&SolverMove::TableauToTableau { from: 1, to: 0, count: 1 }));
}

#[test]
fn conclusive_verdict_survives_larger_budgets() {
    let small = SolverConfig { move_budget: 5_000, state_budget: 5_000 };
    let large = SolverConfig { move_budget: 50_000, state_budget: 50_000 };
    for seed in [1u64, 7, 42] {
        let r = try_solve(seed, DrawMode::DrawOne, &small);
        if r != SolverResult::Inconclusive {
            assert_eq!(try_solve(seed, DrawMode::DrawOne, &large), r);
        }
    }
}

fn all_cards(s: &SolverState) -> Vec<(u32, Suit, Rank)> {
    let mut cards: Vec<(u32, Suit, Rank)> = Vec::new();
    for col in s.tableau.iter().chain(s.foundation.iter()) {
        cards.extend(col.iter().map(|c| (c.id, c.suit, c.rank)));
    }
    cards.extend(s.stock.iter().map(|c| (c.id, c.suit, c.rank)));
    cards.extend(s.waste.iter().map(|c| (c.id, c.suit, c.rank)));
    cards.sort_by_key(|t| t.0);
    cards
}

#[test]
fn candidate_moves_keep_every_card_on_the_table() {
    let mut s = SolverState::initial(3, DrawMode::DrawThree);
    let before = all_cards(&s);
    assert_eq!(before.iter().map(|t| t.0).collect::<Vec<u32>>(), (0..52).collect::<Vec<u32>>());
    for step in 0..60 {
        let moves = s.enumerate_moves();
        if moves.is_empty() {
            break;
        }
        let mv = moves[step % moves.len()];
        s.apply_move(mv);
        assert_eq!(all_cards(&s), before);
        assert_eq!(s.draw_mode, DrawMode::DrawThree);
    }
}

#[test]
fn recycling_then_redrawing_gives_the_waste_back() {
    let waste: Vec<Card> = vec![
        Card { id: 7, suit: Suit::Hearts, rank: Rank::Ace, face_up: true },
        Card { id: 3, suit: Suit::Spades, rank: Rank::Nine, face_up: true },
        Card { id: 11, suit: Suit::Clubs, rank: Rank::King, face_up: true },
        Card { id: 5, suit: Suit::Diamonds, rank: Rank::Four, face_up: true },
    ];
    let mut state = synthetic(empty_columns(), empty_foundations(), Vec::new(), waste.clone(), DrawMode::DrawOne);
    state.apply_move(SolverMove::Draw);
    assert!(state.waste.is_empty());
    assert_eq!(state.stock.iter().map(|c| c.id).collect::<Vec<_>>(), vec![5, 11, 3, 7]);
    assert!(state.stock.iter().all(|c| !c.face_up));
    for _ in 0..waste.len() {
        state.apply_move(SolverMove::Draw);
    }
    assert!(state.stock.is_empty());
    assert_eq!(state.waste, waste);
}

#[test]
fn dead_position_search_ends_with_its_layouts_explored() {
    let stock = vec![Card { id: 0, suit: Suit::Clubs, rank: Rank::Three, face_up: false }];
    let state = synthetic(empty_columns(), empty_foundations(), stock, Vec::new(), DrawMode::DrawOne);
    let mut visited: HashSet<u64> = HashSet::new();
    let mut moves = 0u64;
    let mut exceeded = false;
    let cfg = SolverConfig { move_budget: 1_000, state_budget: 1_000 };
    let won = state.search(&cfg, &mut visited, &mut moves, &mut exceeded);
    assert!(!won);
    assert!(!exceeded);
    // The start layout and the one with the card drawn; the recycle leads
    // back to the start layout.
    assert_eq!(visited.len(), 2);
    assert_eq!(moves, 2);
}
