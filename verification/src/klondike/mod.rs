//! Pure game logic: cards, piles, placement rules, dealing and the solver.

pub mod card;
pub mod game_state;
pub mod pile;
pub mod rules;
pub mod deck;
pub mod solver;
pub mod difficulty;
