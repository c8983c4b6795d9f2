//! Solitaire Quest: verified Klondike rules, solver, progression and
//! statistics bookkeeping, and the pure helpers behind the game's UI text
//! and procedurally generated artwork.

pub mod klondike;
pub mod progression;
pub mod records;
pub mod presentation;
pub mod assetgen;
