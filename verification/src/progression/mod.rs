//! Player progression shared with the sync server: XP and levels, daily and
//! weekly goals, cumulative statistics and achievement records.

pub mod achievements;
pub mod clock;
pub mod goals;
pub mod progress;
pub mod stats;
