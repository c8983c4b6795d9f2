//! Client-side records: win bookkeeping on statistics and the local
//! achievement unlock records.

pub mod achievements;
pub mod stats;
