//! Difficulty tiers and the per-tier cursors into the seed catalogs.
//!
//! Each tier keeps its own cursor, which advances one step per game started
//! at that tier and wraps modulo the catalog's length, so players cycle
//! through the catalog. The cursors are not persisted: they start at 0.

use vstd::prelude::*;

verus! {

/// How hard a dealt game is meant to be.
#[derive(Debug, Clone, Copy, PartialEq, Eq, Structural)]
pub enum DifficultyLevel {
    Easy,
    Medium,
    Hard,
    Expert,
    Grandmaster,
    /// Any deal; it may or may not be winnable. Has no catalog.
    Random,
}

/// Per-tier catalog cursors: each is the index of the next seed to deal from
/// that tier's catalog, taken modulo the catalog's length.
#[derive(Debug)]
pub struct DifficultyIndexResource {
    easy: usize,
    medium: usize,
    hard: usize,
    expert: usize,
    grandmaster: usize,
}

/// `x + 1`, wrapping to 0 past `usize::MAX`.
pub open spec fn wrapping_inc(x: usize) -> usize {
    if x == usize::MAX {
        0
    } else {
        (x + 1) as usize
    }
}

impl DifficultyIndexResource {
    /// The cursor of `level` (0 for `Random`, which has none).
    pub closed spec fn cursor(&self, level: DifficultyLevel) -> usize {
        match level {
            DifficultyLevel::Easy => self.easy,
            DifficultyLevel::Medium => self.medium,
            DifficultyLevel::Hard => self.hard,
            DifficultyLevel::Expert => self.expert,
            DifficultyLevel::Grandmaster => self.grandmaster,
            DifficultyLevel::Random => 0,
        }
    }

    /// Advances the cursor of `level` and returns the seed of `catalog` (the
    /// tier's catalog, if it has one) at the old position. Returns `None`,
    /// leaving every cursor as it was, when there is no catalog or it is
    /// empty: the caller then seeds the deal from the clock.
    pub fn next_seed(&mut self, level: DifficultyLevel, catalog: Option<&[u64]>) -> (r: Option<u64>)
        requires
            level is Random ==> (catalog matches Some(c) ==> c@.len() == 0),
        ensures
            catalog is None ==> r is None && *final(self) == *old(self),
            catalog matches Some(c) ==> {
                if c@.len() == 0 {
                    r is None && *final(self) == *old(self)
                } else {
                    &&& r == Some(c@[(old(self).cursor(level) as int) % (c@.len() as int)])
                    &&& final(self).cursor(level) == wrapping_inc(old(self).cursor(level))
                    &&& forall|other: DifficultyLevel|
                        other != level && !(other is Random) ==> #[trigger] final(self).cursor(other)
                            == old(self).cursor(other)
                }
            },
    {
        let c = match catalog {
            Some(c) => c,
            None => return None,
        };
        if c.len() == 0 {
            return None;
        }
        let cursor = match level {
            DifficultyLevel::Easy => self.easy,
            DifficultyLevel::Medium => self.medium,
            DifficultyLevel::Hard => self.hard,
            DifficultyLevel::Expert => self.expert,
            DifficultyLevel::Grandmaster => self.grandmaster,
            DifficultyLevel::Random => 0,
        };
        let seed = c[cursor % c.len()];
        let next = cursor.wrapping_add(1);
        match level {
            DifficultyLevel::Easy => self.easy = next,
            DifficultyLevel::Medium => self.medium = next,
            DifficultyLevel::Hard => self.hard = next,
            DifficultyLevel::Expert => self.expert = next,
            DifficultyLevel::Grandmaster => self.grandmaster = next,
            DifficultyLevel::Random => {},
        }
        Some(seed)
    }
}

impl Default for DifficultyIndexResource {
    /// Every cursor at the start of its catalog.
    fn default() -> (r: Self)
        ensures
            forall|level: DifficultyLevel| #[trigger] r.cursor(level) == 0,
    {
        DifficultyIndexResource { easy: 0, medium: 0, hard: 0, expert: 0, grandmaster: 0 }
    }
}

/// With two or more seeds in a catalog, successive draws from one tier take
/// different positions in it (short of the cursor wrapping at `usize::MAX`).
pub proof fn lemma_successive_draws_differ(cursor: usize, len: int)
    requires
        len >= 2,
        cursor < usize::MAX,
    ensures
        (cursor as int) % len != (wrapping_inc(cursor) as int) % len,
{
    let c = cursor as int;
    vstd::arithmetic::div_mod::lemma_fundamental_div_mod(c, len);
    vstd::arithmetic::div_mod::lemma_fundamental_div_mod(c + 1, len);
    let q = c / len;
    let q1 = (c + 1) / len;
    if c % len == (c + 1) % len {
        assert(len * (q1 - q) == 1) by (nonlinear_arith)
            requires
                c == len * q + c % len,
                c + 1 == len * q1 + (c + 1) % len,
                c % len == (c + 1) % len,
        ;
        assert(false) by (nonlinear_arith)
            requires
                len * (q1 - q) == 1,
                len >= 2,
        ;
    }
}

} // verus!
