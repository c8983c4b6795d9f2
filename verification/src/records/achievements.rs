//! Achievement unlock records as kept on the client, persisted between sessions.

use vstd::prelude::*;
use crate::progression::clock::Timestamp;

verus! {

/// One player's unlock state for a single achievement.
#[derive(Debug, Clone, PartialEq, Eq)]
pub struct AchievementRecord {
    /// The achievement's identifier.
    pub id: String,
    /// Whether the achievement has been unlocked.
    pub unlocked: bool,
    /// When it was first unlocked; `None` while locked.
    pub unlock_date: Option<Timestamp>,
    /// Whether the unlock reward has been granted.
    pub reward_granted: bool,
}

/// The record after an unlock at `at`: unchanged when already unlocked,
/// otherwise unlocked with `at` as its date.
pub open spec fn after_unlock(r: AchievementRecord, at: Timestamp) -> AchievementRecord {
    if r.unlocked {
        r
    } else {
        AchievementRecord { unlocked: true, unlock_date: Some(at), ..r }
    }
}

impl AchievementRecord {
    /// A record for an achievement that is not yet unlocked.
    pub fn locked(id: &str) -> (r: Self)
        ensures
            r.id@ == id@,
            !r.unlocked,
            r.unlock_date is None,
            !r.reward_granted,
    {
        AchievementRecord {
            id: String::from_str(id),
            unlocked: false,
            unlock_date: None,
            reward_granted: false,
        }
    }

    /// Marks the record unlocked at `at`. No-op when already unlocked, so
    /// the earliest unlock date is kept.
    pub fn unlock(&mut self, at: Timestamp)
        ensures
            *final(self) == after_unlock(*old(self), at),
    {
        if self.unlocked {
            return;
        }
        self.unlocked = true;
        self.unlock_date = Some(at);
    }
}

/// Unlocking twice keeps the first unlock: the second is a no-op.
pub proof fn lemma_unlock_keeps_earliest(r: AchievementRecord, first: Timestamp, later: Timestamp)
    ensures
        after_unlock(after_unlock(r, first), later) == after_unlock(r, first),
        !r.unlocked ==> after_unlock(after_unlock(r, first), later).unlock_date == Some(first),
        after_unlock(r, first).unlocked,
        after_unlock(r, first).id == r.id,
{
}

} // verus!
