//! Pause-screen text.

use vstd::prelude::*;
use crate::presentation::text::{decimal, push_decimal};

verus! {

/// The pause screen's level / win-streak line for whichever values are known.
pub open spec fn level_streak_line(level: Option<u32>, streak: Option<u32>) -> Seq<char> {
    match (level, streak) {
        (Some(l), Some(s)) => "Level "@ + decimal(l as nat) + "   Win streak: "@ + decimal(s as nat),
        (Some(l), None) => "Level "@ + decimal(l as nat),
        (None, Some(s)) => "Win streak: "@ + decimal(s as nat),
        (None, None) => Seq::empty(),
    }
}

/// Builds the level / win-streak line: `Level 7   Win streak: 3`, `Level 5`,
/// `Win streak: 4`, or empty when neither is known.
pub fn build_level_streak_line(level: Option<u32>, streak: Option<u32>) -> (s: String)
    ensures
        s@ == level_streak_line(level, streak),
{
    let mut s = String::new();
    match (level, streak) {
        (Some(l), Some(st)) => {
            s.append("Level ");
            push_decimal(&mut s, l as u64);
            s.append("   Win streak: ");
            push_decimal(&mut s, st as u64);
        },
        (Some(l), None) => {
            s.append("Level ");
            push_decimal(&mut s, l as u64);
        },
        (None, Some(st)) => {
            s.append("Win streak: ");
            push_decimal(&mut s, st as u64);
        },
        (None, None) => {},
    }
    assert(s@ =~= level_streak_line(level, streak));
    s
}

} // verus!
