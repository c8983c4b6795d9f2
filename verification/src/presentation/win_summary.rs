//! Win-summary text.

use vstd::prelude::*;
use crate::presentation::text::{format_minutes_seconds, minutes_seconds};

verus! {

/// Formats a win time in seconds as `m:ss`: 65 as `1:05`, 3661 as `61:01`.
pub fn format_win_time(seconds: u64) -> (s: String)
    ensures
        s@ == minutes_seconds(seconds),
{
    format_minutes_seconds(seconds)
}

} // verus!
