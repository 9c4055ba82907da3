//! The rules by which a directory listing picks its entries.

use vstd::prelude::*;

verus! {

/// Number of seconds in a day.
pub const DAY_SECONDS: u64 = 86400;

/// Whether an entry is listed: a file that changed less than a day ago.
pub fn is_recent_file(age_seconds: u64, is_file: bool) -> (listed: bool)
    ensures
        listed == (is_file && age_seconds < DAY_SECONDS),
{
    age_seconds < DAY_SECONDS && is_file
}

/// Whether the listing goes down into an entry: a directory that is one of
/// its own ancestors.
pub fn descends_into(is_dir: bool, is_own_ancestor: bool) -> (down: bool)
    ensures
        down == (is_dir && is_own_ancestor),
{
    is_dir && is_own_ancestor
}

} // verus!
