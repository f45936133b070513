//! Stash entries.

use vstd::prelude::*;

verus! {

/// One entry in the stash stack.
#[derive(Debug, Clone)]
pub struct StashEntry {
    /// Stack index (0 is the most recent stash).
    pub index: usize,
    /// Stash message, e.g. "WIP on main: abc123 summary".
    pub message: String,
    /// Abbreviated stash commit hash.
    pub short_oid: String,
}

} // verus!
