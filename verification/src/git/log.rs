//! Commit-log entries.

use vstd::prelude::*;

verus! {

/// A single entry in the commit log.
#[derive(Debug, Clone)]
pub struct CommitInfo {
    /// Full commit hash.
    pub oid: String,
    /// Abbreviated 7-character hash for display.
    pub short_oid: String,
    pub author: String,
    pub email: String,
    /// Commit time as a unix timestamp (seconds).
    pub time: i64,
    /// First line of the commit message.
    pub summary: String,
    /// Full commit message body.
    pub message: String,
}

} // verus!
