//! Git integration: diff hunks, file status, history, stash, tags, conflicts
//! and remote-operation progress. Repository access itself is I/O and is made
//! by the application; the library holds the data model and the decisions.

pub mod conflict;
pub mod diff;
pub mod log;
pub mod remote;
pub mod stash;
pub mod tag;
pub mod ui;

use vstd::prelude::*;

verus! {

/// Working-tree status of a file.
#[derive(Debug, Clone, Copy, PartialEq, Eq, Structural)]
pub enum FileStatus {
    Unmodified,
    Modified,
    Added,
    Deleted,
    Renamed,
    Untracked,
    Conflicted,
}

/// Per-line blame information for the inline blame gutter.
#[derive(Debug, Clone)]
pub struct BlameLine {
    pub line: usize,
    /// Short SHA.
    pub commit: String,
    pub author: String,
    /// Unix timestamp.
    pub time: i64,
}

/// The status flags git reports for a file, as plain values.
#[derive(Debug, Clone, Copy, PartialEq, Eq, Structural)]
pub struct StatusFlags {
    pub conflicted: bool,
    pub index_new: bool,
    pub index_modified: bool,
    pub index_deleted: bool,
    pub index_renamed: bool,
    pub wt_new: bool,
    pub wt_modified: bool,
    pub wt_deleted: bool,
    pub wt_renamed: bool,
}

/// The status a file is shown with: conflicted before anything; then
/// modified (in the tree or the index), untracked, added, deleted, renamed,
/// in that order of precedence; unmodified otherwise.
pub open spec fn status_of(f: StatusFlags) -> FileStatus {
    if f.conflicted {
        FileStatus::Conflicted
    } else if f.wt_modified || f.index_modified {
        FileStatus::Modified
    } else if f.wt_new {
        FileStatus::Untracked
    } else if f.index_new {
        FileStatus::Added
    } else if f.wt_deleted || f.index_deleted {
        FileStatus::Deleted
    } else if f.index_renamed || f.wt_renamed {
        FileStatus::Renamed
    } else {
        FileStatus::Unmodified
    }
}

/// The status a file with flags `f` is shown with, as `status_of`.
pub fn map_status(f: StatusFlags) -> (r: FileStatus)
    ensures
        r == status_of(f),
{
    if f.conflicted {
        FileStatus::Conflicted
    } else if f.wt_modified || f.index_modified {
        FileStatus::Modified
    } else if f.wt_new {
        FileStatus::Untracked
    } else if f.index_new {
        FileStatus::Added
    } else if f.wt_deleted || f.index_deleted {
        FileStatus::Deleted
    } else if f.index_renamed || f.wt_renamed {
        FileStatus::Renamed
    } else {
        FileStatus::Unmodified
    }
}

/// Whether a file with flags `f` has changes in the index (is staged).
pub fn is_index_status(f: StatusFlags) -> (r: bool)
    ensures
        r == (f.index_new || f.index_modified || f.index_deleted || f.index_renamed),
{
    f.index_new || f.index_modified || f.index_deleted || f.index_renamed
}

/// The remote operations go to: the first configured one, else `origin`.
pub fn default_remote(names: &Vec<String>) -> (r: String)
    ensures
        r@ == if names@.len() > 0 {
            names@[0]@
        } else {
            "origin"@
        },
{
    if names.len() > 0 {
        names[0].clone()
    } else {
        crate::text::owned("origin")
    }
}

} // verus!
