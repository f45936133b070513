//! Progress of remote network operations (fetch, pull, push).

use vstd::prelude::*;

verus! {

broadcast use vstd::string::group_string_axioms;

/// Which network operation a progress message belongs to.
#[derive(Debug, Clone, Copy, PartialEq, Eq, Structural)]
pub enum NetworkOp {
    Fetch,
    Pull,
    Push,
}

pub open spec fn op_label(op: NetworkOp) -> Seq<char> {
    match op {
        NetworkOp::Fetch => "Fetch"@,
        NetworkOp::Pull => "Pull"@,
        NetworkOp::Push => "Push"@,
    }
}

impl NetworkOp {
    pub fn label(self) -> (r: &'static str)
        ensures
            r@ == op_label(self),
    {
        match self {
            NetworkOp::Fetch => "Fetch",
            NetworkOp::Pull => "Pull",
            NetworkOp::Push => "Push",
        }
    }
}

/// A point-in-time stage of a running network operation.
#[derive(Debug, Clone)]
pub enum NetworkStage {
    /// Negotiating with the remote / opening the connection.
    Connecting,
    /// Receiving objects: `received` of `total` (total may be 0 if unknown).
    Transferring { received: usize, total: usize },
    /// Pushing objects to the remote.
    Pushing { pushed: usize, total: usize },
    /// Operation completed successfully with a human-readable summary.
    Done(String),
    /// Operation failed with an error message.
    Failed(String),
}

impl NetworkStage {
    /// Done and failed stages end an operation.
    pub fn is_terminal(&self) -> (r: bool)
        ensures
            r == (*self is Done || *self is Failed),
    {
        matches!(self, NetworkStage::Done(_) | NetworkStage::Failed(_))
    }

    /// Progress as a fraction `(done, of)` when determinate: transfer and
    /// push stages with a known total, and `(1, 1)` once done.
    pub fn progress_ratio(&self) -> (r: Option<(usize, usize)>)
        ensures
            r == match *self {
                NetworkStage::Transferring { received, total } => if total > 0 {
                    Some((received, total))
                } else {
                    None
                },
                NetworkStage::Pushing { pushed, total } => if total > 0 {
                    Some((pushed, total))
                } else {
                    None
                },
                NetworkStage::Done(_) => Some((1usize, 1usize)),
                _ => None,
            },
    {
        match self {
            NetworkStage::Transferring { received, total } if *total > 0 => Some((*received, *total)),
            NetworkStage::Pushing { pushed, total } if *total > 0 => Some((*pushed, *total)),
            NetworkStage::Done(_) => Some((1, 1)),
            _ => None,
        }
    }
}

/// A progress update for an in-flight network operation.
#[derive(Debug, Clone)]
pub struct NetworkProgress {
    pub op: NetworkOp,
    pub stage: NetworkStage,
}

/// The terminal stage for an operation's outcome: its summary when it
/// succeeded, its error message when it failed.
pub fn stage_for_result(result: Result<String, String>) -> (r: NetworkStage)
    ensures
        match result {
            Ok(s) => r == NetworkStage::Done(s),
            Err(e) => r == NetworkStage::Failed(e),
        },
{
    match result {
        Ok(summary) => NetworkStage::Done(summary),
        Err(message) => NetworkStage::Failed(message),
    }
}

} // verus!
