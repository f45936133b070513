//! Merge-conflict sides and resolutions.

use vstd::prelude::*;

verus! {

/// The three sides of a conflict for a single path.
#[derive(Debug, Clone)]
pub struct ConflictSides {
    /// Common ancestor content (stage 1), if present.
    pub base: Option<String>,
    /// Our side / current branch content (stage 2), if present.
    pub ours: Option<String>,
    /// Their side / incoming content (stage 3), if present.
    pub theirs: Option<String>,
}

impl ConflictSides {
    pub fn default() -> (r: Self)
        ensures
            r.base is None,
            r.ours is None,
            r.theirs is None,
    {
        ConflictSides { base: None, ours: None, theirs: None }
    }
}

/// Which side the user chose when resolving a conflict.
#[derive(Debug, Clone, Copy, PartialEq, Eq, Structural)]
pub enum Resolution {
    Ours,
    Theirs,
    Base,
}

/// The content a resolution writes: the chosen side, if that side exists.
pub open spec fn chosen_side(s: ConflictSides, r: Resolution) -> Option<String> {
    match r {
        Resolution::Ours => s.ours,
        Resolution::Theirs => s.theirs,
        Resolution::Base => s.base,
    }
}

impl ConflictSides {
    /// The content of the side a resolution picks.
    pub fn side(&self, resolution: Resolution) -> (r: Option<&String>)
        ensures
            match r {
                Some(t) => chosen_side(*self, resolution) == Some(*t),
                None => chosen_side(*self, resolution) is None,
            },
    {
        match resolution {
            Resolution::Ours => self.ours.as_ref(),
            Resolution::Theirs => self.theirs.as_ref(),
            Resolution::Base => self.base.as_ref(),
        }
    }
}

} // verus!
