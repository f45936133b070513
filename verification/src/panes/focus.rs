//! Which pane has the keyboard focus, and moving it through the panes.

use vstd::prelude::*;
use crate::panes::{leaf_ids, PaneId, PaneTree, PaneView};

verus! {

/// The pane that has the keyboard focus.
#[derive(Debug, Clone, Copy, PartialEq, Eq, Structural)]
pub struct FocusState {
    pub active_pane: PaneId,
}

/// The first index at or after `i` where `x` stands in `s`, or 0 when it
/// stands nowhere there.
pub open spec fn index_from(s: Seq<u64>, x: u64, i: int) -> int
    decreases s.len() - i,
{
    if i < 0 || i >= s.len() {
        0
    } else if s[i] == x {
        i
    } else {
        index_from(s, x, i + 1)
    }
}

/// The position of `x` in `s`: its first index, or 0 when absent.
pub open spec fn position_of(s: Seq<u64>, x: u64) -> int {
    index_from(s, x, 0)
}

/// The pane after `current` in `ids`, wrapping around (the second pane
/// when `current` is not among them).
pub open spec fn next_in(ids: Seq<u64>, current: u64) -> u64 {
    ids[(position_of(ids, current) + 1) % (ids.len() as int)]
}

/// The pane before `current` in `ids`, wrapping around (the last pane when
/// `current` is not among them).
pub open spec fn prev_in(ids: Seq<u64>, current: u64) -> u64 {
    let p = position_of(ids, current);
    ids[if p == 0 {
        ids.len() - 1
    } else {
        p - 1
    }]
}

/// A layout has at least one pane.
pub proof fn lemma_leaf_ids_nonempty(v: PaneView)
    ensures
        leaf_ids(v).len() >= 1,
    decreases v,
{
    match v {
        PaneView::Leaf { .. } => {},
        PaneView::HSplit { left, right, .. } => {
            lemma_leaf_ids_nonempty(*left);
            lemma_leaf_ids_nonempty(*right);
        },
        PaneView::VSplit { top, bottom, .. } => {
            lemma_leaf_ids_nonempty(*top);
            lemma_leaf_ids_nonempty(*bottom);
        },
    }
}

/// `index_from` is an index of `s`, holding `x` when `x` stands at or after
/// `i`, and the first such.
pub proof fn lemma_index_from(s: Seq<u64>, x: u64, i: int)
    requires
        0 <= i,
        s.len() > 0,
    ensures
        0 <= index_from(s, x, i) < s.len(),
        (exists|k: int| i <= k < s.len() && s[k] == x) ==> {
            &&& i <= index_from(s, x, i)
            &&& s[index_from(s, x, i)] == x
            &&& forall|k: int| i <= k < index_from(s, x, i) ==> s[k] != x
        },
    decreases s.len() - i,
{
    if i < s.len() && s[i] != x {
        lemma_index_from(s, x, i + 1);
        if exists|k: int| i <= k < s.len() && s[k] == x {
            let k = choose|k: int| i <= k < s.len() && s[k] == x;
            assert(i + 1 <= k);
        }
    }
}

fn position_in(ids: &Vec<PaneId>, current: PaneId) -> (r: usize)
    requires
        ids@.len() > 0,
    ensures
        r == position_of(ids@.map_values(|p: PaneId| p.0), current.0),
        r < ids@.len(),
{
    let ghost s = ids@.map_values(|p: PaneId| p.0);
    proof {
        lemma_index_from(s, current.0, 0);
    }
    let mut i: usize = 0;
    while i < ids.len()
        invariant
            i <= ids@.len(),
            s == ids@.map_values(|p: PaneId| p.0),
            index_from(s, current.0, 0) == index_from(s, current.0, i as int) || i == ids@.len(),
            forall|k: int| 0 <= k < i ==> s[k] != current.0,
        decreases ids.len() - i,
    {
        if ids[i] == current {
            return i;
        }
        i = i + 1;
    }
    proof {
        if s.contains(current.0) {
            let k = choose|k: int| 0 <= k < s.len() && s[k] == current.0;
            assert(false);
        }
        assert(!(exists|k: int| 0 <= k < s.len() && s[k] == current.0));
        lemma_index_from(s, current.0, 0);
        if index_from(s, current.0, 0) != 0 {
            lemma_index_from_absent(s, current.0, 0);
        }
    }
    0
}

/// Where `x` stands nowhere at or after `i`, `index_from` gives 0.
proof fn lemma_index_from_absent(s: Seq<u64>, x: u64, i: int)
    requires
        0 <= i,
        forall|k: int| i <= k < s.len() ==> s[k] != x,
    ensures
        index_from(s, x, i) == 0,
    decreases s.len() - i,
{
    if i < s.len() {
        lemma_index_from_absent(s, x, i + 1);
    }
}

impl FocusState {
    /// Focus on `root_id`.
    pub fn new(root_id: PaneId) -> (r: Self)
        ensures
            r.active_pane == root_id,
    {
        FocusState { active_pane: root_id }
    }

    /// Moves the focus to the next pane of `tree` in order, wrapping
    /// around, as `next_in`.
    pub fn cycle_next(&mut self, tree: &PaneTree)
        ensures
            final(self).active_pane.0 == next_in(leaf_ids(tree@), old(self).active_pane.0),
    {
        let ids = tree.all_leaf_ids();
        proof {
            lemma_leaf_ids_nonempty(tree@);
        }
        if ids.len() == 0 {
            return;
        }
        let current = position_in(&ids, self.active_pane);
        self.active_pane = ids[(current + 1) % ids.len()];
    }

    /// Moves the focus to the previous pane of `tree` in order, wrapping
    /// around, as `prev_in`.
    pub fn cycle_prev(&mut self, tree: &PaneTree)
        ensures
            final(self).active_pane.0 == prev_in(leaf_ids(tree@), old(self).active_pane.0),
    {
        let ids = tree.all_leaf_ids();
        proof {
            lemma_leaf_ids_nonempty(tree@);
        }
        if ids.len() == 0 {
            return;
        }
        let current = position_in(&ids, self.active_pane);
        self.active_pane = ids[if current == 0 {
            ids.len() - 1
        } else {
            current - 1
        }];
    }
}

/// The index after `c` in a sequence of `len` items, wrapping around.
proof fn lemma_wrap_next(c: int, len: int)
    requires
        0 <= c < len,
    ensures
        (c + 1) % len == if c + 1 < len {
            c + 1
        } else {
            0
        },
{
    if c + 1 < len {
        vstd::arithmetic::div_mod::lemma_small_mod((c + 1) as nat, len as nat);
    } else {
        assert((c + 1) % len == 0) by (nonlinear_arith)
            requires
                c + 1 == len,
                len > 0,
        ;
    }
}

/// In a sequence without duplicates, the position of the item at `k` is `k`.
proof fn lemma_position_exact(ids: Seq<u64>, k: int)
    requires
        ids.no_duplicates(),
        0 <= k < ids.len(),
    ensures
        position_of(ids, ids[k]) == k,
{
    lemma_index_from(ids, ids[k], 0);
}

/// Moving the focus back undoes moving it forward: in a layout whose pane
/// ids are distinct, from a pane of the layout.
pub proof fn lemma_prev_undoes_next(ids: Seq<u64>, current: u64)
    requires
        ids.no_duplicates(),
        ids.contains(current),
    ensures
        prev_in(ids, next_in(ids, current)) == current,
{
    let k = choose|k: int| 0 <= k < ids.len() && ids[k] == current;
    lemma_position_exact(ids, k);
    let c = position_of(ids, current);
    lemma_wrap_next(c, ids.len() as int);
    let n = (c + 1) % (ids.len() as int);
    lemma_position_exact(ids, n);
}

/// Moving the focus forward undoes moving it back, under the same terms.
pub proof fn lemma_next_undoes_prev(ids: Seq<u64>, current: u64)
    requires
        ids.no_duplicates(),
        ids.contains(current),
    ensures
        next_in(ids, prev_in(ids, current)) == current,
{
    let k = choose|k: int| 0 <= k < ids.len() && ids[k] == current;
    lemma_position_exact(ids, k);
    let c = position_of(ids, current);
    let p = if c == 0 {
        ids.len() - 1
    } else {
        c - 1
    };
    lemma_position_exact(ids, p);
    lemma_wrap_next(p, ids.len() as int);
}

} // verus!
