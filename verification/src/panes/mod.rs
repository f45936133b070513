//! The editor's pane layout: a tree of horizontal and vertical splits whose
//! leaves are panes, each with its open tabs and active file.

pub mod focus;

pub use focus::FocusState;

use vstd::prelude::*;
use crate::text::{owned, str_eq};



verus! {

/// The identity of a pane.
#[derive(Debug, Clone, Copy, PartialEq, Eq, Hash, Structural)]
pub struct PaneId(pub u64);

/// The source of fresh pane ids: each pane created takes the next one.
#[derive(Debug)]
pub struct PaneIds {
    pub next: u64,
}

impl PaneIds {
    /// Ids counting from 1.
    pub fn new() -> (r: Self)
        ensures
            r.next == 1,
    {
        PaneIds { next: 1 }
    }

    /// A fresh id (wrapping around after `u64::MAX`).
    pub fn fresh(&mut self) -> (id: PaneId)
        ensures
            id.0 == old(self).next,
            final(self).next == old(self).next.wrapping_add(1),
    {
        let id = PaneId(self.next);
        self.next = self.next.wrapping_add(1);
        id
    }
}

/// A pane layout. A split divides its area between its two children, the
/// first taking `ratio_permille` thousandths of it.
#[derive(Debug)]
pub enum PaneTree {
    Leaf { id: PaneId, active: Option<String>, tabs: Vec<String> },
    HSplit { left: Box<PaneTree>, right: Box<PaneTree>, ratio_permille: u32 },
    VSplit { top: Box<PaneTree>, bottom: Box<PaneTree>, ratio_permille: u32 },
}

/// A pane layout as plain values.
pub ghost enum PaneView {
    Leaf { id: u64, active: Option<Seq<char>>, tabs: Seq<Seq<char>> },
    HSplit { left: Box<PaneView>, right: Box<PaneView>, ratio: u32 },
    VSplit { top: Box<PaneView>, bottom: Box<PaneView>, ratio: u32 },
}

impl PaneTree {
    /// The layout as plain values.
    pub open spec fn view_of(self) -> PaneView
        decreases self,
    {
        match self {
            PaneTree::Leaf { id, active, tabs } => PaneView::Leaf {
                id: id.0,
                active: active.deep_view(),
                tabs: tabs.deep_view(),
            },
            PaneTree::HSplit { left, right, ratio_permille } => PaneView::HSplit {
                left: Box::new((*left).view_of()),
                right: Box::new((*right).view_of()),
                ratio: ratio_permille,
            },
            PaneTree::VSplit { top, bottom, ratio_permille } => PaneView::VSplit {
                top: Box::new((*top).view_of()),
                bottom: Box::new((*bottom).view_of()),
                ratio: ratio_permille,
            },
        }
    }
}

impl View for PaneTree {
    type V = PaneView;

    open spec fn view(&self) -> PaneView {
        self.view_of()
    }
}

/// What closing a pane asks of the node above.
#[derive(Debug)]
pub enum CloseResult {
    /// Nothing for the node above to do.
    Unchanged,
    /// This node is the closed pane: remove it.
    RemoveSelf,
    /// Put this tree in this node's place.
    Replace(Box<PaneTree>),
}

/// `CloseResult` as plain values.
pub ghost enum CloseView {
    Unchanged,
    RemoveSelf,
    Replace(PaneView),
}

/// A request from a pane's user interface.
#[derive(Debug)]
pub enum PaneAction {
    CloseTab { pane: PaneId, path: String },
    SplitH { pane: PaneId },
    SplitV { pane: PaneId },
    ClosePane { pane: PaneId },
    FocusPane { pane: PaneId },
    OpenInPane { pane: PaneId, path: String },
}

// ─── The model ──────────────────────────────────────────────────────────────

/// The pane ids of a layout, leaves in order (first children first).
pub open spec fn leaf_ids(v: PaneView) -> Seq<u64>
    decreases v,
{
    match v {
        PaneView::Leaf { id, .. } => seq![id],
        PaneView::HSplit { left, right, .. } => leaf_ids(*left) + leaf_ids(*right),
        PaneView::VSplit { top, bottom, .. } => leaf_ids(*top) + leaf_ids(*bottom),
    }
}

/// The active file and tabs of the first pane with id `target`.
pub open spec fn find_pane(v: PaneView, target: u64) -> Option<(Option<Seq<char>>, Seq<Seq<char>>)>
    decreases v,
{
    match v {
        PaneView::Leaf { id, active, tabs } => if id == target {
            Some((active, tabs))
        } else {
            None
        },
        PaneView::HSplit { left, right, .. } => match find_pane(*left, target) {
            Some(x) => Some(x),
            None => find_pane(*right, target),
        },
        PaneView::VSplit { top, bottom, .. } => match find_pane(*top, target) {
            Some(x) => Some(x),
            None => find_pane(*bottom, target),
        },
    }
}

/// The tabs a pane split off from one with active file `active` starts
/// with: that file alone.
pub open spec fn mirrored_tabs(active: Option<Seq<char>>) -> Seq<Seq<char>> {
    match active {
        Some(a) => seq![a],
        None => Seq::empty(),
    }
}

/// The layout after the first pane with id `target` is split, the new pane
/// `new_id` beside it (`horizontal`) or below it, mirroring its active
/// file; `None` when there is no such pane.
pub open spec fn split_view(v: PaneView, target: u64, horizontal: bool, new_id: u64) -> Option<
    PaneView,
>
    decreases v,
{
    match v {
        PaneView::Leaf { id, active, tabs } => if id == target {
            let old_pane = PaneView::Leaf { id, active, tabs };
            let new_pane = PaneView::Leaf { id: new_id, active, tabs: mirrored_tabs(active) };
            Some(
                if horizontal {
                    PaneView::HSplit {
                        left: Box::new(old_pane),
                        right: Box::new(new_pane),
                        ratio: 500,
                    }
                } else {
                    PaneView::VSplit {
                        top: Box::new(old_pane),
                        bottom: Box::new(new_pane),
                        ratio: 500,
                    }
                },
            )
        } else {
            None
        },
        PaneView::HSplit { left, right, ratio } => match split_view(*left, target, horizontal, new_id) {
            Some(l) => Some(PaneView::HSplit { left: Box::new(l), right, ratio }),
            None => match split_view(*right, target, horizontal, new_id) {
                Some(r) => Some(PaneView::HSplit { left, right: Box::new(r), ratio }),
                None => None,
            },
        },
        PaneView::VSplit { top, bottom, ratio } => match split_view(*top, target, horizontal, new_id) {
            Some(t) => Some(PaneView::VSplit { top: Box::new(t), bottom, ratio }),
            None => match split_view(*bottom, target, horizontal, new_id) {
                Some(b) => Some(PaneView::VSplit { top, bottom: Box::new(b), ratio }),
                None => None,
            },
        },
    }
}

/// Closing the pane with id `target`: the node's new layout and what the
/// node above must do. A split whose child is the closed pane asks to be
/// replaced by its other child; a split whose child asks to be replaced
/// makes the replacement itself. The first child is searched first, the
/// second unless the first asked to be removed or replaced.
pub open spec fn close_view(v: PaneView, target: u64) -> (PaneView, CloseView)
    decreases v,
{
    match v {
        PaneView::Leaf { id, .. } => if id == target {
            (v, CloseView::RemoveSelf)
        } else {
            (v, CloseView::Unchanged)
        },
        PaneView::HSplit { left, right, ratio } => {
            let (l, lr) = close_view(*left, target);
            match lr {
                CloseView::RemoveSelf => (v, CloseView::Replace(*right)),
                CloseView::Replace(x) => (
                    PaneView::HSplit { left: Box::new(x), right, ratio },
                    CloseView::Unchanged,
                ),
                CloseView::Unchanged => {
                    let (r, rr) = close_view(*right, target);
                    match rr {
                        CloseView::RemoveSelf => (
                            PaneView::HSplit { left: Box::new(l), right, ratio },
                            CloseView::Replace(l),
                        ),
                        CloseView::Replace(x) => (
                            PaneView::HSplit { left: Box::new(l), right: Box::new(x), ratio },
                            CloseView::Unchanged,
                        ),
                        CloseView::Unchanged => (
                            PaneView::HSplit { left: Box::new(l), right: Box::new(r), ratio },
                            CloseView::Unchanged,
                        ),
                    }
                },
            }
        },
        PaneView::VSplit { top, bottom, ratio } => {
            let (t, tr) = close_view(*top, target);
            match tr {
                CloseView::RemoveSelf => (v, CloseView::Replace(*bottom)),
                CloseView::Replace(x) => (
                    PaneView::VSplit { top: Box::new(x), bottom, ratio },
                    CloseView::Unchanged,
                ),
                CloseView::Unchanged => {
                    let (b, br) = close_view(*bottom, target);
                    match br {
                        CloseView::RemoveSelf => (
                            PaneView::VSplit { top: Box::new(t), bottom, ratio },
                            CloseView::Replace(t),
                        ),
                        CloseView::Replace(x) => (
                            PaneView::VSplit { top: Box::new(t), bottom: Box::new(x), ratio },
                            CloseView::Unchanged,
                        ),
                        CloseView::Unchanged => (
                            PaneView::VSplit { top: Box::new(t), bottom: Box::new(b), ratio },
                            CloseView::Unchanged,
                        ),
                    }
                },
            }
        },
    }
}

/// The layout after `path` is opened in the first pane with id `target`
/// (unchanged when there is none).
pub open spec fn open_view(v: PaneView, target: u64, path: Seq<char>) -> PaneView
    decreases v,
{
    match v {
        PaneView::Leaf { id, active, tabs } => if id == target {
            let (a, t) = open_tab(active, tabs, path);
            PaneView::Leaf { id, active: a, tabs: t }
        } else {
            v
        },
        PaneView::HSplit { left, right, ratio } => if find_pane(*left, target) is Some {
            PaneView::HSplit { left: Box::new(open_view(*left, target, path)), right, ratio }
        } else {
            PaneView::HSplit { left, right: Box::new(open_view(*right, target, path)), ratio }
        },
        PaneView::VSplit { top, bottom, ratio } => if find_pane(*top, target) is Some {
            PaneView::VSplit { top: Box::new(open_view(*top, target, path)), bottom, ratio }
        } else {
            PaneView::VSplit { top, bottom: Box::new(open_view(*bottom, target, path)), ratio }
        },
    }
}

/// The layout after `path` is closed in the first pane with id `target`
/// (unchanged when there is none).
pub open spec fn close_tab_view(v: PaneView, target: u64, path: Seq<char>) -> PaneView
    decreases v,
{
    match v {
        PaneView::Leaf { id, active, tabs } => if id == target {
            let (a, t) = close_tab(active, tabs, path);
            PaneView::Leaf { id, active: a, tabs: t }
        } else {
            v
        },
        PaneView::HSplit { left, right, ratio } => if find_pane(*left, target) is Some {
            PaneView::HSplit { left: Box::new(close_tab_view(*left, target, path)), right, ratio }
        } else {
            PaneView::HSplit { left, right: Box::new(close_tab_view(*right, target, path)), ratio }
        },
        PaneView::VSplit { top, bottom, ratio } => if find_pane(*top, target) is Some {
            PaneView::VSplit { top: Box::new(close_tab_view(*top, target, path)), bottom, ratio }
        } else {
            PaneView::VSplit { top, bottom: Box::new(close_tab_view(*bottom, target, path)), ratio }
        },
    }
}

/// Opening `path`: it joins the tabs unless already there, and becomes
/// active.
pub open spec fn open_tab(active: Option<Seq<char>>, tabs: Seq<Seq<char>>, path: Seq<char>) -> (
    Option<Seq<char>>,
    Seq<Seq<char>>,
) {
    (Some(path), if tabs.contains(path) { tabs } else { tabs.push(path) })
}

/// Closing the tabs of `path`: they leave, and if it was active the last
/// remaining tab becomes active (none when none remains).
pub open spec fn close_tab(active: Option<Seq<char>>, tabs: Seq<Seq<char>>, path: Seq<char>) -> (
    Option<Seq<char>>,
    Seq<Seq<char>>,
) {
    let kept = tabs.filter(|t: Seq<char>| t != path);
    (
        if active == Some(path) {
            if kept.len() > 0 {
                Some(kept.last())
            } else {
                None
            }
        } else {
            active
        },
        kept,
    )
}

/// The layout with `path` closed in every pane.
pub open spec fn close_everywhere(v: PaneView, path: Seq<char>) -> PaneView
    decreases v,
{
    match v {
        PaneView::Leaf { id, active, tabs } => {
            let (a, t) = close_tab(active, tabs, path);
            PaneView::Leaf { id, active: a, tabs: t }
        },
        PaneView::HSplit { left, right, ratio } => PaneView::HSplit {
            left: Box::new(close_everywhere(*left, path)),
            right: Box::new(close_everywhere(*right, path)),
            ratio,
        },
        PaneView::VSplit { top, bottom, ratio } => PaneView::VSplit {
            top: Box::new(close_everywhere(*top, path)),
            bottom: Box::new(close_everywhere(*bottom, path)),
            ratio,
        },
    }
}

/// Some pane has `path` active or among its tabs.
pub open spec fn has_path(v: PaneView, path: Seq<char>) -> bool
    decreases v,
{
    match v {
        PaneView::Leaf { active, tabs, .. } => active == Some(path) || tabs.contains(path),
        PaneView::HSplit { left, right, .. } => has_path(*left, path) || has_path(*right, path),
        PaneView::VSplit { top, bottom, .. } => has_path(*top, path) || has_path(*bottom, path),
    }
}

// ─── Helpers ────────────────────────────────────────────────────────────────

fn copy_opt(s: &Option<String>) -> (r: Option<String>)
    ensures
        r.deep_view() == s.deep_view(),
{
    match s {
        Some(t) => Some(owned(t.as_str())),
        None => None,
    }
}

fn copy_tabs(v: &Vec<String>) -> (r: Vec<String>)
    ensures
        r.deep_view() == v.deep_view(),
{
    let mut out: Vec<String> = Vec::new();
    let mut i: usize = 0;
    while i < v.len()
        invariant
            i <= v.len(),
            out.deep_view() == v.deep_view().take(i as int),
        decreases v.len() - i,
    {
        let ghost before = out.deep_view();
        out.push(owned(v[i].as_str()));
        assert(out.deep_view() =~= before.push(v.deep_view()[i as int]));
        assert(v.deep_view().take(i + 1) =~= v.deep_view().take(i as int).push(
            v.deep_view()[i as int],
        ));
        i = i + 1;
    }
    assert(v.deep_view().take(v.len() as int) =~= v.deep_view());
    out
}

fn tabs_contain(tabs: &Vec<String>, path: &str) -> (r: bool)
    ensures
        r == tabs.deep_view().contains(path@),
{
    let mut i: usize = 0;
    while i < tabs.len()
        invariant
            i <= tabs.len(),
            forall|k: int| 0 <= k < i ==> tabs.deep_view()[k] != path@,
        decreases tabs.len() - i,
    {
        if str_eq(tabs[i].as_str(), path) {
            assert(tabs.deep_view()[i as int] == path@);
            return true;
        }
        i = i + 1;
    }
    false
}

fn kept_tabs(tabs: &Vec<String>, path: &str) -> (r: Vec<String>)
    ensures
        r.deep_view() == tabs.deep_view().filter(|t: Seq<char>| t != path@),
{
    let ghost keep = |t: Seq<char>| t != path@;
    let mut out: Vec<String> = Vec::new();
    let mut i: usize = 0;
    while i < tabs.len()
        invariant
            i <= tabs.len(),
            keep == (|t: Seq<char>| t != path@),
            out.deep_view() == tabs.deep_view().take(i as int).filter(keep),
        decreases tabs.len() - i,
    {
        let ghost before = out.deep_view();
        let ghost s = tabs.deep_view().take(i + 1);
        assert(s.drop_last() =~= tabs.deep_view().take(i as int));
        proof {
            s.filter_lemma(keep);
        }
        assert(s.filter(keep) == if keep(s.last()) {
            s.drop_last().filter(keep).push(s.last())
        } else {
            s.drop_last().filter(keep)
        }) by {
            reveal_with_fuel(Seq::filter, 2);
        }
        if !str_eq(tabs[i].as_str(), path) {
            out.push(owned(tabs[i].as_str()));
            assert(out.deep_view() =~= before.push(tabs.deep_view()[i as int]));
        }
        i = i + 1;
    }
    assert(tabs.deep_view().take(tabs.len() as int) =~= tabs.deep_view());
    out
}

fn close_tab_in_leaf(active: &mut Option<String>, tabs: &mut Vec<String>, path: &str)
    ensures
        (final(active).deep_view(), final(tabs).deep_view()) == close_tab(
            old(active).deep_view(),
            old(tabs).deep_view(),
            path@,
        ),
{
    let kept = kept_tabs(tabs, path);
    let was_active = match active {
        Some(a) => str_eq(a.as_str(), path),
        None => false,
    };
    if was_active {
        *active = if kept.len() > 0 {
            Some(owned(kept[kept.len() - 1].as_str()))
        } else {
            None
        };
    }
    *tabs = kept;
}

fn open_tab_in_leaf(active: &mut Option<String>, tabs: &mut Vec<String>, path: &str)
    ensures
        (final(active).deep_view(), final(tabs).deep_view()) == open_tab(
            old(active).deep_view(),
            old(tabs).deep_view(),
            path@,
        ),
{
    if !tabs_contain(tabs, path) {
        let ghost before = tabs.deep_view();
        tabs.push(owned(path));
        assert(tabs.deep_view() =~= before.push(path@));
    }
    *active = Some(owned(path));
}

/// Only a pane itself asks to be removed, and it is then left as it was.
proof fn lemma_close_remove_self(v: PaneView, target: u64)
    ensures
        close_view(v, target).1 is RemoveSelf ==> v is Leaf && close_view(v, target).0 == v,
{
}

/// `CloseResult` as plain values.
pub open spec fn close_result_view(c: CloseResult) -> CloseView {
    match c {
        CloseResult::Unchanged => CloseView::Unchanged,
        CloseResult::RemoveSelf => CloseView::RemoveSelf,
        CloseResult::Replace(t) => CloseView::Replace((*t)@),
    }
}

fn placeholder() -> (r: PaneTree)
    ensures
        r@ == (PaneView::Leaf { id: 0, active: None, tabs: Seq::empty() }),
{
    let tabs: Vec<String> = Vec::new();
    assert(tabs.deep_view() =~= Seq::<Seq<char>>::empty());
    PaneTree::Leaf { id: PaneId(0), active: None, tabs }
}

impl PaneTree {
    /// A layout of one empty pane with a fresh id.
    pub fn single(ids: &mut PaneIds) -> (r: Self)
        ensures
            r@ == (PaneView::Leaf { id: old(ids).next, active: None, tabs: Seq::empty() }),
            final(ids).next == old(ids).next.wrapping_add(1),
    {
        let id = ids.fresh();
        let tabs: Vec<String> = Vec::new();
        assert(tabs.deep_view() =~= Seq::<Seq<char>>::empty());
        let r = PaneTree::Leaf { id, active: None, tabs };
        assert(r@ =~~= (PaneView::Leaf { id: old(ids).next, active: None, tabs: Seq::empty() }));
        r
    }

    /// A copy of the layout.
    pub fn clone_tree(&self) -> (r: Self)
        ensures
            r@ == self@,
        decreases self,
    {
        match self {
            PaneTree::Leaf { id, active, tabs } => PaneTree::Leaf {
                id: *id,
                active: copy_opt(active),
                tabs: copy_tabs(tabs),
            },
            PaneTree::HSplit { left, right, ratio_permille } => PaneTree::HSplit {
                left: Box::new((**left).clone_tree()),
                right: Box::new((**right).clone_tree()),
                ratio_permille: *ratio_permille,
            },
            PaneTree::VSplit { top, bottom, ratio_permille } => PaneTree::VSplit {
                top: Box::new((**top).clone_tree()),
                bottom: Box::new((**bottom).clone_tree()),
                ratio_permille: *ratio_permille,
            },
        }
    }

    fn split_owned(self, target: PaneId, horizontal: bool, ids: &mut PaneIds) -> (r: (PaneTree, bool))
        ensures
            match split_view(self@, target.0, horizontal, old(ids).next) {
                Some(v) => r.1 && r.0@ == v && final(ids).next == old(ids).next.wrapping_add(1),
                None => !r.1 && r.0@ == self@ && final(ids).next == old(ids).next,
            },
        decreases self,
    {
        match self {
            PaneTree::Leaf { id, active, tabs } => {
                if id == target {
                    let new_id = ids.fresh();
                    let mirrored = copy_opt(&active);
                    let mut new_tabs: Vec<String> = Vec::new();
                    match &active {
                        Some(a) => new_tabs.push(owned(a.as_str())),
                        None => {},
                    }
                    assert(new_tabs.deep_view() =~= mirrored_tabs(active.deep_view()));
                    let ghost a = active.deep_view();
                    let ghost ts = tabs.deep_view();
                    let current = PaneTree::Leaf { id, active, tabs };
                    let new_pane = PaneTree::Leaf { id: new_id, active: mirrored, tabs: new_tabs };
                    assert(current@ == PaneView::Leaf { id: id.0, active: a, tabs: ts });
                    assert(new_pane@ == PaneView::Leaf { id: new_id.0, active: a, tabs: mirrored_tabs(a) });
                    if horizontal {
                        (
                            PaneTree::HSplit {
                                left: Box::new(current),
                                right: Box::new(new_pane),
                                ratio_permille: 500,
                            },
                            true,
                        )
                    } else {
                        (
                            PaneTree::VSplit {
                                top: Box::new(current),
                                bottom: Box::new(new_pane),
                                ratio_permille: 500,
                            },
                            true,
                        )
                    }
                } else {
                    (PaneTree::Leaf { id, active, tabs }, false)
                }
            },
            PaneTree::HSplit { left, right, ratio_permille } => {
                let (l, found) = (*left).split_owned(target, horizontal, ids);
                if found {
                    (PaneTree::HSplit { left: Box::new(l), right, ratio_permille }, true)
                } else {
                    let (r, found_right) = (*right).split_owned(target, horizontal, ids);
                    (
                        PaneTree::HSplit { left: Box::new(l), right: Box::new(r), ratio_permille },
                        found_right,
                    )
                }
            },
            PaneTree::VSplit { top, bottom, ratio_permille } => {
                let (t, found) = (*top).split_owned(target, horizontal, ids);
                if found {
                    (PaneTree::VSplit { top: Box::new(t), bottom, ratio_permille }, true)
                } else {
                    let (b, found_bottom) = (*bottom).split_owned(target, horizontal, ids);
                    (
                        PaneTree::VSplit { top: Box::new(t), bottom: Box::new(b), ratio_permille },
                        found_bottom,
                    )
                }
            },
        }
    }

    fn split(&mut self, target: PaneId, horizontal: bool, ids: &mut PaneIds) -> (r: bool)
        ensures
            match split_view(old(self)@, target.0, horizontal, old(ids).next) {
                Some(v) => r && final(self)@ == v && final(ids).next == old(ids).next.wrapping_add(1),
                None => !r && final(self)@ == old(self)@ && final(ids).next == old(ids).next,
            },
    {
        let mut t = placeholder();
        std::mem::swap(&mut t, self);
        let (n, found) = t.split_owned(target, horizontal, ids);
        *self = n;
        found
    }

    /// Splits the first pane with id `target` in two side by side, as
    /// `split_view`; the new pane takes a fresh id and shows the same active
    /// file. Returns whether there was such a pane. The next id of `ids`
    /// must not be one of the layout's, as when every id comes from `ids`.
    pub fn split_h(&mut self, target: PaneId, ids: &mut PaneIds) -> (r: bool)
        requires
            !leaf_ids(old(self)@).contains(old(ids).next),
        ensures
            match split_view(old(self)@, target.0, true, old(ids).next) {
                Some(v) => r && final(self)@ == v && final(ids).next == old(ids).next.wrapping_add(1),
                None => !r && final(self)@ == old(self)@ && final(ids).next == old(ids).next,
            },
            leaf_ids(old(self)@).no_duplicates() ==> leaf_ids(final(self)@).no_duplicates(),
    {
        proof {
            if leaf_ids(old(self)@).no_duplicates() {
                lemma_split_distinct(old(self)@, target.0, true, old(ids).next);
            }
        }
        self.split(target, true, ids)
    }

    /// Splits the first pane with id `target` in two, one above the other,
    /// as `split_view`. Returns whether there was such a pane. The next id
    /// of `ids` must not be one of the layout's.
    pub fn split_v(&mut self, target: PaneId, ids: &mut PaneIds) -> (r: bool)
        requires
            !leaf_ids(old(self)@).contains(old(ids).next),
        ensures
            match split_view(old(self)@, target.0, false, old(ids).next) {
                Some(v) => r && final(self)@ == v && final(ids).next == old(ids).next.wrapping_add(1),
                None => !r && final(self)@ == old(self)@ && final(ids).next == old(ids).next,
            },
            leaf_ids(old(self)@).no_duplicates() ==> leaf_ids(final(self)@).no_duplicates(),
    {
        proof {
            if leaf_ids(old(self)@).no_duplicates() {
                lemma_split_distinct(old(self)@, target.0, false, old(ids).next);
            }
        }
        self.split(target, false, ids)
    }

    fn close_owned(self, target: PaneId) -> (r: (PaneTree, CloseResult))
        ensures
            (r.0@, close_result_view(r.1)) == close_view(self@, target.0),
        decreases self,
    {
        let ghost sv = self@;
        match self {
            PaneTree::Leaf { id, active, tabs } => {
                let same = PaneTree::Leaf { id, active, tabs };
                assert(same@ == sv);
                if id == target {
                    (same, CloseResult::RemoveSelf)
                } else {
                    (same, CloseResult::Unchanged)
                }
            },
            PaneTree::HSplit { left, right, ratio_permille } => {
                let ghost lv = (*left)@;
                let ghost rv = (*right)@;
                let (l, lr) = (*left).close_owned(target);
                proof {
                    lemma_close_remove_self(lv, target.0);
                }
                let res = match lr {
                    CloseResult::RemoveSelf => {
                        let sibling = (*right).clone_tree();
                        (
                            PaneTree::HSplit { left: Box::new(l), right, ratio_permille },
                            CloseResult::Replace(Box::new(sibling)),
                        )
                    },
                    CloseResult::Replace(x) => {
                        let out = PaneTree::HSplit { left: x, right, ratio_permille };
                        assert(out@ == PaneView::HSplit {
                            left: Box::new((*x)@),
                            right: Box::new(rv),
                            ratio: ratio_permille,
                        });
                        (out, CloseResult::Unchanged)
                    },
                    CloseResult::Unchanged => {
                        let (r, rr) = (*right).close_owned(target);
                        proof {
                            lemma_close_remove_self(rv, target.0);
                        }
                        match rr {
                            CloseResult::RemoveSelf => {
                                let sibling = l.clone_tree();
                                (
                                    PaneTree::HSplit {
                                        left: Box::new(l),
                                        right: Box::new(r),
                                        ratio_permille,
                                    },
                                    CloseResult::Replace(Box::new(sibling)),
                                )
                            },
                            CloseResult::Replace(x) => {
                                let out = PaneTree::HSplit { left: Box::new(l), right: x, ratio_permille };
                                assert(out@ == PaneView::HSplit {
                                    left: Box::new(l@),
                                    right: Box::new((*x)@),
                                    ratio: ratio_permille,
                                });
                                (out, CloseResult::Unchanged)
                            },
                            CloseResult::Unchanged => (
                                PaneTree::HSplit {
                                    left: Box::new(l),
                                    right: Box::new(r),
                                    ratio_permille,
                                },
                                CloseResult::Unchanged,
                            ),
                        }
                    },
                };
                                res
            },
            PaneTree::VSplit { top, bottom, ratio_permille } => {
                let ghost tv = (*top)@;
                let ghost bv = (*bottom)@;
                let (t, tr) = (*top).close_owned(target);
                proof {
                    lemma_close_remove_self(tv, target.0);
                }
                let res = match tr {
                    CloseResult::RemoveSelf => {
                        let sibling = (*bottom).clone_tree();
                        (
                            PaneTree::VSplit { top: Box::new(t), bottom, ratio_permille },
                            CloseResult::Replace(Box::new(sibling)),
                        )
                    },
                    CloseResult::Replace(x) => {
                        let out = PaneTree::VSplit { top: x, bottom, ratio_permille };
                        assert(out@ == PaneView::VSplit {
                            top: Box::new((*x)@),
                            bottom: Box::new(bv),
                            ratio: ratio_permille,
                        });
                        (out, CloseResult::Unchanged)
                    },
                    CloseResult::Unchanged => {
                        let (b, br) = (*bottom).close_owned(target);
                        proof {
                            lemma_close_remove_self(bv, target.0);
                        }
                        match br {
                            CloseResult::RemoveSelf => {
                                let sibling = t.clone_tree();
                                (
                                    PaneTree::VSplit {
                                        top: Box::new(t),
                                        bottom: Box::new(b),
                                        ratio_permille,
                                    },
                                    CloseResult::Replace(Box::new(sibling)),
                                )
                            },
                            CloseResult::Replace(x) => {
                                let out = PaneTree::VSplit { top: Box::new(t), bottom: x, ratio_permille };
                                assert(out@ == PaneView::VSplit {
                                    top: Box::new(t@),
                                    bottom: Box::new((*x)@),
                                    ratio: ratio_permille,
                                });
                                (out, CloseResult::Unchanged)
                            },
                            CloseResult::Unchanged => (
                                PaneTree::VSplit {
                                    top: Box::new(t),
                                    bottom: Box::new(b),
                                    ratio_permille,
                                },
                                CloseResult::Unchanged,
                            ),
                        }
                    },
                };
                                res
            },
        }
    }

    /// Closes the first pane with id `target`, as `close_view`: a leaf that
    /// is the pane asks to be removed, a split whose child is the pane asks
    /// to be replaced by the other child, and a split below that makes the
    /// replacement itself. The root's caller does what the result asks.
    pub fn close_pane(&mut self, target: PaneId) -> (r: CloseResult)
        ensures
            (final(self)@, close_result_view(r)) == close_view(old(self)@, target.0),
    {
        let mut t = placeholder();
        std::mem::swap(&mut t, self);
        let (n, result) = t.close_owned(target);
        *self = n;
        result
    }

    /// The first pane with id `target`.
    pub fn find_leaf(&self, target: PaneId) -> (r: Option<&PaneTree>)
        ensures
            match r {
                Some(x) => x matches PaneTree::Leaf { id, active, tabs } && id == target && find_pane(
                    self@,
                    target.0,
                ) == Some((active.deep_view(), tabs.deep_view())),
                None => find_pane(self@, target.0) is None,
            },
        decreases self,
    {
        match self {
            PaneTree::Leaf { id, .. } => {
                if *id == target {
                    Some(self)
                } else {
                    None
                }
            },
            PaneTree::HSplit { left, right, .. } => match (**left).find_leaf(target) {
                Some(x) => Some(x),
                None => (**right).find_leaf(target),
            },
            PaneTree::VSplit { top, bottom, .. } => match (**top).find_leaf(target) {
                Some(x) => Some(x),
                None => (**bottom).find_leaf(target),
            },
        }
    }

    /// The active file of the first pane with id `pane_id`.
    pub fn active_in_pane(&self, pane_id: PaneId) -> (r: Option<&String>)
        ensures
            match find_pane(self@, pane_id.0) {
                Some((a, _)) => match r {
                    Some(s) => a == Some(s@),
                    None => a is None,
                },
                None => r is None,
            },
    {
        match self.find_leaf(pane_id) {
            Some(PaneTree::Leaf { active, .. }) => match active {
                Some(s) => Some(s),
                None => None,
            },
            _ => None,
        }
    }

    /// The ids of the panes, in order.
    pub fn all_leaf_ids(&self) -> (r: Vec<PaneId>)
        ensures
            r@.map_values(|p: PaneId| p.0) == leaf_ids(self@),
        decreases self,
    {
        match self {
            PaneTree::Leaf { id, .. } => {
                let mut v: Vec<PaneId> = Vec::new();
                v.push(*id);
                assert(v@.map_values(|p: PaneId| p.0) =~= seq![id.0]);
                v
            },
            PaneTree::HSplit { left, right, .. } => {
                let mut ids = (**left).all_leaf_ids();
                let mut more = (**right).all_leaf_ids();
                let ghost a = ids@;
                let ghost b = more@;
                ids.append(&mut more);
                assert(ids@.map_values(|p: PaneId| p.0) =~= a.map_values(|p: PaneId| p.0) + b.map_values(
                    |p: PaneId| p.0,
                ));
                ids
            },
            PaneTree::VSplit { top, bottom, .. } => {
                let mut ids = (**top).all_leaf_ids();
                let mut more = (**bottom).all_leaf_ids();
                let ghost a = ids@;
                let ghost b = more@;
                ids.append(&mut more);
                assert(ids@.map_values(|p: PaneId| p.0) =~= a.map_values(|p: PaneId| p.0) + b.map_values(
                    |p: PaneId| p.0,
                ));
                ids
            },
        }
    }

    /// Whether some pane has id `target`.
    pub fn has_pane(&self, target: PaneId) -> (r: bool)
        ensures
            r == (find_pane(self@, target.0) is Some),
    {
        self.find_leaf(target).is_some()
    }

    fn open_owned(self, pane_id: PaneId, path: &str) -> (r: PaneTree)
        ensures
            r@ == open_view(self@, pane_id.0, path@),
        decreases self,
    {
        match self {
            PaneTree::Leaf { id, active, tabs } => {
                let mut active = active;
                let mut tabs = tabs;
                if id == pane_id {
                    open_tab_in_leaf(&mut active, &mut tabs, path);
                }
                PaneTree::Leaf { id, active, tabs }
            },
            PaneTree::HSplit { left, right, ratio_permille } => {
                if (*left).has_pane(pane_id) {
                    PaneTree::HSplit {
                        left: Box::new((*left).open_owned(pane_id, path)),
                        right,
                        ratio_permille,
                    }
                } else {
                    PaneTree::HSplit {
                        left,
                        right: Box::new((*right).open_owned(pane_id, path)),
                        ratio_permille,
                    }
                }
            },
            PaneTree::VSplit { top, bottom, ratio_permille } => {
                if (*top).has_pane(pane_id) {
                    PaneTree::VSplit {
                        top: Box::new((*top).open_owned(pane_id, path)),
                        bottom,
                        ratio_permille,
                    }
                } else {
                    PaneTree::VSplit {
                        top,
                        bottom: Box::new((*bottom).open_owned(pane_id, path)),
                        ratio_permille,
                    }
                }
            },
        }
    }

    /// Opens `path` in the first pane with id `pane_id`, as `open_view`:
    /// it joins that pane's tabs unless already there, and becomes active.
    pub fn open_in_pane(&mut self, pane_id: PaneId, path: String)
        ensures
            final(self)@ == open_view(old(self)@, pane_id.0, path@),
    {
        let mut t = placeholder();
        std::mem::swap(&mut t, self);
        *self = t.open_owned(pane_id, path.as_str());
    }

    fn close_tab_owned(self, pane_id: PaneId, path: &str) -> (r: PaneTree)
        ensures
            r@ == close_tab_view(self@, pane_id.0, path@),
        decreases self,
    {
        match self {
            PaneTree::Leaf { id, active, tabs } => {
                let mut active = active;
                let mut tabs = tabs;
                if id == pane_id {
                    close_tab_in_leaf(&mut active, &mut tabs, path);
                }
                PaneTree::Leaf { id, active, tabs }
            },
            PaneTree::HSplit { left, right, ratio_permille } => {
                if (*left).has_pane(pane_id) {
                    PaneTree::HSplit {
                        left: Box::new((*left).close_tab_owned(pane_id, path)),
                        right,
                        ratio_permille,
                    }
                } else {
                    PaneTree::HSplit {
                        left,
                        right: Box::new((*right).close_tab_owned(pane_id, path)),
                        ratio_permille,
                    }
                }
            },
            PaneTree::VSplit { top, bottom, ratio_permille } => {
                if (*top).has_pane(pane_id) {
                    PaneTree::VSplit {
                        top: Box::new((*top).close_tab_owned(pane_id, path)),
                        bottom,
                        ratio_permille,
                    }
                } else {
                    PaneTree::VSplit {
                        top,
                        bottom: Box::new((*bottom).close_tab_owned(pane_id, path)),
                        ratio_permille,
                    }
                }
            },
        }
    }

    /// Closes `path` in the first pane with id `pane_id`, as
    /// `close_tab_view`: its tabs of `path` leave, and if it was active the
    /// last remaining tab becomes active.
    pub fn close_tab_in_pane(&mut self, pane_id: PaneId, path: &str)
        ensures
            final(self)@ == close_tab_view(old(self)@, pane_id.0, path@),
    {
        let mut t = placeholder();
        std::mem::swap(&mut t, self);
        *self = t.close_tab_owned(pane_id, path);
    }

    /// Whether some pane has `path` active or among its tabs.
    pub fn any_pane_has(&self, path: &str) -> (r: bool)
        ensures
            r == has_path(self@, path@),
        decreases self,
    {
        match self {
            PaneTree::Leaf { active, tabs, .. } => {
                let is_active = match active {
                    Some(a) => str_eq(a.as_str(), path),
                    None => false,
                };
                is_active || tabs_contain(tabs, path)
            },
            PaneTree::HSplit { left, right, .. } => (**left).any_pane_has(path) || (
            **right).any_pane_has(path),
            PaneTree::VSplit { top, bottom, .. } => (**top).any_pane_has(path) || (
            **bottom).any_pane_has(path),
        }
    }

    fn close_everywhere_owned(self, path: &str) -> (r: PaneTree)
        ensures
            r@ == close_everywhere(self@, path@),
        decreases self,
    {
        match self {
            PaneTree::Leaf { id, active, tabs } => {
                let mut active = active;
                let mut tabs = tabs;
                close_tab_in_leaf(&mut active, &mut tabs, path);
                PaneTree::Leaf { id, active, tabs }
            },
            PaneTree::HSplit { left, right, ratio_permille } => PaneTree::HSplit {
                left: Box::new((*left).close_everywhere_owned(path)),
                right: Box::new((*right).close_everywhere_owned(path)),
                ratio_permille,
            },
            PaneTree::VSplit { top, bottom, ratio_permille } => PaneTree::VSplit {
                top: Box::new((*top).close_everywhere_owned(path)),
                bottom: Box::new((*bottom).close_everywhere_owned(path)),
                ratio_permille,
            },
        }
    }

    /// Closes `path` in every pane, as `close_everywhere`.
    pub fn remove_tab_from_all_panes(&mut self, path: &str)
        ensures
            final(self)@ == close_everywhere(old(self)@, path@),
    {
        let mut t = placeholder();
        std::mem::swap(&mut t, self);
        *self = t.close_everywhere_owned(path);
    }
}

// ─── Laws ───────────────────────────────────────────────────────────────────

/// The position of `x` in `s` is the first index holding it.
pub proof fn lemma_position_unique(s: Seq<u64>, x: u64, p: int)
    requires
        0 <= p < s.len(),
        s[p] == x,
        forall|k: int| 0 <= k < p ==> s[k] != x,
    ensures
        crate::panes::focus::position_of(s, x) == p,
{
    crate::panes::focus::lemma_index_from(s, x, 0);
}

/// Positions in a concatenation.
proof fn lemma_position_concat(a: Seq<u64>, b: Seq<u64>, x: u64)
    ensures
        a.contains(x) ==> crate::panes::focus::position_of(a + b, x)
            == crate::panes::focus::position_of(a, x),
        !a.contains(x) && b.contains(x) ==> crate::panes::focus::position_of(a + b, x) == a.len()
            + crate::panes::focus::position_of(b, x),
{
    if a.contains(x) {
        crate::panes::focus::lemma_index_from(a, x, 0);
        let p = crate::panes::focus::position_of(a, x);
        assert((a + b)[p] == x);
        lemma_position_unique(a + b, x, p);
    } else if b.contains(x) {
        crate::panes::focus::lemma_index_from(b, x, 0);
        let p = crate::panes::focus::position_of(b, x);
        assert((a + b)[a.len() + p] == x);
        assert forall|k: int| 0 <= k < a.len() + p implies (a + b)[k] != x by {
            if k < a.len() {
                assert(a[k] != x);
            } else {
                assert(b[k - a.len()] != x);
            }
        }
        lemma_position_unique(a + b, x, a.len() + p);
    }
}

/// A pane is found exactly when its id is among the layout's.
pub proof fn lemma_find_pane(v: PaneView, target: u64)
    ensures
        find_pane(v, target) is Some <==> leaf_ids(v).contains(target),
    decreases v,
{
    match v {
        PaneView::Leaf { id, .. } => {
            assert(leaf_ids(v)[0] == id);
        },
        PaneView::HSplit { left, right, .. } => {
            lemma_find_pane(*left, target);
            lemma_find_pane(*right, target);
            lemma_contains_concat(leaf_ids(*left), leaf_ids(*right), target);
        },
        PaneView::VSplit { top, bottom, .. } => {
            lemma_find_pane(*top, target);
            lemma_find_pane(*bottom, target);
            lemma_contains_concat(leaf_ids(*top), leaf_ids(*bottom), target);
        },
    }
}

proof fn lemma_contains_concat(a: Seq<u64>, b: Seq<u64>, x: u64)
    ensures
        (a + b).contains(x) <==> a.contains(x) || b.contains(x),
{
    if a.contains(x) {
        let k = choose|k: int| 0 <= k < a.len() && a[k] == x;
        assert((a + b)[k] == x);
    }
    if b.contains(x) {
        let k = choose|k: int| 0 <= k < b.len() && b[k] == x;
        assert((a + b)[a.len() + k] == x);
    }
    if (a + b).contains(x) {
        let k = choose|k: int| 0 <= k < (a + b).len() && (a + b)[k] == x;
        if k < a.len() {
            assert(a[k] == x);
        } else {
            assert(b[k - a.len()] == x);
        }
    }
}

/// Splitting succeeds exactly when the pane exists, and the new pane then
/// stands right after it, the other panes keeping their order.
pub proof fn lemma_split_panes(v: PaneView, target: u64, horizontal: bool, new_id: u64)
    ensures
        split_view(v, target, horizontal, new_id) is Some <==> leaf_ids(v).contains(target),
        split_view(v, target, horizontal, new_id) matches Some(w) ==> leaf_ids(w) == leaf_ids(
            v,
        ).insert(crate::panes::focus::position_of(leaf_ids(v), target) + 1, new_id),
    decreases v,
{
    match v {
        PaneView::Leaf { id, active, tabs } => {
            if id == target {
                lemma_position_unique(leaf_ids(v), target, 0);
                assert(leaf_ids(v).insert(1, new_id) =~= seq![id, new_id]);
                let new_pane = PaneView::Leaf { id: new_id, active, tabs: mirrored_tabs(active) };
                assert(leaf_ids(new_pane) == seq![new_id]);
                assert(leaf_ids(v) + leaf_ids(new_pane) =~= seq![id, new_id]);
            }
            assert(leaf_ids(v)[0] == id);
        },
        PaneView::HSplit { left, right, .. } => {
            lemma_split_panes(*left, target, horizontal, new_id);
            lemma_split_panes(*right, target, horizontal, new_id);
            lemma_split_concat(leaf_ids(*left), leaf_ids(*right), target, new_id);
        },
        PaneView::VSplit { top, bottom, .. } => {
            lemma_split_panes(*top, target, horizontal, new_id);
            lemma_split_panes(*bottom, target, horizontal, new_id);
            lemma_split_concat(leaf_ids(*top), leaf_ids(*bottom), target, new_id);
        },
    }
}

proof fn lemma_split_concat(a: Seq<u64>, b: Seq<u64>, x: u64, n: u64)
    ensures
        (a + b).contains(x) <==> a.contains(x) || b.contains(x),
        a.contains(x) ==> a.insert(crate::panes::focus::position_of(a, x) + 1, n) + b == (a
            + b).insert(crate::panes::focus::position_of(a + b, x) + 1, n),
        !a.contains(x) && b.contains(x) ==> a + b.insert(
            crate::panes::focus::position_of(b, x) + 1,
            n,
        ) == (a + b).insert(crate::panes::focus::position_of(a + b, x) + 1, n),
{
    lemma_contains_concat(a, b, x);
    lemma_position_concat(a, b, x);
    if a.contains(x) {
        crate::panes::focus::lemma_index_from(a, x, 0);
        let p = crate::panes::focus::position_of(a, x);
        assert(a.insert(p + 1, n) + b =~= (a + b).insert(p + 1, n));
    } else if b.contains(x) {
        crate::panes::focus::lemma_index_from(b, x, 0);
        let p = crate::panes::focus::position_of(b, x);
        assert(a + b.insert(p + 1, n) =~= (a + b).insert(a.len() + p + 1, n));
    }
}

/// After a split, the split pane is as it was and the new pane (with an id
/// not yet in the layout) shows the same active file, with that file as
/// its one tab.
pub proof fn lemma_split_contents(v: PaneView, target: u64, horizontal: bool, new_id: u64)
    requires
        !leaf_ids(v).contains(new_id),
    ensures
        split_view(v, target, horizontal, new_id) matches Some(w) ==> {
            &&& find_pane(w, target) == find_pane(v, target)
            &&& find_pane(v, target) matches Some((a, _)) && find_pane(w, new_id) == Some(
                (a, mirrored_tabs(a)),
            )
        },
    decreases v,
{
    lemma_find_pane(v, target);
    lemma_find_pane(v, new_id);
    match v {
        PaneView::Leaf { id, active, tabs } => {
            assert(leaf_ids(v)[0] == id);
            if id == target {
                let new_pane = PaneView::Leaf { id: new_id, active, tabs: mirrored_tabs(active) };
                assert(find_pane(v, new_id) is None);
                assert(find_pane(new_pane, new_id) == Some((active, mirrored_tabs(active))));
            }
        },
        PaneView::HSplit { left, right, .. } => {
            lemma_contains_concat(leaf_ids(*left), leaf_ids(*right), new_id);
            lemma_split_contents(*left, target, horizontal, new_id);
            lemma_split_contents(*right, target, horizontal, new_id);
            lemma_split_panes(*left, target, horizontal, new_id);
            lemma_find_pane(*left, new_id);
            lemma_find_pane(*left, target);
            lemma_find_pane(*right, new_id);
        },
        PaneView::VSplit { top, bottom, .. } => {
            lemma_contains_concat(leaf_ids(*top), leaf_ids(*bottom), new_id);
            lemma_split_contents(*top, target, horizontal, new_id);
            lemma_split_contents(*bottom, target, horizontal, new_id);
            lemma_split_panes(*top, target, horizontal, new_id);
            lemma_find_pane(*top, new_id);
            lemma_find_pane(*top, target);
            lemma_find_pane(*bottom, new_id);
        },
    }
}

/// The layout's pane ids once the pane `target` is gone.
pub open spec fn ids_without(v: PaneView, target: u64) -> Seq<u64> {
    leaf_ids(v).remove(crate::panes::focus::position_of(leaf_ids(v), target))
}

/// Closing a pane that is not in the layout changes nothing.
pub proof fn lemma_close_absent(v: PaneView, target: u64)
    requires
        !leaf_ids(v).contains(target),
    ensures
        close_view(v, target) == (v, CloseView::Unchanged),
    decreases v,
{
    match v {
        PaneView::Leaf { id, .. } => {
            assert(leaf_ids(v)[0] == id);
        },
        PaneView::HSplit { left, right, .. } => {
            lemma_contains_concat(leaf_ids(*left), leaf_ids(*right), target);
            lemma_close_absent(*left, target);
            lemma_close_absent(*right, target);
        },
        PaneView::VSplit { top, bottom, .. } => {
            lemma_contains_concat(leaf_ids(*top), leaf_ids(*bottom), target);
            lemma_close_absent(*top, target);
            lemma_close_absent(*bottom, target);
        },
    }
}

/// Closing a pane of a layout whose pane ids are distinct: a lone pane asks
/// to be removed, and otherwise the layout that results (the replacement
/// asked for, or the node itself) has every pane but the closed one, in
/// order.
pub proof fn lemma_close_panes(v: PaneView, target: u64)
    requires
        leaf_ids(v).no_duplicates(),
        leaf_ids(v).contains(target),
    ensures
        match close_view(v, target) {
            (w, CloseView::RemoveSelf) => v is Leaf && w == v,
            (_, CloseView::Replace(x)) => leaf_ids(x) == ids_without(v, target),
            (w, CloseView::Unchanged) => leaf_ids(w) == ids_without(v, target),
        },
    decreases v,
{
    match v {
        PaneView::Leaf { id, .. } => {},
        PaneView::HSplit { left, right, ratio } => {
            lemma_close_split(*left, *right, target);
            let a = leaf_ids(*left);
            let b = leaf_ids(*right);
            lemma_contains_concat(a, b, target);
            lemma_position_concat(a, b, target);
            if a.contains(target) {
                lemma_close_panes(*left, target);
                lemma_close_absent(*right, target);
                crate::panes::focus::lemma_index_from(a, target, 0);
                let p = crate::panes::focus::position_of(a, target);
                assert(a.remove(p) + b =~= (a + b).remove(p));
                if close_view(*left, target).1 is RemoveSelf {
                    assert(a =~= seq![target]);
                    assert(b =~= (a + b).remove(0));
                }
            } else {
                lemma_close_absent(*left, target);
                lemma_close_panes(*right, target);
                crate::panes::focus::lemma_index_from(b, target, 0);
                let p = crate::panes::focus::position_of(b, target);
                assert(a + b.remove(p) =~= (a + b).remove(a.len() + p));
                if close_view(*right, target).1 is RemoveSelf {
                    assert(b =~= seq![target]);
                    assert(a =~= (a + b).remove(a.len() as int));
                }
            }
        },
        PaneView::VSplit { top, bottom, ratio } => {
            lemma_close_split(*top, *bottom, target);
            let a = leaf_ids(*top);
            let b = leaf_ids(*bottom);
            lemma_contains_concat(a, b, target);
            lemma_position_concat(a, b, target);
            if a.contains(target) {
                lemma_close_panes(*top, target);
                lemma_close_absent(*bottom, target);
                crate::panes::focus::lemma_index_from(a, target, 0);
                let p = crate::panes::focus::position_of(a, target);
                assert(a.remove(p) + b =~= (a + b).remove(p));
                if close_view(*top, target).1 is RemoveSelf {
                    assert(a =~= seq![target]);
                    assert(b =~= (a + b).remove(0));
                }
            } else {
                lemma_close_absent(*top, target);
                lemma_close_panes(*bottom, target);
                crate::panes::focus::lemma_index_from(b, target, 0);
                let p = crate::panes::focus::position_of(b, target);
                assert(a + b.remove(p) =~= (a + b).remove(a.len() + p));
                if close_view(*bottom, target).1 is RemoveSelf {
                    assert(b =~= seq![target]);
                    assert(a =~= (a + b).remove(a.len() as int));
                }
            }
        },
    }
}

/// The children of a split whose ids are distinct have distinct ids, and
/// no id in both.
proof fn lemma_close_split(a_v: PaneView, b_v: PaneView, target: u64)
    requires
        (leaf_ids(a_v) + leaf_ids(b_v)).no_duplicates(),
    ensures
        leaf_ids(a_v).no_duplicates(),
        leaf_ids(b_v).no_duplicates(),
        leaf_ids(a_v).contains(target) ==> !leaf_ids(b_v).contains(target),
{
    let a = leaf_ids(a_v);
    let b = leaf_ids(b_v);
    assert forall|i: int, j: int| 0 <= i < a.len() && 0 <= j < a.len() && i != j implies a[i]
        != a[j] by {
        assert((a + b)[i] == a[i] && (a + b)[j] == a[j]);
    }
    assert forall|i: int, j: int| 0 <= i < b.len() && 0 <= j < b.len() && i != j implies b[i]
        != b[j] by {
        assert((a + b)[a.len() + i] == b[i] && (a + b)[a.len() + j] == b[j]);
    }
    if a.contains(target) && b.contains(target) {
        let i = choose|i: int| 0 <= i < a.len() && a[i] == target;
        let j = choose|j: int| 0 <= j < b.len() && b[j] == target;
        assert((a + b)[i] == (a + b)[a.len() + j]);
    }
}

/// Opening a file in a pane makes it that pane's active file and adds it to
/// its tabs (once), leaving the pane ids as they were.
pub proof fn lemma_open_in_pane(v: PaneView, target: u64, path: Seq<char>)
    ensures
        leaf_ids(open_view(v, target, path)) == leaf_ids(v),
        find_pane(v, target) matches Some((a, tabs)) ==> find_pane(open_view(v, target, path), target)
            == Some(open_tab(a, tabs, path)),
        find_pane(v, target) is None ==> open_view(v, target, path) == v,
    decreases v,
{
    match v {
        PaneView::Leaf { .. } => {},
        PaneView::HSplit { left, right, .. } => {
            lemma_open_in_pane(*left, target, path);
            lemma_open_in_pane(*right, target, path);
        },
        PaneView::VSplit { top, bottom, .. } => {
            lemma_open_in_pane(*top, target, path);
            lemma_open_in_pane(*bottom, target, path);
        },
    }
}

/// After closing a file's tab, it is neither among the tabs nor active.
pub proof fn lemma_close_tab(active: Option<Seq<char>>, tabs: Seq<Seq<char>>, path: Seq<char>)
    ensures
        !close_tab(active, tabs, path).1.contains(path),
        close_tab(active, tabs, path).0 != Some(path),
{
    let kept = tabs.filter(|t: Seq<char>| t != path);
    kept.filter_lemma(|t: Seq<char>| t != path);
    assert forall|i: int| 0 <= i < kept.len() implies kept[i] != path by {
        assert((|t: Seq<char>| t != path)(kept[i]));
    }
    if kept.len() > 0 {
        assert(kept.last() != path);
    }
}

/// Closing a file's tab in a pane closes it there as `close_tab` does,
/// leaving the pane ids as they were.
pub proof fn lemma_close_tab_in_pane(v: PaneView, target: u64, path: Seq<char>)
    ensures
        leaf_ids(close_tab_view(v, target, path)) == leaf_ids(v),
        find_pane(v, target) matches Some((a, tabs)) ==> find_pane(
            close_tab_view(v, target, path),
            target,
        ) == Some(close_tab(a, tabs, path)),
    decreases v,
{
    match v {
        PaneView::Leaf { .. } => {},
        PaneView::HSplit { left, right, .. } => {
            lemma_close_tab_in_pane(*left, target, path);
            lemma_close_tab_in_pane(*right, target, path);
        },
        PaneView::VSplit { top, bottom, .. } => {
            lemma_close_tab_in_pane(*top, target, path);
            lemma_close_tab_in_pane(*bottom, target, path);
        },
    }
}

/// Once a file is closed in every pane, no pane has it.
pub proof fn lemma_close_everywhere(v: PaneView, path: Seq<char>)
    ensures
        !has_path(close_everywhere(v, path), path),
        leaf_ids(close_everywhere(v, path)) == leaf_ids(v),
    decreases v,
{
    match v {
        PaneView::Leaf { active, tabs, .. } => {
            lemma_close_tab(active, tabs, path);
        },
        PaneView::HSplit { left, right, .. } => {
            lemma_close_everywhere(*left, path);
            lemma_close_everywhere(*right, path);
        },
        PaneView::VSplit { top, bottom, .. } => {
            lemma_close_everywhere(*top, path);
            lemma_close_everywhere(*bottom, path);
        },
    }
}

/// Splitting with an id not yet in the layout keeps the pane ids distinct.
pub proof fn lemma_split_distinct(v: PaneView, target: u64, horizontal: bool, new_id: u64)
    requires
        leaf_ids(v).no_duplicates(),
        !leaf_ids(v).contains(new_id),
    ensures
        split_view(v, target, horizontal, new_id) matches Some(w) ==> leaf_ids(w).no_duplicates(),
{
    lemma_split_panes(v, target, horizontal, new_id);
    if let Some(w) = split_view(v, target, horizontal, new_id) {
        let s = leaf_ids(v);
        crate::panes::focus::lemma_index_from(s, target, 0);
        let p = crate::panes::focus::position_of(s, target) + 1;
        let t = s.insert(p, new_id);
        assert forall|i: int, j: int| 0 <= i < t.len() && 0 <= j < t.len() && i != j implies t[i]
            != t[j] by {
            let si = if i < p { i } else { i - 1 };
            let sj = if j < p { j } else { j - 1 };
            if i == p {
                assert(t[j] == s[sj]);
            } else if j == p {
                assert(t[i] == s[si]);
            } else {
                assert(t[i] == s[si] && t[j] == s[sj]);
            }
        }
    }
}

} // verus!
