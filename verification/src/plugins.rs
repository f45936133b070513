//! What plugins ask of the editor, and the part of it the plugin system
//! keeps: the menu items plugins contributed and their notifications, and
//! which events reach them. A runtime that runs the plugins' scripts is not
//! part of this crate; times are nanoseconds.

use vstd::prelude::*;
use crate::text::{owned, str_eq, str_chars, chars_eq, string_from_chars};
use crate::git::diff::{split_lines, split_lines_of};
use crate::perf::memory::text_lines;
use crate::path::{path_components, path_components_of, components_view};

verus! {

/// Events the editor fires into the plugins.
#[derive(Debug, Clone)]
pub enum PluginEvent {
    FileSaved(String),
    FileOpened(String),
    CursorMoved(usize, usize),
    TextChanged(String),
}

/// How urgent a plugin notification is.
#[derive(Debug, Clone, Copy, PartialEq, Eq, Structural)]
pub enum NotifyLevel {
    Info,
    Warning,
    Error,
}

impl NotifyLevel {
    /// The level a plugin names: `warning`/`warn`, `error`/`err`, anything
    /// else information.
    pub fn from_str(s: &str) -> (r: Self)
        ensures
            r == if s@ == "warning"@ || s@ == "warn"@ {
                NotifyLevel::Warning
            } else if s@ == "error"@ || s@ == "err"@ {
                NotifyLevel::Error
            } else {
                NotifyLevel::Info
            },
    {
        if str_eq(s, "warning") || str_eq(s, "warn") {
            NotifyLevel::Warning
        } else if str_eq(s, "error") || str_eq(s, "err") {
            NotifyLevel::Error
        } else {
            NotifyLevel::Info
        }
    }
}

/// What a plugin asks the editor to do.
#[derive(Debug)]
pub enum PluginAction {
    /// Move the cursor to a zero-based line and column.
    SetCursor { line: usize, col: usize },
    /// Insert text at the cursor.
    InsertText(String),
    /// Replace the whole buffer.
    ReplaceText(String),
    /// Open a file.
    OpenFile(String),
    /// Save the active buffer.
    SaveFile,
    /// Show a notification.
    Notify { message: String, level: NotifyLevel },
    /// Add an item to the Plugins menu.
    AddMenuItem { label: String, callback_name: String },
}

/// A menu item a plugin contributed.
#[derive(Debug, Clone)]
pub struct PluginMenuItem {
    pub plugin_name: String,
    pub label: String,
    pub callback_name: String,
}

/// A notification a plugin queued.
#[derive(Debug, Clone)]
pub struct PluginNotification {
    pub message: String,
    pub level: NotifyLevel,
    pub plugin_name: String,
    /// When it was made.
    pub created_at_ns: u64,
}

/// The menu items and notifications of the plugins, and when the
/// throttled events last reached them.
#[derive(Debug)]
pub struct PluginSystem {
    pub menu_items: Vec<PluginMenuItem>,
    pub notifications: Vec<PluginNotification>,
    pub last_cursor_event_ns: u64,
    pub last_text_event_ns: u64,
}

/// The plugin hook an event runs.
#[derive(Debug, Clone, Copy, PartialEq, Eq, Structural)]
pub enum PluginHook {
    OnSave,
    OnOpen,
    OnCursorMove,
    OnTextChange,
}

impl PluginHook {
    /// The Lua global the hook is registered under.
    pub fn global_key(self) -> (r: &'static str)
        ensures
            r@ == match self {
                PluginHook::OnSave => "__blue_hook_on_save"@,
                PluginHook::OnOpen => "__blue_hook_on_open"@,
                PluginHook::OnCursorMove => "__blue_hook_on_cursor_move"@,
                PluginHook::OnTextChange => "__blue_hook_on_text_change"@,
            },
    {
        match self {
            PluginHook::OnSave => "__blue_hook_on_save",
            PluginHook::OnOpen => "__blue_hook_on_open",
            PluginHook::OnCursorMove => "__blue_hook_on_cursor_move",
            PluginHook::OnTextChange => "__blue_hook_on_text_change",
        }
    }
}

/// Cursor moves reach the plugins at most once per this many nanoseconds.
pub const CURSOR_EVENT_INTERVAL_NS: u64 = 200_000_000;

/// Text changes reach the plugins at most once per this many nanoseconds.
pub const TEXT_EVENT_INTERVAL_NS: u64 = 500_000_000;

/// A menu item as plain values: plugin, label, callback.
pub type MenuView = (Seq<char>, Seq<char>, Seq<char>);

/// A notification as plain values: message, level, plugin, time.
pub type NoteView = (Seq<char>, NotifyLevel, Seq<char>, u64);

pub open spec fn menu_view(s: Seq<PluginMenuItem>) -> Seq<MenuView> {
    s.map_values(|m: PluginMenuItem| (m.plugin_name@, m.label@, m.callback_name@))
}

pub open spec fn notes_view(s: Seq<PluginNotification>) -> Seq<NoteView> {
    s.map_values(|n: PluginNotification| (n.message@, n.level, n.plugin_name@, n.created_at_ns))
}

/// Whether `plugin` already has a menu item labelled `label`.
pub open spec fn has_item(menu: Seq<MenuView>, plugin: Seq<char>, label: Seq<char>) -> bool {
    exists|i: int| 0 <= i < menu.len() && menu[i].0 == plugin && menu[i].1 == label
}

/// The menu and notifications after plugin `plugin` asked `a` at `now`:
/// a notification is queued, a menu item is added unless that plugin has
/// one of that label; other actions are not the plugin system's.
pub open spec fn apply_spec(
    menu: Seq<MenuView>,
    notes: Seq<NoteView>,
    a: PluginAction,
    plugin: Seq<char>,
    now: u64,
) -> (Seq<MenuView>, Seq<NoteView>) {
    match a {
        PluginAction::Notify { message, level } => (menu, notes.push((message@, level, plugin, now))),
        PluginAction::AddMenuItem { label, callback_name } => if has_item(menu, plugin, label@) {
            (menu, notes)
        } else {
            (menu.push((plugin, label@, callback_name@)), notes)
        },
        _ => (menu, notes),
    }
}

/// The menu and notifications after a batch of actions, in order.
pub open spec fn apply_all(
    menu: Seq<MenuView>,
    notes: Seq<NoteView>,
    actions: Seq<PluginAction>,
    plugin: Seq<char>,
    now: u64,
) -> (Seq<MenuView>, Seq<NoteView>)
    decreases actions.len(),
{
    if actions.len() == 0 {
        (menu, notes)
    } else {
        let (m, n) = apply_all(menu, notes, actions.drop_last(), plugin, now);
        apply_spec(m, n, actions.last(), plugin, now)
    }
}

/// Whether an action is the plugin system's own (a notification or a menu
/// item) rather than the editor's.
pub open spec fn is_own(a: PluginAction) -> bool {
    a is Notify || a is AddMenuItem
}

/// The actions of a batch that are the editor's, in order.
pub open spec fn editor_actions(actions: Seq<PluginAction>) -> Seq<PluginAction> {
    actions.filter(|a: PluginAction| !is_own(a))
}

/// The notifications still shown at `now` when they last `ttl`.
pub open spec fn live_notes(notes: Seq<NoteView>, ttl: u64, now: u64) -> Seq<NoteView> {
    notes.filter(|n: NoteView| crate::profiler::since(n.3, now) < ttl)
}

impl PluginSystem {
    /// Nothing contributed yet, at `now_ns`; the throttled events count
    /// from then.
    pub fn new(now_ns: u64) -> (r: Self)
        ensures
            r.menu_items@.len() == 0,
            r.notifications@.len() == 0,
            r.last_cursor_event_ns == now_ns,
            r.last_text_event_ns == now_ns,
    {
        PluginSystem {
            menu_items: Vec::new(),
            notifications: Vec::new(),
            last_cursor_event_ns: now_ns,
            last_text_event_ns: now_ns,
        }
    }

    /// The hook `event` runs at `now_ns`: saves and opens always; cursor
    /// moves and text changes unless one reached the plugins less than
    /// their interval ago (and then they count from now).
    pub fn route_event(&mut self, event: &PluginEvent, now_ns: u64) -> (r: Option<PluginHook>)
        ensures
            final(self).menu_items@ == old(self).menu_items@,
            final(self).notifications@ == old(self).notifications@,
            match *event {
                PluginEvent::FileSaved(_) => r == Some(PluginHook::OnSave) && final(self).last_cursor_event_ns
                    == old(self).last_cursor_event_ns && final(self).last_text_event_ns == old(
                    self,
                ).last_text_event_ns,
                PluginEvent::FileOpened(_) => r == Some(PluginHook::OnOpen) && final(self).last_cursor_event_ns
                    == old(self).last_cursor_event_ns && final(self).last_text_event_ns == old(
                    self,
                ).last_text_event_ns,
                PluginEvent::CursorMoved(_, _) => final(self).last_text_event_ns == old(self).last_text_event_ns
                    && if crate::profiler::since(old(self).last_cursor_event_ns, now_ns)
                    < CURSOR_EVENT_INTERVAL_NS {
                    r is None && final(self).last_cursor_event_ns == old(self).last_cursor_event_ns
                } else {
                    r == Some(PluginHook::OnCursorMove) && final(self).last_cursor_event_ns == now_ns
                },
                PluginEvent::TextChanged(_) => final(self).last_cursor_event_ns == old(self).last_cursor_event_ns
                    && if crate::profiler::since(old(self).last_text_event_ns, now_ns)
                    < TEXT_EVENT_INTERVAL_NS {
                    r is None && final(self).last_text_event_ns == old(self).last_text_event_ns
                } else {
                    r == Some(PluginHook::OnTextChange) && final(self).last_text_event_ns == now_ns
                },
            },
    {
        match event {
            PluginEvent::FileSaved(_) => Some(PluginHook::OnSave),
            PluginEvent::FileOpened(_) => Some(PluginHook::OnOpen),
            PluginEvent::CursorMoved(_, _) => {
                let age = if now_ns >= self.last_cursor_event_ns {
                    now_ns - self.last_cursor_event_ns
                } else {
                    0
                };
                if age < CURSOR_EVENT_INTERVAL_NS {
                    None
                } else {
                    self.last_cursor_event_ns = now_ns;
                    Some(PluginHook::OnCursorMove)
                }
            },
            PluginEvent::TextChanged(_) => {
                let age = if now_ns >= self.last_text_event_ns {
                    now_ns - self.last_text_event_ns
                } else {
                    0
                };
                if age < TEXT_EVENT_INTERVAL_NS {
                    None
                } else {
                    self.last_text_event_ns = now_ns;
                    Some(PluginHook::OnTextChange)
                }
            },
        }
    }

    /// The plugin and callback of the first menu item labelled `label`.
    pub fn menu_callback(&self, label: &str) -> (r: Option<(String, String)>)
        ensures
            match r {
                Some((p, c)) => exists|i: int|
                    0 <= i < self.menu_items@.len() && (#[trigger] self.menu_items@[i]).label@ == label@
                        && p@ == self.menu_items@[i].plugin_name@ && c@ == self.menu_items@[i].callback_name@
                        && forall|k: int| 0 <= k < i ==> self.menu_items@[k].label@ != label@,
                None => forall|k: int|
                    0 <= k < self.menu_items@.len() ==> (#[trigger] self.menu_items@[k]).label@ != label@,
            },
    {
        let mut i: usize = 0;
        while i < self.menu_items.len()
            invariant
                i <= self.menu_items@.len(),
                forall|k: int| 0 <= k < i ==> (#[trigger] self.menu_items@[k]).label@ != label@,
            decreases self.menu_items.len() - i,
        {
            let item = &self.menu_items[i];
            if str_eq(item.label.as_str(), label) {
                return Some((item.plugin_name.clone(), item.callback_name.clone()));
            }
            i = i + 1;
        }
        None
    }

    fn has_menu_item(&self, plugin: &str, label: &str) -> (r: bool)
        ensures
            r == has_item(menu_view(self.menu_items@), plugin@, label@),
    {
        let ghost m = menu_view(self.menu_items@);
        let mut i: usize = 0;
        while i < self.menu_items.len()
            invariant
                i <= self.menu_items@.len(),
                m == menu_view(self.menu_items@),
                forall|k: int| 0 <= k < i ==> !(m[k].0 == plugin@ && m[k].1 == label@),
            decreases self.menu_items.len() - i,
        {
            let item = &self.menu_items[i];
            if str_eq(item.plugin_name.as_str(), plugin) && str_eq(item.label.as_str(), label) {
                assert(m[i as int].0 == plugin@ && m[i as int].1 == label@);
                return true;
            }
            i = i + 1;
        }
        false
    }

    fn apply_one(&mut self, action: PluginAction, plugin_name: &str, now_ns: u64)
        ensures
            (menu_view(final(self).menu_items@), notes_view(final(self).notifications@)) == apply_spec(
                menu_view(old(self).menu_items@),
                notes_view(old(self).notifications@),
                action,
                plugin_name@,
                now_ns,
            ),
    {
        let ghost m0 = menu_view(self.menu_items@);
        let ghost n0 = notes_view(self.notifications@);
        match action {
            PluginAction::Notify { message, level } => {
                let ghost mv = message@;
                self.notifications.push(
                    PluginNotification {
                        message,
                        level,
                        plugin_name: owned(plugin_name),
                        created_at_ns: now_ns,
                    },
                );
                assert(notes_view(self.notifications@) =~= n0.push((mv, level, plugin_name@, now_ns)));
            },
            PluginAction::AddMenuItem { label, callback_name } => {
                if !self.has_menu_item(plugin_name, label.as_str()) {
                    let ghost entry = (plugin_name@, label@, callback_name@);
                    self.menu_items.push(
                        PluginMenuItem { plugin_name: owned(plugin_name), label, callback_name },
                    );
                    assert(menu_view(self.menu_items@) =~= m0.push(entry));
                }
            },
            _ => {},
        }
    }

    /// Applies the actions of one plugin call, in order, as `apply_all`.
    pub fn apply_actions(&mut self, actions: Vec<PluginAction>, plugin_name: &str, now_ns: u64)
        ensures
            (menu_view(final(self).menu_items@), notes_view(final(self).notifications@)) == apply_all(
                menu_view(old(self).menu_items@),
                notes_view(old(self).notifications@),
                actions@,
                plugin_name@,
                now_ns,
            ),
    {
        let ghost all = actions@;
        let ghost m0 = menu_view(self.menu_items@);
        let ghost n0 = notes_view(self.notifications@);
        let count = actions.len();
        let mut rest = actions;
        let mut k: usize = 0;
        assert(all.skip(0) =~= all);
        while rest.len() > 0
            invariant
                k + rest@.len() == all.len(),
                all.len() == count,
                rest@ == all.skip(k as int),
                (menu_view(self.menu_items@), notes_view(self.notifications@)) == apply_all(
                    m0,
                    n0,
                    all.take(k as int),
                    plugin_name@,
                    now_ns,
                ),
            decreases rest@.len(),
        {
            let ghost old_rest = rest@;
            let a = rest.remove(0);
            assert(old_rest[0] == all[k as int]);
            assert(rest@ =~= all.skip(k + 1));
            assert(all.take(k + 1).drop_last() =~= all.take(k as int));
            self.apply_one(a, plugin_name, now_ns);
            k = k + 1;
        }
        assert(all.take(k as int) =~= all);
    }

    /// Keeps the notifications and menu items of a batch, as `apply_all`,
    /// and returns the actions that are the editor's, in order.
    pub fn split_actions(&mut self, actions: Vec<PluginAction>, plugin_name: &str, now_ns: u64) -> (r:
        Vec<PluginAction>)
        ensures
            (menu_view(final(self).menu_items@), notes_view(final(self).notifications@)) == apply_all(
                menu_view(old(self).menu_items@),
                notes_view(old(self).notifications@),
                actions@,
                plugin_name@,
                now_ns,
            ),
            r@ == editor_actions(actions@),
    {
        let ghost all = actions@;
        let ghost m0 = menu_view(self.menu_items@);
        let ghost n0 = notes_view(self.notifications@);
        let ghost keep = |a: PluginAction| !is_own(a);
        let mut remainder: Vec<PluginAction> = Vec::new();
        let count = actions.len();
        let mut rest = actions;
        let mut k: usize = 0;
        assert(all.skip(0) =~= all);
        while rest.len() > 0
            invariant
                k + rest@.len() == all.len(),
                all.len() == count,
                rest@ == all.skip(k as int),
                keep == (|a: PluginAction| !is_own(a)),
                (menu_view(self.menu_items@), notes_view(self.notifications@)) == apply_all(
                    m0,
                    n0,
                    all.take(k as int),
                    plugin_name@,
                    now_ns,
                ),
                remainder@ == all.take(k as int).filter(keep),
            decreases rest@.len(),
        {
            let ghost old_rest = rest@;
            let a = rest.remove(0);
            assert(old_rest[0] == all[k as int]);
            assert(rest@ =~= all.skip(k + 1));
            let ghost t = all.take(k + 1);
            assert(t.drop_last() =~= all.take(k as int));
            assert(t.filter(keep) == if keep(t.last()) {
                t.drop_last().filter(keep).push(t.last())
            } else {
                t.drop_last().filter(keep)
            }) by {
                reveal_with_fuel(Seq::filter, 2);
            }
            let own = match &a {
                PluginAction::Notify { .. } | PluginAction::AddMenuItem { .. } => true,
                _ => false,
            };
            if own {
                self.apply_one(a, plugin_name, now_ns);
            } else {
                assert(apply_spec(
                    menu_view(self.menu_items@),
                    notes_view(self.notifications@),
                    a,
                    plugin_name@,
                    now_ns,
                ) == (menu_view(self.menu_items@), notes_view(self.notifications@)));
                remainder.push(a);
            }
            k = k + 1;
        }
        assert(all.take(k as int) =~= all);
        remainder
    }

    /// Drops the notifications that are `ttl_ns` old or older at `now_ns`.
    pub fn expire_notifications(&mut self, ttl_ns: u64, now_ns: u64)
        ensures
            notes_view(final(self).notifications@) == live_notes(
                notes_view(old(self).notifications@),
                ttl_ns,
                now_ns,
            ),
            final(self).menu_items@ == old(self).menu_items@,
    {
        let ghost all = notes_view(self.notifications@);
        let ghost keep = |n: NoteView| crate::profiler::since(n.3, now_ns) < ttl_ns;
        let mut kept: Vec<PluginNotification> = Vec::new();
        let mut i: usize = 0;
        while i < self.notifications.len()
            invariant
                i <= self.notifications@.len(),
                all == notes_view(self.notifications@),
                keep == (|n: NoteView| crate::profiler::since(n.3, now_ns) < ttl_ns),
                notes_view(kept@) == all.take(i as int).filter(keep),
            decreases self.notifications.len() - i,
        {
            let ghost t = all.take(i + 1);
            assert(t.drop_last() =~= all.take(i as int));
            assert(t.filter(keep) == if keep(t.last()) {
                t.drop_last().filter(keep).push(t.last())
            } else {
                t.drop_last().filter(keep)
            }) by {
                reveal_with_fuel(Seq::filter, 2);
            }
            let n = &self.notifications[i];
            let age = if now_ns >= n.created_at_ns {
                now_ns - n.created_at_ns
            } else {
                0
            };
            if age < ttl_ns {
                let ghost before = notes_view(kept@);
                kept.push(
                    PluginNotification {
                        message: n.message.clone(),
                        level: n.level,
                        plugin_name: n.plugin_name.clone(),
                        created_at_ns: n.created_at_ns,
                    },
                );
                assert(notes_view(kept@) =~= before.push(all[i as int]));
            }
            i = i + 1;
        }
        assert(all.take(self.notifications.len() as int) =~= all);
        self.notifications = kept;
    }
}


// ─── What the plugin API computes for its calls ─────────────────────────────

/// Line `line_num` of `content`, counted from 1, as `str::lines` splits the
/// text; nothing for line 0 or past the last line.
pub fn get_line(content: &str, line_num: usize) -> (r: Option<String>)
    ensures
        match r {
            Some(l) => 1 <= line_num <= text_lines(content@).len() && l@ == text_lines(
                content@,
            )[line_num - 1],
            None => line_num == 0 || line_num > text_lines(content@).len(),
        },
{
    if line_num == 0 {
        return None;
    }
    let ls = split_lines_of(content);
    let ghost sl = split_lines(content@);
    assert(ls@.map_values(|l: Vec<char>| l@) == sl);
    assert(sl.len() >= 1);
    let n = ls.len();
    let kept = if ls[n - 1].len() == 0 {
        n - 1
    } else {
        n
    };
    assert(text_lines(content@).len() == kept);
    if line_num > kept {
        return None;
    }
    let i = line_num - 1;
    let line = &ls[i];
    assert(line@ == sl[i as int]);
    let mut len = line.len();
    if i < n - 1 && len > 0 && line[len - 1] == '\r' {
        len = len - 1;
    }
    let text = string_from_chars(vstd::slice::slice_subrange(line.as_slice(), 0, len));
    assert(text@ =~= text_lines(content@)[i as int]);
    Some(text)
}

/// The cursor as plugins see it: line and column counted from 1.
pub fn plugin_cursor(line: usize, col: usize) -> (r: (usize, usize))
    requires
        line < usize::MAX,
        col < usize::MAX,
    ensures
        r.0 == line + 1,
        r.1 == col + 1,
{
    (line + 1, col + 1)
}

/// A plugin's request to move the cursor, from its line and column counted
/// from 1 to the editor's counted from 0 (0 stays 0).
pub fn set_cursor_action(line: usize, col: usize) -> (r: PluginAction)
    ensures
        r == (PluginAction::SetCursor {
            line: if line == 0 { 0 } else { (line - 1) as usize },
            col: if col == 0 { 0 } else { (col - 1) as usize },
        }),
{
    PluginAction::SetCursor { line: line.saturating_sub(1), col: col.saturating_sub(1) }
}

/// `root`'s components begin `path`'s components (`Path::starts_with`).
pub open spec fn path_within(path: Seq<char>, root: Seq<char>) -> bool {
    let pc = path_components(path);
    let rc = path_components(root);
    &&& rc.len() <= pc.len()
    &&& forall|i: int| 0 <= i < rc.len() ==> #[trigger] rc[i] == pc[i]
}

/// Whether `path` lies inside the workspace `root`, component by component,
/// as the plugin file calls check it (on canonical paths where both exist).
pub fn is_path_within(path: &str, root: &str) -> (r: bool)
    ensures
        r == path_within(path@, root@),
{
    let p = str_chars(path);
    let q = str_chars(root);
    let pc = path_components_of(p.as_slice());
    let rc = path_components_of(q.as_slice());
    let ghost pv = components_view(pc@);
    let ghost rv = components_view(rc@);
    if rc.len() > pc.len() {
        return false;
    }
    let mut i: usize = 0;
    while i < rc.len()
        invariant
            i <= rc.len() <= pc.len(),
            pv == components_view(pc@),
            rv == components_view(rc@),
            pv == path_components(path@),
            rv == path_components(root@),
            forall|j: int| 0 <= j < i ==> #[trigger] rv[j] == pv[j],
        decreases rc.len() - i,
    {
        let a = &rc[i];
        let b = &pc[i];
        assert(rv[i as int] == (a.0 as nat, a.1@));
        assert(pv[i as int] == (b.0 as nat, b.1@));
        if a.0 != b.0 || !chars_eq(a.1.as_slice(), b.1.as_slice()) {
            return false;
        }
        i = i + 1;
    }
    true
}

} // verus!
