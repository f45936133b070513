//! Startup timing: named events measured against the moment the program
//! started, their categories, the report and history record made of them,
//! and the state of the breakdown panel. Times are nanoseconds since the
//! start; the clock itself is read by the caller.

use vstd::prelude::*;
use crate::text::{
    decimal, fixed_point, fmt_fixed, fmt_u64, fmt_u64_padded, is_prefix, owned, push_str,
    str_chars, str_eq, to_lowercase, unicode_lowercase, zero_pad,
};

verus! {

// ─── Categories ─────────────────────────────────────────────────────────────

/// What part of the editor a startup event belongs to.
#[derive(Debug, Clone, Copy, PartialEq, Eq, Hash, Structural)]
pub enum StartupCategory {
    System,
    Config,
    FileTree,
    Git,
    Lsp,
    Plugins,
    Session,
    Rendering,
    Other,
}

/// The category of an event named `name`: by the prefix of its lower-cased
/// name.
pub open spec fn category_of(name: Seq<char>) -> StartupCategory {
    let lower = unicode_lowercase(name);
    if is_prefix("config"@, lower) || is_prefix("theme"@, lower) {
        StartupCategory::Config
    } else if is_prefix("file tree"@, lower) || is_prefix("directory"@, lower) {
        StartupCategory::FileTree
    } else if is_prefix("git"@, lower) {
        StartupCategory::Git
    } else if is_prefix("lsp"@, lower) || is_prefix("rust-analyzer"@, lower) {
        StartupCategory::Lsp
    } else if is_prefix("plugin"@, lower) {
        StartupCategory::Plugins
    } else if is_prefix("session"@, lower) || is_prefix("buffer"@, lower) {
        StartupCategory::Session
    } else if is_prefix("first render"@, lower) || is_prefix("rendering"@, lower) {
        StartupCategory::Rendering
    } else if is_prefix("eframe"@, lower) || is_prefix("window"@, lower) || is_prefix(
        "total"@,
        lower,
    ) {
        StartupCategory::System
    } else {
        StartupCategory::Other
    }
}

fn has_prefix(s: &Vec<char>, p: &str) -> (r: bool)
    ensures
        r == is_prefix(p@, s@),
{
    let pc = str_chars(p);
    crate::text::starts_with_chars(s.as_slice(), pc.as_slice())
}

impl StartupCategory {
    /// The category's name as shown.
    pub fn label(self) -> (r: &'static str)
        ensures
            r@ == match self {
                StartupCategory::System => "System"@,
                StartupCategory::Config => "Config"@,
                StartupCategory::FileTree => "File Tree"@,
                StartupCategory::Git => "Git"@,
                StartupCategory::Lsp => "LSP"@,
                StartupCategory::Plugins => "Plugins"@,
                StartupCategory::Session => "Session"@,
                StartupCategory::Rendering => "Rendering"@,
                StartupCategory::Other => "Other"@,
            },
    {
        match self {
            StartupCategory::System => "System",
            StartupCategory::Config => "Config",
            StartupCategory::FileTree => "File Tree",
            StartupCategory::Git => "Git",
            StartupCategory::Lsp => "LSP",
            StartupCategory::Plugins => "Plugins",
            StartupCategory::Session => "Session",
            StartupCategory::Rendering => "Rendering",
            StartupCategory::Other => "Other",
        }
    }

    /// The category's colour in charts, as red, green and blue.
    pub fn color(self) -> (r: (u8, u8, u8))
        ensures
            r == match self {
                StartupCategory::System => (120u8, 120u8, 120u8),
                StartupCategory::Config => (80u8, 140u8, 220u8),
                StartupCategory::FileTree => (60u8, 180u8, 90u8),
                StartupCategory::Git => (230u8, 130u8, 50u8),
                StartupCategory::Lsp => (170u8, 80u8, 200u8),
                StartupCategory::Plugins => (220u8, 200u8, 50u8),
                StartupCategory::Session => (60u8, 190u8, 190u8),
                StartupCategory::Rendering => (220u8, 80u8, 80u8),
                StartupCategory::Other => (140u8, 140u8, 140u8),
            },
    {
        match self {
            StartupCategory::System => (120, 120, 120),
            StartupCategory::Config => (80, 140, 220),
            StartupCategory::FileTree => (60, 180, 90),
            StartupCategory::Git => (230, 130, 50),
            StartupCategory::Lsp => (170, 80, 200),
            StartupCategory::Plugins => (220, 200, 50),
            StartupCategory::Session => (60, 190, 190),
            StartupCategory::Rendering => (220, 80, 80),
            StartupCategory::Other => (140, 140, 140),
        }
    }

    /// The category of an event name, as `category_of`.
    pub fn from_name(name: &str) -> (r: Self)
        ensures
            r == category_of(name@),
    {
        let lower_text = to_lowercase(name);
        let lower = str_chars(lower_text.as_str());
        if has_prefix(&lower, "config") || has_prefix(&lower, "theme") {
            StartupCategory::Config
        } else if has_prefix(&lower, "file tree") || has_prefix(&lower, "directory") {
            StartupCategory::FileTree
        } else if has_prefix(&lower, "git") {
            StartupCategory::Git
        } else if has_prefix(&lower, "lsp") || has_prefix(&lower, "rust-analyzer") {
            StartupCategory::Lsp
        } else if has_prefix(&lower, "plugin") {
            StartupCategory::Plugins
        } else if has_prefix(&lower, "session") || has_prefix(&lower, "buffer") {
            StartupCategory::Session
        } else if has_prefix(&lower, "first render") || has_prefix(&lower, "rendering") {
            StartupCategory::Rendering
        } else if has_prefix(&lower, "eframe") || has_prefix(&lower, "window") || has_prefix(
            &lower,
            "total",
        ) {
            StartupCategory::System
        } else {
            StartupCategory::Other
        }
    }
}

// ─── Events and the timer ───────────────────────────────────────────────────

/// A measured startup event.
#[derive(Debug)]
pub struct StartupEvent {
    pub name: String,
    /// When it began, in nanoseconds since the start.
    pub elapsed_since_start_ns: u64,
    /// How long it took, in nanoseconds.
    pub duration_ns: u64,
    pub category: StartupCategory,
}

/// An event as plain values: name, start, duration, category.
pub type EventView = (Seq<char>, u64, u64, StartupCategory);

/// The plain values of an event.
pub open spec fn event_view(e: StartupEvent) -> EventView {
    (e.name@, e.elapsed_since_start_ns, e.duration_ns, e.category)
}

/// The plain values of a sequence of events.
pub open spec fn events_view(s: Seq<StartupEvent>) -> Seq<EventView> {
    s.map_values(|e: StartupEvent| event_view(e))
}

/// Open events as plain values: name and start.
pub open spec fn pending_view(s: Seq<(String, u64)>) -> Seq<(Seq<char>, u64)> {
    s.map_values(|p: (String, u64)| (p.0@, p.1))
}

/// The startup timer: events measured so far and events begun and not yet
/// ended, oldest first.
#[derive(Debug)]
pub struct StartupTimer {
    pub events: Vec<StartupEvent>,
    pub pending: Vec<(String, u64)>,
}

/// The index of the most recently begun open event named `name`.
pub open spec fn last_named(p: Seq<(Seq<char>, u64)>, name: Seq<char>) -> Option<int>
    decreases p.len(),
{
    if p.len() == 0 {
        None
    } else if p.last().0 == name {
        Some(p.len() - 1)
    } else {
        last_named(p.drop_last(), name)
    }
}

/// Ending the event `name` at `now`: the most recently begun open event of
/// that name (if any) closes and is measured from its start to `now` (no
/// less than zero).
pub open spec fn end_spec(
    pending: Seq<(Seq<char>, u64)>,
    events: Seq<EventView>,
    name: Seq<char>,
    now: u64,
) -> (Seq<(Seq<char>, u64)>, Seq<EventView>) {
    match last_named(pending, name) {
        Some(i) => (
            pending.remove(i),
            events.push(
                (
                    pending[i].0,
                    pending[i].1,
                    if now >= pending[i].1 {
                        (now - pending[i].1) as u64
                    } else {
                        0u64
                    },
                    category_of(pending[i].0),
                ),
            ),
        ),
        None => (pending, events),
    }
}

/// Ending the events `names`, in order, at `now`.
pub open spec fn end_all(
    pending: Seq<(Seq<char>, u64)>,
    events: Seq<EventView>,
    names: Seq<Seq<char>>,
    now: u64,
) -> (Seq<(Seq<char>, u64)>, Seq<EventView>)
    decreases names.len(),
{
    if names.len() == 0 {
        (pending, events)
    } else {
        let (p, e) = end_spec(pending, events, names[0], now);
        end_all(p, e, names.drop_first(), now)
    }
}

/// `s` with `e` placed after every event that began no later than it.
pub open spec fn insert_by_start(s: Seq<EventView>, e: EventView) -> Seq<EventView>
    decreases s.len(),
{
    if s.len() == 0 {
        seq![e]
    } else if s.last().1 <= e.1 {
        s.push(e)
    } else {
        insert_by_start(s.drop_last(), e).push(s.last())
    }
}

/// The events in order of their starts, events that began together in the
/// order they were recorded.
pub open spec fn sort_by_start(s: Seq<EventView>) -> Seq<EventView>
    decreases s.len(),
{
    if s.len() == 0 {
        Seq::empty()
    } else {
        insert_by_start(sort_by_start(s.drop_last()), s.last())
    }
}

/// Events ordered by their starts.
pub open spec fn by_start(s: Seq<EventView>) -> bool {
    forall|i: int, j: int| 0 <= i <= j < s.len() ==> s[i].1 <= s[j].1
}

/// `last_named` gives an index holding the name.
proof fn lemma_last_named(p: Seq<(Seq<char>, u64)>, name: Seq<char>)
    ensures
        last_named(p, name) matches Some(i) ==> 0 <= i < p.len() && p[i].0 == name,
    decreases p.len(),
{
    if p.len() > 0 && p.last().0 != name {
        lemma_last_named(p.drop_last(), name);
    }
}

fn last_named_index(pending: &Vec<(String, u64)>, name: &str) -> (r: Option<usize>)
    ensures
        match last_named(pending_view(pending@), name@) {
            Some(i) => r == Some(i as usize),
            None => r is None,
        },
        r matches Some(i) ==> i < pending@.len(),
{
    let ghost pv = pending_view(pending@);
    proof {
        lemma_last_named(pv, name@);
    }
    assert(pv.take(pending.len() as int) =~= pv);
    let mut j: usize = pending.len();
    while j > 0
        invariant
            j <= pending@.len(),
            pv == pending_view(pending@),
            last_named(pv, name@) == last_named(pv.take(j as int), name@),
        decreases j,
    {
        assert(pv.take(j as int).drop_last() =~= pv.take(j - 1));
        if str_eq(pending[j - 1].0.as_str(), name) {
            return Some(j - 1);
        }
        j = j - 1;
    }
    None
}

impl StartupTimer {
    /// No events yet.
    pub fn new() -> (r: Self)
        ensures
            r.events@.len() == 0,
            r.pending@.len() == 0,
    {
        StartupTimer { events: Vec::new(), pending: Vec::new() }
    }

    /// Begins the event `name` at `now`.
    pub fn begin(&mut self, name: String, now: u64)
        ensures
            final(self).pending@ == old(self).pending@.push((name, now)),
            final(self).events@ == old(self).events@,
    {
        self.pending.push((name, now));
    }

    /// Ends the event `name` at `now`, as `end_spec`.
    pub fn end(&mut self, name: &str, now: u64)
        ensures
            (pending_view(final(self).pending@), events_view(final(self).events@)) == end_spec(
                pending_view(old(self).pending@),
                events_view(old(self).events@),
                name@,
                now,
            ),
    {
        let ghost pv = pending_view(self.pending@);
        let ghost ev = events_view(self.events@);
        proof {
            lemma_last_named(pv, name@);
        }
        let count = self.pending.len();
        assert(pv.len() == count);
        match last_named_index(&self.pending, name) {
            Some(idx) => {
                let ghost old_pending = self.pending@;
                let (n, start) = self.pending.remove(idx);
                assert(pv[idx as int] == (old_pending[idx as int].0@, old_pending[idx as int].1));
                assert(n@ == pv[idx as int].0 && start == pv[idx as int].1);
                assert(pending_view(self.pending@) =~= pv.remove(idx as int));
                let duration = if now >= start {
                    now - start
                } else {
                    0
                };
                let category = StartupCategory::from_name(n.as_str());
                self.events.push(
                    StartupEvent { name: n, elapsed_since_start_ns: start, duration_ns: duration, category },
                );
                assert(events_view(self.events@) =~= ev.push(
                    (pv[idx as int].0, pv[idx as int].1, duration, category_of(pv[idx as int].0)),
                ));
            },
            None => {},
        }
    }

    /// Records an instant event `name` at `now`.
    pub fn record(&mut self, name: String, now: u64)
        ensures
            events_view(final(self).events@) == events_view(old(self).events@).push(
                (name@, now, 0u64, category_of(name@)),
            ),
            final(self).pending@ == old(self).pending@,
    {
        let ghost ev = events_view(self.events@);
        let category = StartupCategory::from_name(name.as_str());
        self.events.push(
            StartupEvent { name, elapsed_since_start_ns: now, duration_ns: 0, category },
        );
        assert(events_view(self.events@) =~= ev.push((name@, now, 0u64, category_of(name@))));
    }

    /// Ends the "LSP handshake" event at `now`.
    pub fn complete_lsp_handshake(&mut self, now: u64)
        ensures
            (pending_view(final(self).pending@), events_view(final(self).events@)) == end_spec(
                pending_view(old(self).pending@),
                events_view(old(self).events@),
                "LSP handshake"@,
                now,
            ),
    {
        self.end("LSP handshake", now);
    }

    /// Finishes timing at `now`: every event still open is ended there (in
    /// the order they were begun, as `end_all`), and the events are put in
    /// order of their starts.
    pub fn finish(self, now: u64) -> (r: StartupData)
        ensures
            r.total_ns == now,
            events_view(r.events@) == sort_by_start(
                end_all(
                    pending_view(self.pending@),
                    events_view(self.events@),
                    pending_view(self.pending@).map_values(|p: (Seq<char>, u64)| p.0),
                    now,
                ).1,
            ),
    {
        let mut timer = self;
        let ghost p0 = pending_view(timer.pending@);
        let ghost e0 = events_view(timer.events@);
        let ghost all_names = p0.map_values(|p: (Seq<char>, u64)| p.0);
        let mut names: Vec<String> = Vec::new();
        let mut k: usize = 0;
        while k < timer.pending.len()
            invariant
                k <= timer.pending@.len(),
                p0 == pending_view(timer.pending@),
                all_names == p0.map_values(|p: (Seq<char>, u64)| p.0),
                names@.len() == k,
                forall|i: int| 0 <= i < k ==> (#[trigger] names@[i])@ == all_names[i],
            decreases timer.pending.len() - k,
        {
            names.push(owned(timer.pending[k].0.as_str()));
            k = k + 1;
        }
        assert(all_names.skip(0) =~= all_names);
        let mut i: usize = 0;
        while i < names.len()
            invariant
                i <= names@.len(),
                names@.len() == all_names.len(),
                forall|j: int| 0 <= j < names@.len() ==> (#[trigger] names@[j])@ == all_names[j],
                end_all(p0, e0, all_names, now) == end_all(
                    pending_view(timer.pending@),
                    events_view(timer.events@),
                    all_names.skip(i as int),
                    now,
                ),
            decreases names.len() - i,
        {
            let ghost rest = all_names.skip(i as int);
            assert(rest.drop_first() =~= all_names.skip(i + 1));
            assert(rest[0] == names@[i as int]@);
            timer.end(names[i].as_str(), now);
            i = i + 1;
        }
        assert(all_names.skip(names.len() as int) =~= Seq::<Seq<char>>::empty());
        let events = sort_events(timer.events);
        StartupData { events, total_ns: now }
    }
}

fn sort_events(events: Vec<StartupEvent>) -> (r: Vec<StartupEvent>)
    ensures
        events_view(r@) == sort_by_start(events_view(events@)),
{
    let ghost all = events_view(events@);
    let count = events.len();
    assert(all.len() == count);
    let mut rest = events;
    let mut out: Vec<StartupEvent> = Vec::new();
    let mut n: usize = 0;
    while rest.len() > 0
        invariant
            n + rest@.len() == all.len(),
            all.len() <= usize::MAX,
            events_view(rest@) == all.skip(n as int),
            events_view(out@) == sort_by_start(all.take(n as int)),
        decreases rest@.len(),
    {
        let ghost old_rest = rest@;
        let e = rest.remove(0);
        let ghost ev = event_view(e);
        assert(events_view(old_rest)[0] == event_view(old_rest[0]));
        assert(all.skip(n as int)[0] == all[n as int]);
        assert(ev == all[n as int]);
        assert(events_view(rest@) =~= events_view(old_rest).drop_first());
        assert(all.skip(n as int).drop_first() =~= all.skip(n + 1));
        let ghost sorted = events_view(out@);
        assert(sorted.take(out.len() as int) =~= sorted);
        assert(sorted.skip(out.len() as int) =~= Seq::<EventView>::empty());
        let mut j: usize = out.len();
        while j > 0 && out[j - 1].elapsed_since_start_ns > e.elapsed_since_start_ns
            invariant
                j <= out@.len(),
                sorted == events_view(out@),
                insert_by_start(sorted, ev) == insert_by_start(sorted.take(j as int), ev) + sorted.skip(
                    j as int,
                ),
                ev.1 == e.elapsed_since_start_ns,
            decreases j,
        {
            let ghost t = sorted.take(j as int);
            assert(t.drop_last() =~= sorted.take(j - 1));
            assert(t.last() == sorted[j - 1]);
            assert(sorted.skip(j - 1) =~= seq![sorted[j - 1]] + sorted.skip(j as int));
            assert(insert_by_start(sorted.take(j - 1), ev).push(sorted[j - 1]) + sorted.skip(
                j as int,
            ) =~= insert_by_start(sorted.take(j - 1), ev) + sorted.skip(j - 1));
            j = j - 1;
        }
        proof {
            let t = sorted.take(j as int);
            if j > 0 {
                assert(t.last() == sorted[j - 1]);
            }
            assert(insert_by_start(t, ev) == t.push(ev));
        }
        out.insert(j, e);
        assert(events_view(out@) =~= sorted.take(j as int).push(ev) + sorted.skip(j as int));
        assert(all.take(n + 1).drop_last() =~= all.take(n as int));
        n = n + 1;
    }
    assert(all.take(n as int) =~= all);
    out
}

// ─── The data ───────────────────────────────────────────────────────────────

/// The finished startup timing.
#[derive(Debug)]
pub struct StartupData {
    pub events: Vec<StartupEvent>,
    /// The whole startup, in nanoseconds.
    pub total_ns: u64,
}

/// Nanoseconds in a millisecond and in a second.
pub open spec fn ns_per_ms() -> nat {
    1_000_000
}

pub open spec fn ns_per_s() -> nat {
    1_000_000_000
}

/// The whole milliseconds of a duration.
pub open spec fn millis(ns: u64) -> nat {
    (ns as nat) / ns_per_ms()
}

/// The sum of the whole milliseconds of the events of category `c`.
pub open spec fn category_ms(s: Seq<EventView>, c: StartupCategory) -> nat
    decreases s.len(),
{
    if s.len() == 0 {
        0
    } else {
        category_ms(s.drop_last(), c) + if s.last().3 == c {
            millis(s.last().2)
        } else {
            0
        }
    }
}

/// The nanoseconds spent in the events of category `c`.
pub open spec fn category_ns(s: Seq<EventView>, c: StartupCategory) -> nat
    decreases s.len(),
{
    if s.len() == 0 {
        0
    } else {
        category_ns(s.drop_last(), c) + if s.last().3 == c {
            s.last().2 as nat
        } else {
            0
        }
    }
}

/// A startup record as it is kept in the history.
#[derive(Debug, Clone, Copy, PartialEq, Eq, Structural)]
pub struct StartupHistoryEntry {
    pub timestamp: i64,
    pub total_ms: u64,
    pub lsp_ms: u64,
    pub plugins_ms: u64,
    pub session_ms: u64,
}

/// The calendar text of a report's time, `secs` seconds after the epoch,
/// with years of 365 days and months of 30 (the last one longer):
/// `year-month-day hour:minute:second`, all but the year zero-padded to two
/// digits.
pub open spec fn report_date(secs: nat) -> Seq<char> {
    let days = secs / 86400;
    let time_of_day = secs % 86400;
    let h = time_of_day / 3600;
    let m = (time_of_day % 3600) / 60;
    let s = time_of_day % 60;
    let year = 1970 + days / 365;
    let day_of_year = days % 365;
    let month = (if day_of_year / 30 < 11 {
        day_of_year / 30
    } else {
        11
    }) + 1;
    let day = day_of_year % 30 + 1;
    decimal(year as nat) + "-"@ + zero_pad(decimal(month as nat), 2) + "-"@ + zero_pad(
        decimal(day as nat),
        2,
    ) + " "@ + zero_pad(decimal(h as nat), 2) + ":"@ + zero_pad(decimal(m as nat), 2) + ":"@
        + zero_pad(decimal(s as nat), 2)
}

/// The report lines of the events, in order: `name: <ms>ms`.
pub open spec fn event_lines(s: Seq<EventView>) -> Seq<char>
    decreases s.len(),
{
    if s.len() == 0 {
        Seq::empty()
    } else {
        event_lines(s.drop_last()) + s.last().0 + ": "@ + decimal(millis(s.last().2)) + "ms\n"@
    }
}

/// The plain-text report of a startup generated `now_secs` seconds after
/// the epoch.
pub open spec fn report_text(total_ns: u64, events: Seq<EventView>, now_secs: u64) -> Seq<char> {
    "Blue IDE Startup Report\nGenerated: "@ + report_date(now_secs as nat) + "\nTotal: "@
        + fixed_point(total_ns as nat, ns_per_s(), 3) + "s\n---\n"@ + event_lines(events)
}

/// The time of a report as text, as `report_date`.
pub fn date_text(secs: u64) -> (r: String)
    ensures
        r@ == report_date(secs as nat),
{
    let days = secs / 86400;
    let time_of_day = secs % 86400;
    let h = time_of_day / 3600;
    let m = (time_of_day % 3600) / 60;
    let s = time_of_day % 60;
    let year = 1970 + days / 365;
    let day_of_year = days % 365;
    let month = (if day_of_year / 30 < 11 {
        day_of_year / 30
    } else {
        11
    }) + 1;
    let day = day_of_year % 30 + 1;
    let mut out = fmt_u64(year);
    push_str(&mut out, "-");
    push_str(&mut out, fmt_u64_padded(month, 2).as_str());
    push_str(&mut out, "-");
    push_str(&mut out, fmt_u64_padded(day, 2).as_str());
    push_str(&mut out, " ");
    push_str(&mut out, fmt_u64_padded(h, 2).as_str());
    push_str(&mut out, ":");
    push_str(&mut out, fmt_u64_padded(m, 2).as_str());
    push_str(&mut out, ":");
    push_str(&mut out, fmt_u64_padded(s, 2).as_str());
    out
}

/// A duration as the event list shows it: seconds with two decimals from a
/// second on, whole milliseconds below.
pub open spec fn duration_text_of(ns: u64) -> Seq<char> {
    if ns as nat >= ns_per_s() {
        fixed_point(ns as nat, ns_per_s(), 2) + "s"@
    } else {
        decimal(millis(ns)) + "ms"@
    }
}

/// A duration as the event list shows it, as `duration_text_of`.
pub fn duration_text(ns: u64) -> (r: String)
    ensures
        r@ == duration_text_of(ns),
{
    if ns >= 1_000_000_000 {
        let mut s = fmt_fixed(ns, 1_000_000_000, 2);
        push_str(&mut s, "s");
        s
    } else {
        let mut s = fmt_u64(ns / 1_000_000);
        push_str(&mut s, "ms");
        s
    }
}

impl StartupData {
    /// The plain-text report, generated `now_secs` seconds after the epoch,
    /// as `report_text`.
    pub fn text_report(&self, now_secs: u64) -> (r: String)
        ensures
            r@ == report_text(self.total_ns, events_view(self.events@), now_secs),
    {
        let ghost ev = events_view(self.events@);
        let mut out = owned("Blue IDE Startup Report\nGenerated: ");
        push_str(&mut out, date_text(now_secs).as_str());
        push_str(&mut out, "\nTotal: ");
        push_str(&mut out, fmt_fixed(self.total_ns, 1_000_000_000, 3).as_str());
        push_str(&mut out, "s\n---\n");
        let ghost head = out@;
        let mut i: usize = 0;
        while i < self.events.len()
            invariant
                i <= self.events@.len(),
                ev == events_view(self.events@),
                out@ == head + event_lines(ev.take(i as int)),
            decreases self.events.len() - i,
        {
            let e = &self.events[i];
            assert(ev.take(i + 1).drop_last() =~= ev.take(i as int));
            push_str(&mut out, e.name.as_str());
            push_str(&mut out, ": ");
            push_str(&mut out, fmt_u64(e.duration_ns / 1_000_000).as_str());
            push_str(&mut out, "ms\n");
            i = i + 1;
        }
        assert(ev.take(self.events.len() as int) =~= ev);
        out
    }

    /// The history record of this startup, made `now_unix` seconds after
    /// the epoch: the total and the LSP, plugin and session times, each the
    /// sum of its events' whole milliseconds.
    pub fn to_history_entry(&self, now_unix: i64) -> (r: StartupHistoryEntry)
        requires
            category_ms(events_view(self.events@), StartupCategory::Lsp) <= u64::MAX,
            category_ms(events_view(self.events@), StartupCategory::Plugins) <= u64::MAX,
            category_ms(events_view(self.events@), StartupCategory::Session) <= u64::MAX,
        ensures
            r.timestamp == now_unix,
            r.total_ms == millis(self.total_ns),
            r.lsp_ms == category_ms(events_view(self.events@), StartupCategory::Lsp),
            r.plugins_ms == category_ms(events_view(self.events@), StartupCategory::Plugins),
            r.session_ms == category_ms(events_view(self.events@), StartupCategory::Session),
    {
        StartupHistoryEntry {
            timestamp: now_unix,
            total_ms: self.total_ns / 1_000_000,
            lsp_ms: self.sum_category(StartupCategory::Lsp),
            plugins_ms: self.sum_category(StartupCategory::Plugins),
            session_ms: self.sum_category(StartupCategory::Session),
        }
    }

    fn sum_category(&self, c: StartupCategory) -> (r: u64)
        requires
            category_ms(events_view(self.events@), c) <= u64::MAX,
        ensures
            r == category_ms(events_view(self.events@), c),
    {
        let ghost ev = events_view(self.events@);
        let mut total: u64 = 0;
        let mut i: usize = 0;
        while i < self.events.len()
            invariant
                i <= self.events@.len(),
                ev == events_view(self.events@),
                category_ms(ev, c) <= u64::MAX,
                total == category_ms(ev.take(i as int), c),
            decreases self.events.len() - i,
        {
            assert(ev.take(i + 1).drop_last() =~= ev.take(i as int));
            proof {
                lemma_category_ms_prefix(ev, c, i + 1);
            }
            if self.events[i].category == c {
                total = total + self.events[i].duration_ns / 1_000_000;
            }
            i = i + 1;
        }
        assert(ev.take(self.events.len() as int) =~= ev);
        total
    }

    /// The nanoseconds spent in each category, in category order.
    pub fn category_totals(&self) -> (r: Vec<(StartupCategory, u64)>)
        requires
            forall|c: StartupCategory| category_ns(events_view(self.events@), c) <= u64::MAX,
        ensures
            r@.len() == 9,
            forall|i: int|
                0 <= i < 9 ==> (#[trigger] r@[i]).1 == category_ns(events_view(self.events@), r@[i].0),
            r@.map_values(|x: (StartupCategory, u64)| x.0) == all_categories(),
    {
        let cats = categories();
        let mut out: Vec<(StartupCategory, u64)> = Vec::new();
        let mut k: usize = 0;
        while k < cats.len()
            invariant
                k <= 9,
                cats@ == all_categories(),
                forall|c: StartupCategory| category_ns(events_view(self.events@), c) <= u64::MAX,
                out@.len() == k,
                forall|i: int|
                    0 <= i < k ==> (#[trigger] out@[i]).1 == category_ns(events_view(self.events@), out@[i].0)
                        && out@[i].0 == cats@[i],
            decreases 9 - k,
        {
            let c = cats[k];
            out.push((c, self.total_of(c)));
            k = k + 1;
        }
        assert(out@.map_values(|x: (StartupCategory, u64)| x.0) =~= all_categories());
        out
    }

    fn total_of(&self, c: StartupCategory) -> (r: u64)
        requires
            category_ns(events_view(self.events@), c) <= u64::MAX,
        ensures
            r == category_ns(events_view(self.events@), c),
    {
        let ghost ev = events_view(self.events@);
        let mut total: u64 = 0;
        let mut i: usize = 0;
        while i < self.events.len()
            invariant
                i <= self.events@.len(),
                ev == events_view(self.events@),
                category_ns(ev, c) <= u64::MAX,
                total == category_ns(ev.take(i as int), c),
            decreases self.events.len() - i,
        {
            assert(ev.take(i + 1).drop_last() =~= ev.take(i as int));
            proof {
                lemma_category_ns_prefix(ev, c, i + 1);
            }
            if self.events[i].category == c {
                total = total + self.events[i].duration_ns;
            }
            i = i + 1;
        }
        assert(ev.take(self.events.len() as int) =~= ev);
        total
    }
}

/// The categories in declaration order.
pub open spec fn all_categories() -> Seq<StartupCategory> {
    seq![
        StartupCategory::System,
        StartupCategory::Config,
        StartupCategory::FileTree,
        StartupCategory::Git,
        StartupCategory::Lsp,
        StartupCategory::Plugins,
        StartupCategory::Session,
        StartupCategory::Rendering,
        StartupCategory::Other,
    ]
}

fn categories() -> (r: Vec<StartupCategory>)
    ensures
        r@ == all_categories(),
{
    let mut v: Vec<StartupCategory> = Vec::new();
    v.push(StartupCategory::System);
    v.push(StartupCategory::Config);
    v.push(StartupCategory::FileTree);
    v.push(StartupCategory::Git);
    v.push(StartupCategory::Lsp);
    v.push(StartupCategory::Plugins);
    v.push(StartupCategory::Session);
    v.push(StartupCategory::Rendering);
    v.push(StartupCategory::Other);
    assert(v@ =~= all_categories());
    v
}

/// A category's total over a prefix is at most its total.
proof fn lemma_category_ms_prefix(s: Seq<EventView>, c: StartupCategory, n: int)
    requires
        0 <= n <= s.len(),
    ensures
        category_ms(s.take(n), c) <= category_ms(s, c),
    decreases s.len() - n,
{
    if n < s.len() {
        lemma_category_ms_prefix(s, c, n + 1);
        assert(s.take(n + 1).drop_last() =~= s.take(n));
    } else {
        assert(s.take(n) =~= s);
    }
}

proof fn lemma_category_ns_prefix(s: Seq<EventView>, c: StartupCategory, n: int)
    requires
        0 <= n <= s.len(),
    ensures
        category_ns(s.take(n), c) <= category_ns(s, c),
    decreases s.len() - n,
{
    if n < s.len() {
        lemma_category_ns_prefix(s, c, n + 1);
        assert(s.take(n + 1).drop_last() =~= s.take(n));
    } else {
        assert(s.take(n) =~= s);
    }
}

// ─── History ────────────────────────────────────────────────────────────────

/// How many startup records the history keeps.
pub const HISTORY_LIMIT: usize = 10;

/// The history after `entry` is added: the newest `HISTORY_LIMIT` records.
pub open spec fn history_after(history: Seq<StartupHistoryEntry>, entry: StartupHistoryEntry) -> Seq<
    StartupHistoryEntry,
> {
    let all = history.push(entry);
    if all.len() > HISTORY_LIMIT {
        all.skip(all.len() - HISTORY_LIMIT)
    } else {
        all
    }
}

/// Adds `entry` to the history, keeping the newest `HISTORY_LIMIT`
/// records, as `history_after`.
pub fn push_history(history: &mut Vec<StartupHistoryEntry>, entry: StartupHistoryEntry)
    ensures
        final(history)@ == history_after(old(history)@, entry),
{
    history.push(entry);
    let ghost all = history@;
    if history.len() > HISTORY_LIMIT {
        let drop = history.len() - HISTORY_LIMIT;
        let mut kept: Vec<StartupHistoryEntry> = Vec::new();
        let mut i: usize = drop;
        while i < history.len()
            invariant
                drop <= i <= history@.len(),
                history@ == all,
                kept@ == all.subrange(drop as int, i as int),
            decreases history.len() - i,
        {
            kept.push(history[i]);
            assert(kept@ =~= all.subrange(drop as int, i + 1));
            i = i + 1;
        }
        *history = kept;
    }
}

// ─── The breakdown panel ────────────────────────────────────────────────────

/// The state of the startup breakdown window.
#[derive(Debug)]
pub struct StartupBreakdownState {
    pub open: bool,
    pub history: Vec<StartupHistoryEntry>,
    pub history_loaded: bool,
    /// The event row shown expanded, by index.
    pub expanded_row: Option<usize>,
}

impl Default for StartupBreakdownState {
    fn default() -> (r: Self)
        ensures
            !r.open,
            r.history@.len() == 0,
            !r.history_loaded,
            r.expanded_row is None,
    {
        StartupBreakdownState {
            open: false,
            history: Vec::new(),
            history_loaded: false,
            expanded_row: None,
        }
    }
}

impl StartupBreakdownState {
    /// Opens the window. Returns whether the history is still to be loaded
    /// (the first time only): the caller then hands it to `set_history`.
    pub fn open_panel(&mut self) -> (load: bool)
        ensures
            final(self).open,
            load == !old(self).history_loaded,
            final(self).history_loaded == old(self).history_loaded,
            final(self).history@ == old(self).history@,
            final(self).expanded_row == old(self).expanded_row,
    {
        self.open = true;
        !self.history_loaded
    }

    /// Takes the loaded history.
    pub fn set_history(&mut self, history: Vec<StartupHistoryEntry>)
        ensures
            final(self).history@ == history@,
            final(self).history_loaded,
            final(self).open == old(self).open,
            final(self).expanded_row == old(self).expanded_row,
    {
        self.history = history;
        self.history_loaded = true;
    }

    /// A click on event row `idx`: it expands, or collapses if it was the
    /// expanded one.
    pub fn toggle_row(&mut self, idx: usize)
        ensures
            final(self).expanded_row == if old(self).expanded_row == Some(idx) {
                None
            } else {
                Some(idx)
            },
            final(self).open == old(self).open,
            final(self).history@ == old(self).history@,
            final(self).history_loaded == old(self).history_loaded,
    {
        let expanded = match self.expanded_row {
            Some(r) => r == idx,
            None => false,
        };
        self.expanded_row = if expanded {
            None
        } else {
            Some(idx)
        };
    }
}

/// The colour of a history bar: red above three seconds, yellow above one
/// and a half, green otherwise.
pub fn history_bar_color(total_ms: u64) -> (r: (u8, u8, u8))
    ensures
        r == if total_ms > 3000 {
            (220u8, 80u8, 80u8)
        } else if total_ms > 1500 {
            (220u8, 180u8, 50u8)
        } else {
            (60u8, 180u8, 90u8)
        },
{
    if total_ms > 3000 {
        (220, 80, 80)
    } else if total_ms > 1500 {
        (220, 180, 50)
    } else {
        (60, 180, 90)
    }
}

/// The advice shown for a slow startup whose slowest category is `c`.
pub open spec fn advice_for(c: Option<StartupCategory>) -> Seq<char> {
    match c {
        Some(StartupCategory::Lsp) => "rust-analyzer startup is slow. This is normal for first run or large projects."@,
        Some(StartupCategory::Plugins) => "Plugins are slow. Check which plugin is slowest and disable it if not needed."@,
        Some(StartupCategory::Session) => "Restoring session files is slow. Reduce the number of open tabs for faster startup."@,
        Some(StartupCategory::FileTree) => "Directory scan is slow. Add large directories to the exclude list in Settings."@,
        _ => "Review the event list below for the bottleneck."@,
    }
}

/// Whether some event has category `c`.
pub open spec fn has_category(s: Seq<EventView>, c: StartupCategory) -> bool {
    exists|i: int| 0 <= i < s.len() && s[i].3 == c
}

/// `c` is a slowest category of the events: it has events, and no
/// category's whole milliseconds exceed its own.
pub open spec fn is_slowest(s: Seq<EventView>, c: StartupCategory) -> bool {
    &&& has_category(s, c)
    &&& forall|d: StartupCategory|
        has_category(s, d) ==> category_ns(s, d) / ns_per_ms() <= category_ns(s, c) / ns_per_ms()
}

impl StartupData {
    /// The slowest category, when there are events: among categories tied
    /// for the most whole milliseconds, the last in category order.
    pub fn slowest_category(&self) -> (r: Option<StartupCategory>)
        requires
            forall|c: StartupCategory| category_ns(events_view(self.events@), c) <= u64::MAX,
        ensures
            match r {
                Some(c) => is_slowest(events_view(self.events@), c),
                None => self.events@.len() == 0,
            },
    {
        let ghost ev = events_view(self.events@);
        let totals = self.category_totals();
        let mut best: Option<(StartupCategory, u64)> = None;
        let mut k: usize = 0;
        while k < totals.len()
            invariant
                totals@.len() == 9,
                ev == events_view(self.events@),
                forall|i: int| 0 <= i < 9 ==> (#[trigger] totals@[i]).1 == category_ns(ev, totals@[i].0),
                totals@.map_values(|x: (StartupCategory, u64)| x.0) == all_categories(),
                k <= 9,
                match best {
                    Some((c, ms)) => {
                        &&& has_category(ev, c)
                        &&& ms == category_ns(ev, c) / ns_per_ms()
                        &&& forall|i: int|
                            0 <= i < k && has_category(ev, totals@[i].0) ==> category_ns(
                                ev,
                                #[trigger] totals@[i].0,
                            ) / ns_per_ms() <= ms
                    },
                    None => forall|i: int| 0 <= i < k ==> !has_category(ev, #[trigger] totals@[i].0),
                },
            decreases 9 - k,
        {
            let (c, ns) = totals[k];
            assert(totals@.map_values(|x: (StartupCategory, u64)| x.0)[k as int] == c);
            if self.has_events_of(c) {
                let ms = ns / 1_000_000;
                best = match best {
                    Some((b, bms)) => if ms >= bms {
                        Some((c, ms))
                    } else {
                        Some((b, bms))
                    },
                    None => Some((c, ms)),
                };
            }
            k = k + 1;
        }
        proof {
            assert forall|d: StartupCategory| true implies all_categories().contains(d) by {
                match d {
                    StartupCategory::System => assert(all_categories()[0] == d),
                    StartupCategory::Config => assert(all_categories()[1] == d),
                    StartupCategory::FileTree => assert(all_categories()[2] == d),
                    StartupCategory::Git => assert(all_categories()[3] == d),
                    StartupCategory::Lsp => assert(all_categories()[4] == d),
                    StartupCategory::Plugins => assert(all_categories()[5] == d),
                    StartupCategory::Session => assert(all_categories()[6] == d),
                    StartupCategory::Rendering => assert(all_categories()[7] == d),
                    StartupCategory::Other => assert(all_categories()[8] == d),
                }
            }
            assert forall|d: StartupCategory| has_category(ev, d) implies exists|i: int|
                0 <= i < 9 && #[trigger] totals@[i].0 == d by {
                let i = choose|i: int| 0 <= i < 9 && all_categories()[i] == d;
                assert(totals@.map_values(|x: (StartupCategory, u64)| x.0)[i] == d);
            }
            if self.events@.len() > 0 {
                let e0 = ev[0];
                assert(has_category(ev, e0.3));
            }
        }
        match best {
            Some((c, _)) => Some(c),
            None => None,
        }
    }

    fn has_events_of(&self, c: StartupCategory) -> (r: bool)
        ensures
            r == has_category(events_view(self.events@), c),
    {
        let ghost ev = events_view(self.events@);
        let mut i: usize = 0;
        while i < self.events.len()
            invariant
                i <= self.events@.len(),
                ev == events_view(self.events@),
                forall|k: int| 0 <= k < i ==> ev[k].3 != c,
            decreases self.events.len() - i,
        {
            if self.events[i].category == c {
                assert(ev[i as int].3 == c);
                return true;
            }
            i = i + 1;
        }
        false
    }

    /// The advice for a slow startup: the slowest category's, as
    /// `advice_for`.
    pub fn slowest_category_advice(&self) -> (r: &'static str)
        requires
            forall|c: StartupCategory| category_ns(events_view(self.events@), c) <= u64::MAX,
        ensures
            exists|c: Option<StartupCategory>|
                #![trigger advice_for(c)]
                r@ == advice_for(c) && match c {
                    Some(d) => is_slowest(events_view(self.events@), d),
                    None => self.events@.len() == 0,
                },
    {
        let slowest = self.slowest_category();
        let r = match slowest {
            Some(StartupCategory::Lsp) => "rust-analyzer startup is slow. This is normal for first run or large projects.",
            Some(StartupCategory::Plugins) => "Plugins are slow. Check which plugin is slowest and disable it if not needed.",
            Some(StartupCategory::Session) => "Restoring session files is slow. Reduce the number of open tabs for faster startup.",
            Some(StartupCategory::FileTree) => "Directory scan is slow. Add large directories to the exclude list in Settings.",
            _ => "Review the event list below for the bottleneck.",
        };
        assert(r@ == advice_for(slowest));
        r
    }

    /// Whether the startup was slow enough to warn about: over three
    /// seconds.
    pub fn is_slow(&self) -> (r: bool)
        ensures
            r == (self.total_ns as nat > 3 * ns_per_s()),
    {
        self.total_ns > 3_000_000_000
    }
}

// ─── Laws ───────────────────────────────────────────────────────────────────

proof fn lemma_insert_by_start(s: Seq<EventView>, e: EventView)
    requires
        by_start(s),
    ensures
        by_start(insert_by_start(s, e)),
        insert_by_start(s, e).to_multiset() == s.to_multiset().insert(e),
        insert_by_start(s, e).len() == s.len() + 1,
        forall|i: int|
            0 <= i < insert_by_start(s, e).len() ==> (#[trigger] insert_by_start(s, e)[i] == e
                || s.contains(insert_by_start(s, e)[i])),
    decreases s.len(),
{
    broadcast use vstd::multiset::group_multiset_axioms, vstd::seq_lib::group_seq_properties;

    if s.len() == 0 {
        assert(seq![e].to_multiset() =~= Seq::<EventView>::empty().to_multiset().insert(e));
    } else if s.last().1 <= e.1 {
        assert forall|i: int, j: int| 0 <= i <= j < s.push(e).len() implies s.push(e)[i].1
            <= s.push(e)[j].1 by {
            if j == s.len() && i < s.len() {
                assert(s[i].1 <= s.last().1);
            }
        }
        assert forall|i: int| 0 <= i < s.push(e).len() implies (#[trigger] s.push(e)[i] == e
            || s.contains(s.push(e)[i])) by {
            if i < s.len() {
                assert(s[i] == s.push(e)[i]);
            }
        }
    } else {
        let t = s.drop_last();
        assert(by_start(t));
        lemma_insert_by_start(t, e);
        let u = insert_by_start(t, e);
        assert(s =~= t.push(s.last()));
        assert forall|i: int, j: int| 0 <= i <= j < u.push(s.last()).len() implies u.push(
            s.last(),
        )[i].1 <= u.push(s.last())[j].1 by {
            if j == u.len() && i < u.len() {
                if u[i] == e {
                } else {
                    assert(t.contains(u[i]));
                    let k = choose|k: int| 0 <= k < t.len() && t[k] == u[i];
                    assert(s[k] == t[k]);
                }
            }
        }
        assert forall|i: int| 0 <= i < u.push(s.last()).len() implies (#[trigger] u.push(
            s.last(),
        )[i] == e || s.contains(u.push(s.last())[i])) by {
            if i < u.len() {
                if u[i] != e {
                    assert(t.contains(u[i]));
                    let k = choose|k: int| 0 <= k < t.len() && t[k] == u[i];
                    assert(s[k] == t[k]);
                }
            } else {
                assert(s[s.len() - 1] == s.last());
            }
        }
    }
}

/// Finishing puts the events in order of their starts, losing and adding
/// none.
pub proof fn lemma_sort_by_start(s: Seq<EventView>)
    ensures
        by_start(sort_by_start(s)),
        sort_by_start(s).to_multiset() == s.to_multiset(),
    decreases s.len(),
{
    broadcast use vstd::multiset::group_multiset_axioms, vstd::seq_lib::group_seq_properties;

    if s.len() > 0 {
        lemma_sort_by_start(s.drop_last());
        lemma_insert_by_start(sort_by_start(s.drop_last()), s.last());
        assert(s =~= s.drop_last().push(s.last()));
    }
}

/// The history keeps at most `HISTORY_LIMIT` records, the newest last, and
/// those it keeps are the newest, in order.
pub proof fn lemma_history_after(history: Seq<StartupHistoryEntry>, entry: StartupHistoryEntry)
    ensures
        history_after(history, entry).len() <= HISTORY_LIMIT,
        history_after(history, entry).last() == entry,
        history_after(history, entry).len() == if history.len() + 1 > HISTORY_LIMIT {
            HISTORY_LIMIT as int
        } else {
            (history.len() + 1) as int
        },
        history_after(history, entry).is_suffix_of(history.push(entry)),
{
    let all = history.push(entry);
    if all.len() > HISTORY_LIMIT {
        assert(all.skip(all.len() - HISTORY_LIMIT) =~= all.subrange(
            all.len() - HISTORY_LIMIT,
            all.len() as int,
        ));
    } else {
        assert(all.subrange(0, all.len() as int) =~= all);
    }
}

} // verus!
