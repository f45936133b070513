//! Diff hunks for the editor gutter: grouping per-line diff events into
//! consecutive hunks, and splicing one hunk's lines between two texts (the
//! core of per-hunk staging and unstaging).

use vstd::prelude::*;
use crate::path::{rfind, lemma_rfind};
use crate::text::{push_char, string_from_chars, str_chars};

verus! {

/// Classification of a changed region.
#[derive(Debug, Clone, Copy, PartialEq, Eq, Structural)]
pub enum HunkKind {
    Added,
    Removed,
    Modified,
}

/// A consecutive run of changed lines in the current file.
#[derive(Debug, Clone, Copy, PartialEq, Eq, Structural)]
pub struct DiffHunk {
    pub kind: HunkKind,
    /// 0-indexed starting line in the gutter.
    pub line_start: usize,
    /// Number of gutter lines occupied.
    pub line_count: usize,
    /// 0-indexed starting line in the old file.
    pub old_line_start: usize,
    /// Number of old-file lines covered by this hunk.
    pub old_line_count: usize,
    /// 0-indexed starting line in the new file.
    pub new_line_start: usize,
    /// Number of new-file lines covered by this hunk.
    pub new_line_count: usize,
}

/// Per-file diff result.
#[derive(Debug, Clone)]
pub struct FileDiff {
    pub path: String,
    pub hunks: Vec<DiffHunk>,
}

/// One changed line with its old/new file coordinates.
#[derive(Debug, Clone, Copy, PartialEq, Eq, Structural)]
pub struct DiffEvent {
    pub kind: HunkKind,
    pub old_start: usize,
    pub old_count: usize,
    pub new_start: usize,
    pub new_count: usize,
}

/// What a line of a line-by-line diff is.
#[derive(Debug, Clone, Copy, PartialEq, Eq, Structural)]
pub enum LineOrigin {
    Addition,
    Deletion,
    Context,
    /// Headers and other markers: neither a change nor a file line.
    Other,
}

// ─── Specification ──────────────────────────────────────────────────────────

/// Two 0-indexed ranges overlap or are directly adjacent.
pub open spec fn touches(a_start: int, a_count: int, b_start: int, b_count: int) -> bool {
    b_start <= a_start + a_count && a_start <= b_start + b_count
}

pub open spec fn min_int(a: int, b: int) -> int {
    if a <= b { a } else { b }
}

pub open spec fn max_int(a: int, b: int) -> int {
    if a >= b { a } else { b }
}

/// Neither of the event's ranges runs past `usize::MAX`.
pub open spec fn event_ok(e: DiffEvent) -> bool {
    e.old_start + e.old_count <= usize::MAX && e.new_start + e.new_count <= usize::MAX
}

pub open spec fn events_ok(es: Seq<DiffEvent>) -> bool {
    forall|i: int| 0 <= i < es.len() ==> event_ok(#[trigger] es[i])
}

/// A hunk's gutter lines are its old-file lines when it only removes lines,
/// and its new-file lines otherwise; no range runs past `usize::MAX`.
pub open spec fn hunk_ok(h: DiffHunk) -> bool {
    &&& h.old_line_start + h.old_line_count <= usize::MAX
    &&& h.new_line_start + h.new_line_count <= usize::MAX
    &&& if h.kind == HunkKind::Removed {
        h.line_start == h.old_line_start && h.line_count == h.old_line_count
    } else {
        h.line_start == h.new_line_start && h.line_count == h.new_line_count
    }
}

/// The hunk that a single event opens.
pub open spec fn hunk_of(e: DiffEvent) -> DiffHunk {
    DiffHunk {
        kind: e.kind,
        line_start: if e.kind == HunkKind::Removed { e.old_start } else { e.new_start },
        line_count: if e.kind == HunkKind::Removed { e.old_count } else { e.new_count },
        old_line_start: e.old_start,
        old_line_count: e.old_count,
        new_line_start: e.new_start,
        new_line_count: e.new_count,
    }
}

/// Any mix of additions and deletions is a modification.
pub open spec fn merged_kind(a: HunkKind, b: HunkKind) -> HunkKind {
    if a == HunkKind::Added && b == HunkKind::Added {
        HunkKind::Added
    } else if a == HunkKind::Removed && b == HunkKind::Removed {
        HunkKind::Removed
    } else {
        HunkKind::Modified
    }
}

/// The hunk covering both `h` and `e`.
pub open spec fn merge(h: DiffHunk, e: DiffEvent) -> DiffHunk {
    let kind = merged_kind(h.kind, e.kind);
    let os = min_int(h.old_line_start as int, e.old_start as int);
    let oe = max_int(h.old_line_start + h.old_line_count, e.old_start + e.old_count);
    let ns = min_int(h.new_line_start as int, e.new_start as int);
    let ne = max_int(h.new_line_start + h.new_line_count, e.new_start + e.new_count);
    DiffHunk {
        kind,
        line_start: (if kind == HunkKind::Removed { os } else { ns }) as usize,
        line_count: (if kind == HunkKind::Removed { oe - os } else { ne - ns }) as usize,
        old_line_start: os as usize,
        old_line_count: (oe - os) as usize,
        new_line_start: ns as usize,
        new_line_count: (ne - ns) as usize,
    }
}

/// The last hunk absorbs an event whose old and new ranges both touch its own.
pub open spec fn absorbs(h: DiffHunk, e: DiffEvent) -> bool {
    touches(h.old_line_start as int, h.old_line_count as int, e.old_start as int, e.old_count as int)
        && touches(
        h.new_line_start as int,
        h.new_line_count as int,
        e.new_start as int,
        e.new_count as int,
    )
}

/// One step of grouping: merge into the last hunk, or open a new one.
pub open spec fn step(hs: Seq<DiffHunk>, e: DiffEvent) -> Seq<DiffHunk> {
    if hs.len() > 0 && absorbs(hs.last(), e) {
        hs.drop_last().push(merge(hs.last(), e))
    } else {
        hs.push(hunk_of(e))
    }
}

/// The hunks of a list of events, grouped left to right.
pub open spec fn group(es: Seq<DiffEvent>) -> Seq<DiffHunk>
    decreases es.len(),
{
    if es.len() == 0 {
        Seq::empty()
    } else {
        step(group(es.drop_last()), es.last())
    }
}

/// `h` covers the old and new ranges of `e`.
pub open spec fn covers(h: DiffHunk, e: DiffEvent) -> bool {
    &&& h.old_line_start <= e.old_start
    &&& e.old_start + e.old_count <= h.old_line_start + h.old_line_count
    &&& h.new_line_start <= e.new_start
    &&& e.new_start + e.new_count <= h.new_line_start + h.new_line_count
}

pub open spec fn all_kind(es: Seq<DiffEvent>, k: HunkKind) -> bool {
    forall|i: int| 0 <= i < es.len() ==> (#[trigger] es[i]).kind == k
}

// ─── Laws ───────────────────────────────────────────────────────────────────

proof fn lemma_merge_ok(h: DiffHunk, e: DiffEvent)
    requires
        hunk_ok(h),
        event_ok(e),
    ensures
        hunk_ok(merge(h, e)),
        covers(merge(h, e), e),
        forall|f: DiffEvent| covers(h, f) ==> covers(merge(h, e), f),
{
}

/// Grouping events into hunks: at most one hunk per event, every hunk is
/// well formed (its gutter lines are the new-file lines unless it only
/// removes lines), every event lies inside some hunk, and a run made only of
/// additions (or only of deletions) yields only `Added` (or `Removed`)
/// hunks, so a `Modified` hunk always comes from a mix of the two.
pub proof fn lemma_group(es: Seq<DiffEvent>)
    requires
        events_ok(es),
    ensures
        group(es).len() <= es.len(),
        es.len() > 0 ==> group(es).len() > 0,
        forall|j: int| 0 <= j < group(es).len() ==> hunk_ok(#[trigger] group(es)[j]),
        forall|i: int|
            0 <= i < es.len() ==> exists|j: int|
                0 <= j < group(es).len() && covers(#[trigger] group(es)[j], #[trigger] es[i]),
        all_kind(es, HunkKind::Added) ==> forall|j: int|
            0 <= j < group(es).len() ==> (#[trigger] group(es)[j]).kind == HunkKind::Added,
        all_kind(es, HunkKind::Removed) ==> forall|j: int|
            0 <= j < group(es).len() ==> (#[trigger] group(es)[j]).kind == HunkKind::Removed,
    decreases es.len(),
{
    if es.len() > 0 {
        let pre = es.drop_last();
        let e = es.last();
        assert(events_ok(pre)) by {
            assert forall|i: int| 0 <= i < pre.len() implies event_ok(#[trigger] pre[i]) by {
                assert(pre[i] == es[i]);
            }
        }
        lemma_group(pre);
        let hs = group(pre);
        assert(event_ok(e)) by {
            assert(e == es[es.len() - 1]);
        }
        assert(all_kind(es, HunkKind::Added) ==> all_kind(pre, HunkKind::Added)) by {
            if all_kind(es, HunkKind::Added) {
                assert forall|i: int| 0 <= i < pre.len() implies (#[trigger] pre[i]).kind == HunkKind::Added by {
                    assert(pre[i] == es[i]);
                }
                assert(es[es.len() - 1].kind == HunkKind::Added);
            }
        }
        assert(all_kind(es, HunkKind::Removed) ==> all_kind(pre, HunkKind::Removed)) by {
            if all_kind(es, HunkKind::Removed) {
                assert forall|i: int| 0 <= i < pre.len() implies (#[trigger] pre[i]).kind == HunkKind::Removed by {
                    assert(pre[i] == es[i]);
                }
            }
        }
        assert(all_kind(es, HunkKind::Added) ==> e.kind == HunkKind::Added) by {
            if all_kind(es, HunkKind::Added) {
                assert(es[es.len() - 1].kind == HunkKind::Added);
            }
        }
        assert(all_kind(es, HunkKind::Removed) ==> e.kind == HunkKind::Removed) by {
            if all_kind(es, HunkKind::Removed) {
                assert(es[es.len() - 1].kind == HunkKind::Removed);
            }
        }
        let gs = group(es);
        assert(gs == step(hs, e));
        if hs.len() > 0 && absorbs(hs.last(), e) {
            let last = hs.last();
            assert(hunk_ok(last)) by {
                assert(last == hs[hs.len() - 1]);
            }
            lemma_merge_ok(last, e);
            assert(gs.len() == hs.len());
            assert forall|j: int| 0 <= j < gs.len() implies hunk_ok(#[trigger] gs[j]) by {
                if j < hs.len() - 1 {
                    assert(gs[j] == hs[j]);
                }
            }
            assert forall|i: int| 0 <= i < es.len() implies exists|j: int|
                0 <= j < gs.len() && covers(#[trigger] gs[j], #[trigger] es[i]) by {
                if i == es.len() - 1 {
                    assert(covers(gs[gs.len() - 1], es[i]));
                } else {
                    assert(es[i] == pre[i]);
                    let j = choose|j: int| 0 <= j < hs.len() && covers(#[trigger] hs[j], pre[i]);
                    if j == hs.len() - 1 {
                        assert(covers(gs[j], es[i]));
                    } else {
                        assert(gs[j] == hs[j]);
                    }
                }
            }
            if all_kind(es, HunkKind::Added) {
                assert(last.kind == HunkKind::Added);
                assert forall|j: int| 0 <= j < gs.len() implies (#[trigger] gs[j]).kind == HunkKind::Added by {
                    if j < hs.len() - 1 {
                        assert(gs[j] == hs[j]);
                    }
                }
            }
            if all_kind(es, HunkKind::Removed) {
                assert(last.kind == HunkKind::Removed);
                assert forall|j: int| 0 <= j < gs.len() implies (#[trigger] gs[j]).kind == HunkKind::Removed by {
                    if j < hs.len() - 1 {
                        assert(gs[j] == hs[j]);
                    }
                }
            }
        } else {
            assert(gs == hs.push(hunk_of(e)));
            assert forall|j: int| 0 <= j < gs.len() implies hunk_ok(#[trigger] gs[j]) by {
                if j < hs.len() {
                    assert(gs[j] == hs[j]);
                }
            }
            assert forall|i: int| 0 <= i < es.len() implies exists|j: int|
                0 <= j < gs.len() && covers(#[trigger] gs[j], #[trigger] es[i]) by {
                if i == es.len() - 1 {
                    assert(covers(gs[hs.len() as int], es[i]));
                } else {
                    assert(es[i] == pre[i]);
                    let j = choose|j: int| 0 <= j < hs.len() && covers(#[trigger] hs[j], pre[i]);
                    assert(gs[j] == hs[j]);
                }
            }
            if all_kind(es, HunkKind::Added) {
                assert forall|j: int| 0 <= j < gs.len() implies (#[trigger] gs[j]).kind == HunkKind::Added by {
                    if j < hs.len() {
                        assert(gs[j] == hs[j]);
                    }
                }
            }
            if all_kind(es, HunkKind::Removed) {
                assert forall|j: int| 0 <= j < gs.len() implies (#[trigger] gs[j]).kind == HunkKind::Removed by {
                    if j < hs.len() {
                        assert(gs[j] == hs[j]);
                    }
                }
            }
        }
    }
}

// ─── Implementation ─────────────────────────────────────────────────────────

/// True when two 0-indexed ranges overlap or are directly adjacent.
pub fn ranges_touch(a_start: usize, a_count: usize, b_start: usize, b_count: usize) -> (r: bool)
    requires
        a_start + a_count <= usize::MAX,
        b_start + b_count <= usize::MAX,
    ensures
        r == touches(a_start as int, a_count as int, b_start as int, b_count as int),
{
    let a_end = a_start + a_count;
    let b_end = b_start + b_count;
    b_start <= a_end && a_start <= b_end
}

/// Merges `event` into `hunk`: the kind coalesces, both ranges grow to
/// cover the event, and the gutter follows the new-file range unless the
/// hunk only removes lines.
pub fn merge_event(hunk: &mut DiffHunk, event: DiffEvent)
    requires
        hunk_ok(*old(hunk)),
        event_ok(event),
    ensures
        *final(hunk) == merge(*old(hunk), event),
        hunk_ok(*final(hunk)),
{
    let kind = match (hunk.kind, event.kind) {
        (HunkKind::Added, HunkKind::Added) => HunkKind::Added,
        (HunkKind::Removed, HunkKind::Removed) => HunkKind::Removed,
        _ => HunkKind::Modified,
    };
    hunk.kind = kind;
    let old_start = if hunk.old_line_start <= event.old_start { hunk.old_line_start } else { event.old_start };
    let a = hunk.old_line_start + hunk.old_line_count;
    let b = event.old_start + event.old_count;
    let old_end = if a >= b { a } else { b };
    let new_start = if hunk.new_line_start <= event.new_start { hunk.new_line_start } else { event.new_start };
    let c = hunk.new_line_start + hunk.new_line_count;
    let d = event.new_start + event.new_count;
    let new_end = if c >= d { c } else { d };
    hunk.old_line_start = old_start;
    hunk.old_line_count = old_end - old_start;
    hunk.new_line_start = new_start;
    hunk.new_line_count = new_end - new_start;
    if kind == HunkKind::Removed {
        hunk.line_start = hunk.old_line_start;
        hunk.line_count = hunk.old_line_count;
    } else {
        hunk.line_start = hunk.new_line_start;
        hunk.line_count = hunk.new_line_count;
    }
}

fn hunk_for_event(e: DiffEvent) -> (h: DiffHunk)
    ensures
        h == hunk_of(e),
{
    DiffHunk {
        kind: e.kind,
        line_start: if e.kind == HunkKind::Removed { e.old_start } else { e.new_start },
        line_count: if e.kind == HunkKind::Removed { e.old_count } else { e.new_count },
        old_line_start: e.old_start,
        old_line_count: e.old_count,
        new_line_start: e.new_start,
        new_line_count: e.new_count,
    }
}

/// Groups flat diff events into consecutive hunks.
///
/// A run that contains both additions and deletions is reported as
/// `Modified`; runs of only additions or only deletions become `Added` or
/// `Removed`.
pub fn group_events(events: Vec<DiffEvent>) -> (r: Vec<DiffHunk>)
    requires
        events_ok(events@),
    ensures
        r@ == group(events@),
{
    let mut hunks: Vec<DiffHunk> = Vec::new();
    let mut i: usize = 0;
    while i < events.len()
        invariant
            i <= events.len(),
            events_ok(events@),
            hunks@ == group(events@.take(i as int)),
        decreases events.len() - i,
    {
        let event = events[i];
        proof {
            let t = events@.take(i as int);
            assert(events_ok(t)) by {
                assert forall|k: int| 0 <= k < t.len() implies event_ok(#[trigger] t[k]) by {
                    assert(t[k] == events@[k]);
                }
            }
            lemma_group(t);
            assert(events@.take(i + 1).drop_last() == t);
            assert(event_ok(events@[i as int]));
        }
        let n = hunks.len();
        let mut merged = false;
        if n > 0 {
            let mut last = hunks[n - 1];
            proof {
                assert(hunk_ok(hunks@[n - 1]));
            }
            if ranges_touch(last.old_line_start, last.old_line_count, event.old_start, event.old_count)
                && ranges_touch(last.new_line_start, last.new_line_count, event.new_start, event.new_count)
            {
                merge_event(&mut last, event);
                hunks.pop();
                hunks.push(last);
                merged = true;
            }
        }
        if !merged {
            hunks.push(hunk_for_event(event));
        }
        i = i + 1;
    }
    assert(events@.take(events.len() as int) == events@);
    hunks
}

// ─── Events from a line-by-line diff ────────────────────────────────────────

/// Old-file lines a diff line advances past (deletions and context).
pub open spec fn old_step(o: LineOrigin) -> nat {
    if o == LineOrigin::Deletion || o == LineOrigin::Context { 1 } else { 0 }
}

/// New-file lines a diff line advances past (additions and context).
pub open spec fn new_step(o: LineOrigin) -> nat {
    if o == LineOrigin::Addition || o == LineOrigin::Context { 1 } else { 0 }
}

/// Old-file position after the given diff lines.
pub open spec fn old_pos(os: Seq<LineOrigin>) -> nat
    decreases os.len(),
{
    if os.len() == 0 { 0 } else { old_pos(os.drop_last()) + old_step(os.last()) }
}

/// New-file position after the given diff lines.
pub open spec fn new_pos(os: Seq<LineOrigin>) -> nat
    decreases os.len(),
{
    if os.len() == 0 { 0 } else { new_pos(os.drop_last()) + new_step(os.last()) }
}

/// One event per added or deleted line, at the old/new positions where it
/// occurs; context lines and markers produce no event.
pub open spec fn line_events(os: Seq<LineOrigin>) -> Seq<DiffEvent>
    decreases os.len(),
{
    if os.len() == 0 {
        Seq::empty()
    } else {
        let pre = os.drop_last();
        let old_at = old_pos(pre) as usize;
        let new_at = new_pos(pre) as usize;
        match os.last() {
            LineOrigin::Addition => line_events(pre).push(
                DiffEvent { kind: HunkKind::Added, old_start: old_at, old_count: 0, new_start: new_at, new_count: 1 },
            ),
            LineOrigin::Deletion => line_events(pre).push(
                DiffEvent { kind: HunkKind::Removed, old_start: old_at, old_count: 1, new_start: new_at, new_count: 0 },
            ),
            _ => line_events(pre),
        }
    }
}

pub proof fn lemma_positions_bounded(os: Seq<LineOrigin>)
    ensures
        old_pos(os) <= os.len(),
        new_pos(os) <= os.len(),
        forall|i: int| 0 <= i < line_events(os).len() ==> {
            &&& (#[trigger] line_events(os)[i]).old_start + line_events(os)[i].old_count <= os.len()
            &&& line_events(os)[i].new_start + line_events(os)[i].new_count <= os.len()
        },
    decreases os.len(),
{
    if os.len() > 0 {
        lemma_positions_bounded(os.drop_last());
    }
}

/// The events of a line-by-line diff (one per added or deleted line).
pub fn line_events_of(origins: &[LineOrigin]) -> (r: Vec<DiffEvent>)
    ensures
        r@ == line_events(origins@),
        events_ok(r@),
{
    let mut events: Vec<DiffEvent> = Vec::new();
    let mut old_at: usize = 0;
    let mut new_at: usize = 0;
    let mut i: usize = 0;
    while i < origins.len()
        invariant
            i <= origins.len(),
            old_at == old_pos(origins@.take(i as int)),
            new_at == new_pos(origins@.take(i as int)),
            events@ == line_events(origins@.take(i as int)),
        decreases origins.len() - i,
    {
        proof {
            lemma_positions_bounded(origins@.take(i as int));
            assert(origins@.take(i + 1).drop_last() == origins@.take(i as int));
            assert(origins@.take(i + 1).last() == origins@[i as int]);
        }
        match origins[i] {
            LineOrigin::Addition => {
                events.push(DiffEvent { kind: HunkKind::Added, old_start: old_at, old_count: 0, new_start: new_at, new_count: 1 });
                new_at = new_at + 1;
            },
            LineOrigin::Deletion => {
                events.push(DiffEvent { kind: HunkKind::Removed, old_start: old_at, old_count: 1, new_start: new_at, new_count: 0 });
                old_at = old_at + 1;
            },
            LineOrigin::Context => {
                old_at = old_at + 1;
                new_at = new_at + 1;
            },
            LineOrigin::Other => {},
        }
        i = i + 1;
    }
    proof {
        assert(origins@.take(origins.len() as int) == origins@);
        lemma_positions_bounded(origins@);
    }
    events
}

/// The gutter hunks of a line-by-line diff: its events, grouped.
pub fn hunks_of_lines(origins: &[LineOrigin]) -> (r: Vec<DiffHunk>)
    ensures
        r@ == group(line_events(origins@)),
{
    let events = line_events_of(origins);
    group_events(events)
}

// ─── Splicing lines between texts ───────────────────────────────────────────

/// The lines of `s` split on `'\n'` (like `str::split('\n')`: a text ending
/// in a newline has a final empty line, and there is always one line).
pub open spec fn split_lines(s: Seq<char>) -> Seq<Seq<char>>
    decreases s.len(),
{
    let i = rfind(s, '\n');
    if i < 0 {
        seq![s]
    } else {
        proof {
            lemma_rfind(s, '\n');
        }
        split_lines(s.take(i)).push(s.skip(i + 1))
    }
}

/// The lines joined with `'\n'` between them.
pub open spec fn join_lines(ls: Seq<Seq<char>>) -> Seq<char>
    decreases ls.len(),
{
    if ls.len() == 0 {
        Seq::empty()
    } else if ls.len() == 1 {
        ls[0]
    } else {
        join_lines(ls.drop_last()) + seq!['\n'] + ls.last()
    }
}

pub open spec fn no_newline(l: Seq<char>) -> bool {
    forall|k: int| 0 <= k < l.len() ==> l[k] != '\n'
}

pub open spec fn clamp(x: int, n: int) -> int {
    if x <= n { x } else { n }
}

/// The lines of a splice: `base`'s lines before `base_start`, the source
/// lines `source_start..source_start + source_count`, then `base`'s lines
/// from `base_start + base_count` on (every bound clamped to the line count).
pub open spec fn spliced_lines(
    base: Seq<char>,
    base_start: int,
    base_count: int,
    source: Seq<char>,
    source_start: int,
    source_count: int,
) -> Seq<Seq<char>> {
    let bl = split_lines(base);
    let sl = split_lines(source);
    let bs = clamp(base_start, bl.len() as int);
    let be = clamp(bs + base_count, bl.len() as int);
    let ss = clamp(source_start, sl.len() as int);
    let se = clamp(ss + source_count, sl.len() as int);
    bl.take(bs) + sl.subrange(ss, se) + bl.skip(be)
}

proof fn lemma_split_push(s: Seq<char>, c: char)
    ensures
        c == '\n' ==> split_lines(s.push(c)) == split_lines(s).push(Seq::<char>::empty()),
        c != '\n' ==> split_lines(s.push(c)) == split_lines(s).drop_last().push(
            split_lines(s).last().push(c),
        ),
        split_lines(s).len() >= 1,
    decreases s.len(),
{
    let t = s.push(c);
    assert(t.drop_last() == s);
    lemma_split_nonempty(s);
    if c == '\n' {
        assert(rfind(t, '\n') == s.len());
        assert(t.take(s.len() as int) == s);
        assert(t.skip(s.len() as int + 1) =~= Seq::<char>::empty());
    } else {
        assert(rfind(t, '\n') == rfind(s, '\n'));
        let i = rfind(s, '\n');
        lemma_rfind(s, '\n');
        if i < 0 {
        } else {
            assert(t.take(i) == s.take(i));
            assert(t.skip(i + 1) =~= s.skip(i + 1).push(c));
        }
    }
}

proof fn lemma_split_nonempty(s: Seq<char>)
    ensures
        split_lines(s).len() >= 1,
    decreases s.len(),
{
    let i = rfind(s, '\n');
    lemma_rfind(s, '\n');
    if i >= 0 {
        lemma_split_nonempty(s.take(i));
    }
}

/// Splitting on newlines and joining back gives the original text.
pub proof fn lemma_join_split(s: Seq<char>)
    ensures
        join_lines(split_lines(s)) == s,
        forall|j: int| 0 <= j < split_lines(s).len() ==> no_newline(#[trigger] split_lines(s)[j]),
    decreases s.len(),
{
    let i = rfind(s, '\n');
    lemma_rfind(s, '\n');
    if i >= 0 {
        let pre = s.take(i);
        lemma_join_split(pre);
        lemma_split_nonempty(pre);
        let ls = split_lines(s);
        assert(ls == split_lines(pre).push(s.skip(i + 1)));
        assert(ls.drop_last() == split_lines(pre));
        assert(join_lines(ls) == join_lines(split_lines(pre)) + seq!['\n'] + s.skip(i + 1));
        assert(s =~= pre + seq!['\n'] + s.skip(i + 1));
        assert forall|j: int| 0 <= j < ls.len() implies no_newline(#[trigger] ls[j]) by {
            if j < ls.len() - 1 {
                assert(ls[j] == split_lines(pre)[j]);
            } else {
                assert(ls[j] == s.skip(i + 1));
                assert forall|k: int| 0 <= k < ls[j].len() implies ls[j][k] != '\n' by {
                    assert(ls[j][k] == s[i + 1 + k]);
                }
            }
        }
    } else {
        assert forall|k: int| 0 <= k < s.len() implies s[k] != '\n' by {}
    }
}

/// Joining newline-free lines and splitting again gives the same lines.
pub proof fn lemma_split_join(ls: Seq<Seq<char>>)
    requires
        ls.len() >= 1,
        forall|j: int| 0 <= j < ls.len() ==> no_newline(#[trigger] ls[j]),
    ensures
        split_lines(join_lines(ls)) == ls,
    decreases ls.len(),
{
    if ls.len() == 1 {
        let s = ls[0];
        assert(rfind(s, '\n') < 0) by {
            lemma_rfind(s, '\n');
            if rfind(s, '\n') >= 0 {
                assert(no_newline(ls[0]));
            }
        }
        assert(split_lines(s) == seq![s]);
        assert(seq![s] =~= ls);
    } else {
        let pre = ls.drop_last();
        assert forall|j: int| 0 <= j < pre.len() implies no_newline(#[trigger] pre[j]) by {
            assert(pre[j] == ls[j]);
        }
        lemma_split_join(pre);
        let last = ls.last();
        assert(no_newline(ls[ls.len() - 1]));
        let jp = join_lines(pre);
        let s = join_lines(ls);
        assert(s == jp + seq!['\n'] + last);
        let n = jp.len() as int;
        assert(rfind(s, '\n') == n) by {
            lemma_rfind(s, '\n');
            let r = rfind(s, '\n');
            assert(s[n] == '\n');
            if r > n {
                assert(s[r] == last[r - n - 1]);
            }
            if r < n {
                assert(!(r < n < s.len()) || s[n] != '\n');
            }
        }
        assert(s.take(n) =~= jp);
        assert(s.skip(n + 1) =~= last);
        assert(ls =~= pre.push(last));
    }
}

/// Splits `s` on `'\n'` into owned lines.
pub fn split_lines_of(s: &str) -> (r: Vec<Vec<char>>)
    ensures
        r@.map_values(|l: Vec<char>| l@) == split_lines(s@),
{
    let cs = str_chars(s);
    let mut lines: Vec<Vec<char>> = Vec::new();
    let mut cur: Vec<char> = Vec::new();
    let mut i: usize = 0;
    proof {
        reveal_with_fuel(split_lines, 2);
        assert(cs@.take(0) =~= Seq::<char>::empty());
        assert(rfind(Seq::<char>::empty(), '\n') == -1);
    }
    while i < cs.len()
        invariant
            i <= cs.len(),
            lines@.map_values(|l: Vec<char>| l@).push(cur@) == split_lines(cs@.take(i as int)),
        decreases cs.len() - i,
    {
        let c = cs[i];
        proof {
            lemma_split_push(cs@.take(i as int), c);
            assert(cs@.take(i + 1) == cs@.take(i as int).push(c));
        }
        if c == '\n' {
            let done = cur;
            lines.push(done);
            cur = Vec::new();
            proof {
                assert(lines@.map_values(|l: Vec<char>| l@) =~= split_lines(cs@.take(i as int)));
                assert(lines@.map_values(|l: Vec<char>| l@).push(cur@) =~= split_lines(cs@.take(i + 1)));
            }
        } else {
            cur.push(c);
            proof {
                let old_ls = split_lines(cs@.take(i as int));
                assert(lines@.map_values(|l: Vec<char>| l@) =~= old_ls.drop_last());
                assert(lines@.map_values(|l: Vec<char>| l@).push(cur@) =~= split_lines(cs@.take(i + 1)));
            }
        }
        i = i + 1;
    }
    lines.push(cur);
    proof {
        assert(cs@.take(cs.len() as int) == cs@);
        assert(lines@.map_values(|l: Vec<char>| l@) =~= split_lines(s@));
    }
    lines
}

/// Appends the `n`-th line of `want` to a text holding its first `n` lines.
fn push_line(out: &mut String, line: &Vec<char>, sep: bool, Ghost(n): Ghost<int>, Ghost(want): Ghost<Seq<Seq<char>>>)
    requires
        sep == (n > 0),
        0 <= n < want.len(),
        old(out)@ == join_lines(want.take(n)),
        line@ == want[n],
    ensures
        final(out)@ == join_lines(want.take(n + 1)),
{
    let ghost before = out@;
    if sep {
        push_char(out, '\n');
    }
    let mut k: usize = 0;
    while k < line.len()
        invariant
            k <= line.len(),
            out@ == before + (if n > 0 { seq!['\n'] } else { Seq::<char>::empty() }) + line@.take(k as int),
        decreases line.len() - k,
    {
        push_char(out, line[k]);
        k = k + 1;
        assert(line@.take(k as int) == line@.take(k - 1).push(line@[k - 1]));
    }
    proof {
        assert(line@.take(line.len() as int) == line@);
        assert(want.take(n + 1).drop_last() == want.take(n));
        assert(want.take(n + 1).last() == want[n]);
        if n == 0 {
            assert(want.take(1) =~= seq![want[0]]);
            assert(out@ =~= want[0]);
        } else {
            assert(out@ =~= join_lines(want.take(n)) + seq!['\n'] + want[n]);
        }
    }
}

/// As `splice`, for any bounds: nothing when a clamped start plus its count
/// would not fit in a `usize`.
pub fn try_splice(
    base: &str,
    base_start: usize,
    base_count: usize,
    source: &str,
    source_start: usize,
    source_count: usize,
) -> (r: Option<String>)
    ensures
        match r {
            Some(t) => {
                &&& clamp(base_start as int, split_lines(base@).len() as int) + base_count <= usize::MAX
                &&& clamp(source_start as int, split_lines(source@).len() as int) + source_count
                    <= usize::MAX
                &&& t@ == join_lines(
                    spliced_lines(
                        base@,
                        base_start as int,
                        base_count as int,
                        source@,
                        source_start as int,
                        source_count as int,
                    ),
                )
            },
            None => clamp(base_start as int, split_lines(base@).len() as int) + base_count
                > usize::MAX || clamp(source_start as int, split_lines(source@).len() as int)
                + source_count > usize::MAX,
        },
{
    let nb = split_lines_of(base).len();
    let ns = split_lines_of(source).len();
    let bs = if base_start <= nb { base_start } else { nb };
    let ss = if source_start <= ns { source_start } else { ns };
    if base_count > usize::MAX - bs || source_count > usize::MAX - ss {
        return None;
    }
    Some(splice(base, base_start, base_count, source, source_start, source_count))
}

/// Splices `source`'s lines `source_start..source_start + source_count`
/// into `base` in place of its lines `base_start..base_start + base_count`
/// (every bound clamped to the number of lines).
///
/// Lines are split on `\n`, so a final newline is kept by the join.
pub fn splice(
    base: &str,
    base_start: usize,
    base_count: usize,
    source: &str,
    source_start: usize,
    source_count: usize,
) -> (r: String)
    requires
        clamp(base_start as int, split_lines(base@).len() as int) + base_count <= usize::MAX,
        clamp(source_start as int, split_lines(source@).len() as int) + source_count <= usize::MAX,
    ensures
        r@ == join_lines(
            spliced_lines(
                base@,
                base_start as int,
                base_count as int,
                source@,
                source_start as int,
                source_count as int,
            ),
        ),
{
    let base_lines = split_lines_of(base);
    let source_lines = split_lines_of(source);
    let ghost bl = split_lines(base@);
    let ghost sl = split_lines(source@);
    let bs = if base_start <= base_lines.len() { base_start } else { base_lines.len() };
    let be = if bs + base_count <= base_lines.len() { bs + base_count } else { base_lines.len() };
    let ss = if source_start <= source_lines.len() { source_start } else { source_lines.len() };
    let se = if ss + source_count <= source_lines.len() { ss + source_count } else { source_lines.len() };
    let ghost want = spliced_lines(
        base@,
        base_start as int,
        base_count as int,
        source@,
        source_start as int,
        source_count as int,
    );
    assert(base_lines@.len() == bl.len());
    assert(source_lines@.len() == sl.len());
    let ghost front = bl.take(bs as int);
    let ghost middle = sl.subrange(ss as int, se as int);
    let ghost back = bl.skip(be as int);
    assert(want == front + middle + back);
    let mut out = String::new();
    let ghost mut n: int = 0;
    let mut started = false;
    let mut k: usize = 0;
    while k < bs
        invariant
            bs <= base_lines.len(),
            k <= bs,
            n == k,
            base_lines@.map_values(|l: Vec<char>| l@) == bl,
            want == front + middle + back,
            front == bl.take(bs as int),
            out@ == join_lines(want.take(n)),
            started == (n > 0),
        decreases bs - k,
    {
        proof {
            assert(want[n] == base_lines@[k as int]@);
        }
        push_line(&mut out, &base_lines[k], started, Ghost(n), Ghost(want));
        k = k + 1;
        started = true;
        proof { n = n + 1; }
    }
    let mut k: usize = ss;
    while k < se
        invariant
            ss <= k <= se,
            se <= source_lines.len(),
            n == bs + (k - ss),
            source_lines@.map_values(|l: Vec<char>| l@) == sl,
            want == front + middle + back,
            front.len() == bs,
            middle == sl.subrange(ss as int, se as int),
            out@ == join_lines(want.take(n)),
            started == (n > 0),
        decreases se - k,
    {
        proof {
            assert(want[n] == source_lines@[k as int]@);
        }
        push_line(&mut out, &source_lines[k], started, Ghost(n), Ghost(want));
        k = k + 1;
        started = true;
        proof { n = n + 1; }
    }
    let mut k: usize = be;
    while k < base_lines.len()
        invariant
            be <= k <= base_lines.len(),
            n == bs + (se - ss) + (k - be),
            base_lines@.map_values(|l: Vec<char>| l@) == bl,
            want == front + middle + back,
            front.len() == bs,
            middle.len() == se - ss,
            back == bl.skip(be as int),
            out@ == join_lines(want.take(n)),
            started == (n > 0),
        decreases base_lines.len() - k,
    {
        proof {
            assert(want[n] == base_lines@[k as int]@);
        }
        push_line(&mut out, &base_lines[k], started, Ghost(n), Ghost(want));
        k = k + 1;
        started = true;
        proof { n = n + 1; }
    }
    assert(want.take(n) == want);
    out
}

/// The lines of a splice's result are exactly the spliced lines (when there
/// is at least one).
pub proof fn lemma_splice_lines(
    base: Seq<char>,
    base_start: int,
    base_count: int,
    source: Seq<char>,
    source_start: int,
    source_count: int,
)
    requires
        0 <= base_start,
        0 <= base_count,
        0 <= source_start,
        0 <= source_count,
        spliced_lines(base, base_start, base_count, source, source_start, source_count).len() >= 1,
    ensures
        split_lines(join_lines(spliced_lines(base, base_start, base_count, source, source_start, source_count)))
            == spliced_lines(base, base_start, base_count, source, source_start, source_count),
{
    let ls = spliced_lines(base, base_start, base_count, source, source_start, source_count);
    let bl = split_lines(base);
    let sl = split_lines(source);
    lemma_join_split(base);
    lemma_join_split(source);
    let bs = clamp(base_start, bl.len() as int);
    let be = clamp(bs + base_count, bl.len() as int);
    let ss = clamp(source_start, sl.len() as int);
    let se = clamp(ss + source_count, sl.len() as int);
    assert forall|j: int| 0 <= j < ls.len() implies no_newline(#[trigger] ls[j]) by {
        if j < bs {
            assert(ls[j] == bl[j]);
        } else if j < bs + (se - ss) {
            assert(ls[j] == sl[ss + (j - bs)]);
        } else {
            assert(ls[j] == bl[be + (j - bs - (se - ss))]);
        }
    }
    lemma_split_join(ls);
}

/// Splicing nothing into nothing leaves the base text unchanged.
pub proof fn lemma_splice_empty(base: Seq<char>, at: int, source: Seq<char>, source_start: int)
    requires
        0 <= at,
        0 <= source_start,
    ensures
        join_lines(spliced_lines(base, at, 0, source, source_start, 0)) == base,
{
    let bl = split_lines(base);
    lemma_join_split(base);
    let bs = clamp(at, bl.len() as int);
    let sl = split_lines(source);
    let ss = clamp(source_start, sl.len() as int);
    assert(spliced_lines(base, at, 0, source, source_start, 0) =~= bl);
}

/// Unstaging undoes staging: splicing `count_new` source lines over
/// `count_old` base lines at `at`, then splicing the base's original lines
/// back over them, gives the base text again (when the ranges lie inside
/// both texts and the intermediate text has a line).
pub proof fn lemma_splice_roundtrip(
    base: Seq<char>,
    at: int,
    count_old: int,
    source: Seq<char>,
    from: int,
    count_new: int,
)
    requires
        0 <= at,
        0 <= count_old,
        0 <= from,
        0 <= count_new,
        at + count_old <= split_lines(base).len(),
        from + count_new <= split_lines(source).len(),
        spliced_lines(base, at, count_old, source, from, count_new).len() >= 1,
    ensures
        join_lines(
            spliced_lines(
                join_lines(spliced_lines(base, at, count_old, source, from, count_new)),
                at,
                count_new,
                base,
                at,
                count_old,
            ),
        ) == base,
{
    let bl = split_lines(base);
    let sl = split_lines(source);
    let mid = join_lines(spliced_lines(base, at, count_old, source, from, count_new));
    lemma_splice_lines(base, at, count_old, source, from, count_new);
    lemma_join_split(base);
    let ml = split_lines(mid);
    assert(ml == bl.take(at) + sl.subrange(from, from + count_new) + bl.skip(at + count_old));
    assert(spliced_lines(mid, at, count_new, base, at, count_old) =~= bl);
}

} // verus!
