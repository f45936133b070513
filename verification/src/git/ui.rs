//! Source-control panel model: the actions the git panels emit, and the small
//! text helpers they display (status letters, truncated summaries, commit
//! times).

use vstd::prelude::*;
use crate::git::FileStatus;
use vstd::string::StringSliceAdditionalSpecFns;
use crate::git::conflict::Resolution;
use crate::text::{decimal, zero_pad, fmt_u64_padded, push_char, push_str, owned, str_eq};

verus! {

broadcast use vstd::string::group_string_axioms;

/// Actions emitted by the source-control panel for the app shell to apply.
#[derive(Debug, Clone)]
pub enum GitPanelAction {
    NoAction,
    Stage(String),
    Unstage(String),
    Commit(String),
    ShowBranchPicker,
    Fetch,
    Pull,
    Push,
    ShowLog,
    ShowTags,
    ShowConflicts,
    StashSave { message: String, include_untracked: bool },
    StashApply(usize),
    StashPop(usize),
    StashDrop(usize),
}

/// Action emitted by the commit-log modal.
#[derive(Debug, Clone)]
pub enum LogAction {
    NoAction,
    /// Cherry-pick the commit with this full SHA onto the current branch.
    CherryPick(String),
    /// Create a tag pointing at this commit.
    TagCommit(String),
    Close,
}

/// Action emitted by the tag-manager modal.
#[derive(Debug, Clone)]
pub enum TagManagerAction {
    NoAction,
    Create { name: String, message: String },
    Delete(String),
    Push(String),
    Close,
}

/// Outcome of one frame of the conflict resolver.
#[derive(Debug, Clone)]
pub struct ConflictResolverOutcome {
    /// User clicked a different path in the list.
    pub select_path: Option<usize>,
    /// User chose to resolve the current path with a whole side.
    pub resolve: Option<Resolution>,
    /// User dismissed the modal.
    pub close: bool,
}

/// The one-letter status shown before a changed file.
pub open spec fn status_letter(s: FileStatus) -> Seq<char> {
    match s {
        FileStatus::Modified => "M"@,
        FileStatus::Added => "A"@,
        FileStatus::Deleted => "D"@,
        FileStatus::Untracked => "?"@,
        FileStatus::Conflicted => "!"@,
        _ => " "@,
    }
}

pub fn status_prefix(s: &FileStatus) -> (r: &'static str)
    ensures
        r@ == status_letter(*s),
{
    match s {
        FileStatus::Modified => "M",
        FileStatus::Added => "A",
        FileStatus::Deleted => "D",
        FileStatus::Untracked => "?",
        FileStatus::Conflicted => "!",
        _ => " ",
    }
}

/// At most the first `max` bytes of `s` (the whole of `s` when it fits);
/// `max` must fall on a character boundary when `s` is longer.
pub fn truncate(s: &str, max: usize) -> (r: &str)
    requires
        s.spec_bytes().len() <= usize::MAX,
        s.spec_bytes().len() <= max || vstd::utf8::is_char_boundary(s.spec_bytes(), max as int),
    ensures
        r.spec_bytes() == if s.spec_bytes().len() <= max {
            s.spec_bytes()
        } else {
            s.spec_bytes().take(max as int)
        },
{
    if s.len() <= max {
        s
    } else {
        let (head, _) = s.split_at(max);
        assert(head.spec_bytes() =~= s.spec_bytes().take(max as int));
        head
    }
}

// ─── Commit times ───────────────────────────────────────────────────────────

/// Civil (proleptic Gregorian, UTC) date of a day count since 1970-01-01,
/// for non-negative day counts: `(year, month, day)`.
pub open spec fn civil_from_days(days: int) -> (int, int, int) {
    let z = days + 719_468;
    let era = z / 146_097;
    let doe = z - era * 146_097;
    let yoe = (doe - doe / 1460 + doe / 36524 - doe / 146_096) / 365;
    let y = yoe + era * 400;
    let doy = doe - (365 * yoe + yoe / 4 - yoe / 100);
    let mp = (5 * doy + 2) / 153;
    let d = doy - (153 * mp + 2) / 5 + 1;
    let month = if mp < 10 { mp + 3 } else { mp - 9 };
    let year = if month <= 2 { y + 1 } else { y };
    (year, month, d)
}

/// `YYYY-MM-DD hh:mm:ss` (UTC) for a positive unix time, `—` otherwise.
pub open spec fn commit_time_text(secs: int) -> Seq<char> {
    if secs <= 0 {
        "—"@
    } else {
        let days = secs / 86_400;
        let rem = secs % 86_400;
        let (y, mo, d) = civil_from_days(days);
        zero_pad(decimal(y as nat), 4) + seq!['-'] + zero_pad(decimal(mo as nat), 2) + seq!['-']
            + zero_pad(decimal(d as nat), 2) + seq![' '] + zero_pad(decimal((rem / 3600) as nat), 2)
            + seq![':'] + zero_pad(decimal(((rem % 3600) / 60) as nat), 2) + seq![':'] + zero_pad(
            decimal((rem % 60) as nat),
            2,
        )
    }
}

proof fn lemma_civil_ranges(days: int)
    requires
        0 <= days <= 110_000_000_000_000,
    ensures
        ({
            let (y, m, d) = civil_from_days(days);
            &&& 1970 <= y <= 400_000_000_000
            &&& 1 <= m <= 12
            &&& 1 <= d <= 31
        }),
{
    let z = days + 719_468;
    let era = z / 146_097;
    let doe = z - era * 146_097;
    assert(0 <= doe < 146_097);
    let yoe = (doe - doe / 1460 + doe / 36524 - doe / 146_096) / 365;
    assert(0 <= yoe <= 399);
    let doy = doe - (365 * yoe + yoe / 4 - yoe / 100);
    assert(0 <= doy <= 365);
    let mp = (5 * doy + 2) / 153;
    assert(0 <= mp <= 11);
    let d = doy - (153 * mp + 2) / 5 + 1;
    assert(1 <= d <= 31);
    assert(era >= 4);
}

/// The civil date of a non-negative day count since 1970-01-01.
fn civil_date(days: i64) -> (r: (i64, i64, i64))
    requires
        0 <= days <= 110_000_000_000_000,
    ensures
        (r.0 as int, r.1 as int, r.2 as int) == civil_from_days(days as int),
        1970 <= r.0 <= 400_000_000_000,
        1 <= r.1 <= 12,
        1 <= r.2 <= 31,
{
    proof {
        lemma_civil_ranges(days as int);
    }
    let z: i64 = days + 719_468;
    let era: i64 = z / 146_097;
    let doe: i64 = z - era * 146_097;
    let yoe: i64 = (doe - doe / 1460 + doe / 36524 - doe / 146_096) / 365;
    let y: i64 = yoe + era * 400;
    let doy: i64 = doe - (365 * yoe + yoe / 4 - yoe / 100);
    let mp: i64 = (5 * doy + 2) / 153;
    let d: i64 = doy - (153 * mp + 2) / 5 + 1;
    let month: i64 = if mp < 10 { mp + 3 } else { mp - 9 };
    let year: i64 = if month <= 2 { y + 1 } else { y };
    (year, month, d)
}

/// Formats a unix timestamp as `YYYY-MM-DD hh:mm:ss` (UTC), or `—` when it
/// is not positive.
pub fn format_time(secs: i64) -> (r: String)
    ensures
        r@ == commit_time_text(secs as int),
{
    if secs <= 0 {
        return owned("—");
    }
    let days: i64 = secs / 86_400;
    let rem: i64 = secs % 86_400;
    let h = rem / 3600;
    let m = (rem % 3600) / 60;
    let s = rem % 60;
    let (year, month, d) = civil_date(days);
    let mut out = fmt_u64_padded(year as u64, 4);
    push_char(&mut out, '-');
    push_str(&mut out, fmt_u64_padded(month as u64, 2).as_str());
    push_char(&mut out, '-');
    push_str(&mut out, fmt_u64_padded(d as u64, 2).as_str());
    push_char(&mut out, ' ');
    push_str(&mut out, fmt_u64_padded(h as u64, 2).as_str());
    push_char(&mut out, ':');
    push_str(&mut out, fmt_u64_padded(m as u64, 2).as_str());
    push_char(&mut out, ':');
    push_str(&mut out, fmt_u64_padded(s as u64, 2).as_str());
    out
}


// ─── Staged and unstaged changes ────────────────────────────────────────────

/// A file's path and status, as plain values.
pub open spec fn entry_view(e: (String, FileStatus)) -> (Seq<char>, FileStatus) {
    (e.0@, e.1)
}

pub open spec fn entries_view(v: Seq<(String, FileStatus)>) -> Seq<(Seq<char>, FileStatus)> {
    v.map_values(|e: (String, FileStatus)| entry_view(e))
}

pub open spec fn paths_view(v: Seq<String>) -> Seq<Seq<char>> {
    v.map_values(|s: String| s@)
}

/// The changed files that are staged, in the order given; unmodified files
/// are left out.
pub open spec fn staged_changes(
    entries: Seq<(Seq<char>, FileStatus)>,
    staged: Seq<Seq<char>>,
) -> Seq<(Seq<char>, FileStatus)> {
    entries.filter(|e: (Seq<char>, FileStatus)| e.1 != FileStatus::Unmodified && staged.contains(e.0))
}

/// The changed files that are not staged, in the order given; unmodified
/// files are left out.
pub open spec fn unstaged_changes(
    entries: Seq<(Seq<char>, FileStatus)>,
    staged: Seq<Seq<char>>,
) -> Seq<(Seq<char>, FileStatus)> {
    entries.filter(
        |e: (Seq<char>, FileStatus)| e.1 != FileStatus::Unmodified && !staged.contains(e.0),
    )
}

/// Whether `path` is one of `paths`.
pub fn holds_path(paths: &Vec<String>, path: &String) -> (r: bool)
    ensures
        r == paths_view(paths@).contains(path@),
{
    let mut i: usize = 0;
    while i < paths.len()
        invariant
            i <= paths.len(),
            forall|j: int| 0 <= j < i ==> paths@[j]@ != path@,
        decreases paths.len() - i,
    {
        if str_eq(paths[i].as_str(), path.as_str()) {
            assert(paths_view(paths@)[i as int] == path@);
            return true;
        }
        i = i + 1;
    }
    assert forall|j: int| 0 <= j < paths_view(paths@).len() implies paths_view(paths@)[j]
        != path@ by {
        assert(paths_view(paths@)[j] == paths@[j]@);
    }
    false
}

/// Splits the changed files into the staged ones and the rest, each group in
/// the order given; unmodified files appear in neither.
pub fn split_changes(statuses: &Vec<(String, FileStatus)>, staged: &Vec<String>) -> (r: (
    Vec<(String, FileStatus)>,
    Vec<(String, FileStatus)>,
))
    ensures
        entries_view(r.0@) == staged_changes(entries_view(statuses@), paths_view(staged@)),
        entries_view(r.1@) == unstaged_changes(entries_view(statuses@), paths_view(staged@)),
{
    let ghost all = entries_view(statuses@);
    let ghost st = paths_view(staged@);
    let ghost pin = |e: (Seq<char>, FileStatus)| e.1 != FileStatus::Unmodified && st.contains(e.0);
    let ghost pout = |e: (Seq<char>, FileStatus)| e.1 != FileStatus::Unmodified && !st.contains(e.0);
    let mut ins: Vec<(String, FileStatus)> = Vec::new();
    let mut outs: Vec<(String, FileStatus)> = Vec::new();
    let mut i: usize = 0;
    while i < statuses.len()
        invariant
            i <= statuses.len(),
            all == entries_view(statuses@),
            st == paths_view(staged@),
            pin == (|e: (Seq<char>, FileStatus)| e.1 != FileStatus::Unmodified && st.contains(e.0)),
            pout == (|e: (Seq<char>, FileStatus)| e.1 != FileStatus::Unmodified && !st.contains(e.0)),
            entries_view(ins@) == all.take(i as int).filter(pin),
            entries_view(outs@) == all.take(i as int).filter(pout),
        decreases statuses.len() - i,
    {
        let ghost before = all.take(i as int);
        assert(all.take(i as int + 1).drop_last() =~= before);
        assert(all.take(i as int + 1).last() == all[i as int]);
        let (path, status) = &statuses[i];
        assert(all[i as int] == (path@, *status));
        if *status != FileStatus::Unmodified {
            let is_in = holds_path(staged, path);
            let entry = (path.clone(), *status);
            assert(entry_view(entry) == all[i as int]);
            if is_in {
                ins.push(entry);
                assert(entries_view(ins@) =~= entries_view(ins@.drop_last()).push(entry_view(entry)));
            } else {
                outs.push(entry);
                assert(entries_view(outs@) =~= entries_view(outs@.drop_last()).push(entry_view(entry)));
            }
        }
        assert(all.take(i as int + 1).filter(pin) == if pin(all[i as int]) {
            before.filter(pin).push(all[i as int])
        } else {
            before.filter(pin)
        }) by {
            reveal(Seq::filter);
        }
        assert(all.take(i as int + 1).filter(pout) == if pout(all[i as int]) {
            before.filter(pout).push(all[i as int])
        } else {
            before.filter(pout)
        }) by {
            reveal(Seq::filter);
        }
        i = i + 1;
    }
    assert(all.take(statuses.len() as int) =~= all);
    (ins, outs)
}

} // verus!
