//! The problems panel's model: diagnostics per file, flattened into rows
//! sorted by location, counted by severity, and filtered and grouped for the
//! grouped view.

use vstd::prelude::*;
use vstd::multiset::Multiset;
use crate::lsp::types::{DiagnosticSeverity, LspDiagnostic};
use crate::path::{compare_paths, file_name, file_name_chars, lemma_path_order, path_order};
use crate::text::{
    compare_num, compare_text, contains_chars, contains_seq, lemma_text_order_facts,
    lemma_text_order_trans, num_order, str_chars, str_eq, string_from_chars, text_order,
    to_lowercase, unicode_lowercase,
};

verus! {

broadcast use vstd::seq_lib::group_to_multiset_ensures;

// ─── Rows, counts and actions ───────────────────────────────────────────────

/// One diagnostic with the file it belongs to.
#[derive(Debug, Clone)]
pub struct DiagnosticRow {
    pub path: String,
    pub line: u32,
    pub col: u32,
    pub severity: DiagnosticSeverity,
    pub message: String,
    pub code: Option<String>,
}

/// Totals shown in the panel header.
pub struct DiagnosticCounts {
    pub total: usize,
    pub errors: usize,
    pub warnings: usize,
}

/// What a click in the panel asks the editor to do.
#[derive(Debug, Clone)]
pub enum PanelAction {
    Close,
    NavigateTo { row_index: usize },
    NavigateToDiagnostic { path: String, line: usize, col: usize },
}

// ─── Ordering of rows ───────────────────────────────────────────────────────

/// Errors first, then warnings, information, hints.
pub open spec fn severity_rank(s: DiagnosticSeverity) -> nat {
    match s {
        DiagnosticSeverity::Error => 0,
        DiagnosticSeverity::Warning => 1,
        DiagnosticSeverity::Information => 2,
        DiagnosticSeverity::Hint => 3,
    }
}

/// The order of the flattened list: by path, line, column, severity rank,
/// then message.
pub open spec fn row_order(a: DiagnosticRow, b: DiagnosticRow) -> int {
    let p = text_order(a.path@, b.path@);
    if p != 0 {
        p
    } else if a.line != b.line {
        num_order(a.line as int, b.line as int)
    } else if a.col != b.col {
        num_order(a.col as int, b.col as int)
    } else if severity_rank(a.severity) != severity_rank(b.severity) {
        num_order(severity_rank(a.severity) as int, severity_rank(b.severity) as int)
    } else {
        text_order(a.message@, b.message@)
    }
}

/// Every row is ordered no later than each row after it.
pub open spec fn rows_sorted(s: Seq<DiagnosticRow>) -> bool {
    forall|i: int, j: int| 0 <= i < j < s.len() ==> row_order(#[trigger] s[i], #[trigger] s[j]) <= 0
}

/// `row_order` is a total preorder: its values are -1, 0, 1; swapping the
/// rows negates it; it is transitive.
pub proof fn lemma_row_order(a: DiagnosticRow, b: DiagnosticRow, c: DiagnosticRow)
    ensures
        -1 <= row_order(a, b) <= 1,
        row_order(b, a) == -row_order(a, b),
        row_order(a, b) <= 0 && row_order(b, c) <= 0 ==> row_order(a, c) <= 0,
{
    lemma_text_order_facts(a.path@, b.path@, 0);
    lemma_text_order_facts(b.path@, c.path@, 0);
    lemma_text_order_facts(a.path@, c.path@, 0);
    lemma_text_order_facts(a.message@, b.message@, 0);
    lemma_text_order_facts(b.message@, c.message@, 0);
    lemma_text_order_facts(a.message@, c.message@, 0);
    assert(a.path@.skip(0) == a.path@);
    assert(b.path@.skip(0) == b.path@);
    assert(c.path@.skip(0) == c.path@);
    if row_order(a, b) <= 0 && row_order(b, c) <= 0 {
        if text_order(a.path@, b.path@) < 0 || text_order(b.path@, c.path@) < 0 {
            lemma_text_order_trans(a.path@, b.path@, c.path@, 0);
            if text_order(a.path@, c.path@) == 0 {
                assert(a.path@ == c.path@);
                lemma_text_order_facts(a.path@, b.path@, 0);
            }
        } else if a.line == b.line && b.line == c.line && a.col == b.col && b.col == c.col
            && severity_rank(a.severity) == severity_rank(b.severity) && severity_rank(b.severity)
            == severity_rank(c.severity) {
            lemma_text_order_trans(a.message@, b.message@, c.message@, 0);
        }
    }
}

/// Position of a severity in the panel's order.
pub fn severity_order(severity: DiagnosticSeverity) -> (r: u8)
    ensures
        r == severity_rank(severity),
{
    match severity {
        DiagnosticSeverity::Error => 0,
        DiagnosticSeverity::Warning => 1,
        DiagnosticSeverity::Information => 2,
        DiagnosticSeverity::Hint => 3,
    }
}

/// Three-way comparison of two rows, as `row_order`.
fn compare_rows(a: &DiagnosticRow, b: &DiagnosticRow) -> (r: i8)
    ensures
        r == row_order(*a, *b),
{
    let pa = str_chars(a.path.as_str());
    let pb = str_chars(b.path.as_str());
    let p = compare_text(pa.as_slice(), pb.as_slice());
    if p != 0 {
        return p;
    }
    if a.line != b.line {
        return compare_num(a.line, b.line);
    }
    if a.col != b.col {
        return compare_num(a.col, b.col);
    }
    let sa = severity_order(a.severity);
    let sb = severity_order(b.severity);
    if sa != sb {
        return compare_num(sa as u32, sb as u32);
    }
    let ma = str_chars(a.message.as_str());
    let mb = str_chars(b.message.as_str());
    compare_text(ma.as_slice(), mb.as_slice())
}

/// Inserts `x` into the sorted `rows`, after every row that is not ordered
/// after it.
fn insert_sorted(rows: &mut Vec<DiagnosticRow>, x: DiagnosticRow)
    requires
        rows_sorted(old(rows)@),
    ensures
        rows_sorted(final(rows)@),
        final(rows)@.to_multiset() == old(rows)@.to_multiset().insert(x),
{
    let mut j: usize = rows.len();
    while j > 0 && compare_rows(&x, &rows[j - 1]) < 0
        invariant
            j <= rows.len(),
            rows_sorted(rows@),
            forall|k: int| j <= k < rows.len() ==> row_order(x, #[trigger] rows@[k]) < 0,
        decreases j,
    {
        j = j - 1;
    }
    proof {
        if j > 0 {
            assert forall|k: int| 0 <= k < j implies row_order(#[trigger] rows@[k], x) <= 0 by {
                lemma_row_order(x, rows@[j - 1], rows@[k]);
                lemma_row_order(rows@[k], rows@[j - 1], x);
            }
        }
    }
    let ghost before = rows@;
    rows.insert(j, x);
    proof {
        let s = rows@;
        assert(s == before.insert(j as int, x));
        assert forall|a: int, b: int| 0 <= a < b < s.len() implies row_order(#[trigger] s[a], #[trigger] s[b]) <= 0 by {
            if b < j {
            } else if a < j && b == j {
            } else if a < j {
                assert(s[b] == before[b - 1]);
            } else if a == j {
                assert(s[b] == before[b - 1]);
            } else {
                assert(s[a] == before[a - 1]);
                assert(s[b] == before[b - 1]);
            }
        }
    }
}

// ─── Diagnostics per file ───────────────────────────────────────────────────

/// The diagnostics the language servers published, per file path. Each path
/// is held once; entries keep the order in which their paths first arrived.
#[derive(Debug)]
pub struct DiagnosticsByFile {
    entries: Vec<(String, Vec<LspDiagnostic>)>,
}

/// Index of the entry for path `p`, or -1.
pub open spec fn path_index(e: Seq<(String, Vec<LspDiagnostic>)>, p: Seq<char>) -> int
    decreases e.len(),
{
    if e.len() == 0 {
        -1
    } else {
        let k = path_index(e.drop_last(), p);
        if k >= 0 {
            k
        } else if e.last().0@ == p {
            e.len() - 1
        } else {
            -1
        }
    }
}

pub proof fn lemma_path_index(e: Seq<(String, Vec<LspDiagnostic>)>, p: Seq<char>)
    ensures
        -1 <= path_index(e, p) < e.len(),
        path_index(e, p) >= 0 ==> e[path_index(e, p)].0@ == p,
        path_index(e, p) == -1 ==> forall|k: int| 0 <= k < e.len() ==> (#[trigger] e[k]).0@ != p,
    decreases e.len(),
{
    if e.len() > 0 {
        lemma_path_index(e.drop_last(), p);
        assert forall|k: int| 0 <= k < e.len() - 1 implies (#[trigger] e[k]) == e.drop_last()[k] by {}
    }
}

proof fn lemma_path_index_update(
    e: Seq<(String, Vec<LspDiagnostic>)>,
    p: Seq<char>,
    k: int,
    v: (String, Vec<LspDiagnostic>),
)
    requires
        0 <= k < e.len(),
        v.0@ == e[k].0@,
    ensures
        path_index(e.update(k, v), p) == path_index(e, p),
    decreases e.len(),
{
    if k < e.len() - 1 {
        assert(e.update(k, v).drop_last() == e.drop_last().update(k, v));
        lemma_path_index_update(e.drop_last(), p, k, v);
    } else {
        assert(e.update(k, v).drop_last() == e.drop_last());
    }
}

/// No path has two entries.
pub open spec fn distinct_paths(e: Seq<(String, Vec<LspDiagnostic>)>) -> bool {
    forall|i: int, j: int| 0 <= i < j < e.len() ==> (#[trigger] e[i]).0@ != (#[trigger] e[j]).0@
}

/// The diagnostics held for `p`, if it has an entry.
pub open spec fn diagnostics_of(e: Seq<(String, Vec<LspDiagnostic>)>, p: Seq<char>) -> Option<
    Vec<LspDiagnostic>,
> {
    let k = path_index(e, p);
    if k >= 0 {
        Some(e[k].1)
    } else {
        None
    }
}

/// Where paths are distinct, the entry holding `p` is the one found.
proof fn lemma_path_index_unique(e: Seq<(String, Vec<LspDiagnostic>)>, p: Seq<char>, k: int)
    requires
        distinct_paths(e),
        0 <= k < e.len(),
        e[k].0@ == p,
    ensures
        path_index(e, p) == k,
{
    lemma_path_index(e, p);
    let j = path_index(e, p);
    if j >= 0 && j != k {
        if j < k {
            assert(e[j].0@ != e[k].0@);
        } else {
            assert(e[k].0@ != e[j].0@);
        }
    }
}

/// A path has no entry exactly when no entry holds it.
proof fn lemma_path_absent(e: Seq<(String, Vec<LspDiagnostic>)>, p: Seq<char>)
    ensures
        path_index(e, p) < 0 <==> forall|k: int| 0 <= k < e.len() ==> (#[trigger] e[k]).0@ != p,
{
    lemma_path_index(e, p);
}

impl DiagnosticsByFile {
    /// Each path is held once.
    #[verifier::type_invariant]
    spec fn held_once(self) -> bool {
        distinct_paths(self.entries@)
    }

    /// The entries, in order.
    pub closed spec fn entries(&self) -> Seq<(String, Vec<LspDiagnostic>)> {
        self.entries@
    }

    /// No diagnostics for any file.
    pub fn new() -> (r: Self)
        ensures
            r.entries() == Seq::<(String, Vec<LspDiagnostic>)>::empty(),
    {
        let r = DiagnosticsByFile { entries: Vec::new() };
        r
    }

    /// Number of files with an entry.
    pub fn len(&self) -> (n: usize)
        ensures
            n == self.entries().len(),
    {
        self.entries.len()
    }

    /// Sets the diagnostics of `path`, replacing and returning those it had.
    /// A path seen before keeps its place; a new one is added at the end.
    pub fn insert(&mut self, path: String, diags: Vec<LspDiagnostic>) -> (previous: Option<
        Vec<LspDiagnostic>,
    >)
        ensures
            path_index(old(self).entries(), path@) >= 0 ==> final(self).entries() == old(
                self,
            ).entries().update(
                path_index(old(self).entries(), path@),
                (old(self).entries()[path_index(old(self).entries(), path@)].0, diags),
            ),
            path_index(old(self).entries(), path@) >= 0 ==> previous == Some(
                old(self).entries()[path_index(old(self).entries(), path@)].1,
            ),
            path_index(old(self).entries(), path@) < 0 ==> final(self).entries() == old(
                self,
            ).entries().push((path, diags)),
            path_index(old(self).entries(), path@) < 0 ==> previous is None,
            path_index(final(self).entries(), path@) >= 0,
            final(self).entries()[path_index(final(self).entries(), path@)].1 == diags,
    {
        proof {
            use_type_invariant(&*self);
        }
        let ghost e = self.entries@;
        let ghost p = path@;
        let mut i: usize = 0;
        while i < self.entries.len()
            invariant
                self.entries@ == e,
                old(self).entries() == e,
                distinct_paths(e),
                p == path@,
                i <= e.len(),
                path_index(e.take(i as int), p) == -1,
            decreases e.len() - i,
        {
            proof {
                assert(e.take(i + 1).drop_last() == e.take(i as int));
            }
            if str_eq(self.entries[i].0.as_str(), path.as_str()) {
                proof {
                    lemma_path_index(e.take(i + 1), p);
                    assert(path_index(e.take(i + 1), p) == i);
                    lemma_path_prefix(e, p, i + 1);
                }
                let mut v: Vec<(String, Vec<LspDiagnostic>)> = Vec::new();
                std::mem::swap(&mut v, &mut self.entries);
                let (key, old_diags) = v.remove(i);
                v.insert(i, (key, diags));
                proof {
                    assert(v@ == e.update(i as int, (e[i as int].0, diags)));
                    lemma_path_index_update(e, p, i as int, (e[i as int].0, diags));
                    assert forall|a: int, b: int| 0 <= a < b < v@.len() implies (#[trigger] v@[a]).0@
                        != (#[trigger] v@[b]).0@ by {
                        assert(v@[a].0 == e[a].0 && v@[b].0 == e[b].0);
                    }
                }
                self.entries = v;
                return Some(old_diags);
            }
            i = i + 1;
        }
        proof {
            assert(e.take(e.len() as int) == e);
            assert(e.push((path, diags)).drop_last() == e);
            lemma_path_absent(e, p);
        }
        let mut v: Vec<(String, Vec<LspDiagnostic>)> = Vec::new();
        std::mem::swap(&mut v, &mut self.entries);
        v.push((path, diags));
        proof {
            assert forall|a: int, b: int| 0 <= a < b < v@.len() implies (#[trigger] v@[a]).0@
                != (#[trigger] v@[b]).0@ by {
                if b == e.len() {
                    assert(v@[a] == e[a]);
                } else {
                    assert(v@[a] == e[a] && v@[b] == e[b]);
                }
            }
        }
        self.entries = v;
        None
    }
}

proof fn lemma_path_prefix(e: Seq<(String, Vec<LspDiagnostic>)>, p: Seq<char>, m: int)
    requires
        0 <= m <= e.len(),
        path_index(e.take(m), p) >= 0,
    ensures
        path_index(e, p) == path_index(e.take(m), p),
    decreases e.len() - m,
{
    if m < e.len() {
        assert(e.take(m + 1).drop_last() == e.take(m));
        lemma_path_prefix(e, p, m + 1);
    } else {
        assert(e.take(m) == e);
    }
}

impl DiagnosticsByFile {
    fn find(&self, path: &str) -> (r: Option<usize>)
        ensures
            match r {
                Some(i) => path_index(self.entries(), path@) == i,
                None => path_index(self.entries(), path@) < 0,
            },
    {
        let ghost e = self.entries@;
        let ghost p = path@;
        let mut i: usize = 0;
        while i < self.entries.len()
            invariant
                self.entries@ == e,
                p == path@,
                i <= e.len(),
                path_index(e.take(i as int), p) == -1,
            decreases e.len() - i,
        {
            proof {
                assert(e.take(i + 1).drop_last() == e.take(i as int));
            }
            if str_eq(self.entries[i].0.as_str(), path) {
                proof {
                    lemma_path_index(e.take(i + 1), p);
                    assert(path_index(e.take(i + 1), p) == i);
                    lemma_path_prefix(e, p, i + 1);
                }
                return Some(i);
            }
            i = i + 1;
        }
        proof {
            assert(e.take(e.len() as int) == e);
        }
        None
    }

    /// The entry at `i`, by position.
    pub fn entry(&self, i: usize) -> (r: &(String, Vec<LspDiagnostic>))
        requires
            i < self.entries().len(),
        ensures
            *r == self.entries()[i as int],
    {
        &self.entries[i]
    }

    /// The diagnostics of `path`, when it has an entry.
    pub fn get(&self, path: &str) -> (r: Option<&Vec<LspDiagnostic>>)
        ensures
            match r {
                Some(v) => path_index(self.entries(), path@) >= 0 && *v == self.entries()[path_index(
                    self.entries(),
                    path@,
                )].1,
                None => path_index(self.entries(), path@) < 0,
            },
    {
        proof {
            lemma_path_index(self.entries@, path@);
        }
        match self.find(path) {
            Some(i) => Some(&self.entries[i].1),
            None => None,
        }
    }

    /// Removes the entry of `path`, returning its diagnostics.
    pub fn remove(&mut self, path: &str) -> (r: Option<Vec<LspDiagnostic>>)
        ensures
            path_index(old(self).entries(), path@) >= 0 ==> {
                &&& final(self).entries() == old(self).entries().remove(
                    path_index(old(self).entries(), path@),
                )
                &&& r == Some(old(self).entries()[path_index(old(self).entries(), path@)].1)
            },
            path_index(old(self).entries(), path@) < 0 ==> final(self).entries() == old(
                self,
            ).entries() && r is None,
            path_index(final(self).entries(), path@) < 0,
            forall|q: Seq<char>|
                q != path@ ==> #[trigger] diagnostics_of(final(self).entries(), q) == diagnostics_of(
                    old(self).entries(),
                    q,
                ),
    {
        proof {
            use_type_invariant(&*self);
            lemma_path_index(self.entries@, path@);
        }
        match self.find(path) {
            Some(i) => {
                let ghost e = self.entries@;
                let mut v: Vec<(String, Vec<LspDiagnostic>)> = Vec::new();
                std::mem::swap(&mut v, &mut self.entries);
                let (_, diags) = v.remove(i);
                proof {
                    let f = v@;
                    assert forall|a: int, b: int| 0 <= a < b < f.len() implies (#[trigger] f[a]).0@
                        != (#[trigger] f[b]).0@ by {
                        let a0 = if a < i { a } else { a + 1 };
                        let b0 = if b < i { b } else { b + 1 };
                        assert(f[a] == e[a0] && f[b] == e[b0]);
                    }
                    assert forall|k: int| 0 <= k < f.len() implies (#[trigger] f[k]).0@ != path@ by {
                        if k < i {
                            assert(f[k] == e[k]);
                        } else {
                            assert(f[k] == e[k + 1]);
                            assert(e[i as int].0@ == path@);
                        }
                    }
                    lemma_path_absent(f, path@);
                    assert forall|q: Seq<char>| q != path@ implies #[trigger] diagnostics_of(f, q)
                        == diagnostics_of(e, q) by {
                        lemma_path_index(e, q);
                        lemma_path_index(f, q);
                        let k = path_index(e, q);
                        if k >= 0 {
                            assert(k != i);
                            let k2 = if k < i { k } else { k - 1 };
                            assert(f[k2] == e[k]);
                            lemma_path_index_unique(f, q, k2);
                        } else {
                            assert forall|j: int| 0 <= j < f.len() implies (#[trigger] f[j]).0@
                                != q by {
                                if j < i {
                                    assert(f[j] == e[j]);
                                } else {
                                    assert(f[j] == e[j + 1]);
                                }
                            }
                            lemma_path_absent(f, q);
                        }
                    }
                }
                self.entries = v;
                Some(diags)
            },
            None => None,
        }
    }
}

// ─── Flattening and counting ────────────────────────────────────────────────

/// The row of diagnostic `d` in file `path`.
pub open spec fn row_of(path: String, d: LspDiagnostic) -> DiagnosticRow {
    DiagnosticRow {
        path: path,
        line: d.line_start,
        col: d.col_start,
        severity: d.severity,
        message: d.message,
        code: d.code,
    }
}

/// The rows of one file's diagnostics, in order.
pub open spec fn rows_of_file(path: String, ds: Seq<LspDiagnostic>) -> Seq<DiagnosticRow> {
    ds.map_values(|d: LspDiagnostic| row_of(path, d))
}

/// The rows of all entries, file after file.
pub open spec fn rows_of_entries(e: Seq<(String, Vec<LspDiagnostic>)>) -> Seq<DiagnosticRow>
    decreases e.len(),
{
    if e.len() == 0 {
        Seq::empty()
    } else {
        rows_of_entries(e.drop_last()) + rows_of_file(e.last().0, e.last().1@)
    }
}

/// Every row of the flattened list points at the start of a diagnostic it
/// comes from: for any rows holding the flattened rows (in any order, as
/// `flatten_diagnostics` returns them), each row has the path of an entry,
/// and the start line, start column, severity, message and code of one of
/// that entry's diagnostics.
pub proof fn lemma_rows_point_at_diagnostic_starts(
    e: Seq<(String, Vec<LspDiagnostic>)>,
    rows: Seq<DiagnosticRow>,
)
    requires
        rows.to_multiset() == rows_of_entries(e).to_multiset(),
    ensures
        forall|k: int|
            0 <= k < rows.len() ==> exists|i: int, j: int|
                0 <= i < e.len() && 0 <= j < e[i].1@.len() && {
                    let d = #[trigger] e[i].1@[j];
                    &&& (#[trigger] rows[k]).path == e[i].0
                    &&& rows[k].line == d.line_start
                    &&& rows[k].col == d.col_start
                    &&& rows[k].severity == d.severity
                    &&& rows[k].message == d.message
                    &&& rows[k].code == d.code
                },
{
    broadcast use vstd::seq_lib::group_to_multiset_ensures;

    assert forall|k: int| 0 <= k < rows.len() implies exists|i: int, j: int|
        0 <= i < e.len() && 0 <= j < e[i].1@.len() && {
            let d = #[trigger] e[i].1@[j];
            &&& (#[trigger] rows[k]).path == e[i].0
            &&& rows[k].line == d.line_start
            &&& rows[k].col == d.col_start
            &&& rows[k].severity == d.severity
            &&& rows[k].message == d.message
            &&& rows[k].code == d.code
        } by {
        assert(rows.to_multiset().count(rows[k]) > 0);
        assert(rows_of_entries(e).contains(rows[k]));
        let m = choose|m: int| 0 <= m < rows_of_entries(e).len() && rows_of_entries(e)[m] == rows[k];
        lemma_row_source(e, m);
    }
}

/// Row `m` of the entries' rows is the row of some diagnostic of some entry.
proof fn lemma_row_source(e: Seq<(String, Vec<LspDiagnostic>)>, m: int)
    requires
        0 <= m < rows_of_entries(e).len(),
    ensures
        exists|i: int, j: int|
            0 <= i < e.len() && 0 <= j < e[i].1@.len() && rows_of_entries(e)[m] == row_of(
                e[i].0,
                #[trigger] e[i].1@[j],
            ),
    decreases e.len(),
{
    let prev = rows_of_entries(e.drop_last());
    let last = rows_of_file(e.last().0, e.last().1@);
    assert(rows_of_entries(e) == prev + last);
    if m < prev.len() {
        lemma_row_source(e.drop_last(), m);
        let (i, j) = choose|i: int, j: int|
            0 <= i < e.drop_last().len() && 0 <= j < e.drop_last()[i].1@.len() && prev[m] == row_of(
                e.drop_last()[i].0,
                #[trigger] e.drop_last()[i].1@[j],
            );
        assert(e.drop_last()[i] == e[i]);
        assert(rows_of_entries(e)[m] == row_of(e[i].0, e[i].1@[j]));
    } else {
        let j = m - prev.len();
        let i = e.len() - 1;
        assert(rows_of_entries(e)[m] == last[j]);
        assert(rows_of_entries(e)[m] == row_of(e[i].0, e[i].1@[j]));
    }
}

/// Number of rows of severity `sev`.
pub open spec fn severity_count(s: Seq<DiagnosticRow>, sev: DiagnosticSeverity) -> nat
    decreases s.len(),
{
    if s.len() == 0 {
        0
    } else {
        severity_count(s.drop_last(), sev) + if s.last().severity == sev { 1nat } else { 0nat }
    }
}

fn clone_code(c: &Option<String>) -> (r: Option<String>)
    ensures
        r == *c,
{
    match c {
        Some(s) => Some(s.clone()),
        None => None,
    }
}

fn make_row(path: &String, d: &LspDiagnostic) -> (r: DiagnosticRow)
    ensures
        r == row_of(*path, *d),
{
    DiagnosticRow {
        path: path.clone(),
        line: d.line_start,
        col: d.col_start,
        severity: d.severity,
        message: d.message.clone(),
        code: clone_code(&d.code),
    }
}

proof fn lemma_rows_step(e: Seq<(String, Vec<LspDiagnostic>)>, i: int, j: int)
    requires
        0 <= i < e.len(),
        0 <= j < e[i].1@.len(),
    ensures
        rows_of_entries(e.take(i)) + rows_of_file(e[i].0, e[i].1@.take(j + 1)) == (rows_of_entries(
            e.take(i),
        ) + rows_of_file(e[i].0, e[i].1@.take(j))).push(row_of(e[i].0, e[i].1@[j])),
{
    assert(rows_of_file(e[i].0, e[i].1@.take(j + 1)) =~= rows_of_file(e[i].0, e[i].1@.take(j)).push(
        row_of(e[i].0, e[i].1@[j]),
    ));
}

proof fn lemma_rows_next(e: Seq<(String, Vec<LspDiagnostic>)>, i: int)
    requires
        0 <= i < e.len(),
    ensures
        rows_of_entries(e.take(i + 1)) == rows_of_entries(e.take(i)) + rows_of_file(
            e[i].0,
            e[i].1@.take(e[i].1@.len() as int),
        ),
        rows_of_entries(e.take(i)) + rows_of_file(e[i].0, e[i].1@.take(0)) == rows_of_entries(
            e.take(i),
        ),
{
    assert(e.take(i + 1).drop_last() == e.take(i));
    assert(e[i].1@.take(e[i].1@.len() as int) == e[i].1@);
    assert(rows_of_file(e[i].0, e[i].1@.take(0)) =~= Seq::<DiagnosticRow>::empty());
    assert(rows_of_entries(e.take(i)) + Seq::<DiagnosticRow>::empty() =~= rows_of_entries(
        e.take(i),
    ));
}

/// All diagnostics as rows, sorted by path, line, column, severity and
/// message. The rows are exactly those of the entries, each once.
pub fn flatten_diagnostics(diagnostics: &DiagnosticsByFile) -> (rows: Vec<DiagnosticRow>)
    ensures
        rows_sorted(rows@),
        rows@.to_multiset() == rows_of_entries(diagnostics.entries()).to_multiset(),
{
    let ghost e = diagnostics.entries();
    let mut rows: Vec<DiagnosticRow> = Vec::new();
    let mut i: usize = 0;
    while i < diagnostics.entries.len()
        invariant
            e == diagnostics.entries(),
            i <= e.len(),
            rows_sorted(rows@),
            rows@.to_multiset() == rows_of_entries(e.take(i as int)).to_multiset(),
        decreases e.len() - i,
    {
        let path = &diagnostics.entries[i].0;
        let diags = &diagnostics.entries[i].1;
        proof {
            lemma_rows_next(e, i as int);
        }
        let mut j: usize = 0;
        while j < diags.len()
            invariant
                e == diagnostics.entries(),
                i < e.len(),
                *path == e[i as int].0,
                diags@ == e[i as int].1@,
                j <= diags.len(),
                rows_sorted(rows@),
                rows@.to_multiset() == (rows_of_entries(e.take(i as int)) + rows_of_file(
                    *path,
                    diags@.take(j as int),
                )).to_multiset(),
            decreases diags.len() - j,
        {
            let row = make_row(path, &diags[j]);
            proof {
                lemma_rows_step(e, i as int, j as int);
            }
            insert_sorted(&mut rows, row);
            j = j + 1;
        }
        proof {
            lemma_rows_next(e, i as int);
        }
        i = i + 1;
    }
    proof {
        assert(e.take(e.len() as int) == e);
    }
    rows
}

/// Totals over the rows: all rows, errors, warnings.
pub fn count_diagnostics(rows: &[DiagnosticRow]) -> (counts: DiagnosticCounts)
    ensures
        counts.total == rows@.len(),
        counts.errors == severity_count(rows@, DiagnosticSeverity::Error),
        counts.warnings == severity_count(rows@, DiagnosticSeverity::Warning),
{
    let mut errors: usize = 0;
    let mut warnings: usize = 0;
    let mut i: usize = 0;
    while i < rows.len()
        invariant
            i <= rows.len(),
            errors <= i,
            warnings <= i,
            errors == severity_count(rows@.take(i as int), DiagnosticSeverity::Error),
            warnings == severity_count(rows@.take(i as int), DiagnosticSeverity::Warning),
        decreases rows.len() - i,
    {
        proof {
            assert(rows@.take(i + 1).drop_last() == rows@.take(i as int));
        }
        match rows[i].severity {
            DiagnosticSeverity::Error => errors = errors + 1,
            DiagnosticSeverity::Warning => warnings = warnings + 1,
            _ => {},
        }
        i = i + 1;
    }
    proof {
        assert(rows@.take(rows.len() as int) == rows@);
    }
    DiagnosticCounts { total: rows.len(), errors, warnings }
}

proof fn lemma_rows_len_mono(e: Seq<(String, Vec<LspDiagnostic>)>, k: int, m: int)
    requires
        0 <= k <= m <= e.len(),
    ensures
        rows_of_entries(e.take(k)).len() <= rows_of_entries(e.take(m)).len(),
    decreases m - k,
{
    if k < m {
        lemma_rows_next(e, m - 1);
        lemma_rows_len_mono(e, k, m - 1);
    }
}

/// Errors and warnings over all files. Every diagnostic is counted once, so
/// the total number of diagnostics must fit in `usize`.
pub fn count_all_diagnostics(diagnostics: &DiagnosticsByFile) -> (r: (usize, usize))
    requires
        rows_of_entries(diagnostics.entries()).len() <= usize::MAX,
    ensures
        r.0 == severity_count(rows_of_entries(diagnostics.entries()), DiagnosticSeverity::Error),
        r.1 == severity_count(rows_of_entries(diagnostics.entries()), DiagnosticSeverity::Warning),
{
    let ghost e = diagnostics.entries();
    let mut errors: usize = 0;
    let mut warnings: usize = 0;
    let mut i: usize = 0;
    while i < diagnostics.entries.len()
        invariant
            e == diagnostics.entries(),
            rows_of_entries(e).len() <= usize::MAX,
            i <= e.len(),
            errors <= rows_of_entries(e.take(i as int)).len(),
            warnings <= rows_of_entries(e.take(i as int)).len(),
            errors == severity_count(rows_of_entries(e.take(i as int)), DiagnosticSeverity::Error),
            warnings == severity_count(
                rows_of_entries(e.take(i as int)),
                DiagnosticSeverity::Warning,
            ),
        decreases e.len() - i,
    {
        let path = &diagnostics.entries[i].0;
        let diags = &diagnostics.entries[i].1;
        proof {
            lemma_rows_next(e, i as int);
            lemma_rows_len_mono(e, i + 1, e.len() as int);
            assert(e.take(e.len() as int) == e);
        }
        let mut j: usize = 0;
        while j < diags.len()
            invariant
                e == diagnostics.entries(),
                i < e.len(),
                *path == e[i as int].0,
                diags@ == e[i as int].1@,
                j <= diags.len(),
                rows_of_entries(e.take(i as int)).len() + diags.len() <= usize::MAX,
                errors <= rows_of_entries(e.take(i as int)).len() + j,
                warnings <= rows_of_entries(e.take(i as int)).len() + j,
                errors == severity_count(
                    rows_of_entries(e.take(i as int)) + rows_of_file(*path, diags@.take(j as int)),
                    DiagnosticSeverity::Error,
                ),
                warnings == severity_count(
                    rows_of_entries(e.take(i as int)) + rows_of_file(*path, diags@.take(j as int)),
                    DiagnosticSeverity::Warning,
                ),
            decreases diags.len() - j,
        {
            proof {
                lemma_rows_step(e, i as int, j as int);
                let seen = rows_of_entries(e.take(i as int)) + rows_of_file(
                    *path,
                    diags@.take(j as int),
                );
                assert(seen.push(row_of(*path, diags@[j as int])).drop_last() == seen);
            }
            match diags[j].severity {
                DiagnosticSeverity::Error => errors = errors + 1,
                DiagnosticSeverity::Warning => warnings = warnings + 1,
                _ => {},
            }
            j = j + 1;
        }
        proof {
            lemma_rows_next(e, i as int);
        }
        i = i + 1;
    }
    proof {
        assert(e.take(e.len() as int) == e);
    }
    (errors, warnings)
}

proof fn lemma_count_remove(s: Seq<DiagnosticRow>, k: int, sev: DiagnosticSeverity)
    requires
        0 <= k < s.len(),
    ensures
        severity_count(s, sev) == severity_count(s.remove(k), sev) + if s[k].severity == sev {
            1nat
        } else {
            0nat
        },
    decreases s.len(),
{
    if k == s.len() - 1 {
        assert(s.remove(k) == s.drop_last());
    } else {
        assert(s.remove(k).drop_last() == s.drop_last().remove(k));
        lemma_count_remove(s.drop_last(), k, sev);
    }
}

/// Counting by severity does not depend on the order of the rows.
pub proof fn lemma_count_permutation(s1: Seq<DiagnosticRow>, s2: Seq<DiagnosticRow>, sev: DiagnosticSeverity)
    requires
        s1.to_multiset() == s2.to_multiset(),
    ensures
        severity_count(s1, sev) == severity_count(s2, sev),
    decreases s1.len(),
{
    broadcast use vstd::multiset::group_multiset_axioms;

    if s1.len() == 0 {
        assert(s2.to_multiset().len() == 0);
        assert(s2.len() == 0);
    } else {
        let x = s1.last();
        let r1 = s1.drop_last();
        assert(r1.push(x) == s1);
        assert(s1.to_multiset() == r1.to_multiset().insert(x));
        assert(s2.to_multiset().count(x) > 0);
        assert(s2.contains(x));
        let k = choose|k: int| 0 <= k < s2.len() && s2[k] == x;
        assert(s2.remove(k).to_multiset() == s2.to_multiset().remove(x));
        assert(r1.to_multiset() =~= r1.to_multiset().insert(x).remove(x));
        lemma_count_permutation(r1, s2.remove(k), sev);
        lemma_count_remove(s2, k, sev);
    }
}

/// The flattened list holds as many errors, warnings and rows as the files
/// do: the header totals of both views agree.
pub proof fn lemma_flattened_counts(diagnostics: DiagnosticsByFile, rows: Seq<DiagnosticRow>)
    requires
        rows.to_multiset() == rows_of_entries(diagnostics.entries()).to_multiset(),
    ensures
        rows.len() == rows_of_entries(diagnostics.entries()).len(),
        severity_count(rows, DiagnosticSeverity::Error) == severity_count(
            rows_of_entries(diagnostics.entries()),
            DiagnosticSeverity::Error,
        ),
        severity_count(rows, DiagnosticSeverity::Warning) == severity_count(
            rows_of_entries(diagnostics.entries()),
            DiagnosticSeverity::Warning,
        ),
{
    let all = rows_of_entries(diagnostics.entries());
    assert(rows.to_multiset().len() == all.to_multiset().len());
    lemma_count_permutation(rows, all, DiagnosticSeverity::Error);
    lemma_count_permutation(rows, all, DiagnosticSeverity::Warning);
}

// ─── Icons and file names ───────────────────────────────────────────────────

/// The icon of each severity: cross, warning sign, information sign, light
/// bulb.
pub open spec fn severity_icon_text(severity: DiagnosticSeverity) -> Seq<char> {
    match severity {
        DiagnosticSeverity::Error => seq!['\u{2716}'],
        DiagnosticSeverity::Warning => seq!['\u{26a0}'],
        DiagnosticSeverity::Information => seq!['\u{2139}'],
        DiagnosticSeverity::Hint => seq!['\u{1f4a1}'],
    }
}

/// The icon shown before a diagnostic.
pub fn severity_icon(severity: DiagnosticSeverity) -> (r: &'static str)
    ensures
        r@ == severity_icon_text(severity),
{
    match severity {
        DiagnosticSeverity::Error => {
            proof { reveal_strlit("\u{2716}"); }
            "\u{2716}"
        },
        DiagnosticSeverity::Warning => {
            proof { reveal_strlit("\u{26a0}"); }
            "\u{26a0}"
        },
        DiagnosticSeverity::Information => {
            proof { reveal_strlit("\u{2139}"); }
            "\u{2139}"
        },
        DiagnosticSeverity::Hint => {
            proof { reveal_strlit("\u{1f4a1}"); }
            "\u{1f4a1}"
        },
    }
}

/// The file name shown for a row: the path's last component, or nothing.
pub fn row_file_name(path: &str) -> (r: String)
    ensures
        r@ == match file_name(path@) {
            Some(n) => n,
            None => Seq::<char>::empty(),
        },
{
    match file_name_chars(str_chars(path).as_slice()) {
        Some(n) => string_from_chars(n.as_slice()),
        None => String::new(),
    }
}

// ─── The grouped view ───────────────────────────────────────────────────────

/// The grouped view's toggles and selection.
#[derive(Debug, Clone)]
pub struct ProblemsPanel {
    pub visible: bool,
    pub show_errors: bool,
    pub show_warnings: bool,
    pub show_info: bool,
    pub show_hints: bool,
    pub filter_text: String,
    pub collapsed_files: Vec<String>,
    pub selected: Option<(String, usize)>,
}

impl Default for ProblemsPanel {
    /// Hidden, every severity shown, no filter, nothing collapsed or selected.
    fn default() -> (r: Self)
        ensures
            !r.visible,
            r.show_errors && r.show_warnings && r.show_info && r.show_hints,
            r.filter_text@ == Seq::<char>::empty(),
            r.collapsed_files@ == Seq::<String>::empty(),
            r.selected is None,
    {
        ProblemsPanel {
            visible: false,
            show_errors: true,
            show_warnings: true,
            show_info: true,
            show_hints: true,
            filter_text: String::new(),
            collapsed_files: Vec::new(),
            selected: None,
        }
    }
}

/// Whether `p` is among the collapsed files `v`.
pub open spec fn collapsed_in(v: Seq<String>, p: Seq<char>) -> bool {
    exists|i: int| 0 <= i < v.len() && (#[trigger] v[i])@ == p
}

/// `p` occurs at most once among the collapsed files `v`.
pub open spec fn held_at_most_once(v: Seq<String>, p: Seq<char>) -> bool {
    forall|i: int, j: int| 0 <= i < j < v.len() && (#[trigger] v[i])@ == p ==> (#[trigger] v[j])@ != p
}

impl ProblemsPanel {
    /// Whether the group of `path` is collapsed.
    pub fn is_collapsed(&self, path: &str) -> (r: bool)
        ensures
            r == collapsed_in(self.collapsed_files@, path@),
    {
        let mut i: usize = 0;
        while i < self.collapsed_files.len()
            invariant
                i <= self.collapsed_files@.len(),
                forall|k: int| 0 <= k < i ==> (#[trigger] self.collapsed_files@[k])@ != path@,
            decreases self.collapsed_files@.len() - i,
        {
            if str_eq(self.collapsed_files[i].as_str(), path) {
                assert(self.collapsed_files@[i as int]@ == path@);
                return true;
            }
            i = i + 1;
        }
        false
    }

    /// Collapses the group of `path` when it is open, and opens it when it
    /// is collapsed; the collapsed files are a set, and `path` ends up in it
    /// at most once.
    pub fn toggle_collapsed(&mut self, path: &str)
        ensures
            forall|q: Seq<char>| #[trigger] collapsed_in(final(self).collapsed_files@, q) == if q == path@ {
                !collapsed_in(old(self).collapsed_files@, q)
            } else {
                collapsed_in(old(self).collapsed_files@, q)
            },
            held_at_most_once(final(self).collapsed_files@, path@),
            forall|q: Seq<char>| held_at_most_once(old(self).collapsed_files@, q) ==> held_at_most_once(
                final(self).collapsed_files@,
                q,
            ),
            final(self).visible == old(self).visible,
            final(self).show_errors == old(self).show_errors,
            final(self).show_warnings == old(self).show_warnings,
            final(self).show_info == old(self).show_info,
            final(self).show_hints == old(self).show_hints,
            final(self).filter_text == old(self).filter_text,
            final(self).selected == old(self).selected,
    {
        let ghost o = self.collapsed_files@;
        let was = self.is_collapsed(path);
        if !was {
            self.collapsed_files.push(crate::text::owned(path));
            let ghost n = self.collapsed_files@;
            assert forall|q: Seq<char>| #[trigger] collapsed_in(n, q) == if q == path@ {
                !collapsed_in(o, q)
            } else {
                collapsed_in(o, q)
            } by {
                if collapsed_in(o, q) {
                    let i = choose|i: int| 0 <= i < o.len() && (#[trigger] o[i])@ == q;
                    assert(n[i] == o[i]);
                }
                if q == path@ {
                    assert(n[o.len() as int]@ == q);
                }
                if collapsed_in(n, q) && q != path@ {
                    let i = choose|i: int| 0 <= i < n.len() && (#[trigger] n[i])@ == q;
                    assert(n[i] == o[i]);
                }
            }
            assert forall|i: int, j: int| 0 <= i < j < n.len() && (#[trigger] n[i])@ == path@ implies (
            #[trigger] n[j])@ != path@ by {
                assert(n[i] == o[i]);
                if j < o.len() {
                    assert(n[j] == o[j]);
                }
            }
            assert forall|q: Seq<char>| held_at_most_once(o, q) implies held_at_most_once(n, q) by {
                assert forall|i: int, j: int| 0 <= i < j < n.len() && (#[trigger] n[i])@ == q implies (
                #[trigger] n[j])@ != q by {
                    assert(n[i] == o[i]);
                    if j < o.len() {
                        assert(n[j] == o[j]);
                    } else if q == path@ {
                        assert(o[i]@ == path@);
                    }
                }
            }
        } else {
            let mut kept: Vec<String> = Vec::new();
            let mut i: usize = 0;
            while i < self.collapsed_files.len()
                invariant
                    i <= o.len(),
                    self.collapsed_files@ == o,
                    forall|k: int| 0 <= k < kept@.len() ==> (#[trigger] kept@[k])@ != path@,
                    forall|q: Seq<char>| q != path@ ==> (#[trigger] collapsed_in(kept@, q) <==> exists|k: int|
                        0 <= k < i && (#[trigger] o[k])@ == q),
                    forall|q: Seq<char>| held_at_most_once(o, q) ==> held_at_most_once(kept@, q),
                    forall|a: int| #![trigger kept@[a]] 0 <= a < kept@.len() ==> exists|k: int| 0 <= k < i && #[trigger] o[k] == kept@[a],
                decreases o.len() - i,
            {
                let ghost before = kept@;
                if !str_eq(self.collapsed_files[i].as_str(), path) {
                    kept.push(self.collapsed_files[i].clone());
                    proof {
                        let after = kept@;
                        assert forall|q: Seq<char>| q != path@ implies (#[trigger] collapsed_in(after, q) <==> exists|k: int|
                            0 <= k < i + 1 && (#[trigger] o[k])@ == q) by {
                            if collapsed_in(after, q) {
                                let a = choose|a: int| 0 <= a < after.len() && (#[trigger] after[a])@ == q;
                                if a < before.len() {
                                    assert(after[a] == before[a]);
                                    assert(collapsed_in(before, q));
                                } else {
                                    assert(o[i as int]@ == q);
                                }
                            }
                            if exists|k: int| 0 <= k < i + 1 && (#[trigger] o[k])@ == q {
                                let k = choose|k: int| 0 <= k < i + 1 && (#[trigger] o[k])@ == q;
                                if k < i {
                                    assert(o[k]@ == q);
                                    assert(exists|k2: int| 0 <= k2 < i && (#[trigger] o[k2])@ == q);
                                    assert(collapsed_in(before, q));
                                    let a = choose|a: int| 0 <= a < before.len() && (#[trigger] before[a])@ == q;
                                    assert(after[a] == before[a]);
                                    assert(after[a]@ == q);
                                } else {
                                    assert(after[before.len() as int] == o[i as int]);
                                }
                            }
                        }
                        assert forall|a: int| #![trigger after[a]] 0 <= a < after.len() implies exists|k: int| 0 <= k < i + 1 && #[trigger] o[k] == after[a] by {
                            if a < before.len() {
                                assert(after[a] == before[a]);
                                let k = choose|k: int| 0 <= k < i && #[trigger] o[k] == before[a];
                                assert(o[k] == after[a]);
                            } else {
                                assert(o[i as int] == after[a]);
                            }
                        }
                        assert forall|q: Seq<char>| held_at_most_once(o, q) implies held_at_most_once(after, q) by {
                            assert forall|x: int, y: int| 0 <= x < y < after.len() && (#[trigger] after[x])@ == q implies (
                            #[trigger] after[y])@ != q by {
                                assert(held_at_most_once(before, q));
                                if y < before.len() {
                                    assert(after[x] == before[x] && after[y] == before[y]);
                                } else {
                                    assert(after[x] == before[x]);
                                    let k = choose|k: int| 0 <= k < i && #[trigger] o[k] == before[x];
                                    assert(o[k]@ == q);
                                    assert(after[y] == o[i as int]);
                                }
                            }
                        }
                    }
                } else {
                    proof {
                        assert forall|q: Seq<char>| q != path@ implies (#[trigger] collapsed_in(kept@, q) <==> exists|k: int|
                            0 <= k < i + 1 && (#[trigger] o[k])@ == q) by {
                            if exists|k: int| 0 <= k < i + 1 && (#[trigger] o[k])@ == q {
                                let k = choose|k: int| 0 <= k < i + 1 && (#[trigger] o[k])@ == q;
                                assert(k != i);
                            }
                        }
                        assert forall|a: int| #![trigger kept@[a]] 0 <= a < kept@.len() implies exists|k: int| 0 <= k < i + 1 && #[trigger] o[k] == kept@[a] by {
                            let k = choose|k: int| 0 <= k < i && #[trigger] o[k] == kept@[a];
                        }
                    }
                }
                i = i + 1;
            }
            self.collapsed_files = kept;
            let ghost n = self.collapsed_files@;
            assert forall|q: Seq<char>| #[trigger] collapsed_in(n, q) == if q == path@ {
                !collapsed_in(o, q)
            } else {
                collapsed_in(o, q)
            } by {
                if q == path@ {
                    if collapsed_in(n, q) {
                        let a = choose|a: int| 0 <= a < n.len() && (#[trigger] n[a])@ == q;
                    }
                } else {
                    if collapsed_in(o, q) {
                        let k = choose|k: int| 0 <= k < o.len() && (#[trigger] o[k])@ == q;
                        assert(exists|k: int| 0 <= k < o.len() && (#[trigger] o[k])@ == q);
                    }
                    if collapsed_in(n, q) {
                        assert(exists|k: int| 0 <= k < o.len() && (#[trigger] o[k])@ == q);
                    }
                }
            }
        }
    }
}

/// Whether the toggles let diagnostics of `sev` through.
pub open spec fn severity_shown(state: ProblemsPanel, sev: DiagnosticSeverity) -> bool {
    match sev {
        DiagnosticSeverity::Error => state.show_errors,
        DiagnosticSeverity::Warning => state.show_warnings,
        DiagnosticSeverity::Information => state.show_info,
        DiagnosticSeverity::Hint => state.show_hints,
    }
}

/// The lower-cased file name the text filter is matched against.
pub open spec fn lowered_name(path: Seq<char>) -> Seq<char> {
    match file_name(path) {
        Some(n) => unicode_lowercase(n),
        None => Seq::<char>::empty(),
    }
}

/// Diagnostic `d` of file `path` is listed: its severity is shown, and the
/// lower-cased filter is empty or occurs in the lower-cased file name or
/// message.
pub open spec fn problem_shown(state: ProblemsPanel, path: Seq<char>, d: LspDiagnostic) -> bool {
    let f = unicode_lowercase(state.filter_text@);
    &&& severity_shown(state, d.severity)
    &&& (f.len() == 0 || contains_seq(lowered_name(path), f) || contains_seq(
        unicode_lowercase(d.message@),
        f,
    ))
}

/// The listed diagnostics of one file, in their original order.
pub open spec fn shown_diags(state: ProblemsPanel, path: Seq<char>, ds: Seq<LspDiagnostic>) -> Seq<
    LspDiagnostic,
>
    decreases ds.len(),
{
    if ds.len() == 0 {
        Seq::empty()
    } else {
        let prev = shown_diags(state, path, ds.drop_last());
        if problem_shown(state, path, ds.last()) {
            prev.push(ds.last())
        } else {
            prev
        }
    }
}

/// The files with at least one listed diagnostic, each with those
/// diagnostics, in entry order.
pub open spec fn shown_groups(state: ProblemsPanel, e: Seq<(String, Vec<LspDiagnostic>)>) -> Seq<
    (String, Seq<LspDiagnostic>),
>
    decreases e.len(),
{
    if e.len() == 0 {
        Seq::empty()
    } else {
        let prev = shown_groups(state, e.drop_last());
        let f = shown_diags(state, e.last().0@, e.last().1@);
        if f.len() > 0 {
            prev.push((e.last().0, f))
        } else {
            prev
        }
    }
}

/// Within a file: by severity rank, then line, then column.
pub open spec fn diag_order(a: LspDiagnostic, b: LspDiagnostic) -> int {
    if severity_rank(a.severity) != severity_rank(b.severity) {
        num_order(severity_rank(a.severity) as int, severity_rank(b.severity) as int)
    } else if a.line_start != b.line_start {
        num_order(a.line_start as int, b.line_start as int)
    } else {
        num_order(a.col_start as int, b.col_start as int)
    }
}

/// `s` with `x` placed after every diagnostic that does not come after it
/// (`s` being sorted): the step of a stable sort.
pub open spec fn insert_stable(s: Seq<LspDiagnostic>, x: LspDiagnostic) -> Seq<LspDiagnostic>
    decreases s.len(),
{
    if s.len() == 0 || diag_order(x, s.last()) >= 0 {
        s.push(x)
    } else {
        insert_stable(s.drop_last(), x).push(s.last())
    }
}

/// `s` sorted by `diag_order` with ties kept in their order in `s` (a stable
/// sort, which gives one result for a given input).
pub open spec fn stable_sorted(s: Seq<LspDiagnostic>) -> Seq<LspDiagnostic>
    decreases s.len(),
{
    if s.len() == 0 {
        s
    } else {
        insert_stable(stable_sorted(s.drop_last()), s.last())
    }
}

proof fn lemma_insert_stable_at(s: Seq<LspDiagnostic>, x: LspDiagnostic, j: int)
    requires
        0 <= j <= s.len(),
        j == 0 || diag_order(x, s[j - 1]) >= 0,
        forall|k: int| j <= k < s.len() ==> diag_order(x, #[trigger] s[k]) < 0,
    ensures
        insert_stable(s, x) == s.insert(j, x),
    decreases s.len(),
{
    if j == s.len() {
        assert(s.push(x) =~= s.insert(j, x));
    } else {
        assert(diag_order(x, s[s.len() - 1]) < 0);
        let d = s.drop_last();
        assert forall|k: int| j <= k < d.len() implies diag_order(x, #[trigger] d[k]) < 0 by {
            assert(d[k] == s[k]);
        }
        if j > 0 {
            assert(d[j - 1] == s[j - 1]);
        }
        lemma_insert_stable_at(d, x, j);
        assert(d.insert(j, x).push(s.last()) =~= s.insert(j, x));
    }
}

pub open spec fn diags_sorted(s: Seq<LspDiagnostic>) -> bool {
    forall|i: int, j: int| 0 <= i < j < s.len() ==> diag_order(#[trigger] s[i], #[trigger] s[j]) <= 0
}

/// Groups ordered by path.
pub open spec fn groups_sorted(g: Seq<(String, Vec<LspDiagnostic>)>) -> bool {
    forall|i: int, j: int| 0 <= i < j < g.len() ==> path_order(#[trigger] g[i].0@, #[trigger] g[j].0@) <= 0
}

/// A group with its diagnostics taken as a multiset.
pub open spec fn group_content(g: (String, Seq<LspDiagnostic>)) -> (String, Multiset<LspDiagnostic>) {
    (g.0, g.1.to_multiset())
}

/// The contents of executable groups.
pub open spec fn groups_content(g: Seq<(String, Vec<LspDiagnostic>)>) -> Multiset<
    (String, Multiset<LspDiagnostic>),
> {
    g.map_values(|x: (String, Vec<LspDiagnostic>)| group_content((x.0, x.1@))).to_multiset()
}

fn severity_enabled(state: &ProblemsPanel, sev: DiagnosticSeverity) -> (r: bool)
    ensures
        r == severity_shown(*state, sev),
{
    match sev {
        DiagnosticSeverity::Error => state.show_errors,
        DiagnosticSeverity::Warning => state.show_warnings,
        DiagnosticSeverity::Information => state.show_info,
        DiagnosticSeverity::Hint => state.show_hints,
    }
}

fn compare_diags(a: &LspDiagnostic, b: &LspDiagnostic) -> (r: i8)
    ensures
        r == diag_order(*a, *b),
{
    let sa = severity_order(a.severity);
    let sb = severity_order(b.severity);
    if sa != sb {
        return compare_num(sa as u32, sb as u32);
    }
    if a.line_start != b.line_start {
        return compare_num(a.line_start, b.line_start);
    }
    compare_num(a.col_start, b.col_start)
}

fn insert_diag_sorted(v: &mut Vec<LspDiagnostic>, x: LspDiagnostic)
    requires
        diags_sorted(old(v)@),
    ensures
        diags_sorted(final(v)@),
        final(v)@.to_multiset() == old(v)@.to_multiset().insert(x),
        final(v)@ == insert_stable(old(v)@, x),
{
    let mut j: usize = v.len();
    while j > 0 && compare_diags(&x, &v[j - 1]) < 0
        invariant
            j <= v.len(),
            diags_sorted(v@),
            forall|k: int| j <= k < v.len() ==> diag_order(x, #[trigger] v@[k]) < 0,
        decreases j,
    {
        j = j - 1;
    }
    let ghost before = v@;
    proof {
        lemma_insert_stable_at(before, x, j as int);
    }
    v.insert(j, x);
    proof {
        let s = v@;
        assert forall|a: int, b: int| 0 <= a < b < s.len() implies diag_order(#[trigger] s[a], #[trigger] s[b]) <= 0 by {
            if b < j {
            } else if a < j && b == j {
                assert(diag_order(before[a], before[j - 1]) <= 0 || a == j - 1);
            } else if a < j {
                assert(s[b] == before[b - 1]);
            } else if a == j {
                assert(s[b] == before[b - 1]);
            } else {
                assert(s[a] == before[a - 1]);
                assert(s[b] == before[b - 1]);
            }
        }
    }
}

fn insert_group_sorted(groups: &mut Vec<(String, Vec<LspDiagnostic>)>, g: (String, Vec<LspDiagnostic>))
    requires
        groups_sorted(old(groups)@),
    ensures
        groups_sorted(final(groups)@),
        groups_content(final(groups)@) == groups_content(old(groups)@).insert(
            group_content((g.0, g.1@)),
        ),
        forall|k: int| 0 <= k < final(groups)@.len() ==> (#[trigger] final(groups)@[k] == g || old(
            groups,
        )@.contains(final(groups)@[k])),
{
    let mut j: usize = groups.len();
    while j > 0 && compare_paths(g.0.as_str(), groups[j - 1].0.as_str()) < 0
        invariant
            j <= groups.len(),
            groups_sorted(groups@),
            forall|k: int| j <= k < groups.len() ==> path_order(g.0@, #[trigger] groups@[k].0@) < 0,
        decreases j,
    {
        j = j - 1;
    }
    proof {
        if j > 0 {
            assert forall|k: int| 0 <= k < j implies path_order(#[trigger] groups@[k].0@, g.0@) <= 0 by {
                lemma_path_order(g.0@, groups@[j - 1].0@, groups@[k].0@);
                lemma_path_order(groups@[k].0@, groups@[j - 1].0@, g.0@);
            }
        }
    }
    let ghost before = groups@;
    let ghost gv = group_content((g.0, g.1@));
    groups.insert(j, g);
    proof {
        let s = groups@;
        assert forall|a: int, b: int| 0 <= a < b < s.len() implies path_order(#[trigger] s[a].0@, #[trigger] s[b].0@) <= 0 by {
            if b < j {
            } else if a < j && b == j {
            } else if a < j {
                assert(s[b] == before[b - 1]);
            } else if a == j {
                assert(s[b] == before[b - 1]);
            } else {
                assert(s[a] == before[a - 1]);
                assert(s[b] == before[b - 1]);
            }
        }
        let f = |x: (String, Vec<LspDiagnostic>)| group_content((x.0, x.1@));
        assert(s.map_values(f) =~= before.map_values(f).insert(j as int, gv));
        assert forall|k: int| 0 <= k < s.len() implies (#[trigger] s[k] == g || before.contains(s[k])) by {
            if k < j {
                assert(s[k] == before[k]);
            } else if k > j {
                assert(s[k] == before[k - 1]);
            }
        }
    }
}

/// The lower-cased file name of `path`, as `lowered_name`.
fn lowered_file_name(path: &str) -> (r: Vec<char>)
    ensures
        r@ == lowered_name(path@),
{
    match file_name_chars(str_chars(path).as_slice()) {
        Some(n) => {
            let name = string_from_chars(n.as_slice());
            str_chars(to_lowercase(name.as_str()).as_str())
        },
        None => Vec::new(),
    }
}

/// The listed diagnostics of one file, sorted within the file.
fn filter_file(
    state: &ProblemsPanel,
    path: &String,
    diags: &Vec<LspDiagnostic>,
    filter_lower: &Vec<char>,
) -> (r: Vec<LspDiagnostic>)
    requires
        filter_lower@ == unicode_lowercase(state.filter_text@),
    ensures
        diags_sorted(r@),
        r@.to_multiset() == shown_diags(*state, path@, diags@).to_multiset(),
        r@ == stable_sorted(shown_diags(*state, path@, diags@)),
{
    let mut out: Vec<LspDiagnostic> = Vec::new();
    let mut i: usize = 0;
    while i < diags.len()
        invariant
            filter_lower@ == unicode_lowercase(state.filter_text@),
            i <= diags.len(),
            diags_sorted(out@),
            out@.to_multiset() == shown_diags(*state, path@, diags@.take(i as int)).to_multiset(),
            out@ == stable_sorted(shown_diags(*state, path@, diags@.take(i as int))),
        decreases diags.len() - i,
    {
        let d = &diags[i];
        proof {
            assert(diags@.take(i + 1).drop_last() == diags@.take(i as int));
            let prev = shown_diags(*state, path@, diags@.take(i as int));
            assert(prev.push(diags@[i as int]).drop_last() =~= prev);
        }
        let mut keep = severity_enabled(state, d.severity);
        if keep && filter_lower.len() > 0 {
            let name = lowered_file_name(path.as_str());
            let message = str_chars(to_lowercase(d.message.as_str()).as_str());
            keep = contains_chars(name.as_slice(), filter_lower.as_slice()) || contains_chars(
                message.as_slice(),
                filter_lower.as_slice(),
            );
        }
        if keep {
            let copy = LspDiagnostic {
                line_start: d.line_start,
                col_start: d.col_start,
                line_end: d.line_end,
                col_end: d.col_end,
                severity: d.severity,
                message: d.message.clone(),
                code: clone_code(&d.code),
            };
            assert(copy == *d);
            insert_diag_sorted(&mut out, copy);
        }
        i = i + 1;
    }
    proof {
        assert(diags@.take(diags.len() as int) == diags@);
    }
    out
}

/// A group holds its file's listed diagnostics, stably sorted.
pub open spec fn group_of_entries(
    state: ProblemsPanel,
    e: Seq<(String, Vec<LspDiagnostic>)>,
    g: (String, Vec<LspDiagnostic>),
) -> bool {
    match diagnostics_of(e, g.0@) {
        Some(ds) => g.1@ == stable_sorted(shown_diags(state, g.0@, ds@)),
        None => false,
    }
}

/// The grouped view: per file, the diagnostics that the toggles and the
/// text filter let through, sorted by severity, line and column, ties kept
/// in the order the server sent them; files without any are left out;
/// files are ordered by path.
pub fn group_problems(diagnostics: &DiagnosticsByFile, state: &ProblemsPanel) -> (groups: Vec<
    (String, Vec<LspDiagnostic>),
>)
    ensures
        groups_sorted(groups@),
        forall|k: int| 0 <= k < groups@.len() ==> diags_sorted(#[trigger] groups@[k].1@),
        groups_content(groups@) == shown_groups(*state, diagnostics.entries()).map_values(
            |g: (String, Seq<LspDiagnostic>)| group_content(g),
        ).to_multiset(),
        forall|k: int|
            0 <= k < groups@.len() ==> group_of_entries(*state, diagnostics.entries(), #[trigger] groups@[k]),
{
    proof {
        use_type_invariant(diagnostics);
    }
    let ghost e = diagnostics.entries();
    let filter_lower = str_chars(to_lowercase(state.filter_text.as_str()).as_str());
    let mut groups: Vec<(String, Vec<LspDiagnostic>)> = Vec::new();
    let mut i: usize = 0;
    while i < diagnostics.entries.len()
        invariant
            e == diagnostics.entries(),
            filter_lower@ == unicode_lowercase(state.filter_text@),
            i <= e.len(),
            groups_sorted(groups@),
            forall|k: int| 0 <= k < groups@.len() ==> diags_sorted(#[trigger] groups@[k].1@),
            distinct_paths(e),
            forall|k: int| 0 <= k < groups@.len() ==> group_of_entries(*state, e, #[trigger] groups@[k]),
            groups_content(groups@) == shown_groups(*state, e.take(i as int)).map_values(
                |g: (String, Seq<LspDiagnostic>)| group_content(g),
            ).to_multiset(),
        decreases e.len() - i,
    {
        let path = &diagnostics.entries[i].0;
        let filtered = filter_file(state, path, &diagnostics.entries[i].1, &filter_lower);
        let ghost f = shown_diags(*state, e[i as int].0@, e[i as int].1@);
        let ghost prev = shown_groups(*state, e.take(i as int));
        let ghost h = |g: (String, Seq<LspDiagnostic>)| group_content(g);
        proof {
            assert(e.take(i + 1).drop_last() == e.take(i as int));
            assert(filtered@.len() == filtered@.to_multiset().len());
            assert(f.len() == f.to_multiset().len());
        }
        if filtered.len() > 0 {
            let ghost gs = groups@;
            let g = (path.clone(), filtered);
            proof {
                lemma_path_index_unique(e, e[i as int].0@, i as int);
                assert(group_of_entries(*state, e, g));
            }
            insert_group_sorted(&mut groups, g);
            proof {
                assert forall|k: int| 0 <= k < groups@.len() implies group_of_entries(
                    *state,
                    e,
                    #[trigger] groups@[k],
                ) by {
                    if groups@[k] != g {
                        let w = choose|w: int| 0 <= w < gs.len() && gs[w] == groups@[k];
                        assert(group_of_entries(*state, e, gs[w]));
                    }
                }
                assert(prev.push((e[i as int].0, f)).map_values(h) =~= prev.map_values(h).push(
                    group_content((e[i as int].0, f)),
                ));
                assert forall|k: int| 0 <= k < groups@.len() implies diags_sorted(#[trigger] groups@[k].1@) by {
                    if !(groups@[k].1@ == filtered@) {
                        let w = choose|w: int| 0 <= w < gs.len() && gs[w] == groups@[k];
                        assert(diags_sorted(gs[w].1@));
                    }
                }
            }
        } else {
            assert(f.len() == 0);
        }
        i = i + 1;
    }
    proof {
        assert(e.take(e.len() as int) == e);
    }
    groups
}

} // verus!
