//! Command palette and quick-open: command descriptions, launcher events and
//! the fuzzy matcher that ranks candidates.

use vstd::prelude::*;
use vstd::utf8::encode_utf8;
use crate::path::{rfind, lemma_rfind, rfind_char};
use crate::text::{is_prefix, starts_with_chars, chars_eq, owned, str_chars, to_lowercase, trim, trimmed, unicode_lowercase, ascii_lower_seq};

verus! {

// ─── Fuzzy matching ─────────────────────────────────────────────────────────

/// Backslashes become forward slashes.
pub open spec fn slash_normalized(s: Seq<char>) -> Seq<char> {
    s.map_values(|c: char| if c == '\\' { '/' } else { c })
}

/// The first index at or after `from` holding `c`.
pub open spec fn find_from(s: Seq<char>, c: char, from: int) -> Option<int>
    decreases s.len() - from,
{
    if from < 0 || from >= s.len() {
        None
    } else if s[from] == c {
        Some(from)
    } else {
        find_from(s, c, from + 1)
    }
}

/// Greedy left-to-right match: each query character at the first
/// candidate position after the previous match.
pub open spec fn match_positions(cc: Seq<char>, qc: Seq<char>) -> Option<Seq<int>>
    decreases qc.len(),
{
    if qc.len() == 0 {
        Some(Seq::empty())
    } else {
        match match_positions(cc, qc.drop_last()) {
            None => None,
            Some(ps) => {
                let from = if ps.len() == 0 { 0 } else { ps.last() + 1 };
                match find_from(cc, qc.last(), from) {
                    None => None,
                    Some(i) => Some(ps.push(i)),
                }
            },
        }
    }
}

/// A match at `i` starts a word: the first character, or one after `/ _ - .`
/// or a space.
pub open spec fn is_word_start(cc: Seq<char>, i: int) -> bool {
    i == 0 || cc[i - 1] == '/' || cc[i - 1] == '_' || cc[i - 1] == '-' || cc[i - 1] == '.' || cc[i - 1]
        == ' '
}

/// Points for the `k`-th matched character: 10, plus 18 when it directly
/// follows the previous match or minus the gap otherwise, plus 16 at a word
/// start, plus 4 inside the base name.
pub open spec fn char_points(cc: Seq<char>, ps: Seq<int>, k: int, base: int) -> int {
    let i = ps[k];
    10 + (if k > 0 && ps[k - 1] == i - 1 {
        18int
    } else if k > 0 {
        -(i - ps[k - 1] - 1)
    } else {
        0int
    }) + (if is_word_start(cc, i) { 16int } else { 0int }) + (if i >= base { 4int } else { 0int })
}

pub open spec fn points_sum(cc: Seq<char>, ps: Seq<int>, k: int, base: int) -> int
    decreases k,
{
    if k <= 0 {
        0
    } else {
        points_sum(cc, ps, k - 1, base) + char_points(cc, ps, k - 1, base)
    }
}

/// Where the base name starts: after the last `/`.
pub open spec fn basename_start(cc: Seq<char>) -> int {
    rfind(cc, '/') + 1
}

/// Bonus for a whole-text match, a base-name match, or a base-name prefix.
pub open spec fn exact_bonus(cc: Seq<char>, qc: Seq<char>) -> int {
    let b = cc.skip(basename_start(cc));
    if cc == qc {
        1000int
    } else if b == qc {
        800int
    } else if is_prefix(qc, b) {
        300int
    } else {
        0int
    }
}

/// The score of lower-cased candidate `cc` for non-empty lower-cased query
/// `qc`, or `None` when `qc` is not a subsequence of `cc`.
pub open spec fn lowered_score(cc: Seq<char>, qc: Seq<char>) -> Option<int> {
    if qc.len() == 0 {
        Some(0)
    } else {
        match match_positions(cc, qc) {
            None => None,
            Some(ps) => Some(
                points_sum(cc, ps, qc.len() as int, basename_start(cc)) + exact_bonus(cc, qc) - (
                if cc.len() >= qc.len() { cc.len() - qc.len() } else { 0int }),
            ),
        }
    }
}

/// `x` clamped to the range of `i64`.
pub open spec fn saturate_i64(x: int) -> i64 {
    if x > i64::MAX { i64::MAX } else if x < i64::MIN { i64::MIN } else { x as i64 }
}

/// The score of `candidate` for `query`: both are lower-cased (the query
/// after trimming, the candidate after turning `\` into `/`).
pub open spec fn fuzzy(candidate: Seq<char>, query: Seq<char>) -> Option<int> {
    lowered_score(
        unicode_lowercase(slash_normalized(candidate)),
        unicode_lowercase(trimmed(query)),
    )
}

/// `ps` embeds `qc` in `cc`: increasing positions with matching characters.
pub open spec fn embeds(cc: Seq<char>, qc: Seq<char>, ps: Seq<int>) -> bool {
    &&& ps.len() == qc.len()
    &&& forall|k: int| 0 <= k < ps.len() ==> 0 <= #[trigger] ps[k] < cc.len() && cc[ps[k]] == qc[k]
    &&& forall|k: int| 0 < k < ps.len() ==> ps[k - 1] < #[trigger] ps[k]
}

/// `qc` is a subsequence of `cc`.
pub open spec fn is_subsequence(cc: Seq<char>, qc: Seq<char>) -> bool {
    exists|ps: Seq<int>| embeds(cc, qc, ps)
}

/// `find_from` gives the first occurrence of `c` at or after `from`.
pub proof fn lemma_find_from(s: Seq<char>, c: char, from: int)
    requires
        0 <= from,
    ensures
        match find_from(s, c, from) {
            Some(i) => from <= i < s.len() && 0 <= i && s[i] == c && forall|j: int|
                from <= j < i ==> s[j] != c,
            None => forall|j: int| from <= j < s.len() && 0 <= j ==> s[j] != c,
        },
    decreases s.len() - from,
{
    if !(from < 0 || from >= s.len()) && s[from] != c {
        lemma_find_from(s, c, from + 1);
    }
}

/// The greedy match embeds the query, and it ends no later than any other
/// embedding; so it exists exactly when the query is a subsequence.
proof fn lemma_greedy(cc: Seq<char>, qc: Seq<char>)
    ensures
        match match_positions(cc, qc) {
            Some(ps) => embeds(cc, qc, ps) && forall|other: Seq<int>|
                #![trigger embeds(cc, qc, other)]
                embeds(cc, qc, other) && qc.len() > 0 ==> ps.last() <= other.last(),
            None => forall|other: Seq<int>| !embeds(cc, qc, other),
        },
    decreases qc.len(),
{
    if qc.len() > 0 {
        let pre = qc.drop_last();
        lemma_greedy(cc, pre);
        match match_positions(cc, pre) {
            None => {
                assert forall|other: Seq<int>| !embeds(cc, qc, other) by {
                    if embeds(cc, qc, other) {
                        assert(embeds(cc, pre, other.drop_last()));
                    }
                }
            },
            Some(ps) => {
                let from = if ps.len() == 0 { 0 } else { ps.last() + 1 };
                lemma_find_from(cc, qc.last(), from);
                match find_from(cc, qc.last(), from) {
                    None => {
                        assert forall|other: Seq<int>| !embeds(cc, qc, other) by {
                            if embeds(cc, qc, other) {
                                let k = qc.len() - 1;
                                if k > 0 {
                                    assert(embeds(cc, pre, other.drop_last()));
                                    assert(ps.last() <= other.drop_last().last());
                                    assert(other[k - 1] < other[k]);
                                }
                                assert(cc[other[k]] == qc.last());
                            }
                        }
                    },
                    Some(i) => {
                        let ps2 = ps.push(i);
                        assert(embeds(cc, qc, ps2)) by {
                            assert forall|k: int| 0 <= k < ps2.len() implies 0 <= #[trigger] ps2[k] < cc.len()
                                && cc[ps2[k]] == qc[k] by {
                                if k < ps.len() {
                                    assert(ps2[k] == ps[k]);
                                    assert(qc[k] == pre[k]);
                                }
                            }
                            assert forall|k: int| 0 < k < ps2.len() implies ps2[k - 1] < #[trigger] ps2[k] by {
                                if k < ps.len() {
                                    assert(ps2[k] == ps[k]);
                                    assert(ps2[k - 1] == ps[k - 1]);
                                }
                            }
                        }
                        assert forall|other: Seq<int>|
                            #![trigger embeds(cc, qc, other)]
                            embeds(cc, qc, other) && qc.len() > 0 implies ps2.last() <= other.last() by {
                            let k = qc.len() - 1;
                            if k > 0 {
                                assert(embeds(cc, pre, other.drop_last()));
                                assert(ps.last() <= other.drop_last().last());
                                assert(other[k - 1] < other[k]);
                            }
                            assert(cc[other[k]] == qc.last());
                        }
                    },
                }
            },
        }
    }
}

/// Fuzzy matching finds a score exactly when the lower-cased query is a
/// subsequence of the lower-cased candidate (an empty query always scores 0).
pub proof fn lemma_score_iff_subsequence(cc: Seq<char>, qc: Seq<char>)
    ensures
        lowered_score(cc, qc) is Some <==> is_subsequence(cc, qc),
        qc.len() == 0 ==> lowered_score(cc, qc) == Some(0int),
{
    lemma_greedy(cc, qc);
    if qc.len() == 0 {
        assert(embeds(cc, qc, Seq::empty()));
    } else {
        match match_positions(cc, qc) {
            Some(ps) => {
                assert(embeds(cc, qc, ps));
            },
            None => {},
        }
    }
}

// ─── Fuzzy matching: implementation ─────────────────────────────────────────

/// The first index at or after `from` holding `c`.
pub fn find_char_from(s: &[char], c: char, from: usize) -> (r: Option<usize>)
    ensures
        match r {
            Some(i) => find_from(s@, c, from as int) == Some(i as int),
            None => find_from(s@, c, from as int) is None,
        },
{
    let mut j = from;
    while j < s.len()
        invariant
            from <= j,
            find_from(s@, c, from as int) == find_from(s@, c, j as int),
        decreases s.len() - j,
    {
        if s[j] == c {
            return Some(j);
        }
        j = j + 1;
    }
    None
}

fn is_separator(c: char) -> (r: bool)
    ensures
        r == (c == '/' || c == '_' || c == '-' || c == '.' || c == ' '),
{
    c == '/' || c == '_' || c == '-' || c == '.' || c == ' '
}

proof fn lemma_points_step(cc: Seq<char>, ps: Seq<int>, i: int, k: int, base: int)
    requires
        0 <= k == ps.len(),
    ensures
        points_sum(cc, ps.push(i), k + 1, base) == points_sum(cc, ps, k, base) + char_points(
            cc,
            ps.push(i),
            k,
            base,
        ),
{
    lemma_points_prefix(cc, ps, i, k, base);
    assert(points_sum(cc, ps.push(i), k + 1, base) == points_sum(cc, ps.push(i), k, base) + char_points(
        cc,
        ps.push(i),
        k,
        base,
    ));
}

proof fn lemma_points_prefix(cc: Seq<char>, ps: Seq<int>, i: int, m: int, base: int)
    requires
        0 <= m <= ps.len(),
    ensures
        points_sum(cc, ps.push(i), m, base) == points_sum(cc, ps, m, base),
    decreases m,
{
    if m > 0 {
        lemma_points_prefix(cc, ps, i, m - 1, base);
        assert(ps.push(i)[m - 1] == ps[m - 1]);
        if m > 1 {
            assert(ps.push(i)[m - 2] == ps[m - 2]);
        }
    }
}

/// The fuzzy score of an already lower-cased candidate for an already
/// lower-cased, trimmed query (scores beyond `i64` saturate).
pub fn fuzzy_score_lowered(cc: &[char], qc: &[char]) -> (r: Option<i64>)
    ensures
        match lowered_score(cc@, qc@) {
            Some(x) => r == Some(saturate_i64(x)),
            None => r is None,
        },
{
    if qc.len() == 0 {
        return Some(0);
    }
    let slash = rfind_char(cc, '/');
    proof {
        lemma_rfind(cc@, '/');
    }
    let base: usize = match slash {
        Some(i) => {
            assert(i < cc@.len());
            assert(i < cc.len());
            i + 1
        },
        None => 0,
    };
    assert(base as int == basename_start(cc@));
    let mut score: i128 = 0;
    let mut search_from: usize = 0;
    let mut prev: Option<usize> = None;
    let ghost mut ps: Seq<int> = Seq::empty();
    let mut k: usize = 0;
    assert(qc@.take(0) =~= Seq::<char>::empty());
    while k < qc.len()
        invariant
            k <= qc.len(),
            base as int == basename_start(cc@),
            match_positions(cc@, qc@.take(k as int)) == Some(ps),
            ps.len() == k,
            forall|m: int| 0 <= m < k ==> 0 <= #[trigger] ps[m] < cc.len(),
            score == points_sum(cc@, ps, k as int, base as int),
            search_from == (if k == 0 { 0 } else { ps.last() + 1 }),
            prev == (if k == 0 { None } else { Some(ps.last() as usize) }),
            -(search_from as int) <= score <= 48 * k,
            search_from <= cc.len(),
        decreases qc.len() - k,
    {
        let q = qc[k];
        let found = find_char_from(cc, q, search_from);
        proof {
            assert(qc@.take(k + 1).drop_last() == qc@.take(k as int));
            assert(qc@.take(k + 1).last() == q);
            lemma_find_from(cc@, q, search_from as int);
        }
        let index = match found {
            Some(i) => i,
            None => {
                proof {
                    assert(match_positions(cc@, qc@.take(k + 1)) is None);
                    assert(match_positions(cc@, qc@) is None) by {
                        lemma_positions_prefix(cc@, qc@, k + 1);
                    }
                }
                return None;
            },
        };
        let ghost ps2 = ps.push(index as int);
        let mut pts: i128 = 10;
        match prev {
            Some(p) => {
                if p + 1 == index {
                    pts = pts + 18;
                } else {
                    pts = pts - ((index - (p + 1)) as i128);
                }
            },
            None => {},
        }
        if index == 0 || is_separator(cc[index - 1]) {
            pts = pts + 16;
        }
        if index >= base {
            pts = pts + 4;
        }
        proof {
            lemma_points_step(cc@, ps, index as int, k as int, base as int);
            assert(ps2[k as int] == index);
            if k > 0 {
                assert(ps2[k - 1] == ps.last());
            }
            assert(pts == char_points(cc@, ps2, k as int, base as int));
        }
        score = score + pts;
        search_from = index + 1;
        prev = Some(index);
        k = k + 1;
        proof {
            ps = ps2;
        }
    }
    assert(qc@.take(qc.len() as int) == qc@);
    let bonus: i128 = if chars_eq(cc, qc) {
        1000
    } else {
        let b = vstd::slice::slice_subrange(cc, base, cc.len());
        assert(b@ == cc@.skip(base as int));
        if chars_eq(b, qc) {
            800
        } else if starts_with_chars(b, qc) {
            300
        } else {
            0
        }
    };
    let extra: i128 = if cc.len() >= qc.len() { (cc.len() - qc.len()) as i128 } else { 0 };
    let total = score + bonus - extra;
    if total > i64::MAX as i128 {
        Some(i64::MAX)
    } else if total < i64::MIN as i128 {
        Some(i64::MIN)
    } else {
        Some(total as i64)
    }
}

proof fn lemma_positions_prefix(cc: Seq<char>, qc: Seq<char>, n: int)
    requires
        0 <= n <= qc.len(),
        match_positions(cc, qc.take(n)) is None,
    ensures
        match_positions(cc, qc) is None,
    decreases qc.len() - n,
{
    if n < qc.len() {
        assert(qc.take(n + 1).drop_last() == qc.take(n));
        lemma_positions_prefix(cc, qc, n + 1);
    } else {
        assert(qc.take(n) == qc);
    }
}

/// Replaces every `\` with `/`.
pub fn normalize_slashes(s: &[char]) -> (r: Vec<char>)
    ensures
        r@ == slash_normalized(s@),
{
    let mut r: Vec<char> = Vec::new();
    let mut i: usize = 0;
    while i < s.len()
        invariant
            i <= s.len(),
            r@ == slash_normalized(s@.take(i as int)),
        decreases s.len() - i,
    {
        let c = if s[i] == '\\' { '/' } else { s[i] };
        r.push(c);
        i = i + 1;
        assert(slash_normalized(s@.take(i as int)) =~= slash_normalized(s@.take((i - 1) as int)).push(c));
    }
    assert(s@.take(s.len() as int) == s@);
    r
}

/// Fuzzy-matches `query` against `candidate`, case-insensitively.
///
/// Returns `None` when the query's characters do not all occur in order in
/// the candidate. Contiguous runs, word starts and base-name matches score
/// higher; an empty query scores 0.
pub fn fuzzy_score(candidate: &str, query: &str) -> (r: Option<i64>)
    ensures
        match fuzzy(candidate@, query@) {
            Some(x) => r == Some(saturate_i64(x)),
            None => r is None,
        },
        vstd::utf8::is_ascii_chars(candidate@) && vstd::utf8::is_ascii_chars(query@) ==> fuzzy(
            candidate@,
            query@,
        ) == lowered_score(
            ascii_lower_seq(slash_normalized(candidate@)),
            ascii_lower_seq(trimmed(query@)),
        ),
{
    proof {
        if vstd::utf8::is_ascii_chars(query@) {
            crate::text::lemma_trimmed_ascii(query@);
        }
    }
    let cand_chars = str_chars(candidate);
    let normalized = normalize_slashes(cand_chars.as_slice());
    let normalized_str = crate::text::string_from_chars(normalized.as_slice());
    let cand_lower = to_lowercase(normalized_str.as_str());
    let query_trimmed = trim(query);
    let query_lower = to_lowercase(query_trimmed.as_str());
    let cc = str_chars(cand_lower.as_str());
    let qc = str_chars(query_lower.as_str());
    fuzzy_score_lowered(cc.as_slice(), qc.as_slice())
}

// ─── Commands and events ────────────────────────────────────────────────────

/// A command the palette can run.
#[derive(Debug, Clone, PartialEq, Eq, Hash)]
pub enum CommandId {
    ShowCommandPalette,
    QuickOpen,
    OpenFolder,
    AddFolderToWorkspace,
    OpenFile,
    Save,
    CloseTab,
    NextTab,
    PreviousTab,
    GoToLine,
    GoToSymbol,
    NewTerminal,
    SplitEditorRight,
    SplitEditorDown,
    FocusNextGroup,
    FocusPreviousGroup,
    ToggleTree,
    ToggleGitPanel,
    ToggleProblems,
    ToggleTerminal,
    ToggleOutline,
    FindInFile,
    ReplaceInFile,
    OpenSettings,
    ReloadSettings,
    /// Reload all Lua plugins from the plugin directory.
    ReloadPlugins,
    /// Invoke a plugin-contributed menu item by label.
    InvokePluginMenuItem(String),
    /// Toggle minimap visibility for the focused pane (Ctrl+Shift+\).
    ToggleMinimap,
    SortLinesAscending,
    SortLinesDescending,
    TransformUppercase,
    TransformLowercase,
    TransformTitleCase,
    TransformCamelCase,
    TransformSnakeCase,
    TransformPascalCase,
    TransformKebabCase,
    ToggleUndoHistory,
    ToggleCallHierarchy,
    ToggleTypeHierarchy,
    /// Toggle the inline blame gutter for the active file.
    GitToggleBlame,
    /// Fetch from the default remote.
    GitFetch,
    /// Pull from the default remote.
    GitPull,
    /// Push to the default remote.
    GitPush,
    /// Open the commit-log viewer modal.
    GitShowLog,
    /// Open the tag manager modal.
    GitShowTags,
    /// Open the conflict resolver modal.
    GitShowConflicts,
    /// Save the current working-tree changes to the stash.
    GitStashSave,
    /// Pop the most recent stash entry.
    GitStashPop,
    /// Toggle zen mode (all panels hidden, editor centered).
    ToggleZenMode,
    /// Toggle distraction-free mode (status/tab bar/gutter hidden).
    ToggleDistractionFree,
    /// Open a diff viewer comparing a file against HEAD.
    OpenDiffWithHead,
    /// Open the New Project wizard.
    NewProject,
    /// Run a named task from tasks.toml.
    RunTask(String),
    /// Rerun the last task.
    RerunLastTask,
    /// Terminate the running task.
    TerminateTask,
    /// Open the Environment Variable editor panel.
    EditEnvVars,
    /// Open the Command History browser.
    OpenHistoryBrowser,
    /// Open the theme picker with live preview (Ctrl+Alt+T).
    SelectTheme,
    /// Toggle vim/modal editing for the active editor.
    ToggleVimMode,
    /// Toggle the AI assistant panel.
    ToggleAssistant,
}

/// Two command ids name the same command (with the same text, for those
/// that carry one).
pub open spec fn same_command(a: CommandId, b: CommandId) -> bool {
    match a {
        CommandId::InvokePluginMenuItem(x) => b matches CommandId::InvokePluginMenuItem(y) && x@
            == y@,
        CommandId::RunTask(x) => b matches CommandId::RunTask(y) && x@ == y@,
        _ => a == b,
    }
}

/// A copy of a command id.
pub fn copy_command(c: &CommandId) -> (r: CommandId)
    ensures
        same_command(r, *c),
{
    match c {
        CommandId::ShowCommandPalette => CommandId::ShowCommandPalette,
        CommandId::QuickOpen => CommandId::QuickOpen,
        CommandId::OpenFolder => CommandId::OpenFolder,
        CommandId::AddFolderToWorkspace => CommandId::AddFolderToWorkspace,
        CommandId::OpenFile => CommandId::OpenFile,
        CommandId::Save => CommandId::Save,
        CommandId::CloseTab => CommandId::CloseTab,
        CommandId::NextTab => CommandId::NextTab,
        CommandId::PreviousTab => CommandId::PreviousTab,
        CommandId::GoToLine => CommandId::GoToLine,
        CommandId::GoToSymbol => CommandId::GoToSymbol,
        CommandId::NewTerminal => CommandId::NewTerminal,
        CommandId::SplitEditorRight => CommandId::SplitEditorRight,
        CommandId::SplitEditorDown => CommandId::SplitEditorDown,
        CommandId::FocusNextGroup => CommandId::FocusNextGroup,
        CommandId::FocusPreviousGroup => CommandId::FocusPreviousGroup,
        CommandId::ToggleTree => CommandId::ToggleTree,
        CommandId::ToggleGitPanel => CommandId::ToggleGitPanel,
        CommandId::ToggleProblems => CommandId::ToggleProblems,
        CommandId::ToggleTerminal => CommandId::ToggleTerminal,
        CommandId::ToggleOutline => CommandId::ToggleOutline,
        CommandId::FindInFile => CommandId::FindInFile,
        CommandId::ReplaceInFile => CommandId::ReplaceInFile,
        CommandId::OpenSettings => CommandId::OpenSettings,
        CommandId::ReloadSettings => CommandId::ReloadSettings,
        CommandId::ReloadPlugins => CommandId::ReloadPlugins,
        CommandId::InvokePluginMenuItem(s) => CommandId::InvokePluginMenuItem(owned(s.as_str())),
        CommandId::ToggleMinimap => CommandId::ToggleMinimap,
        CommandId::SortLinesAscending => CommandId::SortLinesAscending,
        CommandId::SortLinesDescending => CommandId::SortLinesDescending,
        CommandId::TransformUppercase => CommandId::TransformUppercase,
        CommandId::TransformLowercase => CommandId::TransformLowercase,
        CommandId::TransformTitleCase => CommandId::TransformTitleCase,
        CommandId::TransformCamelCase => CommandId::TransformCamelCase,
        CommandId::TransformSnakeCase => CommandId::TransformSnakeCase,
        CommandId::TransformPascalCase => CommandId::TransformPascalCase,
        CommandId::TransformKebabCase => CommandId::TransformKebabCase,
        CommandId::ToggleUndoHistory => CommandId::ToggleUndoHistory,
        CommandId::ToggleCallHierarchy => CommandId::ToggleCallHierarchy,
        CommandId::ToggleTypeHierarchy => CommandId::ToggleTypeHierarchy,
        CommandId::GitToggleBlame => CommandId::GitToggleBlame,
        CommandId::GitFetch => CommandId::GitFetch,
        CommandId::GitPull => CommandId::GitPull,
        CommandId::GitPush => CommandId::GitPush,
        CommandId::GitShowLog => CommandId::GitShowLog,
        CommandId::GitShowTags => CommandId::GitShowTags,
        CommandId::GitShowConflicts => CommandId::GitShowConflicts,
        CommandId::GitStashSave => CommandId::GitStashSave,
        CommandId::GitStashPop => CommandId::GitStashPop,
        CommandId::ToggleZenMode => CommandId::ToggleZenMode,
        CommandId::ToggleDistractionFree => CommandId::ToggleDistractionFree,
        CommandId::OpenDiffWithHead => CommandId::OpenDiffWithHead,
        CommandId::NewProject => CommandId::NewProject,
        CommandId::RunTask(s) => CommandId::RunTask(owned(s.as_str())),
        CommandId::RerunLastTask => CommandId::RerunLastTask,
        CommandId::TerminateTask => CommandId::TerminateTask,
        CommandId::EditEnvVars => CommandId::EditEnvVars,
        CommandId::OpenHistoryBrowser => CommandId::OpenHistoryBrowser,
        CommandId::SelectTheme => CommandId::SelectTheme,
        CommandId::ToggleVimMode => CommandId::ToggleVimMode,
        CommandId::ToggleAssistant => CommandId::ToggleAssistant,
    }
}

/// A command as the palette lists it.
#[derive(Debug, Clone, PartialEq, Eq)]
pub struct CommandSpec {
    pub id: CommandId,
    pub title: String,
    pub category: String,
    pub shortcut: Option<String>,
}

impl CommandSpec {
    /// A command description.
    pub fn new(id: CommandId, category: &str, title: &str, shortcut: Option<&str>) -> (r: Self)
        ensures
            r.id == id,
            r.title@ == title@,
            r.category@ == category@,
            r.shortcut.deep_view() == match shortcut {
                Some(s) => Some(s@),
                None => None::<Seq<char>>,
            },
    {
        CommandSpec {
            id,
            title: owned(title),
            category: owned(category),
            shortcut: match shortcut {
                Some(s) => Some(owned(s)),
                None => None,
            },
        }
    }
}

/// What the launcher is searching.
#[derive(Debug, Clone, Copy, PartialEq, Eq, Structural)]
pub enum LauncherMode {
    Commands,
    Files,
}

/// What the user chose in the launcher.
#[derive(Debug, Clone, PartialEq, Eq)]
pub enum LauncherEvent {
    Execute(CommandId),
    OpenFile(String),
    Dismissed,
}

/// What a row of the launcher does.
#[derive(Debug, Clone, PartialEq, Eq)]
pub enum RowAction {
    Command(CommandId),
    File(String),
}

/// A row of the launcher's results.
#[derive(Debug)]
pub struct LauncherRow {
    pub action: RowAction,
    pub primary: String,
    pub secondary: String,
    pub shortcut: Option<String>,
    pub score: i64,
}

/// A file of the workspace: its path and the text it is searched by.
#[derive(Debug, Clone, PartialEq, Eq)]
pub struct WorkspaceFile {
    pub path: String,
    pub display: String,
}

/// The files found in the workspace, and the first error met finding them.
#[derive(Debug)]
pub struct WorkspaceScan {
    pub files: Vec<WorkspaceFile>,
    pub error: Option<String>,
}

impl Default for WorkspaceScan {
    fn default() -> (r: Self)
        ensures
            r.files@.len() == 0,
            r.error is None,
    {
        WorkspaceScan { files: Vec::new(), error: None }
    }
}

/// A key the launcher reacts to.
#[derive(Debug, Clone, Copy, PartialEq, Eq, Structural)]
pub enum LauncherKey {
    Escape,
    Up,
    Down,
    PageUp,
    PageDown,
    Enter,
}

/// The most results the launcher shows.
pub const MAX_RESULTS: usize = 100;

/// How far page up and page down move the selection.
pub const PAGE_SIZE: isize = 10;

// ─── Rows ───────────────────────────────────────────────────────────────────

/// A result row as plain values: the index of the command or file it comes
/// from, its primary and secondary text, and its score.
pub type RowView = (int, Seq<char>, Seq<char>, int);

/// The text a command is matched by: its category, a space, its title.
pub open spec fn command_text(c: CommandSpec) -> Seq<char> {
    c.category@ + " "@ + c.title@
}

/// The rows of the commands that match `query`, in command order.
pub open spec fn command_rows(commands: Seq<CommandSpec>, query: Seq<char>) -> Seq<RowView>
    decreases commands.len(),
{
    if commands.len() == 0 {
        Seq::empty()
    } else {
        let before = command_rows(commands.drop_last(), query);
        let c = commands.last();
        match fuzzy(command_text(c), query) {
            Some(x) => before.push(
                (commands.len() - 1, c.title@, c.category@, saturate_i64(x) as int),
            ),
            None => before,
        }
    }
}

/// Each row of `command_rows` comes from a command before it, and rows keep
/// command order.
proof fn lemma_command_rows_sources(commands: Seq<CommandSpec>, query: Seq<char>)
    ensures
        forall|r: int|
            0 <= r < command_rows(commands, query).len() ==> 0 <= (
            #[trigger] command_rows(commands, query)[r]).0 < commands.len(),
    decreases commands.len(),
{
    if commands.len() > 0 {
        lemma_command_rows_sources(commands.drop_last(), query);
        let before = command_rows(commands.drop_last(), query);
        let rows = command_rows(commands, query);
        assert forall|r: int| 0 <= r < rows.len() implies 0 <= (#[trigger] rows[r]).0
            < commands.len() by {
            if r < before.len() {
                assert(rows[r] == before[r]);
            }
        }
    }
}

/// A command of the palette is listed for a query exactly when the query,
/// trimmed and lower-cased, is a subsequence of the command's category, a
/// space and its title, lower-cased (backslashes read as slashes); its row
/// then shows the title, with the category beside it.
pub proof fn lemma_command_listed_iff_category_and_title_match(
    commands: Seq<CommandSpec>,
    query: Seq<char>,
    k: int,
)
    requires
        0 <= k < commands.len(),
    ensures
        (exists|r: int|
            0 <= r < command_rows(commands, query).len() && (#[trigger] command_rows(
                commands,
                query,
            )[r]).0 == k) <==> is_subsequence(
            unicode_lowercase(
                slash_normalized(commands[k].category@ + " "@ + commands[k].title@),
            ),
            unicode_lowercase(trimmed(query)),
        ),
        forall|r: int|
            0 <= r < command_rows(commands, query).len() && (#[trigger] command_rows(
                commands,
                query,
            )[r]).0 == k ==> command_rows(commands, query)[r].1 == commands[k].title@
                && command_rows(commands, query)[r].2 == commands[k].category@,
    decreases commands.len(),
{
    let rows = command_rows(commands, query);
    let before = command_rows(commands.drop_last(), query);
    let n = commands.len() - 1;
    lemma_command_rows_sources(commands.drop_last(), query);
    let c = commands[k];
    lemma_score_iff_subsequence(
        unicode_lowercase(slash_normalized(c.category@ + " "@ + c.title@)),
        unicode_lowercase(trimmed(query)),
    );
    if k < n {
        lemma_command_listed_iff_category_and_title_match(commands.drop_last(), query, k);
        assert(commands.drop_last()[k] == c);
        assert forall|r: int| 0 <= r < rows.len() && (#[trigger] rows[r]).0 == k implies r
            < before.len() && rows[r] == before[r] by {
            if r >= before.len() {
                assert(rows[r].0 == n);
            }
        }
        if exists|r: int| 0 <= r < before.len() && (#[trigger] before[r]).0 == k {
            let r = choose|r: int| 0 <= r < before.len() && (#[trigger] before[r]).0 == k;
            assert(rows[r] == before[r]);
        }
    } else {
        assert forall|r: int| 0 <= r < before.len() implies (#[trigger] before[r]).0 != k by {}
        if exists|r: int| 0 <= r < rows.len() && (#[trigger] rows[r]).0 == k {
            let r = choose|r: int| 0 <= r < rows.len() && (#[trigger] rows[r]).0 == k;
            if r < before.len() {
                assert(rows[r] == before[r]);
            }
        }
        if fuzzy(command_text(c), query) is Some {
            assert(rows[before.len() as int].0 == k);
        }
    }
}

/// The name a file row shows: the file name of its text.
pub open spec fn file_primary(display: Seq<char>) -> Seq<char> {
    match crate::path::file_name(display) {
        Some(n) => n,
        None => Seq::empty(),
    }
}

/// The directory a file row shows: the parent of its text, with forward
/// slashes.
pub open spec fn file_secondary(display: Seq<char>) -> Seq<char> {
    slash_normalized(crate::path::parent(display))
}

/// The rows of the files that match `query`, in file order.
pub open spec fn file_rows(files: Seq<WorkspaceFile>, query: Seq<char>) -> Seq<RowView>
    decreases files.len(),
{
    if files.len() == 0 {
        Seq::empty()
    } else {
        let before = file_rows(files.drop_last(), query);
        let f = files.last();
        match fuzzy(f.display@, query) {
            Some(x) => before.push(
                (
                    files.len() - 1,
                    file_primary(f.display@),
                    file_secondary(f.display@),
                    saturate_i64(x) as int,
                ),
            ),
            None => before,
        }
    }
}

/// The order of ranked rows: higher scores first, then shorter primary
/// texts (in UTF-8 bytes), then primary texts case-insensitively, then
/// secondary texts.
pub open spec fn rank_order(a: RowView, b: RowView) -> int {
    if a.3 != b.3 {
        crate::text::num_order(b.3, a.3)
    } else if encode_utf8(a.1).len() != encode_utf8(b.1).len() {
        crate::text::num_order(encode_utf8(a.1).len() as int, encode_utf8(b.1).len() as int)
    } else if crate::text::text_order(unicode_lowercase(a.1), unicode_lowercase(b.1)) != 0 {
        crate::text::text_order(unicode_lowercase(a.1), unicode_lowercase(b.1))
    } else {
        crate::text::text_order(a.2, b.2)
    }
}

/// `s` with `e` placed after every row not ranked after it.
pub open spec fn insert_by_rank(s: Seq<RowView>, e: RowView) -> Seq<RowView>
    decreases s.len(),
{
    if s.len() == 0 {
        seq![e]
    } else if rank_order(s.last(), e) <= 0 {
        s.push(e)
    } else {
        insert_by_rank(s.drop_last(), e).push(s.last())
    }
}

/// The rows by rank, rows ranked alike in their first order.
pub open spec fn sort_by_rank(s: Seq<RowView>) -> Seq<RowView>
    decreases s.len(),
{
    if s.len() == 0 {
        Seq::empty()
    } else {
        insert_by_rank(sort_by_rank(s.drop_last()), s.last())
    }
}

/// The rows the launcher shows for its mode, sources and query: the
/// matches, ranked when the query is not blank, at most `MAX_RESULTS`.
pub open spec fn visible_rows(
    mode: Option<LauncherMode>,
    commands: Seq<CommandSpec>,
    files: Seq<WorkspaceFile>,
    query: Seq<char>,
) -> Seq<RowView> {
    let q = trimmed(query);
    let matched = match mode {
        Some(LauncherMode::Commands) => command_rows(commands, q),
        Some(LauncherMode::Files) => file_rows(files, q),
        None => Seq::empty(),
    };
    let ranked = if q.len() > 0 {
        sort_by_rank(matched)
    } else {
        matched
    };
    if ranked.len() > MAX_RESULTS {
        ranked.take(MAX_RESULTS as int)
    } else {
        ranked
    }
}

/// `row` is the row `v` of the commands or files of mode `mode`.
pub open spec fn row_is(
    row: LauncherRow,
    v: RowView,
    mode: Option<LauncherMode>,
    commands: Seq<CommandSpec>,
    files: Seq<WorkspaceFile>,
) -> bool {
    &&& row.primary@ == v.1
    &&& row.secondary@ == v.2
    &&& row.score == v.3
    &&& match mode {
        Some(LauncherMode::Commands) => {
            &&& 0 <= v.0 < commands.len()
            &&& row.action matches RowAction::Command(id) && same_command(id, commands[v.0].id)
            &&& row.shortcut.deep_view() == commands[v.0].shortcut.deep_view()
        },
        _ => {
            &&& 0 <= v.0 < files.len()
            &&& row.action matches RowAction::File(p) && p@ == files[v.0].path@
            &&& row.shortcut is None
        },
    }
}

/// The plain values of a row coming from source `src` that ranking reads.
/// The row's action and shortcut are not repeated here: they are those of
/// source `src`, as `row_is` states.
pub open spec fn row_view(src: int, row: LauncherRow) -> RowView {
    (src, row.primary@, row.secondary@, row.score as int)
}

fn compare_rank(a: &LauncherRow, b: &LauncherRow) -> (r: i8)
    ensures
        r == rank_order(row_view(0, *a), row_view(0, *b)),
{
    if a.score != b.score {
        return if b.score < a.score {
            -1
        } else {
            1
        };
    }
    let la = a.primary.as_str().as_bytes().len();
    let lb = b.primary.as_str().as_bytes().len();
    if la != lb {
        return if la < lb {
            -1
        } else {
            1
        };
    }
    let lower_a = to_lowercase(a.primary.as_str());
    let lower_b = to_lowercase(b.primary.as_str());
    let ca = str_chars(lower_a.as_str());
    let cb = str_chars(lower_b.as_str());
    let t = crate::text::compare_text(ca.as_slice(), cb.as_slice());
    if t != 0 {
        return t;
    }
    let sa = str_chars(a.secondary.as_str());
    let sb = str_chars(b.secondary.as_str());
    crate::text::compare_text(sa.as_slice(), sb.as_slice())
}

/// The launcher: its mode, query and selection, what it searches and the
/// rows it shows. A workspace scan is tagged with a generation; only the
/// scan of the latest generation, for the current roots, is taken.
#[derive(Debug)]
pub struct LauncherState {
    pub mode: Option<LauncherMode>,
    pub query: String,
    pub selected: usize,
    pub request_focus: bool,
    pub commands: Vec<CommandSpec>,
    pub files: Vec<WorkspaceFile>,
    pub rows: Vec<LauncherRow>,
    pub workspace_roots: Vec<String>,
    pub generation: u64,
    /// A scan has been started and its result not yet taken.
    pub scanning: bool,
    pub loading: bool,
    pub error: Option<String>,
}

/// The rows of `s` are those its mode, sources and query call for.
pub open spec fn rows_current(s: LauncherState) -> bool {
    let v = visible_rows(s.mode, s.commands@, s.files@, s.query@);
    &&& s.rows@.len() == v.len()
    &&& forall|i: int|
        0 <= i < v.len() ==> row_is(#[trigger] s.rows@[i], v[i], s.mode, s.commands@, s.files@)
}

/// The selection kept on a row: at most the last row's index.
pub open spec fn clamped(selected: usize, rows: nat) -> usize {
    if rows == 0 {
        0
    } else if selected < rows {
        selected
    } else {
        (rows - 1) as usize
    }
}

impl Default for LauncherState {
    fn default() -> (r: Self)
        ensures
            r.mode is None,
            r.query@.len() == 0,
            r.selected == 0,
            !r.request_focus,
            r.commands@.len() == 0,
            r.files@.len() == 0,
            r.rows@.len() == 0,
            r.workspace_roots@.len() == 0,
            r.generation == 0,
            !r.scanning,
            !r.loading,
            r.error is None,
    {
        LauncherState {
            mode: None,
            query: String::new(),
            selected: 0,
            request_focus: false,
            commands: Vec::new(),
            files: Vec::new(),
            rows: Vec::new(),
            workspace_roots: Vec::new(),
            generation: 0,
            scanning: false,
            loading: false,
            error: None,
        }
    }
}

fn command_candidates(commands: &Vec<CommandSpec>, query: &str) -> (r: Vec<(usize, LauncherRow)>)
    ensures
        r@.len() == command_rows(commands@, query@).len(),
        forall|i: int|
            0 <= i < r@.len() ==> (#[trigger] r@[i]).0 == command_rows(commands@, query@)[i].0
                && row_is(
                r@[i].1,
                command_rows(commands@, query@)[i],
                Some(LauncherMode::Commands),
                commands@,
                Seq::empty(),
            ),
{
    let mut out: Vec<(usize, LauncherRow)> = Vec::new();
    let mut k: usize = 0;
    while k < commands.len()
        invariant
            k <= commands@.len(),
            out@.len() == command_rows(commands@.take(k as int), query@).len(),
            forall|i: int|
                0 <= i < out@.len() ==> (#[trigger] out@[i]).0 == command_rows(
                    commands@.take(k as int),
                    query@,
                )[i].0 && row_is(
                    out@[i].1,
                    command_rows(commands@.take(k as int), query@)[i],
                    Some(LauncherMode::Commands),
                    commands@,
                    Seq::empty(),
                ),
        decreases commands.len() - k,
    {
        let c = &commands[k];
        let ghost before = command_rows(commands@.take(k as int), query@);
        assert(commands@.take(k + 1).drop_last() =~= commands@.take(k as int));
        assert(commands@.take(k + 1).last() == commands@[k as int]);
        let mut text = owned(c.category.as_str());
        crate::text::push_str(&mut text, " ");
        crate::text::push_str(&mut text, c.title.as_str());
        match fuzzy_score(text.as_str(), query) {
            Some(score) => {
                let row = LauncherRow {
                    action: RowAction::Command(copy_command(&c.id)),
                    primary: owned(c.title.as_str()),
                    secondary: owned(c.category.as_str()),
                    shortcut: match &c.shortcut {
                        Some(s) => Some(owned(s.as_str())),
                        None => None,
                    },
                    score,
                };
                out.push((k, row));
            },
            None => {},
        }
        k = k + 1;
    }
    assert(commands@.take(commands.len() as int) =~= commands@);
    out
}

fn file_candidates(files: &Vec<WorkspaceFile>, query: &str) -> (r: Vec<(usize, LauncherRow)>)
    ensures
        r@.len() == file_rows(files@, query@).len(),
        forall|i: int|
            0 <= i < r@.len() ==> (#[trigger] r@[i]).0 == file_rows(files@, query@)[i].0 && row_is(
                r@[i].1,
                file_rows(files@, query@)[i],
                Some(LauncherMode::Files),
                Seq::empty(),
                files@,
            ),
{
    let mut out: Vec<(usize, LauncherRow)> = Vec::new();
    let mut k: usize = 0;
    while k < files.len()
        invariant
            k <= files@.len(),
            out@.len() == file_rows(files@.take(k as int), query@).len(),
            forall|i: int|
                0 <= i < out@.len() ==> (#[trigger] out@[i]).0 == file_rows(
                    files@.take(k as int),
                    query@,
                )[i].0 && row_is(
                    out@[i].1,
                    file_rows(files@.take(k as int), query@)[i],
                    Some(LauncherMode::Files),
                    Seq::empty(),
                    files@,
                ),
        decreases files.len() - k,
    {
        let f = &files[k];
        assert(files@.take(k + 1).drop_last() =~= files@.take(k as int));
        assert(files@.take(k + 1).last() == files@[k as int]);
        match fuzzy_score(f.display.as_str(), query) {
            Some(score) => {
                let d = str_chars(f.display.as_str());
                let primary = match crate::path::file_name_chars(d.as_slice()) {
                    Some(n) => crate::text::string_from_chars(n.as_slice()),
                    None => String::new(),
                };
                let parent = crate::path::parent_chars(d.as_slice());
                let secondary_chars = normalize_slashes(parent.as_slice());
                let secondary = crate::text::string_from_chars(secondary_chars.as_slice());
                let row = LauncherRow {
                    action: RowAction::File(owned(f.path.as_str())),
                    primary,
                    secondary,
                    shortcut: None,
                    score,
                };
                out.push((k, row));
            },
            None => {},
        }
        k = k + 1;
    }
    assert(files@.take(files.len() as int) =~= files@);
    out
}

/// The plain values of candidate rows.
pub open spec fn cands_view(s: Seq<(usize, LauncherRow)>) -> Seq<RowView> {
    s.map_values(|x: (usize, LauncherRow)| row_view(x.0 as int, x.1))
}

fn sort_candidates(c: Vec<(usize, LauncherRow)>) -> (r: Vec<(usize, LauncherRow)>)
    ensures
        cands_view(r@) == sort_by_rank(cands_view(c@)),
        forall|i: int| 0 <= i < r@.len() ==> c@.contains(#[trigger] r@[i]),
{
    let ghost all = cands_view(c@);
    let ghost orig = c@;
    let count = c.len();
    assert(all.len() == count);
    let mut rest = c;
    let mut out: Vec<(usize, LauncherRow)> = Vec::new();
    let mut n: usize = 0;
    assert(orig.skip(0) =~= orig);
    while rest.len() > 0
        invariant
            n + rest@.len() == all.len(),
            all.len() <= usize::MAX,
            all == cands_view(orig),
            rest@ == orig.skip(n as int),
            cands_view(out@) == sort_by_rank(all.take(n as int)),
            forall|i: int| 0 <= i < out@.len() ==> orig.contains(#[trigger] out@[i]),
        decreases rest@.len(),
    {
        let ghost old_rest = rest@;
        let e = rest.remove(0);
        assert(old_rest[0] == orig[n as int]);
        let ghost ev = row_view(e.0 as int, e.1);
        assert(ev == all[n as int]);
        assert(rest@ =~= orig.skip(n + 1));
        let ghost sorted = cands_view(out@);
        assert(sorted.take(out.len() as int) =~= sorted);
        assert(sorted.skip(out.len() as int) =~= Seq::<RowView>::empty());
        let mut j: usize = out.len();
        while j > 0 && compare_rank(&out[j - 1].1, &e.1) > 0
            invariant
                j <= out@.len(),
                sorted == cands_view(out@),
                insert_by_rank(sorted, ev) == insert_by_rank(sorted.take(j as int), ev) + sorted.skip(
                    j as int,
                ),
                ev == row_view(e.0 as int, e.1),
            decreases j,
        {
            let ghost t = sorted.take(j as int);
            assert(t.drop_last() =~= sorted.take(j - 1));
            assert(t.last() == sorted[j - 1]);
            assert(rank_order(sorted[j - 1], ev) == rank_order(
                row_view(0, out@[j - 1].1),
                row_view(0, e.1),
            ));
            assert(sorted.skip(j - 1) =~= seq![sorted[j - 1]] + sorted.skip(j as int));
            assert(insert_by_rank(sorted.take(j - 1), ev).push(sorted[j - 1]) + sorted.skip(
                j as int,
            ) =~= insert_by_rank(sorted.take(j - 1), ev) + sorted.skip(j - 1));
            j = j - 1;
        }
        proof {
            let t = sorted.take(j as int);
            if j > 0 {
                assert(t.last() == sorted[j - 1]);
                assert(rank_order(sorted[j - 1], ev) == rank_order(
                    row_view(0, out@[j - 1].1),
                    row_view(0, e.1),
                ));
            }
            assert(insert_by_rank(t, ev) == t.push(ev));
        }
        let ghost before = out@;
        out.insert(j, e);
        assert(cands_view(out@) =~= sorted.take(j as int).push(ev) + sorted.skip(j as int));
        assert forall|i: int| 0 <= i < out@.len() implies orig.contains(#[trigger] out@[i]) by {
            if i < j {
                assert(out@[i] == before[i]);
            } else if i == j {
                assert(orig[n as int] == out@[i]);
            } else {
                assert(out@[i] == before[i - 1]);
            }
        }
        assert(all.take(n + 1).drop_last() =~= all.take(n as int));
        n = n + 1;
    }
    assert(all.take(n as int) =~= all);
    out
}

fn strip_sources(c: Vec<(usize, LauncherRow)>) -> (r: Vec<LauncherRow>)
    ensures
        r@.len() == c@.len(),
        forall|i: int| 0 <= i < c@.len() ==> (#[trigger] r@[i]) == c@[i].1,
{
    let ghost orig = c@;
    let mut rest = c;
    let mut out: Vec<LauncherRow> = Vec::new();
    assert(orig.skip(0) =~= orig);
    while rest.len() > 0
        invariant
            out@.len() + rest@.len() == orig.len(),
            rest@ == orig.skip(out@.len() as int),
            forall|i: int| 0 <= i < out@.len() ==> (#[trigger] out@[i]) == orig[i].1,
        decreases rest@.len(),
    {
        let ghost k: int = out@.len() as int;
        let (_, row) = rest.remove(0);
        assert(rest@ =~= orig.skip(k + 1));
        out.push(row);
    }
    out
}

impl LauncherState {
    /// Whether the launcher is showing.
    pub fn is_open(&self) -> (r: bool)
        ensures
            r == (self.mode is Some),
    {
        self.mode.is_some()
    }

    /// What the launcher is searching, when it shows.
    pub fn mode(&self) -> (r: Option<LauncherMode>)
        ensures
            r == self.mode,
    {
        self.mode
    }

    /// Recomputes the rows, as `visible_rows`, keeping the selection on a
    /// row.
    pub fn rebuild_rows(&mut self)
        ensures
            rows_current(*final(self)),
            final(self).selected == clamped(old(self).selected, final(self).rows@.len()),
            final(self).mode == old(self).mode,
            final(self).query == old(self).query,
            final(self).request_focus == old(self).request_focus,
            final(self).commands == old(self).commands,
            final(self).files == old(self).files,
            final(self).workspace_roots == old(self).workspace_roots,
            final(self).generation == old(self).generation,
            final(self).scanning == old(self).scanning,
            final(self).loading == old(self).loading,
            final(self).error == old(self).error,
    {
        let query = trim(self.query.as_str());
        let ghost q = query@;
        let ghost matched = match self.mode {
            Some(LauncherMode::Commands) => command_rows(self.commands@, q),
            Some(LauncherMode::Files) => file_rows(self.files@, q),
            None => Seq::empty(),
        };
        let cands: Vec<(usize, LauncherRow)> = match self.mode {
            Some(LauncherMode::Commands) => command_candidates(&self.commands, query.as_str()),
            Some(LauncherMode::Files) => file_candidates(&self.files, query.as_str()),
            None => Vec::new(),
        };
        assert(cands_view(cands@) =~= matched);
        assert forall|i: int| 0 <= i < cands@.len() implies row_is(
            (#[trigger] cands@[i]).1,
            row_view(cands@[i].0 as int, cands@[i].1),
            self.mode,
            self.commands@,
            self.files@,
        ) by {
            assert(cands_view(cands@)[i] == row_view(cands@[i].0 as int, cands@[i].1));
        }
        let blank = str_chars(query.as_str()).len() == 0;
        let ghost ranked = if !blank {
            sort_by_rank(matched)
        } else {
            matched
        };
        let mut sorted = if !blank {
            sort_candidates(cands)
        } else {
            cands
        };
        assert(cands_view(sorted@) == ranked);
        assert forall|i: int| 0 <= i < sorted@.len() implies row_is(
            (#[trigger] sorted@[i]).1,
            row_view(sorted@[i].0 as int, sorted@[i].1),
            self.mode,
            self.commands@,
            self.files@,
        ) by {
            assert(cands_view(sorted@)[i] == row_view(sorted@[i].0 as int, sorted@[i].1));
        }
        if sorted.len() > MAX_RESULTS {
            sorted.truncate(MAX_RESULTS);
        }
        let ghost shown = if ranked.len() > MAX_RESULTS {
            ranked.take(MAX_RESULTS as int)
        } else {
            ranked
        };
        assert(cands_view(sorted@) =~= shown);
        let ghost kept = sorted@;
        let rows = strip_sources(sorted);
        assert forall|i: int| 0 <= i < shown.len() implies row_is(
            #[trigger] rows@[i],
            shown[i],
            self.mode,
            self.commands@,
            self.files@,
        ) by {
            assert(cands_view(kept)[i] == row_view(kept[i].0 as int, kept[i].1));
            assert(rows@[i] == kept[i].1);
        }
        self.rows = rows;
        let n = self.rows.len();
        if n == 0 {
            self.selected = 0;
        } else if self.selected >= n {
            self.selected = n - 1;
        }
    }
}

/// The event a row stands for.
pub open spec fn row_event(action: RowAction, e: LauncherEvent) -> bool {
    match action {
        RowAction::Command(c) => e matches LauncherEvent::Execute(d) && same_command(d, c),
        RowAction::File(p) => e matches LauncherEvent::OpenFile(q) && q@ == p@,
    }
}

fn event_for_action(action: &RowAction) -> (r: LauncherEvent)
    ensures
        row_event(*action, r),
{
    match action {
        RowAction::Command(c) => LauncherEvent::Execute(copy_command(c)),
        RowAction::File(p) => LauncherEvent::OpenFile(owned(p.as_str())),
    }
}

/// The text the launcher shows when it has no rows.
pub open spec fn empty_text(s: LauncherState, mode: LauncherMode) -> Seq<char> {
    match s.error {
        Some(e) => e@,
        None => match mode {
            LauncherMode::Commands => if trimmed(s.query@).len() == 0 {
                "No commands available"@
            } else {
                "No matching commands"@
            },
            LauncherMode::Files => if s.workspace_roots@.len() == 0 {
                "Open a folder to search workspace files"@
            } else if s.loading {
                "Indexing workspace files\u{2026}"@
            } else if trimmed(s.query@).len() == 0 {
                "No workspace files found"@
            } else {
                "No matching files"@
            },
        },
    }
}

/// The selection after moving it by `delta`, kept within the rows.
pub open spec fn moved(selected: usize, delta: isize, rows: nat) -> usize {
    if rows == 0 {
        0
    } else {
        let target = selected + delta;
        if target < 0 {
            0
        } else if target > rows - 1 {
            (rows - 1) as usize
        } else {
            target as usize
        }
    }
}

/// Two lists of paths are equal as texts.
fn same_paths(a: &Vec<String>, b: &Vec<String>) -> (r: bool)
    ensures
        r == (a.deep_view() == b.deep_view()),
{
    if a.len() != b.len() {
        assert(a.deep_view().len() != b.deep_view().len());
        return false;
    }
    let mut i: usize = 0;
    while i < a.len()
        invariant
            a@.len() == b@.len(),
            i <= a@.len(),
            forall|k: int| 0 <= k < i ==> a@[k]@ == b@[k]@,
        decreases a.len() - i,
    {
        if !crate::text::str_eq(a[i].as_str(), b[i].as_str()) {
            assert(a.deep_view()[i as int] != b.deep_view()[i as int]);
            return false;
        }
        i = i + 1;
    }
    assert(a.deep_view() =~= b.deep_view());
    true
}

/// `n` is `o` closed: no mode, an empty query and no rows, the selection
/// back at the top and no focus request; the sources, the scan and the
/// error stay.
pub open spec fn dismissed(o: LauncherState, n: LauncherState) -> bool {
    &&& n.mode is None
    &&& n.query@.len() == 0
    &&& n.rows@.len() == 0
    &&& n.selected == 0
    &&& !n.request_focus
    &&& n.commands == o.commands
    &&& n.files == o.files
    &&& n.workspace_roots == o.workspace_roots
    &&& n.generation == o.generation
    &&& n.scanning == o.scanning
    &&& n.loading == o.loading
    &&& n.error == o.error
}

impl LauncherState {
    /// Opens the command palette over `commands`.
    pub fn open_commands(&mut self, commands: Vec<CommandSpec>)
        ensures
            final(self).mode == Some(LauncherMode::Commands),
            final(self).commands@ == commands@,
            final(self).query@.len() == 0,
            final(self).selected == 0,
            final(self).request_focus,
            final(self).error is None,
            rows_current(*final(self)),
            final(self).files == old(self).files,
            final(self).workspace_roots == old(self).workspace_roots,
            final(self).generation == old(self).generation,
            final(self).scanning == old(self).scanning,
            final(self).loading == old(self).loading,
    {
        self.mode = Some(LauncherMode::Commands);
        self.commands = commands;
        self.query = String::new();
        self.selected = 0;
        self.request_focus = true;
        self.error = None;
        self.rebuild_rows();
    }

    /// Opens quick-open over the workspace `roots`. Without roots there is
    /// nothing to search; otherwise a scan of them begins, whose generation
    /// is returned (see `refresh_workspace`).
    pub fn open_files(&mut self, roots: Vec<String>) -> (scan: Option<u64>)
        ensures
            final(self).mode == Some(LauncherMode::Files),
            final(self).query@.len() == 0,
            final(self).selected == 0,
            final(self).request_focus,
            final(self).error is None,
            rows_current(*final(self)),
            final(self).commands == old(self).commands,
            final(self).workspace_roots@ == roots@,
            if roots@.len() == 0 {
                &&& scan is None
                &&& final(self).files@.len() == 0
                &&& !final(self).loading
                &&& !final(self).scanning
                &&& final(self).generation == old(self).generation
            } else {
                &&& scan == Some(old(self).generation.wrapping_add(1))
                &&& final(self).generation == old(self).generation.wrapping_add(1)
                &&& final(self).loading
                &&& final(self).scanning
            },
    {
        self.mode = Some(LauncherMode::Files);
        self.query = String::new();
        self.selected = 0;
        self.request_focus = true;
        self.error = None;
        if roots.len() == 0 {
            self.workspace_roots = roots;
            self.files = Vec::new();
            self.loading = false;
            self.scanning = false;
            self.rebuild_rows();
            None
        } else {
            Some(self.refresh_workspace(roots))
        }
    }

    /// Starts a scan of the workspace `roots` and returns its generation,
    /// the next one (wrapping). The files found so far are dropped when the
    /// roots change.
    pub fn refresh_workspace(&mut self, roots: Vec<String>) -> (generation: u64)
        ensures
            generation == old(self).generation.wrapping_add(1),
            final(self).generation == generation,
            final(self).workspace_roots@ == roots@,
            final(self).files@ == if old(self).workspace_roots.deep_view() == roots.deep_view() {
                old(self).files@
            } else {
                Seq::empty()
            },
            final(self).scanning,
            final(self).loading,
            rows_current(*final(self)),
            final(self).selected == clamped(old(self).selected, final(self).rows@.len()),
            final(self).mode == old(self).mode,
            final(self).query == old(self).query,
            final(self).request_focus == old(self).request_focus,
            final(self).commands == old(self).commands,
            final(self).error == old(self).error,
    {
        if !same_paths(&self.workspace_roots, &roots) {
            self.files = Vec::new();
        }
        self.workspace_roots = roots;
        self.generation = self.generation.wrapping_add(1);
        self.scanning = true;
        self.loading = true;
        self.rebuild_rows();
        self.generation
    }

    /// Takes the result of a scan of `roots` tagged `generation`: it is
    /// used only when it is the latest scan of the current roots. Either
    /// way the scan is over.
    pub fn accept_index(&mut self, generation: u64, roots: &Vec<String>, scan: WorkspaceScan)
        ensures
            !final(self).scanning,
            if generation == old(self).generation && old(self).workspace_roots.deep_view()
                == roots.deep_view() {
                &&& final(self).files@ == scan.files@
                &&& final(self).error == scan.error
                &&& !final(self).loading
                &&& rows_current(*final(self))
                &&& final(self).selected == clamped(old(self).selected, final(self).rows@.len())
            } else {
                &&& final(self).files == old(self).files
                &&& final(self).error == old(self).error
                &&& final(self).loading == old(self).loading
                &&& final(self).rows == old(self).rows
                &&& final(self).selected == old(self).selected
            },
            final(self).mode == old(self).mode,
            final(self).query == old(self).query,
            final(self).commands == old(self).commands,
            final(self).workspace_roots == old(self).workspace_roots,
            final(self).generation == old(self).generation,
    {
        if generation == self.generation && same_paths(&self.workspace_roots, roots) {
            self.files = scan.files;
            self.error = scan.error;
            self.loading = false;
            self.rebuild_rows();
        }
        self.scanning = false;
    }

    /// The scan ended without a result.
    pub fn index_disconnected(&mut self)
        ensures
            !final(self).scanning,
            !final(self).loading,
            final(self).mode == old(self).mode,
            final(self).files == old(self).files,
            final(self).rows == old(self).rows,
            final(self).selected == old(self).selected,
            final(self).error == old(self).error,
            final(self).generation == old(self).generation,
    {
        self.scanning = false;
        self.loading = false;
    }

    /// Closes the launcher.
    pub fn dismiss(&mut self)
        ensures
            dismissed(*old(self), *final(self)),
    {
        self.mode = None;
        self.query = String::new();
        self.rows = Vec::new();
        self.selected = 0;
        self.request_focus = false;
    }

    /// Shows `message` as the launcher's error.
    pub fn set_error(&mut self, message: String)
        ensures
            final(self).error == Some(message),
            final(self).mode == old(self).mode,
            final(self).rows == old(self).rows,
            final(self).selected == old(self).selected,
    {
        self.error = Some(message);
    }

    /// The query was edited: the selection returns to the first row, the
    /// error clears, and the rows follow the new query.
    pub fn set_query(&mut self, query: String)
        ensures
            final(self).query == query,
            final(self).selected == 0,
            final(self).error is None,
            rows_current(*final(self)),
            final(self).mode == old(self).mode,
            final(self).commands == old(self).commands,
            final(self).files == old(self).files,
            final(self).loading == old(self).loading,
    {
        self.query = query;
        self.selected = 0;
        self.error = None;
        self.rebuild_rows();
    }

    /// Moves the selection by `delta` rows, kept within the rows.
    pub fn move_selection(&mut self, delta: isize)
        requires
            old(self).selected <= isize::MAX,
            old(self).rows@.len() <= isize::MAX,
            isize::MIN <= old(self).selected + delta <= isize::MAX,
        ensures
            final(self).selected == moved(old(self).selected, delta, old(self).rows@.len()),
            final(self).rows == old(self).rows,
            final(self).mode == old(self).mode,
            final(self).query == old(self).query,
    {
        if self.rows.len() == 0 {
            self.selected = 0;
            return;
        }
        let last = (self.rows.len() - 1) as isize;
        let target = self.selected as isize + delta;
        self.selected = if target < 0 {
            0
        } else if target > last {
            last as usize
        } else {
            target as usize
        };
    }

    /// The event of the selected row, if there is one.
    pub fn selected_event(&self) -> (r: Option<LauncherEvent>)
        ensures
            match r {
                Some(e) => self.selected < self.rows@.len() && row_event(
                    self.rows@[self.selected as int].action,
                    e,
                ),
                None => self.selected >= self.rows@.len(),
            },
    {
        if self.selected < self.rows.len() {
            Some(event_for_action(&self.rows[self.selected].action))
        } else {
            None
        }
    }

    /// The text shown when there are no rows in mode `mode`, as
    /// `empty_text`.
    pub fn empty_message(&self, mode: LauncherMode) -> (r: String)
        ensures
            r@ == empty_text(*self, mode),
    {
        match &self.error {
            Some(e) => return owned(e.as_str()),
            None => {},
        }
        let blank = str_chars(trim(self.query.as_str()).as_str()).len() == 0;
        match mode {
            LauncherMode::Commands => if blank {
                owned("No commands available")
            } else {
                owned("No matching commands")
            },
            LauncherMode::Files => if self.workspace_roots.len() == 0 {
                owned("Open a folder to search workspace files")
            } else if self.loading {
                owned("Indexing workspace files\u{2026}")
            } else if blank {
                owned("No workspace files found")
            } else {
                owned("No matching files")
            },
        }
    }

    /// Reacts to a key: escape closes the launcher, the arrows and page
    /// keys move the selection by one row or a page, enter chooses the
    /// selected row.
    pub fn handle_key(&mut self, key: LauncherKey) -> (r: Option<LauncherEvent>)
        requires
            old(self).selected + PAGE_SIZE <= isize::MAX,
            old(self).rows@.len() <= isize::MAX,
        ensures
            match key {
                LauncherKey::Escape => r == Some(LauncherEvent::Dismissed) && dismissed(*old(self), *final(self)),
                LauncherKey::Enter => final(self).selected == old(self).selected && final(self).rows
                    == old(self).rows && match r {
                    Some(e) => old(self).selected < old(self).rows@.len() && row_event(
                        old(self).rows@[old(self).selected as int].action,
                        e,
                    ),
                    None => old(self).selected >= old(self).rows@.len(),
                },
                _ => r is None && final(self).rows == old(self).rows && final(self).selected == moved(
                    old(self).selected,
                    match key {
                        LauncherKey::Up => -1isize,
                        LauncherKey::Down => 1isize,
                        LauncherKey::PageUp => -10isize,
                        _ => 10isize,
                    },
                    old(self).rows@.len(),
                ),
            },
    {
        match key {
            LauncherKey::Escape => {
                self.dismiss();
                Some(LauncherEvent::Dismissed)
            },
            LauncherKey::Up => {
                self.move_selection(-1);
                None
            },
            LauncherKey::Down => {
                self.move_selection(1);
                None
            },
            LauncherKey::PageUp => {
                self.move_selection(-PAGE_SIZE);
                None
            },
            LauncherKey::PageDown => {
                self.move_selection(PAGE_SIZE);
                None
            },
            LauncherKey::Enter => self.selected_event(),
        }
    }

    /// The launcher's footer: the refresh notice while scanning, else the
    /// error, else the key help.
    pub fn footer_text(&self) -> (r: String)
        ensures
            r@ == if self.loading {
                "Refreshing workspace files\u{2026}"@
            } else {
                match self.error {
                    Some(e) => e@,
                    None => "\u{2191}\u{2193} navigate \u{b7} Enter select \u{b7} Esc close"@,
                }
            },
    {
        if self.loading {
            owned("Refreshing workspace files\u{2026}")
        } else {
            match &self.error {
                Some(e) => owned(e.as_str()),
                None => owned("\u{2191}\u{2193} navigate \u{b7} Enter select \u{b7} Esc close"),
            }
        }
    }
}

impl LauncherMode {
    /// The launcher's heading in this mode.
    pub fn heading(self) -> (r: &'static str)
        ensures
            r@ == match self {
                LauncherMode::Commands => "Command Palette"@,
                LauncherMode::Files => "Quick Open"@,
            },
    {
        match self {
            LauncherMode::Commands => "Command Palette",
            LauncherMode::Files => "Quick Open",
        }
    }

    /// The query field's hint in this mode.
    pub fn hint(self) -> (r: &'static str)
        ensures
            r@ == match self {
                LauncherMode::Commands => "Type a command"@,
                LauncherMode::Files => "Type a file name or path"@,
            },
    {
        match self {
            LauncherMode::Commands => "Type a command",
            LauncherMode::Files => "Type a file name or path",
        }
    }
}

// ─── Workspace files ────────────────────────────────────────────────────────

/// The order of workspace files: by their display texts lower-cased, then
/// as they are.
pub open spec fn file_order(a: Seq<char>, b: Seq<char>) -> int {
    let l = crate::text::text_order(unicode_lowercase(a), unicode_lowercase(b));
    if l != 0 {
        l
    } else {
        crate::text::text_order(a, b)
    }
}

/// `s` with `e` placed after every file not ordered after it.
pub open spec fn insert_file(s: Seq<WorkspaceFile>, e: WorkspaceFile) -> Seq<WorkspaceFile>
    decreases s.len(),
{
    if s.len() == 0 {
        seq![e]
    } else if file_order(s.last().display@, e.display@) <= 0 {
        s.push(e)
    } else {
        insert_file(s.drop_last(), e).push(s.last())
    }
}

/// The files in order (`file_order`), files ordered alike in their first
/// order.
pub open spec fn sort_files(s: Seq<WorkspaceFile>) -> Seq<WorkspaceFile>
    decreases s.len(),
{
    if s.len() == 0 {
        Seq::empty()
    } else {
        insert_file(sort_files(s.drop_last()), s.last())
    }
}

fn compare_files(a: &WorkspaceFile, b: &WorkspaceFile) -> (r: i8)
    ensures
        r == file_order(a.display@, b.display@),
{
    let la = to_lowercase(a.display.as_str());
    let lb = to_lowercase(b.display.as_str());
    let ca = str_chars(la.as_str());
    let cb = str_chars(lb.as_str());
    let t = crate::text::compare_text(ca.as_slice(), cb.as_slice());
    if t != 0 {
        return t;
    }
    let da = str_chars(a.display.as_str());
    let db = str_chars(b.display.as_str());
    crate::text::compare_text(da.as_slice(), db.as_slice())
}

/// Puts the files of a scan in order, as `sort_files`.
pub fn sort_workspace_files(files: Vec<WorkspaceFile>) -> (r: Vec<WorkspaceFile>)
    ensures
        r@ == sort_files(files@),
{
    let ghost all = files@;
    let count = files.len();
    let mut rest = files;
    let mut out: Vec<WorkspaceFile> = Vec::new();
    let mut n: usize = 0;
    assert(all.skip(0) =~= all);
    while rest.len() > 0
        invariant
            n + rest@.len() == all.len(),
            all.len() == count,
            rest@ == all.skip(n as int),
            out@ == sort_files(all.take(n as int)),
        decreases rest@.len(),
    {
        let ghost old_rest = rest@;
        let e = rest.remove(0);
        assert(old_rest[0] == all[n as int]);
        assert(rest@ =~= all.skip(n + 1));
        let ghost sorted = out@;
        assert(sorted.take(out.len() as int) =~= sorted);
        assert(sorted.skip(out.len() as int) =~= Seq::<WorkspaceFile>::empty());
        let mut j: usize = out.len();
        while j > 0 && compare_files(&out[j - 1], &e) > 0
            invariant
                j <= out@.len(),
                sorted == out@,
                insert_file(sorted, e) == insert_file(sorted.take(j as int), e) + sorted.skip(j as int),
            decreases j,
        {
            let ghost t = sorted.take(j as int);
            assert(t.drop_last() =~= sorted.take(j - 1));
            assert(t.last() == sorted[j - 1]);
            assert(sorted.skip(j - 1) =~= seq![sorted[j - 1]] + sorted.skip(j as int));
            assert(insert_file(sorted.take(j - 1), e).push(sorted[j - 1]) + sorted.skip(j as int)
                =~= insert_file(sorted.take(j - 1), e) + sorted.skip(j - 1));
            j = j - 1;
        }
        proof {
            let t = sorted.take(j as int);
            if j > 0 {
                assert(t.last() == sorted[j - 1]);
            }
            assert(insert_file(t, e) == t.push(e));
        }
        out.insert(j, e);
        assert(out@ =~= sorted.take(j as int).push(e) + sorted.skip(j as int));
        assert(all.take(n + 1).drop_last() =~= all.take(n as int));
        n = n + 1;
    }
    assert(all.take(n as int) =~= all);
    out
}

/// The text a workspace file is searched by: its path relative to its
/// root, prefixed with the root's name when there are several roots.
pub fn display_for(root_name: &str, relative: &str, several_roots: bool) -> (r: String)
    ensures
        r@ == if several_roots {
            root_name@ + "/"@ + relative@
        } else {
            relative@
        },
{
    if several_roots {
        let mut s = owned(root_name);
        crate::text::push_str(&mut s, "/");
        crate::text::push_str(&mut s, relative);
        s
    } else {
        owned(relative)
    }
}

/// Whether the workspace scan skips an entry: a directory below a root
/// named `target`, in any case.
pub fn is_skipped_entry(depth: usize, is_dir: bool, name: &str) -> (r: bool)
    ensures
        r == (depth > 0 && is_dir && crate::text::ascii_lower_seq(name@) == "target"@),
{
    if depth == 0 || !is_dir {
        return false;
    }
    let lower = crate::text::ascii_lower_chars(str_chars(name).as_slice());
    let target = str_chars("target");
    chars_eq(lower.as_slice(), target.as_slice())
}

// ─── Ranking laws ───────────────────────────────────────────────────────────

/// The rows of `s` are in rank order.
pub open spec fn by_rank(s: Seq<RowView>) -> bool {
    forall|i: int, j: int| 0 <= i <= j < s.len() ==> rank_order(s[i], s[j]) <= 0
}

proof fn lemma_text_facts(a: Seq<char>, b: Seq<char>)
    ensures
        -1 <= crate::text::text_order(a, b) <= 1,
        crate::text::text_order(b, a) == -crate::text::text_order(a, b),
        crate::text::text_order(a, b) == 0 ==> a == b,
{
    crate::text::lemma_text_order_facts(a, b, 0);
    if crate::text::text_order(a, b) == 0 {
        assert(a.skip(0) == a && b.skip(0) == b);
    }
}

proof fn lemma_text_trans(a: Seq<char>, b: Seq<char>, c: Seq<char>)
    requires
        crate::text::text_order(a, b) <= 0,
        crate::text::text_order(b, c) <= 0,
    ensures
        crate::text::text_order(a, c) <= 0,
        crate::text::text_order(a, c) == 0 ==> crate::text::text_order(a, b) == 0 && crate::text::text_order(b, c) == 0,
{
    crate::text::lemma_text_order_trans(a, b, c, 0);
    lemma_text_facts(a, b);
    lemma_text_facts(b, c);
    lemma_text_facts(a, c);
    if crate::text::text_order(a, c) == 0 {
        lemma_text_facts(c, b);
    }
}

/// Rank order compares alike both ways round, and a row with itself is even.
proof fn lemma_rank_flip(a: RowView, b: RowView)
    ensures
        rank_order(b, a) == -rank_order(a, b),
        -1 <= rank_order(a, b) <= 1,
        rank_order(a, a) == 0,
{
    lemma_text_facts(unicode_lowercase(a.1), unicode_lowercase(b.1));
    lemma_text_facts(a.2, b.2);
    lemma_text_facts(unicode_lowercase(a.1), unicode_lowercase(a.1));
    lemma_text_facts(a.2, a.2);
}

/// Rank order is transitive.
proof fn lemma_rank_trans(a: RowView, b: RowView, c: RowView)
    requires
        rank_order(a, b) <= 0,
        rank_order(b, c) <= 0,
    ensures
        rank_order(a, c) <= 0,
{
    let (la, lb, lc) = (unicode_lowercase(a.1), unicode_lowercase(b.1), unicode_lowercase(c.1));
    lemma_text_facts(la, lb);
    lemma_text_facts(lb, lc);
    lemma_text_facts(la, lc);
    lemma_text_facts(a.2, b.2);
    lemma_text_facts(b.2, c.2);
    lemma_text_facts(a.2, c.2);
    if a.3 == b.3 && b.3 == c.3 {
        let (na, nb, nc) = (encode_utf8(a.1).len(), encode_utf8(b.1).len(), encode_utf8(c.1).len());
        if na == nb && nb == nc {
            if crate::text::text_order(la, lb) <= 0 && crate::text::text_order(lb, lc) <= 0 {
                lemma_text_trans(la, lb, lc);
                if crate::text::text_order(la, lc) == 0 {
                    lemma_text_trans(a.2, b.2, c.2);
                }
            }
        }
    }
}

proof fn lemma_insert_by_rank(s: Seq<RowView>, e: RowView)
    requires
        by_rank(s),
    ensures
        by_rank(insert_by_rank(s, e)),
        insert_by_rank(s, e).to_multiset() == s.to_multiset().insert(e),
        insert_by_rank(s, e).len() == s.len() + 1,
        forall|i: int|
            0 <= i < insert_by_rank(s, e).len() ==> (#[trigger] insert_by_rank(s, e)[i] == e || s.contains(
                insert_by_rank(s, e)[i],
            )),
    decreases s.len(),
{
    broadcast use vstd::multiset::group_multiset_axioms, vstd::seq_lib::group_seq_properties;

    lemma_rank_flip(e, e);
    if s.len() == 0 {
        assert(seq![e].to_multiset() =~= Seq::<RowView>::empty().to_multiset().insert(e));
    } else if rank_order(s.last(), e) <= 0 {
        let r = s.push(e);
        assert forall|i: int, j: int| 0 <= i <= j < r.len() implies rank_order(r[i], r[j]) <= 0 by {
            if j == s.len() && i < s.len() {
                assert(rank_order(s[i], s[s.len() - 1]) <= 0);
                lemma_rank_trans(s[i], s.last(), e);
            } else if j < s.len() {
                assert(r[i] == s[i] && r[j] == s[j]);
            }
        }
        assert forall|i: int| 0 <= i < r.len() implies (#[trigger] r[i] == e || s.contains(r[i])) by {
            if i < s.len() {
                assert(s[i] == r[i]);
            }
        }
    } else {
        let t = s.drop_last();
        assert(by_rank(t)) by {
            assert forall|i: int, j: int| 0 <= i <= j < t.len() implies rank_order(t[i], t[j]) <= 0 by {
                assert(t[i] == s[i] && t[j] == s[j]);
            }
        }
        lemma_insert_by_rank(t, e);
        let u = insert_by_rank(t, e);
        let l = s.last();
        assert(s =~= t.push(l));
        lemma_rank_flip(l, e);
        lemma_rank_flip(l, l);
        let r = u.push(l);
        assert forall|i: int, j: int| 0 <= i <= j < r.len() implies rank_order(r[i], r[j]) <= 0 by {
            if j == u.len() && i < u.len() {
                if u[i] != e {
                    assert(t.contains(u[i]));
                    let k = choose|k: int| 0 <= k < t.len() && t[k] == u[i];
                    assert(s[k] == t[k]);
                    assert(rank_order(s[k], s[s.len() - 1]) <= 0);
                }
            } else if j < u.len() {
                assert(r[i] == u[i] && r[j] == u[j]);
            }
        }
        assert forall|i: int| 0 <= i < r.len() implies (#[trigger] r[i] == e || s.contains(r[i])) by {
            if i < u.len() {
                if u[i] != e {
                    assert(t.contains(u[i]));
                    let k = choose|k: int| 0 <= k < t.len() && t[k] == u[i];
                    assert(s[k] == t[k]);
                }
            } else {
                assert(s[s.len() - 1] == l);
            }
        }
    }
}

/// Ranking puts the rows in rank order (higher scores first, then shorter
/// primary texts, then their lower-cased text, then the secondary text),
/// losing and adding none.
pub proof fn lemma_sort_by_rank(s: Seq<RowView>)
    ensures
        by_rank(sort_by_rank(s)),
        sort_by_rank(s).to_multiset() == s.to_multiset(),
    decreases s.len(),
{
    broadcast use vstd::multiset::group_multiset_axioms, vstd::seq_lib::group_seq_properties;

    if s.len() > 0 {
        lemma_sort_by_rank(s.drop_last());
        lemma_insert_by_rank(sort_by_rank(s.drop_last()), s.last());
        assert(s =~= s.drop_last().push(s.last()));
    }
}

} // verus!
