//! What the editor keeps of a language server between polls: whether it
//! runs, its diagnostics by file, its semantic-token legend and the
//! progress reports in flight; which responses reach the editor; and which
//! requests may be sent.

use vstd::prelude::*;
use crate::lsp::encode::request_caller_id;
use crate::lsp::types::{LspDiagnostic, LspRequest, LspResponse, ProgressKind, ProgressState};
use crate::problems_panel::{diagnostics_of, path_index, DiagnosticsByFile};
use crate::text::str_eq;

verus! {

/// Progress reports in flight, by token, in the order they began.
#[derive(Debug)]
pub struct ProgressTable {
    entries: Vec<(String, ProgressState)>,
}

/// The index of the first entry with token `t`, or -1.
pub open spec fn token_index(e: Seq<(String, ProgressState)>, t: Seq<char>) -> int
    decreases e.len(),
{
    if e.len() == 0 {
        -1
    } else {
        let k = token_index(e.drop_last(), t);
        if k >= 0 {
            k
        } else if e.last().0@ == t {
            e.len() - 1
        } else {
            -1
        }
    }
}

proof fn lemma_token_index(e: Seq<(String, ProgressState)>, t: Seq<char>)
    ensures
        -1 <= token_index(e, t) < e.len(),
        token_index(e, t) >= 0 ==> e[token_index(e, t)].0@ == t,
        token_index(e, t) < 0 <==> forall|k: int| 0 <= k < e.len() ==> (#[trigger] e[k]).0@ != t,
    decreases e.len(),
{
    if e.len() > 0 {
        lemma_token_index(e.drop_last(), t);
        assert forall|k: int| 0 <= k < e.len() - 1 implies (#[trigger] e[k]) == e.drop_last()[k] by {}
    }
}

proof fn lemma_token_prefix(e: Seq<(String, ProgressState)>, t: Seq<char>, m: int)
    requires
        0 <= m <= e.len(),
        token_index(e.take(m), t) >= 0,
    ensures
        token_index(e, t) == token_index(e.take(m), t),
    decreases e.len() - m,
{
    if m < e.len() {
        assert(e.take(m + 1).drop_last() == e.take(m));
        lemma_token_prefix(e, t, m + 1);
    } else {
        assert(e.take(m) == e);
    }
}

proof fn lemma_token_index_update(
    e: Seq<(String, ProgressState)>,
    t: Seq<char>,
    k: int,
    v: (String, ProgressState),
)
    requires
        0 <= k < e.len(),
        v.0@ == e[k].0@,
    ensures
        token_index(e.update(k, v), t) == token_index(e, t),
    decreases e.len(),
{
    if k < e.len() - 1 {
        assert(e.update(k, v).drop_last() == e.drop_last().update(k, v));
        lemma_token_index_update(e.drop_last(), t, k, v);
    } else {
        assert(e.update(k, v).drop_last() == e.drop_last());
    }
}

/// The reports after the one of token `t` is set to `v`: replaced in
/// place, or added last.
pub open spec fn set_progress(e: Seq<(String, ProgressState)>, t: String, v: ProgressState) -> Seq<
    (String, ProgressState),
> {
    let k = token_index(e, t@);
    if k >= 0 {
        e.update(k, (e[k].0, v))
    } else {
        e.push((t, v))
    }
}

/// The reports after the one of token `t` ends.
pub open spec fn end_progress(e: Seq<(String, ProgressState)>, t: Seq<char>) -> Seq<
    (String, ProgressState),
> {
    let k = token_index(e, t);
    if k >= 0 {
        e.remove(k)
    } else {
        e
    }
}

/// No token has two reports.
pub open spec fn distinct_tokens(e: Seq<(String, ProgressState)>) -> bool {
    forall|i: int, j: int| 0 <= i < j < e.len() ==> (#[trigger] e[i]).0@ != (#[trigger] e[j]).0@
}

impl ProgressTable {
    /// Each token is held once.
    #[verifier::type_invariant]
    spec fn held_once(self) -> bool {
        distinct_tokens(self.entries@)
    }

    /// The reports, in order.
    pub closed spec fn entries(&self) -> Seq<(String, ProgressState)> {
        self.entries@
    }

    /// No reports.
    pub fn new() -> (r: Self)
        ensures
            r.entries().len() == 0,
    {
        ProgressTable { entries: Vec::new() }
    }

    /// How many reports are in flight.
    pub fn len(&self) -> (n: usize)
        ensures
            n == self.entries().len(),
    {
        self.entries.len()
    }

    /// The report at `i`, by position.
    pub fn entry(&self, i: usize) -> (r: &(String, ProgressState))
        requires
            i < self.entries().len(),
        ensures
            *r == self.entries()[i as int],
    {
        &self.entries[i]
    }

    fn find(&self, token: &str) -> (r: Option<usize>)
        ensures
            match r {
                Some(i) => token_index(self.entries(), token@) == i,
                None => token_index(self.entries(), token@) < 0,
            },
    {
        find_token(&self.entries, token)
    }

    /// The report of `token`, when one is in flight.
    pub fn get(&self, token: &str) -> (r: Option<&ProgressState>)
        ensures
            match r {
                Some(v) => token_index(self.entries(), token@) >= 0 && *v == self.entries()[token_index(
                    self.entries(),
                    token@,
                )].1,
                None => token_index(self.entries(), token@) < 0,
            },
    {
        proof {
            lemma_token_index(self.entries@, token@);
        }
        match self.find(token) {
            Some(i) => Some(&self.entries[i].1),
            None => None,
        }
    }

    /// Sets the report of `token`, as `set_progress`.
    pub fn set(&mut self, token: String, state: ProgressState)
        ensures
            final(self).entries() == set_progress(old(self).entries(), token, state),
    {
        proof {
            use_type_invariant(&*self);
            lemma_token_index(self.entries@, token@);
        }
        let ghost e = self.entries@;
        let mut v: Vec<(String, ProgressState)> = Vec::new();
        std::mem::swap(&mut v, &mut self.entries);
        match find_token(&v, token.as_str()) {
            Some(i) => {
                let (key, _) = v.remove(i);
                v.insert(i, (key, state));
                proof {
                    assert(v@ == e.update(i as int, (e[i as int].0, state)));
                    assert forall|a: int, b: int| 0 <= a < b < v@.len() implies (#[trigger] v@[a]).0@
                        != (#[trigger] v@[b]).0@ by {
                        assert(v@[a].0 == e[a].0 && v@[b].0 == e[b].0);
                    }
                }
            },
            None => {
                v.push((token, state));
                proof {
                    assert forall|a: int, b: int| 0 <= a < b < v@.len() implies (#[trigger] v@[a]).0@
                        != (#[trigger] v@[b]).0@ by {
                        if b == e.len() {
                            assert(v@[a] == e[a]);
                        } else {
                            assert(v@[a] == e[a] && v@[b] == e[b]);
                        }
                    }
                }
            },
        }
        self.entries = v;
    }

    /// Ends the report of `token`, as `end_progress`; none of `token` is
    /// left.
    pub fn remove(&mut self, token: &str)
        ensures
            final(self).entries() == end_progress(old(self).entries(), token@),
            token_index(final(self).entries(), token@) < 0,
    {
        proof {
            use_type_invariant(&*self);
            lemma_token_index(self.entries@, token@);
        }
        let ghost e = self.entries@;
        let mut v: Vec<(String, ProgressState)> = Vec::new();
        std::mem::swap(&mut v, &mut self.entries);
        match find_token(&v, token) {
            Some(i) => {
                v.remove(i);
                proof {
                    let f = v@;
                    assert forall|a: int, b: int| 0 <= a < b < f.len() implies (#[trigger] f[a]).0@
                        != (#[trigger] f[b]).0@ by {
                        let a0 = if a < i { a } else { a + 1 };
                        let b0 = if b < i { b } else { b + 1 };
                        assert(f[a] == e[a0] && f[b] == e[b0]);
                    }
                    assert forall|k: int| 0 <= k < f.len() implies (#[trigger] f[k]).0@ != token@ by {
                        if k < i {
                            assert(f[k] == e[k]);
                        } else {
                            assert(f[k] == e[k + 1]);
                        }
                    }
                    lemma_token_index(f, token@);
                }
            },
            None => {},
        }
        self.entries = v;
    }
}

fn find_token(v: &Vec<(String, ProgressState)>, token: &str) -> (r: Option<usize>)
    ensures
        match r {
            Some(i) => token_index(v@, token@) == i,
            None => token_index(v@, token@) < 0,
        },
{
    let ghost e = v@;
    let ghost t = token@;
    let mut i: usize = 0;
    while i < v.len()
        invariant
            v@ == e,
            t == token@,
            i <= e.len(),
            token_index(e.take(i as int), t) == -1,
        decreases e.len() - i,
    {
        proof {
            assert(e.take(i + 1).drop_last() == e.take(i as int));
        }
        if str_eq(v[i].0.as_str(), token) {
            proof {
                lemma_token_index(e.take(i + 1), t);
                assert(token_index(e.take(i + 1), t) == i);
                lemma_token_prefix(e, t, i + 1);
            }
            return Some(i);
        }
        i = i + 1;
    }
    proof {
        assert(e.take(e.len() as int) == e);
    }
    None
}

/// The diagnostics after `path`'s are set to `d`: replaced in place, or
/// added last.
pub open spec fn set_diagnostics(
    e: Seq<(String, Vec<LspDiagnostic>)>,
    path: String,
    d: Vec<LspDiagnostic>,
) -> Seq<(String, Vec<LspDiagnostic>)> {
    let k = path_index(e, path@);
    if k >= 0 {
        e.update(k, (e[k].0, d))
    } else {
        e.push((path, d))
    }
}

/// What the editor keeps of a language server.
#[derive(Debug)]
pub struct ClientState {
    pub diagnostics: DiagnosticsByFile,
    pub running: bool,
    pub token_type_legend: Vec<String>,
    pub active_progress: ProgressTable,
}

/// A request is held back while the server is not running: every request
/// that a caller awaits an answer to.
pub open spec fn needs_running(req: LspRequest) -> bool {
    request_caller_id(req) is Some
}

fn copy_message(m: &Option<String>) -> (r: Option<String>)
    ensures
        r == *m,
{
    match m {
        Some(s) => Some(s.clone()),
        None => None,
    }
}

/// What one response from the transport does: `new` is the client after
/// `old` took in `response`, and `forward` what reaches the editor.
pub open spec fn absorbed(
    old: ClientState,
    response: LspResponse,
    new: ClientState,
    forward: Option<LspResponse>,
) -> bool {
    match response {
        LspResponse::Diagnostics { path, diagnostics } => {
            &&& forward is None
            &&& new.diagnostics.entries() == set_diagnostics(
                old.diagnostics.entries(),
                path,
                diagnostics,
            )
            &&& new.running == old.running
            &&& new.token_type_legend == old.token_type_legend
            &&& new.active_progress.entries() == old.active_progress.entries()
        },
        LspResponse::Initialized { token_types } => {
            &&& forward == Some(response)
            &&& new.running
            &&& new.token_type_legend@ == token_types@
            &&& new.diagnostics.entries() == old.diagnostics.entries()
            &&& new.active_progress.entries() == old.active_progress.entries()
        },
        LspResponse::ServerUnavailable { .. } => {
            &&& forward == Some(response)
            &&& !new.running
            &&& new.token_type_legend == old.token_type_legend
            &&& new.diagnostics.entries() == old.diagnostics.entries()
            &&& new.active_progress.entries() == old.active_progress.entries()
        },
        LspResponse::Progress { token, kind, title, message, percentage } => {
            &&& forward == Some(response)
            &&& new.active_progress.entries() == if kind is End {
                end_progress(old.active_progress.entries(), token@)
            } else {
                set_progress(
                    old.active_progress.entries(),
                    token,
                    ProgressState { title, message, percentage, kind },
                )
            }
            &&& new.running == old.running
            &&& new.token_type_legend == old.token_type_legend
            &&& new.diagnostics.entries() == old.diagnostics.entries()
        },
        _ => {
            &&& forward == Some(response)
            &&& new.running == old.running
            &&& new.token_type_legend == old.token_type_legend
            &&& new.diagnostics.entries() == old.diagnostics.entries()
            &&& new.active_progress.entries() == old.active_progress.entries()
        },
    }
}

/// `new` is `old` with the diagnostics of `path` dropped.
pub open spec fn forgotten(old: ClientState, path: Seq<char>, new: ClientState) -> bool {
    let k = path_index(old.diagnostics.entries(), path);
    &&& new.diagnostics.entries() == if k >= 0 {
        old.diagnostics.entries().remove(k)
    } else {
        old.diagnostics.entries()
    }
    &&& path_index(new.diagnostics.entries(), path) < 0
    &&& forall|q: Seq<char>|
        q != path ==> #[trigger] diagnostics_of(new.diagnostics.entries(), q) == diagnostics_of(
            old.diagnostics.entries(),
            q,
        )
    &&& new.running == old.running
    &&& new.token_type_legend == old.token_type_legend
    &&& new.active_progress.entries() == old.active_progress.entries()
}

impl ClientState {
    /// A server not yet running, with nothing kept.
    pub fn new() -> (r: Self)
        ensures
            !r.running,
            r.diagnostics.entries().len() == 0,
            r.token_type_legend@.len() == 0,
            r.active_progress.entries().len() == 0,
    {
        ClientState {
            diagnostics: DiagnosticsByFile::new(),
            running: false,
            token_type_legend: Vec::new(),
            active_progress: ProgressTable::new(),
        }
    }

    /// Whether the server has initialized (and not become unavailable).
    pub fn is_running(&self) -> (r: bool)
        ensures
            r == self.running,
    {
        self.running
    }

    /// The diagnostics kept for `path`.
    pub fn diagnostics_for(&self, path: &str) -> (r: Option<&Vec<LspDiagnostic>>)
        ensures
            match r {
                Some(v) => path_index(self.diagnostics.entries(), path@) >= 0 && *v
                    == self.diagnostics.entries()[path_index(self.diagnostics.entries(), path@)].1,
                None => path_index(self.diagnostics.entries(), path@) < 0,
            },
    {
        self.diagnostics.get(path)
    }

    /// Whether `request` may be sent now: requests the editor awaits an
    /// answer to only while the server runs, the others always.
    pub fn may_send(&self, request: &LspRequest) -> (r: bool)
        ensures
            r == (!needs_running(*request) || self.running),
    {
        match request {
            LspRequest::Initialize { .. } | LspRequest::DidOpen { .. } | LspRequest::DidChange { .. }
            | LspRequest::DidClose { .. } | LspRequest::Shutdown => true,
            _ => self.running,
        }
    }

    /// A document was closed: its diagnostics are dropped.
    pub fn forget_file(&mut self, path: &str)
        ensures
            forgotten(*old(self), path@, *final(self)),
    {
        let _ = self.diagnostics.remove(path);
    }

    /// Takes in one response from the transport and returns what reaches
    /// the editor: diagnostics are kept and not passed on; initializing
    /// starts the server and sets the legend, unavailability stops it;
    /// progress reports are tracked by token until they end; everything is
    /// passed on unchanged but diagnostics.
    pub fn absorb(&mut self, response: LspResponse) -> (forward: Option<LspResponse>)
        ensures
            absorbed(*old(self), response, *final(self), forward),
    {
        match response {
            LspResponse::Diagnostics { path, diagnostics } => {
                let _ = self.diagnostics.insert(path, diagnostics);
                None
            },
            LspResponse::Initialized { token_types } => {
                self.running = true;
                self.token_type_legend = token_types.clone();
                Some(LspResponse::Initialized { token_types })
            },
            LspResponse::ServerUnavailable { message } => {
                self.running = false;
                Some(LspResponse::ServerUnavailable { message })
            },
            LspResponse::Progress { token, kind, title, message, percentage } => {
                match kind {
                    ProgressKind::End => {
                        self.active_progress.remove(token.as_str());
                    },
                    _ => {
                        self.active_progress.set(
                            token.clone(),
                            ProgressState {
                                title: title.clone(),
                                message: copy_message(&message),
                                percentage,
                                kind,
                            },
                        );
                    },
                }
                Some(LspResponse::Progress { token, kind, title, message, percentage })
            },
            other => Some(other),
        }
    }
}

} // verus!
