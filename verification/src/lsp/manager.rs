//! The language servers of the editor: which server serves a file, which
//! servers have been started, and what each one keeps. Starting and
//! stopping a server's process is the caller's; this table decides when to
//! do it and routes requests and responses.

use vstd::prelude::*;
use crate::language::{language_for_extension, lower_extension, server_of, LanguageId, LanguageServerId};
use crate::lsp::client::{absorbed, forgotten, needs_running, set_progress, ClientState, ProgressTable};
use crate::lsp::types::{LspDiagnostic, LspRequest, LspResponse, ProgressState};
use crate::problems_panel::{lemma_path_index, path_index, DiagnosticsByFile};

verus! {

/// Where a language server stands.
#[derive(Debug, Clone, Copy, PartialEq, Eq, Structural)]
pub enum ServerStatus {
    Running,
    Starting,
    Stopped,
}

/// The language server that serves the file at `p`, if any.
pub open spec fn server_for_path(p: Seq<char>) -> Option<LanguageServerId> {
    server_of(language_for_extension(lower_extension(p)))
}

/// The language server that serves the file at `path`, if any.
pub fn server_for(path: &str) -> (r: Option<LanguageServerId>)
    ensures
        r == server_for_path(path@),
{
    LanguageId::from_path(path).server_id()
}

/// The started servers, each with what the editor keeps of it, in the
/// order they were started.
#[derive(Debug)]
pub struct LspManager {
    clients: Vec<(LanguageServerId, ClientState)>,
}

/// The position of server `id` among `c`, or -1.
pub open spec fn server_index(c: Seq<(LanguageServerId, ClientState)>, id: LanguageServerId) -> int
    decreases c.len(),
{
    if c.len() == 0 {
        -1
    } else {
        let k = server_index(c.drop_last(), id);
        if k >= 0 {
            k
        } else if c.last().0 == id {
            c.len() - 1
        } else {
            -1
        }
    }
}

proof fn lemma_server_index(c: Seq<(LanguageServerId, ClientState)>, id: LanguageServerId)
    ensures
        -1 <= server_index(c, id) < c.len(),
        server_index(c, id) >= 0 ==> c[server_index(c, id)].0 == id,
        server_index(c, id) >= 0 ==> forall|k: int| 0 <= k < server_index(c, id) ==> (#[trigger] c[k]).0 != id,
        server_index(c, id) == -1 ==> forall|k: int| 0 <= k < c.len() ==> (#[trigger] c[k]).0 != id,
    decreases c.len(),
{
    if c.len() > 0 {
        lemma_server_index(c.drop_last(), id);
        assert forall|k: int| 0 <= k < c.len() - 1 implies (#[trigger] c[k]) == c.drop_last()[k] by {}
    }
}

/// Whether `id` has been started in `c`.
pub open spec fn started_in(c: Seq<(LanguageServerId, ClientState)>, id: LanguageServerId) -> bool {
    server_index(c, id) >= 0
}

/// Whether server `id` of `c` has started and runs.
pub open spec fn running_in(c: Seq<(LanguageServerId, ClientState)>, id: LanguageServerId) -> bool {
    started_in(c, id) && c[server_index(c, id)].1.running
}

/// Whether `request` may go to server `id` of `c` now, as the client
/// allows it.
pub open spec fn client_allows(c: Seq<(LanguageServerId, ClientState)>, id: LanguageServerId, request: LspRequest) -> bool {
    !needs_running(request) || running_in(c, id)
}

/// What to do with a request about a file.
#[derive(Debug, Clone, Copy, PartialEq, Eq, Structural)]
pub enum RequestPlan {
    /// No language server serves the file.
    NoServer,
    /// The server will not take it: not started and not available, or not
    /// ready for a request that awaits an answer.
    Refused,
    /// Send it to this started server.
    Send(LanguageServerId),
    /// Start this server first; then send the request when `send` holds
    /// (a new server takes only what needs no answer yet).
    Start { server: LanguageServerId, send: bool },
}

/// What becomes of `request` about the file at `path`, when `available`
/// says whether the file's server, if not started, is enabled and
/// configured.
pub open spec fn request_plan(
    c: Seq<(LanguageServerId, ClientState)>,
    path: Seq<char>,
    request: LspRequest,
    available: bool,
) -> RequestPlan {
    match server_for_path(path) {
        None => RequestPlan::NoServer,
        Some(s) => if started_in(c, s) {
            if client_allows(c, s, request) {
                RequestPlan::Send(s)
            } else {
                RequestPlan::Refused
            }
        } else if available {
            RequestPlan::Start { server: s, send: !needs_running(request) }
        } else {
            RequestPlan::Refused
        },
    }
}

/// The servers whose settings changed, in the order rust, python,
/// typescript, that have been started.
pub open spec fn changed_servers(
    c: Seq<(LanguageServerId, ClientState)>,
    rust: bool,
    python: bool,
    typescript: bool,
) -> Seq<LanguageServerId> {
    let a = if rust && started_in(c, LanguageServerId::Rust) {
        seq![LanguageServerId::Rust]
    } else {
        Seq::empty()
    };
    let b = if python && started_in(c, LanguageServerId::Python) {
        seq![LanguageServerId::Python]
    } else {
        Seq::empty()
    };
    let t = if typescript && started_in(c, LanguageServerId::TypeScript) {
        seq![LanguageServerId::TypeScript]
    } else {
        Seq::empty()
    };
    a + b + t
}

/// `c` without server `id`.
pub open spec fn without_server(c: Seq<(LanguageServerId, ClientState)>, id: LanguageServerId) -> Seq<
    (LanguageServerId, ClientState),
> {
    if started_in(c, id) {
        c.remove(server_index(c, id))
    } else {
        c
    }
}

/// No server occurs twice in `c`.
pub open spec fn distinct_servers(c: Seq<(LanguageServerId, ClientState)>) -> bool {
    forall|i: int, j: int| 0 <= i < j < c.len() ==> (#[trigger] c[i]).0 != (#[trigger] c[j]).0
}

/// `c` once the started servers among those whose settings changed (rust,
/// python, typescript) are stopped.
pub open spec fn stop_changed(
    c: Seq<(LanguageServerId, ClientState)>,
    rust: bool,
    python: bool,
    typescript: bool,
) -> Seq<(LanguageServerId, ClientState)> {
    let c1 = if rust { without_server(c, LanguageServerId::Rust) } else { c };
    let c2 = if python { without_server(c1, LanguageServerId::Python) } else { c1 };
    if typescript { without_server(c2, LanguageServerId::TypeScript) } else { c2 }
}


/// A file's diagnostics as plain values: its path and the diagnostics.
pub type DiagEntry = (Seq<char>, Seq<LspDiagnostic>);

/// The entries of a diagnostics table as plain values.
pub open spec fn entry_views(e: Seq<(String, Vec<LspDiagnostic>)>) -> Seq<DiagEntry> {
    e.map_values(|x: (String, Vec<LspDiagnostic>)| (x.0@, x.1@))
}

/// The position of the entry of path `p`, or -1.
pub open spec fn view_index(e: Seq<DiagEntry>, p: Seq<char>) -> int
    decreases e.len(),
{
    if e.len() == 0 {
        -1
    } else {
        let k = view_index(e.drop_last(), p);
        if k >= 0 {
            k
        } else if e.last().0 == p {
            e.len() - 1
        } else {
            -1
        }
    }
}

/// `acc` with the diagnostics of `x`'s path set to `x`'s: replaced in
/// place, or added last.
pub open spec fn put_view(acc: Seq<DiagEntry>, x: DiagEntry) -> Seq<DiagEntry> {
    let k = view_index(acc, x.0);
    if k >= 0 {
        acc.update(k, (acc[k].0, x.1))
    } else {
        acc.push(x)
    }
}

/// `acc` with each entry of `xs` put in turn.
pub open spec fn put_views(acc: Seq<DiagEntry>, xs: Seq<DiagEntry>) -> Seq<DiagEntry>
    decreases xs.len(),
{
    if xs.len() == 0 {
        acc
    } else {
        put_view(put_views(acc, xs.drop_last()), xs.last())
    }
}

/// The diagnostics of all started servers in one table: each server's
/// entries in turn, a later server's entry for a path replacing an
/// earlier one's.
pub open spec fn merged_diagnostics(c: Seq<(LanguageServerId, ClientState)>) -> Seq<DiagEntry>
    decreases c.len(),
{
    if c.len() == 0 {
        Seq::empty()
    } else {
        put_views(merged_diagnostics(c.drop_last()), entry_views(c.last().1.diagnostics.entries()))
    }
}

/// `acc` with each progress report of `xs` set in turn.
pub open spec fn put_progress(acc: Seq<(String, ProgressState)>, xs: Seq<(String, ProgressState)>) -> Seq<
    (String, ProgressState),
>
    decreases xs.len(),
{
    if xs.len() == 0 {
        acc
    } else {
        let a = put_progress(acc, xs.drop_last());
        set_progress(a, xs.last().0, xs.last().1)
    }
}

/// The progress reports of all started servers in one table, as
/// `merged_diagnostics` merges diagnostics.
pub open spec fn merged_progress(c: Seq<(LanguageServerId, ClientState)>) -> Seq<(String, ProgressState)>
    decreases c.len(),
{
    if c.len() == 0 {
        Seq::empty()
    } else {
        put_progress(merged_progress(c.drop_last()), c.last().1.active_progress.entries())
    }
}

/// Where a workspace-symbol search goes, trying the servers of `order` in
/// turn: a running server takes it; one started and not running is
/// passed over; one not started is started when `available` holds it (a
/// new server is not running yet, so the search goes on). The result is
/// the servers to start, in order, and the server that takes the search.
pub open spec fn symbol_plan(
    c: Seq<(LanguageServerId, ClientState)>,
    available: Seq<LanguageServerId>,
    order: Seq<LanguageServerId>,
) -> (Seq<LanguageServerId>, Option<LanguageServerId>)
    decreases order.len(),
{
    if order.len() == 0 {
        (Seq::empty(), None)
    } else {
        let s = order[0];
        let rest = symbol_plan(c, available, order.skip(1));
        if started_in(c, s) {
            if running_in(c, s) {
                (Seq::empty(), Some(s))
            } else {
                rest
            }
        } else if available.contains(s) {
            (seq![s] + rest.0, rest.1)
        } else {
            rest
        }
    }
}

/// The order in which servers are tried for a workspace-symbol search.
pub open spec fn symbol_order() -> Seq<LanguageServerId> {
    seq![LanguageServerId::Rust, LanguageServerId::Python, LanguageServerId::TypeScript]
}

impl LspManager {
    /// The started servers, in order.
    pub closed spec fn clients(&self) -> Seq<(LanguageServerId, ClientState)> {
        self.clients@
    }

    /// Each server is started at most once.
    pub open spec fn wf(&self) -> bool {
        distinct_servers(self.clients())
    }

    /// No server started.
    pub fn new() -> (r: Self)
        ensures
            r.wf(),
            r.clients().len() == 0,
    {
        LspManager { clients: Vec::new() }
    }

    fn find(&self, id: LanguageServerId) -> (r: Option<usize>)
        ensures
            match r {
                Some(i) => server_index(self.clients(), id) == i && i < self.clients().len(),
                None => server_index(self.clients(), id) < 0,
            },
    {
        let ghost c = self.clients@;
        let mut i: usize = 0;
        while i < self.clients.len()
            invariant
                self.clients@ == c,
                i <= c.len(),
                server_index(c.take(i as int), id) == -1,
            decreases c.len() - i,
        {
            assert(c.take(i + 1).drop_last() == c.take(i as int));
            if self.clients[i].0 == id {
                proof {
                    lemma_index_prefix(c, id, i + 1);
                }
                return Some(i);
            }
            i = i + 1;
        }
        assert(c.take(c.len() as int) == c);
        None
    }

    /// Whether server `id` has been started.
    pub fn is_started(&self, id: LanguageServerId) -> (r: bool)
        ensures
            r == started_in(self.clients(), id),
    {
        self.find(id).is_some()
    }

    /// Whether server `id` has been started and runs.
    pub fn is_running(&self, id: LanguageServerId) -> (r: bool)
        ensures
            r == running_in(self.clients(), id),
    {
        match self.find(id) {
            Some(i) => self.clients[i].1.is_running(),
            None => false,
        }
    }

    /// What the editor keeps of server `id`, when it has been started.
    pub fn client(&self, id: LanguageServerId) -> (r: Option<&ClientState>)
        ensures
            match r {
                Some(c) => started_in(self.clients(), id) && *c == self.clients()[server_index(
                    self.clients(),
                    id,
                )].1,
                None => !started_in(self.clients(), id),
            },
    {
        match self.find(id) {
            Some(i) => Some(&self.clients[i].1),
            None => None,
        }
    }

    /// Records that server `id`, not started before, has been started.
    pub fn register(&mut self, id: LanguageServerId, client: ClientState)
        requires
            old(self).wf(),
            !started_in(old(self).clients(), id),
        ensures
            final(self).wf(),
            final(self).clients() == old(self).clients().push((id, client)),
    {
        proof {
            lemma_server_index(self.clients@, id);
        }
        self.clients.push((id, client));
    }

    /// Forgets server `id` and hands back what was kept of it, when it had
    /// been started; the caller stops its process.
    pub fn stop_server(&mut self, id: LanguageServerId) -> (r: Option<ClientState>)
        requires
            old(self).wf(),
        ensures
            final(self).wf(),
            final(self).clients() == without_server(old(self).clients(), id),
            match r {
                Some(c) => started_in(old(self).clients(), id) && c == old(self).clients()[server_index(
                    old(self).clients(),
                    id,
                )].1,
                None => !started_in(old(self).clients(), id),
            },
    {
        match self.find(id) {
            Some(i) => {
                let ghost before = self.clients@;
                let (_, c) = self.clients.remove(i);
                proof {
                    let after = self.clients@;
                    assert forall|a: int, b: int| 0 <= a < b < after.len() implies (#[trigger] after[a]).0
                        != (#[trigger] after[b]).0 by {
                        let a0 = if a < i { a } else { a + 1 };
                        let b0 = if b < i { b } else { b + 1 };
                        assert(after[a] == before[a0] && after[b] == before[b0]);
                    }
                }
                Some(c)
            },
            None => None,
        }
    }

    /// Stops the started servers among those whose settings changed (the
    /// flags, for rust, python and typescript), in that order, and returns
    /// them; the caller stops their processes.
    pub fn handle_settings_change(&mut self, rust: bool, python: bool, typescript: bool) -> (r: Vec<
        LanguageServerId,
    >)
        requires
            old(self).wf(),
        ensures
            final(self).wf(),
            r@ == changed_servers(old(self).clients(), rust, python, typescript),
            final(self).clients() == stop_changed(old(self).clients(), rust, python, typescript),
    {
        let mut out: Vec<LanguageServerId> = Vec::new();
        if rust {
            if self.stop_server(LanguageServerId::Rust).is_some() {
                out.push(LanguageServerId::Rust);
            }
        }
        proof {
            lemma_without_keeps(old(self).clients(), LanguageServerId::Rust, LanguageServerId::Python);
            lemma_without_keeps(old(self).clients(), LanguageServerId::Rust, LanguageServerId::TypeScript);
        }
        let ghost c1 = self.clients@;
        if python {
            if self.stop_server(LanguageServerId::Python).is_some() {
                out.push(LanguageServerId::Python);
            }
        }
        proof {
            lemma_without_keeps(c1, LanguageServerId::Python, LanguageServerId::TypeScript);
        }
        let ghost c2 = self.clients@;
        if typescript {
            if self.stop_server(LanguageServerId::TypeScript).is_some() {
                out.push(LanguageServerId::TypeScript);
            }
        }
        out
    }

    /// What becomes of `request` about the file at `path`, as
    /// `request_plan`; `available` says whether the file's server, if not
    /// yet started, is enabled and configured.
    pub fn plan_request(&self, path: &str, request: &LspRequest, available: bool) -> (r: RequestPlan)
        ensures
            r == request_plan(self.clients(), path@, *request, available),
    {
        match server_for(path) {
            None => RequestPlan::NoServer,
            Some(s) => match self.find(s) {
                Some(i) => {
                    if self.clients[i].1.may_send(request) {
                        RequestPlan::Send(s)
                    } else {
                        RequestPlan::Refused
                    }
                },
                None => {
                    if available {
                        let fresh = ClientState::new();
                        RequestPlan::Start { server: s, send: fresh.may_send(request) }
                    } else {
                        RequestPlan::Refused
                    }
                },
            },
        }
    }

    /// Takes in a response of started server `id`, as that client's
    /// `absorb`, and returns what reaches the editor.
    pub fn absorb(&mut self, id: LanguageServerId, response: LspResponse) -> (forward: Option<LspResponse>)
        requires
            old(self).wf(),
            started_in(old(self).clients(), id),
        ensures
            final(self).wf(),
            ({
                let k = server_index(old(self).clients(), id);
                &&& final(self).clients() == old(self).clients().update(k, (id, final(self).clients()[k].1))
                &&& absorbed(old(self).clients()[k].1, response, final(self).clients()[k].1, forward)
            }),
    {
        proof {
            lemma_server_index(self.clients@, id);
        }
        let i = self.find(id).unwrap();
        let ghost before = self.clients@;
        let (sid, mut c) = self.clients.remove(i);
        let forward = c.absorb(response);
        self.clients.insert(i, (sid, c));
        proof {
            let after = self.clients@;
            assert(after == before.update(i as int, (id, c)));
            assert forall|a: int, b: int| 0 <= a < b < after.len() implies (#[trigger] after[a]).0
                != (#[trigger] after[b]).0 by {
                assert(after[a].0 == before[a].0 && after[b].0 == before[b].0);
            }
        }
        forward
    }

    /// A file was closed: its server, when started, drops its diagnostics,
    /// and that server is returned (the caller tells it).
    pub fn close_file(&mut self, path: &str) -> (r: Option<LanguageServerId>)
        requires
            old(self).wf(),
        ensures
            final(self).wf(),
            match server_for_path(path@) {
                Some(s) => if started_in(old(self).clients(), s) {
                    let k = server_index(old(self).clients(), s);
                    &&& r == Some(s)
                    &&& final(self).clients() == old(self).clients().update(k, (s, final(self).clients()[k].1))
                    &&& forgotten(old(self).clients()[k].1, path@, final(self).clients()[k].1)
                } else {
                    r is None && final(self).clients() == old(self).clients()
                },
                None => r is None && final(self).clients() == old(self).clients(),
            },
    {
        let s = match server_for(path) {
            Some(s) => s,
            None => return None,
        };
        let i = match self.find(s) {
            Some(i) => i,
            None => return None,
        };
        proof {
            lemma_server_index(self.clients@, s);
        }
        let ghost before = self.clients@;
        let (sid, mut c) = self.clients.remove(i);
        c.forget_file(path);
        self.clients.insert(i, (sid, c));
        proof {
            let after = self.clients@;
            assert(after == before.update(i as int, (s, c)));
            assert forall|a: int, b: int| 0 <= a < b < after.len() implies (#[trigger] after[a]).0
                != (#[trigger] after[b]).0 by {
                assert(after[a].0 == before[a].0 && after[b].0 == before[b].0);
            }
        }
        Some(s)
    }

    /// The diagnostics kept for the file at `path` by its server.
    pub fn diagnostics_for(&self, path: &str) -> (r: Option<&Vec<LspDiagnostic>>)
        ensures
            match r {
                Some(v) => server_for_path(path@) matches Some(s) && started_in(self.clients(), s) && {
                    let e = self.clients()[server_index(self.clients(), s)].1.diagnostics.entries();
                    path_index(e, path@) >= 0 && *v == e[path_index(e, path@)].1
                },
                None => match server_for_path(path@) {
                    Some(s) => started_in(self.clients(), s) ==> path_index(
                        self.clients()[server_index(self.clients(), s)].1.diagnostics.entries(),
                        path@,
                    ) < 0,
                    None => true,
                },
            },
    {
        let s = server_for(path)?;
        let i = self.find(s)?;
        self.clients[i].1.diagnostics_for(path)
    }

    /// The diagnostics of all started servers in one table, as
    /// `merged_diagnostics`.
    pub fn all_diagnostics(&self) -> (r: DiagnosticsByFile)
        ensures
            entry_views(r.entries()) == merged_diagnostics(self.clients()),
    {
        let mut all = DiagnosticsByFile::new();
        let mut i: usize = 0;
        while i < self.clients.len()
            invariant
                i <= self.clients@.len(),
                entry_views(all.entries()) == merged_diagnostics(self.clients@.take(i as int)),
            decreases self.clients@.len() - i,
        {
            let table = &self.clients[i].1.diagnostics;
            let ghost e = table.entries();
            let ghost base = merged_diagnostics(self.clients@.take(i as int));
            let mut j: usize = 0;
            while j < table.len()
                invariant
                    j <= e.len(),
                    e == table.entries(),
                    entry_views(all.entries()) == put_views(base, entry_views(e.take(j as int))),
                decreases e.len() - j,
            {
                let entry = table.entry(j);
                let diags = copy_diagnostics(&entry.1);
                let ghost prior = all.entries();
                proof {
                    lemma_entry_index(prior, entry.0@);
                }
                let _ = all.insert(entry.0.clone(), diags);
                proof {
                    lemma_put_entry(prior, entry.0, diags);
                    assert(entry_views(e.take(j + 1)).drop_last() == entry_views(e.take(j as int)));
                    assert(entry_views(e.take(j + 1)).last() == (entry.0@, entry.1@));
                }
                j = j + 1;
            }
            proof {
                assert(e.take(e.len() as int) == e);
                assert(self.clients@.take(i + 1).drop_last() == self.clients@.take(i as int));
            }
            i = i + 1;
        }
        assert(self.clients@.take(self.clients@.len() as int) == self.clients@);
        all
    }

    /// The progress reports of all started servers in one table, as
    /// `merged_progress`.
    pub fn active_progresses(&self) -> (r: ProgressTable)
        ensures
            r.entries() == merged_progress(self.clients()),
    {
        let mut all = ProgressTable::new();
        assert(all.entries() == Seq::<(String, ProgressState)>::empty());
        let mut i: usize = 0;
        while i < self.clients.len()
            invariant
                i <= self.clients@.len(),
                all.entries() == merged_progress(self.clients@.take(i as int)),
            decreases self.clients@.len() - i,
        {
            let table = &self.clients[i].1.active_progress;
            let ghost e = table.entries();
            let ghost base = merged_progress(self.clients@.take(i as int));
            let mut j: usize = 0;
            while j < table.len()
                invariant
                    j <= e.len(),
                    e == table.entries(),
                    all.entries() == put_progress(base, e.take(j as int)),
                decreases e.len() - j,
            {
                let entry = table.entry(j);
                let state = copy_progress(&entry.1);
                all.set(entry.0.clone(), state);
                proof {
                    assert(e.take(j + 1).drop_last() == e.take(j as int));
                }
                j = j + 1;
            }
            proof {
                assert(e.take(e.len() as int) == e);
                assert(self.clients@.take(i + 1).drop_last() == self.clients@.take(i as int));
            }
            i = i + 1;
        }
        assert(self.clients@.take(self.clients@.len() as int) == self.clients@);
        all
    }

    /// Forgets every server and returns them, in order; the caller stops
    /// their processes.
    pub fn shutdown_all(&mut self) -> (r: Vec<LanguageServerId>)
        ensures
            final(self).wf(),
            final(self).clients().len() == 0,
            r@ == old(self).clients().map_values(|x: (LanguageServerId, ClientState)| x.0),
    {
        let mut ids: Vec<LanguageServerId> = Vec::new();
        let mut i: usize = 0;
        while i < self.clients.len()
            invariant
                i <= self.clients@.len(),
                self.clients@ == old(self).clients@,
                ids@ == self.clients@.take(i as int).map_values(|x: (LanguageServerId, ClientState)| x.0),
            decreases self.clients@.len() - i,
        {
            ids.push(self.clients[i].0);
            proof {
                assert(self.clients@.take(i + 1).map_values(|x: (LanguageServerId, ClientState)| x.0)
                    == self.clients@.take(i as int).map_values(|x: (LanguageServerId, ClientState)| x.0).push(
                    self.clients@[i as int].0,
                ));
            }
            i = i + 1;
        }
        assert(self.clients@.take(self.clients@.len() as int) == self.clients@);
        self.clients = Vec::new();
        ids
    }

    fn symbol_step(&self, s: LanguageServerId, available: &[LanguageServerId]) -> (r: u8)
        ensures
            r == if started_in(self.clients(), s) {
                if running_in(self.clients(), s) { 0u8 } else { 2u8 }
            } else if available@.contains(s) {
                1u8
            } else {
                2u8
            },
    {
        if self.is_started(s) {
            if self.is_running(s) { 0 } else { 2 }
        } else {
            let mut k: usize = 0;
            while k < available.len()
                invariant
                    k <= available@.len(),
                    !started_in(self.clients(), s),
                    forall|m: int| 0 <= m < k ==> available@[m] != s,
                decreases available@.len() - k,
            {
                if available[k] == s {
                    assert(available@[k as int] == s);
                    return 1;
                }
                k = k + 1;
            }
            2
        }
    }

    /// Where a workspace-symbol search goes, as `symbol_plan` over
    /// `symbol_order`: the servers to start first, in order, and the
    /// running server that takes it. `available` lists the servers that
    /// are enabled and configured.
    pub fn plan_workspace_symbol(&self, available: &[LanguageServerId]) -> (r: (Vec<LanguageServerId>, Option<
        LanguageServerId,
    >))
        ensures
            (r.0@, r.1) == symbol_plan(self.clients(), available@, symbol_order()),
    {
        let ghost c = self.clients();
        let ghost o = symbol_order();
        proof {
            reveal_with_fuel(symbol_plan, 4);
            assert(o.skip(1) == seq![LanguageServerId::Python, LanguageServerId::TypeScript]);
            assert(o.skip(1).skip(1) == seq![LanguageServerId::TypeScript]);
            assert(o.skip(1).skip(1).skip(1) == Seq::<LanguageServerId>::empty());
        }
        let mut starts: Vec<LanguageServerId> = Vec::new();
        let a = self.symbol_step(LanguageServerId::Rust, available);
        if a == 0 {
            return (starts, Some(LanguageServerId::Rust));
        }
        if a == 1 {
            starts.push(LanguageServerId::Rust);
        }
        let b = self.symbol_step(LanguageServerId::Python, available);
        if b == 0 {
            return (starts, Some(LanguageServerId::Python));
        }
        if b == 1 {
            starts.push(LanguageServerId::Python);
        }
        let t = self.symbol_step(LanguageServerId::TypeScript, available);
        if t == 0 {
            return (starts, Some(LanguageServerId::TypeScript));
        }
        if t == 1 {
            starts.push(LanguageServerId::TypeScript);
        }
        (starts, None)
    }
}

fn copy_opt_string(m: &Option<String>) -> (r: Option<String>)
    ensures
        r == *m,
{
    match m {
        Some(s) => Some(s.clone()),
        None => None,
    }
}

fn copy_diagnostic(d: &LspDiagnostic) -> (r: LspDiagnostic)
    ensures
        r == *d,
{
    LspDiagnostic {
        line_start: d.line_start,
        col_start: d.col_start,
        line_end: d.line_end,
        col_end: d.col_end,
        severity: d.severity,
        message: d.message.clone(),
        code: copy_opt_string(&d.code),
    }
}

fn copy_diagnostics(v: &Vec<LspDiagnostic>) -> (r: Vec<LspDiagnostic>)
    ensures
        r@ == v@,
{
    let mut out: Vec<LspDiagnostic> = Vec::new();
    let mut i: usize = 0;
    while i < v.len()
        invariant
            i <= v@.len(),
            out@ == v@.take(i as int),
        decreases v@.len() - i,
    {
        out.push(copy_diagnostic(&v[i]));
        assert(v@.take(i + 1) == v@.take(i as int).push(v@[i as int]));
        i = i + 1;
    }
    assert(v@.take(v@.len() as int) == v@);
    out
}

fn copy_progress(p: &ProgressState) -> (r: ProgressState)
    ensures
        r == *p,
{
    ProgressState {
        title: p.title.clone(),
        message: copy_opt_string(&p.message),
        percentage: p.percentage,
        kind: p.kind,
    }
}

proof fn lemma_entry_index(e: Seq<(String, Vec<LspDiagnostic>)>, p: Seq<char>)
    ensures
        view_index(entry_views(e), p) == path_index(e, p),
    decreases e.len(),
{
    if e.len() > 0 {
        assert(entry_views(e).drop_last() == entry_views(e.drop_last()));
        lemma_entry_index(e.drop_last(), p);
    }
}

proof fn lemma_put_entry(e: Seq<(String, Vec<LspDiagnostic>)>, path: String, d: Vec<LspDiagnostic>)
    ensures
        entry_views(crate::lsp::client::set_diagnostics(e, path, d)) == put_view(entry_views(e), (path@, d@)),
{
    lemma_entry_index(e, path@);
    lemma_path_index(e, path@);
    let k = path_index(e, path@);
    if k >= 0 {
        assert(entry_views(e.update(k, (e[k].0, d))) == entry_views(e).update(k, (entry_views(e)[k].0, d@)));
    } else {
        assert(entry_views(e.push((path, d))) == entry_views(e).push((path@, d@)));
    }
}


proof fn lemma_index_prefix(c: Seq<(LanguageServerId, ClientState)>, id: LanguageServerId, n: int)
    requires
        0 < n <= c.len(),
        c[n - 1].0 == id,
        server_index(c.take(n - 1), id) == -1,
    ensures
        server_index(c, id) == n - 1,
    decreases c.len(),
{
    assert(c.take(n).drop_last() == c.take(n - 1));
    if n < c.len() {
        assert(c.drop_last().take(n) == c.take(n));
        assert(c.drop_last().take(n - 1) == c.take(n - 1));
        lemma_index_prefix(c.drop_last(), id, n);
    } else {
        assert(c.take(n) == c);
    }
}

/// Stopping a server forgets that server and no other: afterwards it is
/// not started, and every other server is started exactly when it was.
pub proof fn lemma_stop_forgets_only_that_server(c: Seq<(LanguageServerId, ClientState)>, gone: LanguageServerId)
    requires
        distinct_servers(c),
    ensures
        !started_in(without_server(c, gone), gone),
        forall|other: LanguageServerId|
            other != gone ==> #[trigger] started_in(without_server(c, gone), other) == started_in(c, other),
{
    lemma_server_index(c, gone);
    let w = without_server(c, gone);
    lemma_server_index(w, gone);
    if started_in(w, gone) {
        let g = server_index(c, gone);
        let k = server_index(w, gone);
        let o = if k < g { k } else { k + 1 };
        assert(w[k] == c[o]);
    }
    assert forall|other: LanguageServerId| other != gone implies #[trigger] started_in(
        without_server(c, gone),
        other,
    ) == started_in(c, other) by {
        lemma_without_keeps(c, gone, other);
    }
}

proof fn lemma_without_keeps(c: Seq<(LanguageServerId, ClientState)>, gone: LanguageServerId, other: LanguageServerId)
    requires
        gone != other,
    ensures
        started_in(without_server(c, gone), other) == started_in(c, other),
{
    lemma_server_index(c, gone);
    lemma_server_index(c, other);
    let w = without_server(c, gone);
    lemma_server_index(w, other);
    if started_in(c, gone) {
        let g = server_index(c, gone);
        if started_in(c, other) {
            let o = server_index(c, other);
            let k = if o < g { o } else { o - 1 };
            assert(w[k] == c[o]);
        }
        if started_in(w, other) {
            let k = server_index(w, other);
            let o = if k < g { k } else { k + 1 };
            assert(w[k] == c[o]);
        }
    }
}

} // verus!
