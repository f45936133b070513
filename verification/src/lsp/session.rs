//! The decisions of a language-server session: what to write to the server,
//! what to hand the editor, and when to stop, for each event the transport
//! loop observes. The loop itself (the child process, its pipes, the clock)
//! runs outside; it performs the actions in order and reports back.

use std::collections::HashMap;
use vstd::prelude::*;
use crate::lsp::encode::{
    document_uri, encode_error, encode_request, kind_of, message_json, request_json,
    takes_wire_id, WireIds,
};
use crate::lsp::json::{json_str, member_models, push_member, Json, JsonValue};
use crate::lsp::transport::{message_outcome, parse_lsp_message, Legends, ParsedMessage, RequestKind};
use crate::lsp::types::{LspRequest, LspResponse};

verus! {

/// What a failed write means for the session.
#[derive(Debug, Clone, Copy, PartialEq, Eq, Structural)]
pub enum OnWriteFailure {
    /// Carry on as if it had been written.
    Ignore,
    /// Tell the editor the server is unavailable, and stop.
    ReportAndStop,
    /// Stop; the shutdown this write was to begin never began.
    AbandonShutdown,
}

/// One thing the transport loop is asked to do.
#[derive(Debug)]
pub enum TransportAction {
    /// Write a message to the server.
    Write { message: JsonValue, on_failure: OnWriteFailure },
    /// Hand a response to the editor.
    Send(LspResponse),
    /// End the session.
    Stop,
}

/// What the transport loop observed.
#[derive(Debug)]
pub enum TransportEvent {
    /// A message from the server (`None` when its body is not JSON).
    ServerMessage(Option<JsonValue>),
    /// The server's output ended.
    ServerClosed,
    /// The shutdown began longer ago than the session waits for it.
    ShutdownTimedOut,
    /// A request from the editor.
    Request(LspRequest),
    /// Nothing arrived from the editor for a while.
    Idle,
    /// The editor's side of the channel is gone.
    EditorGone,
    /// A write failed; it carried this instruction.
    WriteFailed(OnWriteFailure),
}

/// The state of one language-server session.
#[derive(Debug)]
pub struct Transport {
    /// The server program, named in the "unavailable" report.
    pub binary: String,
    /// The working directory relative document paths are taken from.
    pub cwd: Option<String>,
    /// This process's id, announced by `initialize`.
    pub process_id: u32,
    /// The editor's version, announced by `initialize`.
    pub client_version: String,
    /// Wire ids for requests.
    pub ids: WireIds,
    /// Requests sent and not yet answered, by wire id.
    pub pending: HashMap<u64, RequestKind>,
    /// Requests held back until the server has initialized, oldest first.
    pub queued: Vec<LspRequest>,
    /// The server has answered `initialize`.
    pub initialized: bool,
    /// A shutdown has been sent.
    pub shutdown_started: bool,
    /// `exit` has been sent.
    pub sent_exit: bool,
}

// ─── Messages of the lifecycle ──────────────────────────────────────────────

/// A notification without parameters.
pub open spec fn bare_notification(method: Seq<char>) -> Json {
    Json::Object(seq![("jsonrpc"@, Json::Str("2.0"@)), ("method"@, Json::Str(method))])
}

/// The `exit` notification.
pub open spec fn exit_json() -> Json {
    bare_notification("exit"@)
}

/// The `initialized` notification.
pub open spec fn initialized_json() -> Json {
    message_json(None, "initialized"@, Json::Object(Seq::empty()))
}

/// The `shutdown` request with wire id `id`.
pub open spec fn shutdown_json(id: u64) -> Json {
    message_json(Some(id), "shutdown"@, Json::Null)
}

/// The text that reports the server unavailable.
pub open spec fn unavailable_text(binary: Seq<char>) -> Seq<char> {
    binary + " not found \u{2014} LSP disabled"@
}

/// `a` writes `message`, with instruction `f` should the write fail.
pub open spec fn writes(a: TransportAction, message: Json, f: OnWriteFailure) -> bool {
    a matches TransportAction::Write { message: m, on_failure } && m.model() == message
        && on_failure == f
}

/// `a` reports the server unavailable.
pub open spec fn reports_unavailable(a: TransportAction, binary: Seq<char>) -> bool {
    a matches TransportAction::Send(LspResponse::ServerUnavailable { message }) && message@
        == unavailable_text(binary)
}

/// What a session announces and resolves paths with, as plain values.
pub ghost struct Setup {
    pub binary: Seq<char>,
    pub cwd: Option<Seq<char>>,
    pub process_id: u32,
    pub version: Seq<char>,
}

/// The setup of a session.
pub open spec fn setup_of(t: Transport) -> Setup {
    Setup {
        binary: t.binary@,
        cwd: t.cwd.deep_view(),
        process_id: t.process_id,
        version: t.client_version@,
    }
}

/// `pending` after a request is registered under wire id `wire`.
pub open spec fn registered(pending: Map<u64, RequestKind>, req: LspRequest, wire: u64) -> Map<
    u64,
    RequestKind,
> {
    match kind_of(req) {
        Some(k) => pending.insert(wire, k),
        None => pending,
    }
}

/// Sending the requests `queue` in order, from wire id `next0` with
/// `pending0`, gives `actions`, wire id `next1` and `pending1`: each
/// request is encoded and written (a failed write reports and stops), and a
/// request that cannot be encoded reports the server unavailable and stops
/// the session there.
pub open spec fn sends(
    queue: Seq<LspRequest>,
    next0: u64,
    pending0: Map<u64, RequestKind>,
    t: Setup,
    actions: Seq<TransportAction>,
    next1: u64,
    pending1: Map<u64, RequestKind>,
) -> bool
    decreases queue.len(),
{
    if queue.len() == 0 {
        actions.len() == 0 && next1 == next0 && pending1 == pending0
    } else {
        let req = queue[0];
        let next = if takes_wire_id(req) {
            next0.wrapping_add(1)
        } else {
            next0
        };
        match encode_error(req, t.cwd) {
            Some(_) => {
                &&& actions.len() == 2
                &&& reports_unavailable(actions[0], t.binary)
                &&& actions[1] is Stop
                &&& next1 == next
                &&& pending1 == pending0
            },
            None => {
                &&& actions.len() >= 1
                &&& writes(
                    actions[0],
                    request_json(
                        req,
                        next0,
                        document_uri(req, t.cwd),
                        t.process_id,
                        t.version,
                    ),
                    OnWriteFailure::ReportAndStop,
                )
                &&& sends(
                    queue.drop_first(),
                    next,
                    registered(pending0, req, next0),
                    t,
                    actions.drop_first(),
                    next1,
                    pending1,
                )
            },
        }
    }
}

/// `t1` is `t0` with only the wire ids, pending requests and queue changed.
pub open spec fn same_setup(t0: Transport, t1: Transport) -> bool {
    &&& t1.binary == t0.binary
    &&& t1.cwd == t0.cwd
    &&& t1.process_id == t0.process_id
    &&& t1.client_version == t0.client_version
}

/// What the session does with a parsed server message `r`, given `t0` with
/// its pending requests already `pending0` (the answered one removed).
pub open spec fn on_parsed(
    t0: Transport,
    pending0: Map<u64, RequestKind>,
    r: ParsedMessage,
    t1: Transport,
    actions: Seq<TransportAction>,
) -> bool {
    &&& same_setup(t0, t1)
    &&& t1.shutdown_started == t0.shutdown_started
    &&& match r {
        ParsedMessage::Response(x) => {
            &&& actions.len() == 1
            &&& actions[0] == TransportAction::Send(x)
            &&& t1.pending@ == pending0
            &&& t1.ids == t0.ids
            &&& t1.queued@ == t0.queued@
            &&& t1.initialized == t0.initialized
            &&& t1.sent_exit == t0.sent_exit
        },
        ParsedMessage::Initialized { token_types } => {
            &&& actions.len() >= 2
            &&& writes(actions[0], initialized_json(), OnWriteFailure::ReportAndStop)
            &&& actions[1] matches TransportAction::Send(
                LspResponse::Initialized { token_types: tt },
            ) && tt.deep_view() == token_types.deep_view()
            &&& sends(
                t0.queued@,
                t0.ids.next,
                pending0,
                setup_of(t0),
                actions.skip(2),
                t1.ids.next,
                t1.pending@,
            )
            &&& t1.queued@.len() == 0
            &&& t1.initialized
            &&& t1.sent_exit == t0.sent_exit
        },
        ParsedMessage::ShutdownAcknowledged => {
            &&& actions.len() == 2
            &&& writes(actions[0], exit_json(), OnWriteFailure::Ignore)
            &&& actions[1] is Stop
            &&& t1.sent_exit
            &&& t1.pending@ == pending0
            &&& t1.ids == t0.ids
            &&& t1.queued@ == t0.queued@
            &&& t1.initialized == t0.initialized
        },
        ParsedMessage::Ignored => {
            &&& actions.len() == 0
            &&& t1.pending@ == pending0
            &&& t1.ids == t0.ids
            &&& t1.queued@ == t0.queued@
            &&& t1.initialized == t0.initialized
            &&& t1.sent_exit == t0.sent_exit
        },
    }
}

/// `t1` is `t0` with nothing changed.
pub open spec fn unchanged(t0: Transport, t1: Transport) -> bool {
    &&& same_setup(t0, t1)
    &&& t1.ids == t0.ids
    &&& t1.pending@ == t0.pending@
    &&& t1.queued@ == t0.queued@
    &&& t1.initialized == t0.initialized
    &&& t1.shutdown_started == t0.shutdown_started
    &&& t1.sent_exit == t0.sent_exit
}

/// What the session does with a request from the editor.
///
/// A shutdown, the first time, is sent with the next wire id (should the
/// write fail, the shutdown is abandoned and the session stops); later ones
/// do nothing. `initialize` is sent at once, any other request once the
/// server has initialized and queued until then. A request that cannot be
/// encoded reports the server unavailable and stops the session.
pub open spec fn on_request(
    t0: Transport,
    req: LspRequest,
    t1: Transport,
    actions: Seq<TransportAction>,
) -> bool {
    if req is Shutdown {
        if t0.shutdown_started {
            unchanged(t0, t1) && actions.len() == 0
        } else {
            &&& actions.len() == 1
            &&& writes(actions[0], shutdown_json(t0.ids.next), OnWriteFailure::AbandonShutdown)
            &&& same_setup(t0, t1)
            &&& t1.ids.next == t0.ids.next.wrapping_add(1)
            &&& t1.pending@ == t0.pending@.insert(t0.ids.next, RequestKind::Shutdown)
            &&& t1.queued@ == t0.queued@
            &&& t1.initialized == t0.initialized
            &&& t1.shutdown_started
            &&& t1.sent_exit == t0.sent_exit
        }
    } else if req is Initialize || t0.initialized {
        &&& sends(seq![req], t0.ids.next, t0.pending@, setup_of(t0), actions, t1.ids.next, t1.pending@)
        &&& same_setup(t0, t1)
        &&& t1.queued@ == t0.queued@
        &&& t1.initialized == t0.initialized
        &&& t1.shutdown_started == t0.shutdown_started
        &&& t1.sent_exit == t0.sent_exit
    } else {
        &&& actions.len() == 0
        &&& same_setup(t0, t1)
        &&& t1.ids == t0.ids
        &&& t1.pending@ == t0.pending@
        &&& t1.queued@ == t0.queued@.push(req)
        &&& t1.initialized == t0.initialized
        &&& t1.shutdown_started == t0.shutdown_started
        &&& t1.sent_exit == t0.sent_exit
    }
}

/// What the session does with any event but a server message.
pub open spec fn on_event(
    t0: Transport,
    event: TransportEvent,
    t1: Transport,
    actions: Seq<TransportAction>,
) -> bool {
    match event {
        TransportEvent::ServerMessage(_) => true,
        TransportEvent::ServerClosed => {
            &&& unchanged(t0, t1)
            &&& if t0.shutdown_started {
                actions.len() == 1 && actions[0] is Stop
            } else {
                actions.len() == 2 && reports_unavailable(actions[0], t0.binary@) && actions[1] is Stop
            }
        },
        TransportEvent::ShutdownTimedOut => if t0.shutdown_started {
            &&& actions.len() == 2
            &&& writes(actions[0], exit_json(), OnWriteFailure::Ignore)
            &&& actions[1] is Stop
            &&& same_setup(t0, t1)
            &&& t1.ids == t0.ids
            &&& t1.pending@ == t0.pending@
            &&& t1.queued@ == t0.queued@
            &&& t1.initialized == t0.initialized
            &&& t1.shutdown_started
            &&& t1.sent_exit
        } else {
            unchanged(t0, t1) && actions.len() == 0
        },
        TransportEvent::Request(req) => on_request(t0, req, t1, actions),
        TransportEvent::Idle => unchanged(t0, t1) && actions.len() == 0,
        TransportEvent::EditorGone => if t0.shutdown_started {
            unchanged(t0, t1) && actions.len() == 0
        } else {
            &&& actions.len() == 1
            &&& writes(actions[0], shutdown_json(t0.ids.next), OnWriteFailure::Ignore)
            &&& same_setup(t0, t1)
            &&& t1.ids.next == t0.ids.next.wrapping_add(1)
            &&& t1.pending@ == t0.pending@.insert(t0.ids.next, RequestKind::Shutdown)
            &&& t1.queued@ == t0.queued@
            &&& t1.initialized == t0.initialized
            &&& t1.shutdown_started
            &&& t1.sent_exit == t0.sent_exit
        },
        TransportEvent::WriteFailed(f) => match f {
            OnWriteFailure::Ignore => unchanged(t0, t1) && actions.len() == 0,
            OnWriteFailure::ReportAndStop => {
                &&& unchanged(t0, t1)
                &&& actions.len() == 2
                &&& reports_unavailable(actions[0], t0.binary@)
                &&& actions[1] is Stop
            },
            OnWriteFailure::AbandonShutdown => {
                &&& same_setup(t0, t1)
                &&& t1.ids == t0.ids
                &&& t1.pending@ == t0.pending@
                &&& t1.queued@ == t0.queued@
                &&& t1.initialized == t0.initialized
                &&& !t1.shutdown_started
                &&& t1.sent_exit == t0.sent_exit
                &&& actions.len() == 1
                &&& actions[0] is Stop
            },
        },
    }
}

// ─── Building the lifecycle messages ────────────────────────────────────────

fn bare_notification_value(method: &str) -> (r: JsonValue)
    ensures
        r.model() == bare_notification(method@),
{
    let mut m: Vec<(String, JsonValue)> = Vec::new();
    proof {
        assert(member_models(m@) =~= Seq::<(Seq<char>, Json)>::empty());
    }
    push_member(&mut m, "jsonrpc", json_str("2.0"));
    push_member(&mut m, "method", json_str(method));
    assert(member_models(m@) =~= seq![("jsonrpc"@, Json::Str("2.0"@)), ("method"@, Json::Str(method@))]);
    JsonValue::Object(m)
}

/// The `exit` notification.
pub fn exit_message() -> (r: JsonValue)
    ensures
        r.model() == exit_json(),
{
    bare_notification_value("exit")
}

/// The `initialized` notification.
pub fn initialized_message() -> (r: JsonValue)
    ensures
        r.model() == initialized_json(),
{
    let params: Vec<(String, JsonValue)> = Vec::new();
    assert(member_models(params@) =~= Seq::<(Seq<char>, Json)>::empty());
    crate::lsp::encode::message_value(None, "initialized", JsonValue::Object(params))
}

/// The `shutdown` request with wire id `id`.
pub fn shutdown_message(id: u64) -> (r: JsonValue)
    ensures
        r.model() == shutdown_json(id),
{
    crate::lsp::encode::message_value(Some(id), "shutdown", JsonValue::Null)
}

/// The report that the server is unavailable.
pub fn unavailable_message(binary: &str) -> (r: String)
    ensures
        r@ == unavailable_text(binary@),
{
    let mut s = crate::text::owned(binary);
    crate::text::push_str(&mut s, " not found \u{2014} LSP disabled");
    s
}

fn report_and_stop(binary: &str) -> (r: Vec<TransportAction>)
    ensures
        r@.len() == 2,
        reports_unavailable(r@[0], binary@),
        r@[1] is Stop,
{
    let message = unavailable_message(binary);
    let mut out: Vec<TransportAction> = Vec::new();
    out.push(TransportAction::Send(LspResponse::ServerUnavailable { message }));
    out.push(TransportAction::Stop);
    out
}

impl Transport {
    /// A session that has sent nothing yet.
    pub fn new(binary: String, cwd: Option<String>, process_id: u32, client_version: String) -> (r:
        Self)
        ensures
            r.binary == binary,
            r.cwd == cwd,
            r.process_id == process_id,
            r.client_version == client_version,
            r.ids.next == 1,
            r.pending@ == Map::<u64, RequestKind>::empty(),
            r.queued@.len() == 0,
            !r.initialized,
            !r.shutdown_started,
            !r.sent_exit,
    {
        Transport {
            binary,
            cwd,
            process_id,
            client_version,
            ids: WireIds::new(),
            pending: HashMap::new(),
            queued: Vec::new(),
            initialized: false,
            shutdown_started: false,
            sent_exit: false,
        }
    }

    /// Sends the requests `queue` in order, as `sends`.
    fn send_all(&mut self, queue: Vec<LspRequest>) -> (actions: Vec<TransportAction>)
        ensures
            sends(
                queue@,
                old(self).ids.next,
                old(self).pending@,
                setup_of(*old(self)),
                actions@,
                final(self).ids.next,
                final(self).pending@,
            ),
            same_setup(*old(self), *final(self)),
            final(self).queued == old(self).queued,
            final(self).initialized == old(self).initialized,
            final(self).shutdown_started == old(self).shutdown_started,
            final(self).sent_exit == old(self).sent_exit,
        decreases queue@.len(),
    {
        broadcast use vstd::std_specs::hash::group_hash_axioms;

        if queue.len() == 0 {
            return Vec::new();
        }
        let ghost q = queue@;
        let mut rest = queue;
        let req = rest.remove(0);
        assert(rest@ == q.drop_first());
        let ghost next0 = self.ids.next;
        match encode_request(
            req,
            &mut self.ids,
            &self.cwd,
            self.process_id,
            self.client_version.as_str(),
        ) {
            Err(_) => report_and_stop(self.binary.as_str()),
            Ok((message, reg)) => {
                match reg {
                    Some((wire, kind)) => {
                        self.pending.insert(wire, kind);
                    },
                    None => {},
                }
                assert(self.pending@ == registered(old(self).pending@, q[0], next0));
                let mut later = self.send_all(rest);
                assert(setup_of(*self) == setup_of(*old(self)));
                let ghost lv = later@;
                let mut out: Vec<TransportAction> = Vec::new();
                out.push(TransportAction::Write { message, on_failure: OnWriteFailure::ReportAndStop });
                out.append(&mut later);
                assert(out@.drop_first() =~= lv);
                out
            },
        }
    }

    /// What the session does with a parsed server message, as `on_parsed`
    /// (the message's effect on the pending requests already made).
    fn handle_parsed(&mut self, r: ParsedMessage) -> (actions: Vec<TransportAction>)
        ensures
            on_parsed(*old(self), old(self).pending@, r, *final(self), actions@),
    {
        match r {
            ParsedMessage::Response(x) => {
                let mut out: Vec<TransportAction> = Vec::new();
                out.push(TransportAction::Send(x));
                out
            },
            ParsedMessage::Initialized { token_types } => {
                let mut out: Vec<TransportAction> = Vec::new();
                out.push(
                    TransportAction::Write {
                        message: initialized_message(),
                        on_failure: OnWriteFailure::ReportAndStop,
                    },
                );
                out.push(TransportAction::Send(LspResponse::Initialized { token_types }));
                self.initialized = true;
                let mut queue: Vec<LspRequest> = Vec::new();
                std::mem::swap(&mut queue, &mut self.queued);
                assert(setup_of(*self) == setup_of(*old(self)));
                let mut rest = self.send_all(queue);
                let ghost rv = rest@;
                out.append(&mut rest);
                assert(out@.skip(2) =~= rv);
                out
            },
            ParsedMessage::ShutdownAcknowledged => {
                self.sent_exit = true;
                let mut out: Vec<TransportAction> = Vec::new();
                out.push(
                    TransportAction::Write { message: exit_message(), on_failure: OnWriteFailure::Ignore },
                );
                out.push(TransportAction::Stop);
                out
            },
            ParsedMessage::Ignored => Vec::new(),
        }
    }

    /// Handles a message from the server (`None` when its body is not
    /// JSON): it is parsed as `parse_lsp_message` parses it, against the
    /// pending requests and the semantic-token `legends`, and the result is
    /// acted on as `on_parsed`.
    pub fn on_server_message(&mut self, message: Option<&JsonValue>, legends: &mut Legends) -> (actions:
        Vec<TransportAction>)
        ensures
            exists|r: ParsedMessage, p: Map<u64, RequestKind>|
                #[trigger] message_outcome(
                    crate::lsp::json::opt_model(message),
                    r,
                    old(self).pending@,
                    p,
                    *old(legends),
                    *final(legends),
                ) && on_parsed(*old(self), p, r, *final(self), actions@),
    {
        let r = parse_lsp_message(message, &mut self.pending, legends);
        let ghost rg = r;
        let ghost mid = *self;
        let actions = self.handle_parsed(r);
        assert(message_outcome(
            crate::lsp::json::opt_model(message),
            rg,
            old(self).pending@,
            mid.pending@,
            *old(legends),
            *legends,
        ));
        assert(on_parsed(*old(self), mid.pending@, rg, *self, actions@));
        actions
    }

    /// Handles a request from the editor, as `on_request`.
    pub fn on_request(&mut self, request: LspRequest) -> (actions: Vec<TransportAction>)
        ensures
            on_request(*old(self), request, *final(self), actions@),
    {
        broadcast use vstd::std_specs::hash::group_hash_axioms;

        let (is_shutdown, is_initialize) = match &request {
            LspRequest::Shutdown => (true, false),
            LspRequest::Initialize { .. } => (false, true),
            _ => (false, false),
        };
        if is_shutdown {
            if self.shutdown_started {
                return Vec::new();
            }
            let id = self.ids.next_id();
            self.pending.insert(id, RequestKind::Shutdown);
            self.shutdown_started = true;
            let mut out: Vec<TransportAction> = Vec::new();
            out.push(
                TransportAction::Write {
                    message: shutdown_message(id),
                    on_failure: OnWriteFailure::AbandonShutdown,
                },
            );
            out
        } else if is_initialize || self.initialized {
            let ghost req = request;
            let mut one: Vec<LspRequest> = Vec::new();
            one.push(request);
            assert(one@ =~= seq![req]);
            self.send_all(one)
        } else {
            self.queued.push(request);
            Vec::new()
        }
    }

    /// Handles one event of the transport loop: a server message as
    /// `on_server_message`, anything else as `on_event`.
    pub fn step(&mut self, event: TransportEvent, legends: &mut Legends) -> (actions: Vec<
        TransportAction,
    >)
        ensures
            match event {
                TransportEvent::ServerMessage(m) => exists|r: ParsedMessage, p: Map<u64, RequestKind>|
                    #[trigger] message_outcome(
                        m.deep_view(),
                        r,
                        old(self).pending@,
                        p,
                        *old(legends),
                        *final(legends),
                    ) && on_parsed(*old(self), p, r, *final(self), actions@),
                _ => on_event(*old(self), event, *final(self), actions@) && *final(legends) == *old(
                    legends,
                ),
            },
    {
        broadcast use vstd::std_specs::hash::group_hash_axioms;

        match event {
            TransportEvent::ServerMessage(m) => {
                let body = m.as_ref();
                assert(crate::lsp::json::opt_model(body) == m.deep_view());
                self.on_server_message(body, legends)
            },
            TransportEvent::ServerClosed => {
                if self.shutdown_started {
                    let mut out: Vec<TransportAction> = Vec::new();
                    out.push(TransportAction::Stop);
                    out
                } else {
                    report_and_stop(self.binary.as_str())
                }
            },
            TransportEvent::ShutdownTimedOut => {
                if self.shutdown_started {
                    self.sent_exit = true;
                    let mut out: Vec<TransportAction> = Vec::new();
                    out.push(
                        TransportAction::Write {
                            message: exit_message(),
                            on_failure: OnWriteFailure::Ignore,
                        },
                    );
                    out.push(TransportAction::Stop);
                    out
                } else {
                    Vec::new()
                }
            },
            TransportEvent::Request(req) => self.on_request(req),
            TransportEvent::Idle => Vec::new(),
            TransportEvent::EditorGone => {
                if self.shutdown_started {
                    return Vec::new();
                }
                let id = self.ids.next_id();
                self.pending.insert(id, RequestKind::Shutdown);
                self.shutdown_started = true;
                let mut out: Vec<TransportAction> = Vec::new();
                out.push(
                    TransportAction::Write {
                        message: shutdown_message(id),
                        on_failure: OnWriteFailure::Ignore,
                    },
                );
                out
            },
            TransportEvent::WriteFailed(f) => match f {
                OnWriteFailure::Ignore => Vec::new(),
                OnWriteFailure::ReportAndStop => report_and_stop(self.binary.as_str()),
                OnWriteFailure::AbandonShutdown => {
                    self.shutdown_started = false;
                    let mut out: Vec<TransportAction> = Vec::new();
                    out.push(TransportAction::Stop);
                    out
                },
            },
        }
    }

    /// What the session writes once its loop has stopped: `exit`, when a
    /// shutdown was sent and `exit` was not.
    pub fn finish(&self) -> (actions: Vec<TransportAction>)
        ensures
            if self.shutdown_started && !self.sent_exit {
                actions@.len() == 1 && writes(actions@[0], exit_json(), OnWriteFailure::Ignore)
            } else {
                actions@.len() == 0
            },
    {
        let mut out: Vec<TransportAction> = Vec::new();
        if self.shutdown_started && !self.sent_exit {
            out.push(
                TransportAction::Write { message: exit_message(), on_failure: OnWriteFailure::Ignore },
            );
        }
        out
    }
}

} // verus!
