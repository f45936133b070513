//! Encoding of editor requests as JSON-RPC messages for the language
//! server, with the wire ids that correlate their answers.

use vstd::prelude::*;
use crate::lsp::json::{
    clone_json, get, int_number, json_i64, json_str, json_u64, member_models, models, push_element,
    push_member, Json, JsonValue, NumberModel,
};
use crate::lsp::transport::{message_outcome, str_field_of, Legends, ParsedMessage, RequestKind};
use crate::lsp::types::{
    CallHierarchyItem, CodeLensItem, DiagnosticSeverity, LspDiagnostic, LspRange, LspRequest, LspResponse,
    TypeHierarchyItem,
};
use crate::path::{join, join_path};
use crate::text::str_chars;

verus! {

// ─── Wire ids ───────────────────────────────────────────────────────────────

/// The source of JSON-RPC wire ids: each request that expects an answer
/// takes the next one.
#[derive(Debug)]
pub struct WireIds {
    pub next: u64,
}

impl WireIds {
    /// Ids counting from 1.
    pub fn new() -> (r: Self)
        ensures
            r.next == 1,
    {
        WireIds { next: 1 }
    }

    /// Takes the next id (wrapping around after `u64::MAX`).
    pub fn next_id(&mut self) -> (id: u64)
        ensures
            id == old(self).next,
            final(self).next == old(self).next.wrapping_add(1),
    {
        let id = self.next;
        self.next = self.next.wrapping_add(1);
        id
    }
}

// ─── URIs ───────────────────────────────────────────────────────────────────

/// The `file:` URI of an absolute path, as `lsp_types::Url::from_file_path`
/// writes it.
pub uninterp spec fn file_uri(path: Seq<char>) -> Seq<char>;

/// `lsp_types::Url::from_file_path`: the `file:` URI of a path, which it
/// gives exactly for absolute paths (on Unix, those starting with `/`). The
/// URI's text is named by `file_uri`; its percent-encoding is the `url`
/// crate's and is not stated here.
#[verifier::external_body]
fn url_from_file_path(path: &str) -> (r: Option<String>)
    ensures
        r is Some <==> (path@.len() > 0 && path@[0] == '/'),
        r matches Some(u) ==> u@ == file_uri(path@),
{
    match lsp_types::Url::from_file_path(std::path::Path::new(path)) {
        Ok(url) => Some(String::from(url)),
        Err(_) => None,
    }
}

/// Why a request could not be encoded.
#[derive(Debug, Clone, Copy, PartialEq, Eq, Structural)]
pub enum EncodeError {
    /// The path is relative and the working directory is unknown.
    NoCurrentDir,
    /// The path cannot be written as a `file:` URI.
    PathNotRepresentable,
    /// Shutdown is sent by the transport's lifecycle, not as a request.
    ShutdownIsLifecycle,
    /// A code lens to resolve has no entry.
    NoCodeLensEntry,
}

/// The URI of `path`, relative paths taken from the working directory
/// `cwd` (unknown when none).
pub open spec fn uri_for(path: Seq<char>, cwd: Option<Seq<char>>) -> Result<Seq<char>, EncodeError> {
    let absolute = if path.len() > 0 && path[0] == '/' {
        Some(path)
    } else {
        match cwd {
            Some(c) => Some(join(c, path)),
            None => None,
        }
    };
    match absolute {
        None => Err(EncodeError::NoCurrentDir),
        Some(a) => if a.len() > 0 && a[0] == '/' {
            Ok(file_uri(a))
        } else {
            Err(EncodeError::PathNotRepresentable)
        },
    }
}

/// The URI of a path, as `uri_for` (`path_to_uri`).
pub fn path_to_uri(path: &str, cwd: &Option<String>) -> (r: Result<String, EncodeError>)
    ensures
        match (r, uri_for(path@, cwd.deep_view())) {
            (Ok(u), Ok(s)) => u@ == s,
            (Err(e), Err(f)) => e == f,
            _ => false,
        },
{
    let pc = str_chars(path);
    let absolute = if pc.len() > 0 && pc[0] == '/' {
        crate::text::owned(path)
    } else {
        match cwd {
            Some(c) => join_path(c.as_str(), path),
            None => return Err(EncodeError::NoCurrentDir),
        }
    };
    match url_from_file_path(absolute.as_str()) {
        Some(u) => Ok(u),
        None => Err(EncodeError::PathNotRepresentable),
    }
}

// ─── JSON shapes ────────────────────────────────────────────────────────────

/// A non-negative JSON number.
pub open spec fn num(n: u64) -> Json {
    Json::Number(NumberModel::PosInt(n))
}

/// An LSP position object.
pub open spec fn position_json(line: u32, character: u32) -> Json {
    Json::Object(seq![("line"@, num(line as u64)), ("character"@, num(character as u64))])
}

/// An LSP range object.
pub open spec fn range_json(sl: u32, sc: u32, el: u32, ec: u32) -> Json {
    Json::Object(seq![("start"@, position_json(sl, sc)), ("end"@, position_json(el, ec))])
}

/// A `TextDocumentIdentifier`.
pub open spec fn doc_json(uri: Seq<char>) -> Json {
    Json::Object(seq![("uri"@, Json::Str(uri))])
}

/// A JSON-RPC message: a request when it has an id, else a notification.
pub open spec fn message_json(id: Option<u64>, method: Seq<char>, params: Json) -> Json {
    match id {
        Some(n) => Json::Object(
            seq![
                ("jsonrpc"@, Json::Str("2.0"@)),
                ("id"@, num(n)),
                ("method"@, Json::Str(method)),
                ("params"@, params),
            ],
        ),
        None => Json::Object(
            seq![("jsonrpc"@, Json::Str("2.0"@)), ("method"@, Json::Str(method)), ("params"@, params)],
        ),
    }
}

/// Parameters of a request at a position of a document.
pub open spec fn position_params(uri: Seq<char>, line: u32, col: u32) -> Json {
    Json::Object(seq![("textDocument"@, doc_json(uri)), ("position"@, position_json(line, col))])
}

/// A range record as it is written.
pub open spec fn lsp_range_json(r: LspRange) -> Json {
    range_json(r.start.line, r.start.character, r.end.line, r.end.character)
}

/// An optional string: the string or `null`.
pub open spec fn opt_str_json(s: Option<Seq<char>>) -> Json {
    match s {
        Some(t) => Json::Str(t),
        None => Json::Null,
    }
}

/// An optional value: the value or `null`.
pub open spec fn opt_json(v: Option<Json>) -> Json {
    match v {
        Some(x) => x,
        None => Json::Null,
    }
}

/// A hierarchy item as it is written: its fields in declaration order.
pub open spec fn item_json(
    name: Seq<char>,
    kind: u64,
    detail: Option<Seq<char>>,
    uri: Seq<char>,
    range: LspRange,
    sel: LspRange,
    data: Option<Json>,
) -> Json {
    Json::Object(
        seq![
            ("name"@, Json::Str(name)),
            ("kind"@, num(kind)),
            ("detail"@, opt_str_json(detail)),
            ("uri"@, Json::Str(uri)),
            ("range"@, lsp_range_json(range)),
            ("selectionRange"@, lsp_range_json(sel)),
            ("data"@, opt_json(data)),
        ],
    )
}

/// The wire number of a severity.
pub open spec fn severity_number(s: DiagnosticSeverity) -> u64 {
    match s {
        DiagnosticSeverity::Error => 1,
        DiagnosticSeverity::Warning => 2,
        DiagnosticSeverity::Information => 3,
        DiagnosticSeverity::Hint => 4,
    }
}

/// A diagnostic sent back as code-action context.
pub open spec fn diagnostic_json(d: LspDiagnostic) -> Json {
    Json::Object(
        seq![
            ("range"@, range_json(d.line_start, d.col_start, d.line_end, d.col_end)),
            ("severity"@, num(severity_number(d.severity))),
            ("message"@, Json::Str(d.message@)),
            ("code"@, opt_str_json(d.code.deep_view())),
        ],
    )
}

/// The semantic token types the editor understands, in legend order.
pub open spec fn token_types_json() -> Json {
    Json::Array(
        seq![
            Json::Str("namespace"@),
            Json::Str("type"@),
            Json::Str("class"@),
            Json::Str("enum"@),
            Json::Str("interface"@),
            Json::Str("struct"@),
            Json::Str("typeParameter"@),
            Json::Str("parameter"@),
            Json::Str("variable"@),
            Json::Str("property"@),
            Json::Str("enumMember"@),
            Json::Str("event"@),
            Json::Str("function"@),
            Json::Str("method"@),
            Json::Str("macro"@),
            Json::Str("keyword"@),
            Json::Str("modifier"@),
            Json::Str("comment"@),
            Json::Str("string"@),
            Json::Str("number"@),
            Json::Str("regexp"@),
            Json::Str("operator"@),
        ],
    )
}

/// The semantic token modifiers the editor understands, in legend order.
pub open spec fn token_modifiers_json() -> Json {
    Json::Array(
        seq![
            Json::Str("declaration"@),
            Json::Str("definition"@),
            Json::Str("readonly"@),
            Json::Str("static"@),
            Json::Str("deprecated"@),
            Json::Str("abstract"@),
            Json::Str("async"@),
            Json::Str("modification"@),
            Json::Str("documentation"@),
            Json::Str("defaultLibrary"@),
        ],
    )
}

/// The semantic-token part of the capabilities.
pub open spec fn semantic_tokens_caps() -> Json {
    Json::Object(
        seq![
            (
                "requests"@,
                Json::Object(seq![("full"@, Json::Bool(true)), ("range"@, Json::Bool(true))]),
            ),
            ("tokenTypes"@, token_types_json()),
            ("tokenModifiers"@, token_modifiers_json()),
            ("formats"@, Json::Array(seq![Json::Str("relative"@)])),
        ],
    )
}

/// The text-document part of the capabilities.
pub open spec fn text_document_caps() -> Json {
    Json::Object(
        seq![
            ("synchronization"@, Json::Object(seq![("didSave"@, Json::Bool(false))])),
            ("completion"@, Json::Object(Seq::empty())),
            ("hover"@, Json::Object(Seq::empty())),
            ("definition"@, Json::Object(Seq::empty())),
            ("publishDiagnostics"@, Json::Object(Seq::empty())),
            ("inlayHint"@, Json::Object(seq![("dynamicRegistration"@, Json::Bool(false))])),
            ("semanticTokens"@, semantic_tokens_caps()),
        ],
    )
}

/// The capabilities the editor announces when it initializes a server.
pub open spec fn client_capabilities() -> Json {
    Json::Object(seq![("textDocument"@, text_document_caps())])
}

// ─── Requests ───────────────────────────────────────────────────────────────

/// `{"textDocument": {"uri": uri}}`.
pub open spec fn document_params(uri: Seq<char>) -> Json {
    Json::Object(seq![("textDocument"@, doc_json(uri))])
}

/// Formatting options.
pub open spec fn options_json(tab_size: u32, insert_spaces: bool) -> Json {
    Json::Object(
        seq![("tabSize"@, num(tab_size as u64)), ("insertSpaces"@, Json::Bool(insert_spaces))],
    )
}

/// A range given as start and end lines, each from its first column.
pub open spec fn lines_params(uri: Seq<char>, start_line: u32, end_line: u32) -> Json {
    Json::Object(
        seq![("textDocument"@, doc_json(uri)), ("range"@, range_json(start_line, 0, end_line, 0))],
    )
}

/// The range a code lens is resolved with: its first entry's range, or the
/// start of the lens's line.
pub open spec fn resolve_range(item: CodeLensItem) -> LspRange {
    match item.entries@[0].range {
        Some(r) => r,
        None => LspRange {
            start: crate::lsp::types::LspPositionWire { line: item.line as u32, character: 0 },
            end: crate::lsp::types::LspPositionWire { line: item.line as u32, character: 0 },
        },
    }
}

/// A call hierarchy item as it is written.
pub open spec fn call_item_json(i: CallHierarchyItem) -> Json {
    item_json(
        i.name@,
        i.kind,
        i.detail.deep_view(),
        i.uri@,
        i.range,
        i.selection_range,
        i.data.deep_view(),
    )
}

/// A type hierarchy item as it is written.
pub open spec fn type_item_json(i: TypeHierarchyItem) -> Json {
    item_json(
        i.name@,
        i.kind,
        i.detail.deep_view(),
        i.uri@,
        i.range,
        i.selection_range,
        i.data.deep_view(),
    )
}

/// Command arguments: an array as it is, anything else as the one element
/// of an array.
pub open spec fn arguments_json(args: Json) -> Json {
    match args {
        Json::Array(_) => args,
        _ => Json::Array(seq![args]),
    }
}

/// The parameters of `initialize`.
pub open spec fn initialize_params(root_uri: Seq<char>, process_id: u32, version: Seq<char>) -> Json {
    Json::Object(
        seq![
            ("processId"@, num(process_id as u64)),
            ("rootUri"@, Json::Str(root_uri)),
            ("capabilities"@, client_capabilities()),
            (
                "clientInfo"@,
                Json::Object(seq![("name"@, Json::Str("blue-ide"@)), ("version"@, Json::Str(version))]),
            ),
        ],
    )
}

/// The document path a request names, for the requests that name one.
pub open spec fn request_path(req: LspRequest) -> Option<Seq<char>> {
    match req {
        LspRequest::DidOpen { path, .. } => Some(path@),
        LspRequest::DidChange { path, .. } => Some(path@),
        LspRequest::DidClose { path } => Some(path@),
        LspRequest::Completion { path, .. } => Some(path@),
        LspRequest::Hover { path, .. } => Some(path@),
        LspRequest::GotoDefinition { path, .. } => Some(path@),
        LspRequest::References { path, .. } => Some(path@),
        LspRequest::PrepareRename { path, .. } => Some(path@),
        LspRequest::Rename { path, .. } => Some(path@),
        LspRequest::DocumentSymbol { path, .. } => Some(path@),
        LspRequest::InlayHint { path, .. } => Some(path@),
        LspRequest::Format { path, .. } => Some(path@),
        LspRequest::RangeFormat { path, .. } => Some(path@),
        LspRequest::SignatureHelp { path, .. } => Some(path@),
        LspRequest::CodeAction { path, .. } => Some(path@),
        LspRequest::CodeLens { path, .. } => Some(path@),
        LspRequest::SemanticTokensFull { path, .. } => Some(path@),
        LspRequest::SemanticTokensRange { path, .. } => Some(path@),
        LspRequest::PrepareCallHierarchy { path, .. } => Some(path@),
        LspRequest::PrepareTypeHierarchy { path, .. } => Some(path@),
        _ => None,
    }
}

/// Whether a request expects an answer, and so takes a wire id: all but
/// the document notifications and shutdown.
pub open spec fn takes_wire_id(req: LspRequest) -> bool {
    !(req is DidOpen || req is DidChange || req is DidClose || req is Shutdown)
}

/// Why a request cannot be encoded, if it cannot: shutdown belongs to the
/// lifecycle, a code lens to resolve needs an entry, and a named document
/// needs a URI.
pub open spec fn encode_error(req: LspRequest, cwd: Option<Seq<char>>) -> Option<EncodeError> {
    match req {
        LspRequest::Shutdown => Some(EncodeError::ShutdownIsLifecycle),
        LspRequest::CodeLensResolve { item, .. } => if item.entries@.len() == 0 {
            Some(EncodeError::NoCodeLensEntry)
        } else {
            None
        },
        _ => match request_path(req) {
            Some(p) => match uri_for(p, cwd) {
                Err(e) => Some(e),
                Ok(_) => None,
            },
            None => None,
        },
    }
}

/// The URI of the document a request names (empty when it names none or
/// has none).
pub open spec fn document_uri(req: LspRequest, cwd: Option<Seq<char>>) -> Seq<char> {
    match request_path(req) {
        Some(p) => match uri_for(p, cwd) {
            Ok(u) => u,
            Err(_) => Seq::empty(),
        },
        None => Seq::empty(),
    }
}

/// The JSON-RPC method of a request.
pub open spec fn method_of(req: LspRequest) -> Seq<char> {
    match req {
        LspRequest::Initialize { .. } => "initialize"@,
        LspRequest::DidOpen { .. } => "textDocument/didOpen"@,
        LspRequest::DidChange { .. } => "textDocument/didChange"@,
        LspRequest::DidClose { .. } => "textDocument/didClose"@,
        LspRequest::Completion { .. } => "textDocument/completion"@,
        LspRequest::Hover { .. } => "textDocument/hover"@,
        LspRequest::GotoDefinition { .. } => "textDocument/definition"@,
        LspRequest::References { .. } => "textDocument/references"@,
        LspRequest::PrepareRename { .. } => "textDocument/prepareRename"@,
        LspRequest::Rename { .. } => "textDocument/rename"@,
        LspRequest::DocumentSymbol { .. } => "textDocument/documentSymbol"@,
        LspRequest::InlayHint { .. } => "textDocument/inlayHint"@,
        LspRequest::Format { .. } => "textDocument/formatting"@,
        LspRequest::RangeFormat { .. } => "textDocument/rangeFormatting"@,
        LspRequest::SignatureHelp { .. } => "textDocument/signatureHelp"@,
        LspRequest::WorkspaceSymbol { .. } => "workspace/symbol"@,
        LspRequest::CodeAction { .. } => "textDocument/codeAction"@,
        LspRequest::CodeLens { .. } => "textDocument/codeLens"@,
        LspRequest::CodeLensResolve { .. } => "codeLens/resolve"@,
        LspRequest::SemanticTokensFull { .. } => "textDocument/semanticTokens/full"@,
        LspRequest::SemanticTokensRange { .. } => "textDocument/semanticTokens/range"@,
        LspRequest::PrepareCallHierarchy { .. } => "textDocument/prepareCallHierarchy"@,
        LspRequest::IncomingCalls { .. } => "callHierarchy/incomingCalls"@,
        LspRequest::OutgoingCalls { .. } => "callHierarchy/outgoingCalls"@,
        LspRequest::PrepareTypeHierarchy { .. } => "textDocument/prepareTypeHierarchy"@,
        LspRequest::Supertypes { .. } => "typeHierarchy/supertypes"@,
        LspRequest::Subtypes { .. } => "typeHierarchy/subtypes"@,
        LspRequest::ExecuteCommand { .. } => "workspace/executeCommand"@,
        LspRequest::Shutdown => "shutdown"@,
    }
}

/// The parameters of a request whose document has URI `uri`.
pub open spec fn params_of(req: LspRequest, uri: Seq<char>, process_id: u32, version: Seq<char>) -> Json {
    match req {
        LspRequest::Initialize { root_uri } => initialize_params(root_uri@, process_id, version),
        LspRequest::DidOpen { language_id, text, version: v, .. } => Json::Object(
            seq![
                (
                    "textDocument"@,
                    Json::Object(
                        seq![
                            ("uri"@, Json::Str(uri)),
                            ("languageId"@, Json::Str(language_id@)),
                            ("version"@, int_number(v as i64)),
                            ("text"@, Json::Str(text@)),
                        ],
                    ),
                ),
            ],
        ),
        LspRequest::DidChange { text, version: v, .. } => Json::Object(
            seq![
                (
                    "textDocument"@,
                    Json::Object(seq![("uri"@, Json::Str(uri)), ("version"@, int_number(v as i64))]),
                ),
                ("contentChanges"@, Json::Array(seq![Json::Object(seq![("text"@, Json::Str(text@))])])),
            ],
        ),
        LspRequest::DidClose { .. } => document_params(uri),
        LspRequest::Completion { line, col, .. } => position_params(uri, line, col),
        LspRequest::Hover { line, col, .. } => position_params(uri, line, col),
        LspRequest::GotoDefinition { line, col, .. } => position_params(uri, line, col),
        LspRequest::References { line, col, .. } => position_params(uri, line, col),
        LspRequest::PrepareRename { line, col, .. } => position_params(uri, line, col),
        LspRequest::Rename { line, col, new_name, .. } => Json::Object(
            seq![
                ("textDocument"@, doc_json(uri)),
                ("position"@, position_json(line, col)),
                ("newName"@, Json::Str(new_name@)),
            ],
        ),
        LspRequest::DocumentSymbol { .. } => document_params(uri),
        LspRequest::InlayHint { start_line, end_line, .. } => lines_params(uri, start_line, end_line),
        LspRequest::Format { tab_size, insert_spaces, .. } => Json::Object(
            seq![("textDocument"@, doc_json(uri)), ("options"@, options_json(tab_size, insert_spaces))],
        ),
        LspRequest::RangeFormat { tab_size, insert_spaces, range, .. } => Json::Object(
            seq![
                ("textDocument"@, doc_json(uri)),
                ("range"@, range_json(range.0, range.1, range.2, range.3)),
                ("options"@, options_json(tab_size, insert_spaces)),
            ],
        ),
        LspRequest::SignatureHelp { line, col, .. } => position_params(uri, line, col),
        LspRequest::WorkspaceSymbol { query, .. } => Json::Object(seq![("query"@, Json::Str(query@))]),
        LspRequest::CodeAction { range, diagnostics, .. } => Json::Object(
            seq![
                ("textDocument"@, doc_json(uri)),
                ("range"@, range_json(range.0, range.1, range.2, range.3)),
                (
                    "context"@,
                    Json::Object(
                        seq![
                            (
                                "diagnostics"@,
                                Json::Array(diagnostics@.map_values(|d: LspDiagnostic| diagnostic_json(d))),
                            ),
                        ],
                    ),
                ),
            ],
        ),
        LspRequest::CodeLens { .. } => document_params(uri),
        LspRequest::CodeLensResolve { item, .. } => Json::Object(
            seq![
                ("range"@, lsp_range_json(resolve_range(item))),
                ("data"@, opt_json(item.entries@[0].data.deep_view())),
            ],
        ),
        LspRequest::SemanticTokensFull { .. } => document_params(uri),
        LspRequest::SemanticTokensRange { start_line, end_line, .. } => lines_params(uri, start_line, end_line),
        LspRequest::PrepareCallHierarchy { line, col, .. } => position_params(uri, line, col),
        LspRequest::IncomingCalls { item, .. } => Json::Object(seq![("item"@, call_item_json(item))]),
        LspRequest::OutgoingCalls { item, .. } => Json::Object(seq![("item"@, call_item_json(item))]),
        LspRequest::PrepareTypeHierarchy { line, col, .. } => position_params(uri, line, col),
        LspRequest::Supertypes { item, .. } => Json::Object(seq![("item"@, type_item_json(item))]),
        LspRequest::Subtypes { item, .. } => Json::Object(seq![("item"@, type_item_json(item))]),
        LspRequest::ExecuteCommand { command, args, .. } => Json::Object(
            seq![("command"@, Json::Str(command@)), ("arguments"@, arguments_json(args.model()))],
        ),
        LspRequest::Shutdown => Json::Null,
    }
}

/// The message that encodes a request, with wire id `wire` when it takes
/// one.
pub open spec fn request_json(
    req: LspRequest,
    wire: u64,
    uri: Seq<char>,
    process_id: u32,
    version: Seq<char>,
) -> Json {
    message_json(
        if takes_wire_id(req) { Some(wire) } else { None },
        method_of(req),
        params_of(req, uri, process_id, version),
    )
}

/// The caller's correlation id a request carries (initialize and the
/// notifications carry none).
pub open spec fn request_caller_id(req: LspRequest) -> Option<u64> {
    match req {
        LspRequest::Completion { id, .. } => Some(id),
        LspRequest::Hover { id, .. } => Some(id),
        LspRequest::GotoDefinition { id, .. } => Some(id),
        LspRequest::References { id, .. } => Some(id),
        LspRequest::PrepareRename { id, .. } => Some(id),
        LspRequest::Rename { id, .. } => Some(id),
        LspRequest::DocumentSymbol { id, .. } => Some(id),
        LspRequest::InlayHint { id, .. } => Some(id),
        LspRequest::Format { id, .. } => Some(id),
        LspRequest::RangeFormat { id, .. } => Some(id),
        LspRequest::SignatureHelp { id, .. } => Some(id),
        LspRequest::WorkspaceSymbol { id, .. } => Some(id),
        LspRequest::CodeAction { id, .. } => Some(id),
        LspRequest::CodeLens { id, .. } => Some(id),
        LspRequest::CodeLensResolve { id, .. } => Some(id),
        LspRequest::SemanticTokensFull { id, .. } => Some(id),
        LspRequest::SemanticTokensRange { id, .. } => Some(id),
        LspRequest::PrepareCallHierarchy { id, .. } => Some(id),
        LspRequest::IncomingCalls { id, .. } => Some(id),
        LspRequest::OutgoingCalls { id, .. } => Some(id),
        LspRequest::PrepareTypeHierarchy { id, .. } => Some(id),
        LspRequest::Supertypes { id, .. } => Some(id),
        LspRequest::Subtypes { id, .. } => Some(id),
        LspRequest::ExecuteCommand { id, .. } => Some(id),
        _ => None,
    }
}

/// The kind a request is registered under while it waits for its answer:
/// none for the notifications and shutdown, else the request's own kind with
/// its caller id (and, for document symbols, the document's path).
pub open spec fn kind_of(req: LspRequest) -> Option<RequestKind> {
    match req {
        LspRequest::Initialize { .. } => Some(RequestKind::Initialize),
        LspRequest::DidOpen { .. } => None,
        LspRequest::DidChange { .. } => None,
        LspRequest::DidClose { .. } => None,
        LspRequest::Shutdown => None,
        LspRequest::Completion { id, .. } => Some(RequestKind::Completion(id)),
        LspRequest::Hover { id, .. } => Some(RequestKind::Hover(id)),
        LspRequest::GotoDefinition { id, .. } => Some(RequestKind::GotoDefinition(id)),
        LspRequest::References { id, .. } => Some(RequestKind::References(id)),
        LspRequest::PrepareRename { id, .. } => Some(RequestKind::PrepareRename(id)),
        LspRequest::Rename { id, .. } => Some(RequestKind::Rename(id)),
        LspRequest::DocumentSymbol { path, id } => Some(RequestKind::DocumentSymbol { id, path }),
        LspRequest::InlayHint { id, .. } => Some(RequestKind::InlayHint(id)),
        LspRequest::Format { id, .. } => Some(RequestKind::Format(id)),
        LspRequest::RangeFormat { id, .. } => Some(RequestKind::RangeFormat(id)),
        LspRequest::SignatureHelp { id, .. } => Some(RequestKind::SignatureHelp(id)),
        LspRequest::WorkspaceSymbol { id, .. } => Some(RequestKind::WorkspaceSymbol(id)),
        LspRequest::CodeAction { id, .. } => Some(RequestKind::CodeAction(id)),
        LspRequest::CodeLens { id, .. } => Some(RequestKind::CodeLens(id)),
        LspRequest::CodeLensResolve { id, .. } => Some(RequestKind::CodeLensResolve(id)),
        LspRequest::SemanticTokensFull { id, .. } => Some(RequestKind::SemanticTokensFull(id)),
        LspRequest::SemanticTokensRange { id, .. } => Some(RequestKind::SemanticTokensRange(id)),
        LspRequest::PrepareCallHierarchy { id, .. } => Some(RequestKind::PrepareCallHierarchy(id)),
        LspRequest::IncomingCalls { id, .. } => Some(RequestKind::IncomingCalls(id)),
        LspRequest::OutgoingCalls { id, .. } => Some(RequestKind::OutgoingCalls(id)),
        LspRequest::PrepareTypeHierarchy { id, .. } => Some(RequestKind::PrepareTypeHierarchy(id)),
        LspRequest::Supertypes { id, .. } => Some(RequestKind::Supertypes(id)),
        LspRequest::Subtypes { id, .. } => Some(RequestKind::Subtypes(id)),
        LspRequest::ExecuteCommand { id, .. } => Some(RequestKind::ExecuteCommand(id)),
    }
}

/// `reg` is what encoding `req` with wire id `wire` registers as pending:
/// the wire id with the request's kind, when it has one.
pub open spec fn registers(req: LspRequest, wire: u64, reg: Option<(u64, RequestKind)>) -> bool {
    reg == match kind_of(req) {
        Some(k) => Some((wire, k)),
        None => None,
    }
}

proof fn lemma_members_empty()
    ensures
        member_models(Seq::<(String, JsonValue)>::empty()) == Seq::<(Seq<char>, Json)>::empty(),
        models(Seq::<JsonValue>::empty()) == Seq::<Json>::empty(),
{
}

fn empty_object() -> (r: JsonValue)
    ensures
        r.model() == Json::Object(Seq::empty()),
{
    let m: Vec<(String, JsonValue)> = Vec::new();
    proof {
        lemma_members_empty();
    }
    JsonValue::Object(m)
}

fn position_value(line: u32, character: u32) -> (r: JsonValue)
    ensures
        r.model() == position_json(line, character),
{
    let mut m: Vec<(String, JsonValue)> = Vec::new();
    proof {
        lemma_members_empty();
    }
    push_member(&mut m, "line", json_u64(line as u64));
    push_member(&mut m, "character", json_u64(character as u64));
    assert(member_models(m@) =~= seq![("line"@, num(line as u64)), ("character"@, num(character as u64))]);
    let r = JsonValue::Object(m);
    assert(r.model() =~~= position_json(line, character));
    r
}

fn range_value(sl: u32, sc: u32, el: u32, ec: u32) -> (r: JsonValue)
    ensures
        r.model() == range_json(sl, sc, el, ec),
{
    let mut m: Vec<(String, JsonValue)> = Vec::new();
    proof {
        lemma_members_empty();
    }
    push_member(&mut m, "start", position_value(sl, sc));
    push_member(&mut m, "end", position_value(el, ec));
    assert(member_models(m@) =~= seq![("start"@, position_json(sl, sc)), ("end"@, position_json(el, ec))]);
    let r = JsonValue::Object(m);
    assert(r.model() =~~= range_json(sl, sc, el, ec));
    r
}

fn doc_value(uri: &str) -> (r: JsonValue)
    ensures
        r.model() == doc_json(uri@),
{
    let mut m: Vec<(String, JsonValue)> = Vec::new();
    proof {
        lemma_members_empty();
    }
    push_member(&mut m, "uri", json_str(uri));
    assert(member_models(m@) =~= seq![("uri"@, Json::Str(uri@))]);
    let r = JsonValue::Object(m);
    assert(r.model() =~~= doc_json(uri@));
    r
}

pub(crate) fn message_value(id: Option<u64>, method: &str, params: JsonValue) -> (r: JsonValue)
    ensures
        r.model() == message_json(id, method@, params.model()),
{
    let ghost pm = params.model();
    let mut m: Vec<(String, JsonValue)> = Vec::new();
    proof {
        lemma_members_empty();
    }
    push_member(&mut m, "jsonrpc", json_str("2.0"));
    match id {
        Some(n) => push_member(&mut m, "id", json_u64(n)),
        None => {},
    }
    push_member(&mut m, "method", json_str(method));
    push_member(&mut m, "params", params);
    proof {
        match id {
            Some(n) => {
                assert(member_models(m@) =~= seq![
                    ("jsonrpc"@, Json::Str("2.0"@)),
                    ("id"@, num(n)),
                    ("method"@, Json::Str(method@)),
                    ("params"@, pm),
                ]);
            },
            None => {
                assert(member_models(m@) =~= seq![
                    ("jsonrpc"@, Json::Str("2.0"@)),
                    ("method"@, Json::Str(method@)),
                    ("params"@, pm),
                ]);
            },
        }
    }
    let r = JsonValue::Object(m);
    assert(r.model() =~~= message_json(id, method@, pm));
    r
}

fn position_params_value(uri: &str, line: u32, col: u32) -> (r: JsonValue)
    ensures
        r.model() == position_params(uri@, line, col),
{
    let mut m: Vec<(String, JsonValue)> = Vec::new();
    proof {
        lemma_members_empty();
    }
    push_member(&mut m, "textDocument", doc_value(uri));
    push_member(&mut m, "position", position_value(line, col));
    assert(member_models(m@) =~= seq![("textDocument"@, doc_json(uri@)), ("position"@, position_json(line, col))]);
    let r = JsonValue::Object(m);
    assert(r.model() =~~= position_params(uri@, line, col));
    r
}

fn opt_str_value(s: &Option<String>) -> (r: JsonValue)
    ensures
        r.model() == opt_str_json(s.deep_view()),
{
    match s {
        Some(t) => json_str(t.as_str()),
        None => JsonValue::Null,
    }
}

fn opt_value(v: &Option<JsonValue>) -> (r: JsonValue)
    ensures
        r.model() == opt_json(v.deep_view()),
{
    match v {
        Some(x) => clone_json(x),
        None => JsonValue::Null,
    }
}

fn lsp_range_value(r: &LspRange) -> (j: JsonValue)
    ensures
        j.model() == lsp_range_json(*r),
{
    range_value(r.start.line, r.start.character, r.end.line, r.end.character)
}

fn item_value(
    name: &String,
    kind: u64,
    detail: &Option<String>,
    uri: &String,
    range: &LspRange,
    sel: &LspRange,
    data: &Option<JsonValue>,
) -> (r: JsonValue)
    ensures
        r.model() == item_json(
            name@,
            kind,
            detail.deep_view(),
            uri@,
            *range,
            *sel,
            data.deep_view(),
        ),
{
    let mut m: Vec<(String, JsonValue)> = Vec::new();
    proof {
        lemma_members_empty();
    }
    push_member(&mut m, "name", json_str(name.as_str()));
    push_member(&mut m, "kind", json_u64(kind));
    push_member(&mut m, "detail", opt_str_value(detail));
    push_member(&mut m, "uri", json_str(uri.as_str()));
    push_member(&mut m, "range", lsp_range_value(range));
    push_member(&mut m, "selectionRange", lsp_range_value(sel));
    push_member(&mut m, "data", opt_value(data));
    assert(member_models(m@) =~= seq![
        ("name"@, Json::Str(name@)),
        ("kind"@, num(kind)),
        ("detail"@, opt_str_json(detail.deep_view())),
        ("uri"@, Json::Str(uri@)),
        ("range"@, lsp_range_json(*range)),
        ("selectionRange"@, lsp_range_json(*sel)),
        ("data"@, opt_json(data.deep_view())),
    ]);
    let r = JsonValue::Object(m);
    assert(r.model() =~~= item_json(
        name@,
        kind,
        detail.deep_view(),
        uri@,
        *range,
        *sel,
        data.deep_view(),
    ));
    r
}

fn diagnostic_value(d: &LspDiagnostic) -> (r: JsonValue)
    ensures
        r.model() == diagnostic_json(*d),
{
    let severity: u64 = match d.severity {
        DiagnosticSeverity::Error => 1,
        DiagnosticSeverity::Warning => 2,
        DiagnosticSeverity::Information => 3,
        DiagnosticSeverity::Hint => 4,
    };
    let mut m: Vec<(String, JsonValue)> = Vec::new();
    proof {
        lemma_members_empty();
    }
    push_member(&mut m, "range", range_value(d.line_start, d.col_start, d.line_end, d.col_end));
    push_member(&mut m, "severity", json_u64(severity));
    push_member(&mut m, "message", json_str(d.message.as_str()));
    push_member(&mut m, "code", opt_str_value(&d.code));
    assert(member_models(m@) =~= seq![
        ("range"@, range_json(d.line_start, d.col_start, d.line_end, d.col_end)),
        ("severity"@, num(severity_number(d.severity))),
        ("message"@, Json::Str(d.message@)),
        ("code"@, opt_str_json(d.code.deep_view())),
    ]);
    let r = JsonValue::Object(m);
    assert(r.model() =~~= diagnostic_json(*d));
    r
}

fn token_types_value() -> (r: JsonValue)
    ensures
        r.model() == token_types_json(),
{
    proof {
        lemma_members_empty();
    }
    let mut types: Vec<JsonValue> = Vec::new();
    push_element(&mut types, json_str("namespace"));
    push_element(&mut types, json_str("type"));
    push_element(&mut types, json_str("class"));
    push_element(&mut types, json_str("enum"));
    push_element(&mut types, json_str("interface"));
    push_element(&mut types, json_str("struct"));
    push_element(&mut types, json_str("typeParameter"));
    push_element(&mut types, json_str("parameter"));
    push_element(&mut types, json_str("variable"));
    push_element(&mut types, json_str("property"));
    push_element(&mut types, json_str("enumMember"));
    push_element(&mut types, json_str("event"));
    push_element(&mut types, json_str("function"));
    push_element(&mut types, json_str("method"));
    push_element(&mut types, json_str("macro"));
    push_element(&mut types, json_str("keyword"));
    push_element(&mut types, json_str("modifier"));
    push_element(&mut types, json_str("comment"));
    push_element(&mut types, json_str("string"));
    push_element(&mut types, json_str("number"));
    push_element(&mut types, json_str("regexp"));
    push_element(&mut types, json_str("operator"));
    assert(models(types@) =~= seq![
        Json::Str("namespace"@),
        Json::Str("type"@),
        Json::Str("class"@),
        Json::Str("enum"@),
        Json::Str("interface"@),
        Json::Str("struct"@),
        Json::Str("typeParameter"@),
        Json::Str("parameter"@),
        Json::Str("variable"@),
        Json::Str("property"@),
        Json::Str("enumMember"@),
        Json::Str("event"@),
        Json::Str("function"@),
        Json::Str("method"@),
        Json::Str("macro"@),
        Json::Str("keyword"@),
        Json::Str("modifier"@),
        Json::Str("comment"@),
        Json::Str("string"@),
        Json::Str("number"@),
        Json::Str("regexp"@),
        Json::Str("operator"@),
    ]);
    JsonValue::Array(types)
}

fn token_modifiers_value() -> (r: JsonValue)
    ensures
        r.model() == token_modifiers_json(),
{
    proof {
        lemma_members_empty();
    }
    let mut mods: Vec<JsonValue> = Vec::new();
    push_element(&mut mods, json_str("declaration"));
    push_element(&mut mods, json_str("definition"));
    push_element(&mut mods, json_str("readonly"));
    push_element(&mut mods, json_str("static"));
    push_element(&mut mods, json_str("deprecated"));
    push_element(&mut mods, json_str("abstract"));
    push_element(&mut mods, json_str("async"));
    push_element(&mut mods, json_str("modification"));
    push_element(&mut mods, json_str("documentation"));
    push_element(&mut mods, json_str("defaultLibrary"));
    assert(models(mods@) =~= seq![
        Json::Str("declaration"@),
        Json::Str("definition"@),
        Json::Str("readonly"@),
        Json::Str("static"@),
        Json::Str("deprecated"@),
        Json::Str("abstract"@),
        Json::Str("async"@),
        Json::Str("modification"@),
        Json::Str("documentation"@),
        Json::Str("defaultLibrary"@),
    ]);
    JsonValue::Array(mods)
}

fn semantic_tokens_value() -> (r: JsonValue)
    ensures
        r.model() == semantic_tokens_caps(),
{
    proof {
        lemma_members_empty();
    }
    let mut requests: Vec<(String, JsonValue)> = Vec::new();
    push_member(&mut requests, "full", JsonValue::Bool(true));
    push_member(&mut requests, "range", JsonValue::Bool(true));
    assert(member_models(requests@) =~= seq![("full"@, Json::Bool(true)), ("range"@, Json::Bool(true))]);
    let mut formats: Vec<JsonValue> = Vec::new();
    push_element(&mut formats, json_str("relative"));
    assert(models(formats@) =~= seq![Json::Str("relative"@)]);
    let mut sem: Vec<(String, JsonValue)> = Vec::new();
    push_member(&mut sem, "requests", JsonValue::Object(requests));
    push_member(&mut sem, "tokenTypes", token_types_value());
    push_member(&mut sem, "tokenModifiers", token_modifiers_value());
    push_member(&mut sem, "formats", JsonValue::Array(formats));
    assert(member_models(sem@) =~= seq![
        ("requests"@, Json::Object(seq![("full"@, Json::Bool(true)), ("range"@, Json::Bool(true))])),
        ("tokenTypes"@, token_types_json()),
        ("tokenModifiers"@, token_modifiers_json()),
        ("formats"@, Json::Array(seq![Json::Str("relative"@)])),
    ]);
    JsonValue::Object(sem)
}

fn capabilities_value() -> (r: JsonValue)
    ensures
        r.model() == client_capabilities(),
{
    proof {
        lemma_members_empty();
    }
    let mut sync: Vec<(String, JsonValue)> = Vec::new();
    push_member(&mut sync, "didSave", JsonValue::Bool(false));
    assert(member_models(sync@) =~= seq![("didSave"@, Json::Bool(false))]);
    let mut inlay: Vec<(String, JsonValue)> = Vec::new();
    push_member(&mut inlay, "dynamicRegistration", JsonValue::Bool(false));
    assert(member_models(inlay@) =~= seq![("dynamicRegistration"@, Json::Bool(false))]);
    let mut td: Vec<(String, JsonValue)> = Vec::new();
    push_member(&mut td, "synchronization", JsonValue::Object(sync));
    push_member(&mut td, "completion", empty_object());
    push_member(&mut td, "hover", empty_object());
    push_member(&mut td, "definition", empty_object());
    push_member(&mut td, "publishDiagnostics", empty_object());
    push_member(&mut td, "inlayHint", JsonValue::Object(inlay));
    push_member(&mut td, "semanticTokens", semantic_tokens_value());
    assert(member_models(td@) =~= seq![
        ("synchronization"@, Json::Object(seq![("didSave"@, Json::Bool(false))])),
        ("completion"@, Json::Object(Seq::empty())),
        ("hover"@, Json::Object(Seq::empty())),
        ("definition"@, Json::Object(Seq::empty())),
        ("publishDiagnostics"@, Json::Object(Seq::empty())),
        ("inlayHint"@, Json::Object(seq![("dynamicRegistration"@, Json::Bool(false))])),
        ("semanticTokens"@, semantic_tokens_caps()),
    ]);
    let mut caps: Vec<(String, JsonValue)> = Vec::new();
    push_member(&mut caps, "textDocument", JsonValue::Object(td));
    assert(member_models(caps@) =~= seq![("textDocument"@, text_document_caps())]);
    JsonValue::Object(caps)
}

fn document_params_value(uri: &str) -> (r: JsonValue)
    ensures
        r.model() == document_params(uri@),
{
    let mut m: Vec<(String, JsonValue)> = Vec::new();
    proof {
        lemma_members_empty();
    }
    push_member(&mut m, "textDocument", doc_value(uri));
    assert(member_models(m@) =~= seq![("textDocument"@, doc_json(uri@))]);
    JsonValue::Object(m)
}

fn options_value(tab_size: u32, insert_spaces: bool) -> (r: JsonValue)
    ensures
        r.model() == options_json(tab_size, insert_spaces),
{
    let mut m: Vec<(String, JsonValue)> = Vec::new();
    proof {
        lemma_members_empty();
    }
    push_member(&mut m, "tabSize", json_u64(tab_size as u64));
    push_member(&mut m, "insertSpaces", JsonValue::Bool(insert_spaces));
    assert(member_models(m@) =~= seq![
        ("tabSize"@, num(tab_size as u64)),
        ("insertSpaces"@, Json::Bool(insert_spaces)),
    ]);
    JsonValue::Object(m)
}

fn lines_params_value(uri: &str, start_line: u32, end_line: u32) -> (r: JsonValue)
    ensures
        r.model() == lines_params(uri@, start_line, end_line),
{
    let mut m: Vec<(String, JsonValue)> = Vec::new();
    proof {
        lemma_members_empty();
    }
    push_member(&mut m, "textDocument", doc_value(uri));
    push_member(&mut m, "range", range_value(start_line, 0, end_line, 0));
    assert(member_models(m@) =~= seq![
        ("textDocument"@, doc_json(uri@)),
        ("range"@, range_json(start_line, 0, end_line, 0)),
    ]);
    JsonValue::Object(m)
}

fn diagnostics_value(diagnostics: &Vec<LspDiagnostic>) -> (r: JsonValue)
    ensures
        r.model() == Json::Array(diagnostics@.map_values(|d: LspDiagnostic| diagnostic_json(d))),
{
    let ghost f = |d: LspDiagnostic| diagnostic_json(d);
    let mut items: Vec<JsonValue> = Vec::new();
    proof {
        lemma_members_empty();
    }
    let mut i: usize = 0;
    while i < diagnostics.len()
        invariant
            i <= diagnostics.len(),
            f == (|d: LspDiagnostic| diagnostic_json(d)),
            models(items@) == diagnostics@.take(i as int).map_values(f),
        decreases diagnostics.len() - i,
    {
        push_element(&mut items, diagnostic_value(&diagnostics[i]));
        assert(diagnostics@.take(i + 1).map_values(f) =~= diagnostics@.take(i as int).map_values(
            f,
        ).push(f(diagnostics@[i as int])));
        i = i + 1;
    }
    assert(diagnostics@.take(diagnostics.len() as int) =~= diagnostics@);
    JsonValue::Array(items)
}

fn initialize_params_value(root_uri: &str, process_id: u32, version: &str) -> (r: JsonValue)
    ensures
        r.model() == initialize_params(root_uri@, process_id, version@),
{
    let mut info: Vec<(String, JsonValue)> = Vec::new();
    proof {
        lemma_members_empty();
    }
    push_member(&mut info, "name", json_str("blue-ide"));
    push_member(&mut info, "version", json_str(version));
    assert(member_models(info@) =~= seq![
        ("name"@, Json::Str("blue-ide"@)),
        ("version"@, Json::Str(version@)),
    ]);
    let mut m: Vec<(String, JsonValue)> = Vec::new();
    push_member(&mut m, "processId", json_u64(process_id as u64));
    push_member(&mut m, "rootUri", json_str(root_uri));
    push_member(&mut m, "capabilities", capabilities_value());
    push_member(&mut m, "clientInfo", JsonValue::Object(info));
    assert(member_models(m@) =~= seq![
        ("processId"@, num(process_id as u64)),
        ("rootUri"@, Json::Str(root_uri@)),
        ("capabilities"@, client_capabilities()),
        (
            "clientInfo"@,
            Json::Object(seq![("name"@, Json::Str("blue-ide"@)), ("version"@, Json::Str(version@))]),
        ),
    ]);
    JsonValue::Object(m)
}

fn did_open_params(uri: &str, language_id: &str, text: &str, version: i32) -> (r: JsonValue)
    ensures
        r.model() == Json::Object(
            seq![
                (
                    "textDocument"@,
                    Json::Object(
                        seq![
                            ("uri"@, Json::Str(uri@)),
                            ("languageId"@, Json::Str(language_id@)),
                            ("version"@, int_number(version as i64)),
                            ("text"@, Json::Str(text@)),
                        ],
                    ),
                ),
            ],
        ),
{
    let mut doc: Vec<(String, JsonValue)> = Vec::new();
    proof {
        lemma_members_empty();
    }
    push_member(&mut doc, "uri", json_str(uri));
    push_member(&mut doc, "languageId", json_str(language_id));
    push_member(&mut doc, "version", json_i64(version as i64));
    push_member(&mut doc, "text", json_str(text));
    let ghost d = Json::Object(
        seq![
            ("uri"@, Json::Str(uri@)),
            ("languageId"@, Json::Str(language_id@)),
            ("version"@, int_number(version as i64)),
            ("text"@, Json::Str(text@)),
        ],
    );
    assert(member_models(doc@) =~= seq![
        ("uri"@, Json::Str(uri@)),
        ("languageId"@, Json::Str(language_id@)),
        ("version"@, int_number(version as i64)),
        ("text"@, Json::Str(text@)),
    ]);
    let mut m: Vec<(String, JsonValue)> = Vec::new();
    push_member(&mut m, "textDocument", JsonValue::Object(doc));
    assert(member_models(m@) =~= seq![("textDocument"@, d)]);
    JsonValue::Object(m)
}

fn did_change_params(uri: &str, text: &str, version: i32) -> (r: JsonValue)
    ensures
        r.model() == Json::Object(
            seq![
                (
                    "textDocument"@,
                    Json::Object(seq![("uri"@, Json::Str(uri@)), ("version"@, int_number(version as i64))]),
                ),
                ("contentChanges"@, Json::Array(seq![Json::Object(seq![("text"@, Json::Str(text@))])])),
            ],
        ),
{
    let mut doc: Vec<(String, JsonValue)> = Vec::new();
    proof {
        lemma_members_empty();
    }
    push_member(&mut doc, "uri", json_str(uri));
    push_member(&mut doc, "version", json_i64(version as i64));
    assert(member_models(doc@) =~= seq![
        ("uri"@, Json::Str(uri@)),
        ("version"@, int_number(version as i64)),
    ]);
    let mut change: Vec<(String, JsonValue)> = Vec::new();
    push_member(&mut change, "text", json_str(text));
    assert(member_models(change@) =~= seq![("text"@, Json::Str(text@))]);
    let mut changes: Vec<JsonValue> = Vec::new();
    push_element(&mut changes, JsonValue::Object(change));
    assert(models(changes@) =~= seq![Json::Object(seq![("text"@, Json::Str(text@))])]);
    let mut m: Vec<(String, JsonValue)> = Vec::new();
    push_member(&mut m, "textDocument", JsonValue::Object(doc));
    push_member(&mut m, "contentChanges", JsonValue::Array(changes));
    assert(member_models(m@) =~= seq![
        (
            "textDocument"@,
            Json::Object(seq![("uri"@, Json::Str(uri@)), ("version"@, int_number(version as i64))]),
        ),
        ("contentChanges"@, Json::Array(seq![Json::Object(seq![("text"@, Json::Str(text@))])])),
    ]);
    JsonValue::Object(m)
}

fn rename_params(uri: &str, line: u32, col: u32, new_name: &str) -> (r: JsonValue)
    ensures
        r.model() == Json::Object(
            seq![
                ("textDocument"@, doc_json(uri@)),
                ("position"@, position_json(line, col)),
                ("newName"@, Json::Str(new_name@)),
            ],
        ),
{
    let mut m: Vec<(String, JsonValue)> = Vec::new();
    proof {
        lemma_members_empty();
    }
    push_member(&mut m, "textDocument", doc_value(uri));
    push_member(&mut m, "position", position_value(line, col));
    push_member(&mut m, "newName", json_str(new_name));
    assert(member_models(m@) =~= seq![
        ("textDocument"@, doc_json(uri@)),
        ("position"@, position_json(line, col)),
        ("newName"@, Json::Str(new_name@)),
    ]);
    JsonValue::Object(m)
}

fn format_params(uri: &str, tab_size: u32, insert_spaces: bool) -> (r: JsonValue)
    ensures
        r.model() == Json::Object(
            seq![("textDocument"@, doc_json(uri@)), ("options"@, options_json(tab_size, insert_spaces))],
        ),
{
    let mut m: Vec<(String, JsonValue)> = Vec::new();
    proof {
        lemma_members_empty();
    }
    push_member(&mut m, "textDocument", doc_value(uri));
    push_member(&mut m, "options", options_value(tab_size, insert_spaces));
    assert(member_models(m@) =~= seq![
        ("textDocument"@, doc_json(uri@)),
        ("options"@, options_json(tab_size, insert_spaces)),
    ]);
    JsonValue::Object(m)
}

fn range_format_params(uri: &str, tab_size: u32, insert_spaces: bool, range: (u32, u32, u32, u32)) -> (r: JsonValue)
    ensures
        r.model() == Json::Object(
            seq![
                ("textDocument"@, doc_json(uri@)),
                ("range"@, range_json(range.0, range.1, range.2, range.3)),
                ("options"@, options_json(tab_size, insert_spaces)),
            ],
        ),
{
    let mut m: Vec<(String, JsonValue)> = Vec::new();
    proof {
        lemma_members_empty();
    }
    push_member(&mut m, "textDocument", doc_value(uri));
    push_member(&mut m, "range", range_value(range.0, range.1, range.2, range.3));
    push_member(&mut m, "options", options_value(tab_size, insert_spaces));
    assert(member_models(m@) =~= seq![
        ("textDocument"@, doc_json(uri@)),
        ("range"@, range_json(range.0, range.1, range.2, range.3)),
        ("options"@, options_json(tab_size, insert_spaces)),
    ]);
    JsonValue::Object(m)
}

fn query_params(query: &str) -> (r: JsonValue)
    ensures
        r.model() == Json::Object(seq![("query"@, Json::Str(query@))]),
{
    let mut m: Vec<(String, JsonValue)> = Vec::new();
    proof {
        lemma_members_empty();
    }
    push_member(&mut m, "query", json_str(query));
    assert(member_models(m@) =~= seq![("query"@, Json::Str(query@))]);
    JsonValue::Object(m)
}

fn code_action_params(uri: &str, range: (u32, u32, u32, u32), diagnostics: &Vec<LspDiagnostic>) -> (r: JsonValue)
    ensures
        r.model() == Json::Object(
            seq![
                ("textDocument"@, doc_json(uri@)),
                ("range"@, range_json(range.0, range.1, range.2, range.3)),
                (
                    "context"@,
                    Json::Object(
                        seq![
                            (
                                "diagnostics"@,
                                Json::Array(diagnostics@.map_values(|d: LspDiagnostic| diagnostic_json(d))),
                            ),
                        ],
                    ),
                ),
            ],
        ),
{
    let ghost diags = Json::Array(diagnostics@.map_values(|d: LspDiagnostic| diagnostic_json(d)));
    let mut context: Vec<(String, JsonValue)> = Vec::new();
    proof {
        lemma_members_empty();
    }
    push_member(&mut context, "diagnostics", diagnostics_value(diagnostics));
    assert(member_models(context@) =~= seq![("diagnostics"@, diags)]);
    let mut m: Vec<(String, JsonValue)> = Vec::new();
    push_member(&mut m, "textDocument", doc_value(uri));
    push_member(&mut m, "range", range_value(range.0, range.1, range.2, range.3));
    push_member(&mut m, "context", JsonValue::Object(context));
    assert(member_models(m@) =~= seq![
        ("textDocument"@, doc_json(uri@)),
        ("range"@, range_json(range.0, range.1, range.2, range.3)),
        ("context"@, Json::Object(seq![("diagnostics"@, diags)])),
    ]);
    JsonValue::Object(m)
}

fn resolve_params(item: &CodeLensItem) -> (r: JsonValue)
    requires
        item.entries@.len() > 0,
    ensures
        r.model() == Json::Object(
            seq![
                ("range"@, lsp_range_json(resolve_range(*item))),
                ("data"@, opt_json(item.entries@[0].data.deep_view())),
            ],
        ),
{
    let entry = &item.entries[0];
    let line = item.line as u32;
    let range = match entry.range {
        Some(r) => r,
        None => LspRange {
            start: crate::lsp::types::LspPositionWire { line, character: 0 },
            end: crate::lsp::types::LspPositionWire { line, character: 0 },
        },
    };
    let mut m: Vec<(String, JsonValue)> = Vec::new();
    proof {
        lemma_members_empty();
    }
    push_member(&mut m, "range", lsp_range_value(&range));
    push_member(&mut m, "data", opt_value(&entry.data));
    assert(member_models(m@) =~= seq![
        ("range"@, lsp_range_json(resolve_range(*item))),
        ("data"@, opt_json(item.entries@[0].data.deep_view())),
    ]);
    JsonValue::Object(m)
}

fn item_params(item: JsonValue) -> (r: JsonValue)
    ensures
        r.model() == Json::Object(seq![("item"@, item.model())]),
{
    let ghost im = item.model();
    let mut m: Vec<(String, JsonValue)> = Vec::new();
    proof {
        lemma_members_empty();
    }
    push_member(&mut m, "item", item);
    assert(member_models(m@) =~= seq![("item"@, im)]);
    JsonValue::Object(m)
}

fn call_item_value(i: &CallHierarchyItem) -> (r: JsonValue)
    ensures
        r.model() == call_item_json(*i),
{
    item_value(&i.name, i.kind, &i.detail, &i.uri, &i.range, &i.selection_range, &i.data)
}

fn type_item_value(i: &TypeHierarchyItem) -> (r: JsonValue)
    ensures
        r.model() == type_item_json(*i),
{
    item_value(&i.name, i.kind, &i.detail, &i.uri, &i.range, &i.selection_range, &i.data)
}

fn execute_params(command: &str, args: JsonValue) -> (r: JsonValue)
    ensures
        r.model() == Json::Object(
            seq![("command"@, Json::Str(command@)), ("arguments"@, arguments_json(args.model()))],
        ),
{
    let ghost am = args.model();
    let arguments = if args.is_array() {
        args
    } else {
        let mut one: Vec<JsonValue> = Vec::new();
        proof {
            lemma_members_empty();
        }
        push_element(&mut one, args);
        assert(models(one@) =~= seq![am]);
        JsonValue::Array(one)
    };
    let mut m: Vec<(String, JsonValue)> = Vec::new();
    proof {
        lemma_members_empty();
    }
    push_member(&mut m, "command", json_str(command));
    push_member(&mut m, "arguments", arguments);
    assert(member_models(m@) =~= seq![
        ("command"@, Json::Str(command@)),
        ("arguments"@, arguments_json(am)),
    ]);
    JsonValue::Object(m)
}

/// Takes the next wire id, then finds the URI of `path`.
fn wire_and_uri(path: &str, ids: &mut WireIds, cwd: &Option<String>) -> (r: Result<(u64, String), EncodeError>)
    ensures
        final(ids).next == old(ids).next.wrapping_add(1),
        match r {
            Ok((w, u)) => w == old(ids).next && uri_for(path@, cwd.deep_view()) == Ok::<
                Seq<char>,
                EncodeError,
            >(u@),
            Err(e) => uri_for(path@, cwd.deep_view()) == Err::<Seq<char>, EncodeError>(e),
        },
{
    let wire = ids.next_id();
    match path_to_uri(path, cwd) {
        Ok(u) => Ok((wire, u)),
        Err(e) => Err(e),
    }
}

/// `encode_request` for initialize, the document notifications and shutdown.
#[verifier::spinoff_prover]
fn encode_lifecycle(
    request: LspRequest,
    ids: &mut WireIds,
    cwd: &Option<String>,
    process_id: u32,
    client_version: &str,
) -> (r: Result<(JsonValue, Option<(u64, RequestKind)>), EncodeError>)
    requires
        request is Initialize || request is DidOpen || request is DidChange || request is DidClose || request is Shutdown,
    ensures
        final(ids).next == (if takes_wire_id(request) {
            old(ids).next.wrapping_add(1)
        } else {
            old(ids).next
        }),
        match r {
            Ok((msg, reg)) => {
                &&& encode_error(request, cwd.deep_view()) is None
                &&& msg.model() == request_json(
                    request,
                    old(ids).next,
                    document_uri(request, cwd.deep_view()),
                    process_id,
                    client_version@,
                )
                &&& registers(request, old(ids).next, reg)
            },
            Err(e) => encode_error(request, cwd.deep_view()) == Some(e),
        },
{
    match request {
        LspRequest::Initialize { root_uri } => {
            let wire = ids.next_id();
            let params = initialize_params_value(root_uri.as_str(), process_id, client_version);
            Ok((message_value(Some(wire), "initialize", params), Some((wire, RequestKind::Initialize))))
        },
        LspRequest::DidOpen { path, language_id, text, version } => {
            let uri = match path_to_uri(path.as_str(), cwd) {
                Ok(u) => u,
                Err(e) => return Err(e),
            };
            let params = did_open_params(uri.as_str(), language_id.as_str(), text.as_str(), version);
            Ok((message_value(None, "textDocument/didOpen", params), None))
        },
        LspRequest::DidChange { path, text, version } => {
            let uri = match path_to_uri(path.as_str(), cwd) {
                Ok(u) => u,
                Err(e) => return Err(e),
            };
            let params = did_change_params(uri.as_str(), text.as_str(), version);
            Ok((message_value(None, "textDocument/didChange", params), None))
        },
        LspRequest::DidClose { path } => {
            let uri = match path_to_uri(path.as_str(), cwd) {
                Ok(u) => u,
                Err(e) => return Err(e),
            };
            let params = document_params_value(uri.as_str());
            Ok((message_value(None, "textDocument/didClose", params), None))
        },
        LspRequest::Shutdown => Err(EncodeError::ShutdownIsLifecycle),
        _ => Err(EncodeError::ShutdownIsLifecycle),
    }
}

/// `encode_request` for the requests at a position of a document.
#[verifier::spinoff_prover]
fn encode_at_position(
    request: LspRequest,
    ids: &mut WireIds,
    cwd: &Option<String>,
    process_id: u32,
    client_version: &str,
) -> (r: Result<(JsonValue, Option<(u64, RequestKind)>), EncodeError>)
    requires
        request is Completion || request is Hover || request is GotoDefinition || request is References || request is PrepareRename || request is SignatureHelp || request is PrepareCallHierarchy || request is PrepareTypeHierarchy,
    ensures
        final(ids).next == (if takes_wire_id(request) {
            old(ids).next.wrapping_add(1)
        } else {
            old(ids).next
        }),
        match r {
            Ok((msg, reg)) => {
                &&& encode_error(request, cwd.deep_view()) is None
                &&& msg.model() == request_json(
                    request,
                    old(ids).next,
                    document_uri(request, cwd.deep_view()),
                    process_id,
                    client_version@,
                )
                &&& registers(request, old(ids).next, reg)
            },
            Err(e) => encode_error(request, cwd.deep_view()) == Some(e),
        },
{
    match request {
        LspRequest::Completion { path, line, col, id } => {
            let (wire, uri) = match wire_and_uri(path.as_str(), ids, cwd) {
                Ok(x) => x,
                Err(e) => return Err(e),
            };
            let params = position_params_value(uri.as_str(), line, col);
            Ok((
                message_value(Some(wire), "textDocument/completion", params),
                Some((wire, RequestKind::Completion(id))),
            ))
        },
        LspRequest::Hover { path, line, col, id } => {
            let (wire, uri) = match wire_and_uri(path.as_str(), ids, cwd) {
                Ok(x) => x,
                Err(e) => return Err(e),
            };
            let params = position_params_value(uri.as_str(), line, col);
            Ok((
                message_value(Some(wire), "textDocument/hover", params),
                Some((wire, RequestKind::Hover(id))),
            ))
        },
        LspRequest::GotoDefinition { path, line, col, id } => {
            let (wire, uri) = match wire_and_uri(path.as_str(), ids, cwd) {
                Ok(x) => x,
                Err(e) => return Err(e),
            };
            let params = position_params_value(uri.as_str(), line, col);
            Ok((
                message_value(Some(wire), "textDocument/definition", params),
                Some((wire, RequestKind::GotoDefinition(id))),
            ))
        },
        LspRequest::References { path, line, col, id } => {
            let (wire, uri) = match wire_and_uri(path.as_str(), ids, cwd) {
                Ok(x) => x,
                Err(e) => return Err(e),
            };
            let params = position_params_value(uri.as_str(), line, col);
            Ok((
                message_value(Some(wire), "textDocument/references", params),
                Some((wire, RequestKind::References(id))),
            ))
        },
        LspRequest::PrepareRename { path, line, col, id } => {
            let (wire, uri) = match wire_and_uri(path.as_str(), ids, cwd) {
                Ok(x) => x,
                Err(e) => return Err(e),
            };
            let params = position_params_value(uri.as_str(), line, col);
            Ok((
                message_value(Some(wire), "textDocument/prepareRename", params),
                Some((wire, RequestKind::PrepareRename(id))),
            ))
        },
        LspRequest::SignatureHelp { path, line, col, id } => {
            let (wire, uri) = match wire_and_uri(path.as_str(), ids, cwd) {
                Ok(x) => x,
                Err(e) => return Err(e),
            };
            let params = position_params_value(uri.as_str(), line, col);
            Ok((
                message_value(Some(wire), "textDocument/signatureHelp", params),
                Some((wire, RequestKind::SignatureHelp(id))),
            ))
        },
        LspRequest::PrepareCallHierarchy { path, line, col, id } => {
            let (wire, uri) = match wire_and_uri(path.as_str(), ids, cwd) {
                Ok(x) => x,
                Err(e) => return Err(e),
            };
            let params = position_params_value(uri.as_str(), line, col);
            Ok((
                message_value(Some(wire), "textDocument/prepareCallHierarchy", params),
                Some((wire, RequestKind::PrepareCallHierarchy(id))),
            ))
        },
        LspRequest::PrepareTypeHierarchy { path, line, col, id } => {
            let (wire, uri) = match wire_and_uri(path.as_str(), ids, cwd) {
                Ok(x) => x,
                Err(e) => return Err(e),
            };
            let params = position_params_value(uri.as_str(), line, col);
            Ok((
                message_value(Some(wire), "textDocument/prepareTypeHierarchy", params),
                Some((wire, RequestKind::PrepareTypeHierarchy(id))),
            ))
        },
        _ => Err(EncodeError::ShutdownIsLifecycle),
    }
}

/// `encode_request` for the other requests on a document.
#[verifier::spinoff_prover]
fn encode_document(
    request: LspRequest,
    ids: &mut WireIds,
    cwd: &Option<String>,
    process_id: u32,
    client_version: &str,
) -> (r: Result<(JsonValue, Option<(u64, RequestKind)>), EncodeError>)
    requires
        request is Rename || request is DocumentSymbol || request is InlayHint || request is Format || request is RangeFormat || request is CodeAction || request is CodeLens || request is SemanticTokensFull || request is SemanticTokensRange,
    ensures
        final(ids).next == (if takes_wire_id(request) {
            old(ids).next.wrapping_add(1)
        } else {
            old(ids).next
        }),
        match r {
            Ok((msg, reg)) => {
                &&& encode_error(request, cwd.deep_view()) is None
                &&& msg.model() == request_json(
                    request,
                    old(ids).next,
                    document_uri(request, cwd.deep_view()),
                    process_id,
                    client_version@,
                )
                &&& registers(request, old(ids).next, reg)
            },
            Err(e) => encode_error(request, cwd.deep_view()) == Some(e),
        },
{
    match request {
        LspRequest::Rename { path, line, col, new_name, id } => {
            let (wire, uri) = match wire_and_uri(path.as_str(), ids, cwd) {
                Ok(x) => x,
                Err(e) => return Err(e),
            };
            let params = rename_params(uri.as_str(), line, col, new_name.as_str());
            Ok((
                message_value(Some(wire), "textDocument/rename", params),
                Some((wire, RequestKind::Rename(id))),
            ))
        },
        LspRequest::DocumentSymbol { path, id } => {
            let (wire, uri) = match wire_and_uri(path.as_str(), ids, cwd) {
                Ok(x) => x,
                Err(e) => return Err(e),
            };
            let params = document_params_value(uri.as_str());
            Ok((
                message_value(Some(wire), "textDocument/documentSymbol", params),
                Some((wire, RequestKind::DocumentSymbol { id, path })),
            ))
        },
        LspRequest::InlayHint { path, start_line, end_line, id } => {
            let (wire, uri) = match wire_and_uri(path.as_str(), ids, cwd) {
                Ok(x) => x,
                Err(e) => return Err(e),
            };
            let params = lines_params_value(uri.as_str(), start_line, end_line);
            Ok((
                message_value(Some(wire), "textDocument/inlayHint", params),
                Some((wire, RequestKind::InlayHint(id))),
            ))
        },
        LspRequest::Format { path, tab_size, insert_spaces, id } => {
            let (wire, uri) = match wire_and_uri(path.as_str(), ids, cwd) {
                Ok(x) => x,
                Err(e) => return Err(e),
            };
            let params = format_params(uri.as_str(), tab_size, insert_spaces);
            Ok((
                message_value(Some(wire), "textDocument/formatting", params),
                Some((wire, RequestKind::Format(id))),
            ))
        },
        LspRequest::RangeFormat { path, tab_size, insert_spaces, range, id } => {
            let (wire, uri) = match wire_and_uri(path.as_str(), ids, cwd) {
                Ok(x) => x,
                Err(e) => return Err(e),
            };
            let params = range_format_params(uri.as_str(), tab_size, insert_spaces, range);
            Ok((
                message_value(Some(wire), "textDocument/rangeFormatting", params),
                Some((wire, RequestKind::RangeFormat(id))),
            ))
        },
        LspRequest::CodeAction { path, range, diagnostics, id } => {
            let (wire, uri) = match wire_and_uri(path.as_str(), ids, cwd) {
                Ok(x) => x,
                Err(e) => return Err(e),
            };
            let params = code_action_params(uri.as_str(), range, &diagnostics);
            Ok((
                message_value(Some(wire), "textDocument/codeAction", params),
                Some((wire, RequestKind::CodeAction(id))),
            ))
        },
        LspRequest::CodeLens { path, id } => {
            let (wire, uri) = match wire_and_uri(path.as_str(), ids, cwd) {
                Ok(x) => x,
                Err(e) => return Err(e),
            };
            let params = document_params_value(uri.as_str());
            Ok((
                message_value(Some(wire), "textDocument/codeLens", params),
                Some((wire, RequestKind::CodeLens(id))),
            ))
        },
        LspRequest::SemanticTokensFull { path, id } => {
            let (wire, uri) = match wire_and_uri(path.as_str(), ids, cwd) {
                Ok(x) => x,
                Err(e) => return Err(e),
            };
            let params = document_params_value(uri.as_str());
            Ok((
                message_value(Some(wire), "textDocument/semanticTokens/full", params),
                Some((wire, RequestKind::SemanticTokensFull(id))),
            ))
        },
        LspRequest::SemanticTokensRange { path, start_line, end_line, id } => {
            let (wire, uri) = match wire_and_uri(path.as_str(), ids, cwd) {
                Ok(x) => x,
                Err(e) => return Err(e),
            };
            let params = lines_params_value(uri.as_str(), start_line, end_line);
            Ok((
                message_value(Some(wire), "textDocument/semanticTokens/range", params),
                Some((wire, RequestKind::SemanticTokensRange(id))),
            ))
        },
        _ => Err(EncodeError::ShutdownIsLifecycle),
    }
}

/// `encode_request` for the requests that name no document.
#[verifier::spinoff_prover]
fn encode_other(
    request: LspRequest,
    ids: &mut WireIds,
    cwd: &Option<String>,
    process_id: u32,
    client_version: &str,
) -> (r: Result<(JsonValue, Option<(u64, RequestKind)>), EncodeError>)
    requires
        request is WorkspaceSymbol || request is CodeLensResolve || request is IncomingCalls || request is OutgoingCalls || request is Supertypes || request is Subtypes || request is ExecuteCommand,
    ensures
        final(ids).next == (if takes_wire_id(request) {
            old(ids).next.wrapping_add(1)
        } else {
            old(ids).next
        }),
        match r {
            Ok((msg, reg)) => {
                &&& encode_error(request, cwd.deep_view()) is None
                &&& msg.model() == request_json(
                    request,
                    old(ids).next,
                    document_uri(request, cwd.deep_view()),
                    process_id,
                    client_version@,
                )
                &&& registers(request, old(ids).next, reg)
            },
            Err(e) => encode_error(request, cwd.deep_view()) == Some(e),
        },
{
    match request {
        LspRequest::WorkspaceSymbol { query, id } => {
            let wire = ids.next_id();
            let params = query_params(query.as_str());
            Ok((
                message_value(Some(wire), "workspace/symbol", params),
                Some((wire, RequestKind::WorkspaceSymbol(id))),
            ))
        },
        LspRequest::CodeLensResolve { item, id } => {
            let wire = ids.next_id();
            if item.entries.len() == 0 {
                return Err(EncodeError::NoCodeLensEntry);
            }
            let params = resolve_params(&item);
            Ok((
                message_value(Some(wire), "codeLens/resolve", params),
                Some((wire, RequestKind::CodeLensResolve(id))),
            ))
        },
        LspRequest::IncomingCalls { item, id } => {
            let wire = ids.next_id();
            let params = item_params(call_item_value(&item));
            Ok((
                message_value(Some(wire), "callHierarchy/incomingCalls", params),
                Some((wire, RequestKind::IncomingCalls(id))),
            ))
        },
        LspRequest::OutgoingCalls { item, id } => {
            let wire = ids.next_id();
            let params = item_params(call_item_value(&item));
            Ok((
                message_value(Some(wire), "callHierarchy/outgoingCalls", params),
                Some((wire, RequestKind::OutgoingCalls(id))),
            ))
        },
        LspRequest::Supertypes { item, id } => {
            let wire = ids.next_id();
            let params = item_params(type_item_value(&item));
            Ok((
                message_value(Some(wire), "typeHierarchy/supertypes", params),
                Some((wire, RequestKind::Supertypes(id))),
            ))
        },
        LspRequest::Subtypes { item, id } => {
            let wire = ids.next_id();
            let params = item_params(type_item_value(&item));
            Ok((
                message_value(Some(wire), "typeHierarchy/subtypes", params),
                Some((wire, RequestKind::Subtypes(id))),
            ))
        },
        LspRequest::ExecuteCommand { command, args, id } => {
            let wire = ids.next_id();
            let params = execute_params(command.as_str(), args);
            Ok((
                message_value(Some(wire), "workspace/executeCommand", params),
                Some((wire, RequestKind::ExecuteCommand(id))),
            ))
        },
        _ => Err(EncodeError::ShutdownIsLifecycle),
    }
}

/// Encodes a request as the JSON-RPC message the language server is sent,
/// as `request_json`, with what it registers as pending (`registers`).
///
/// Every request that expects an answer takes the next wire id, before
/// anything else is checked; the document notifications and shutdown take
/// none. A relative document path is taken from the working directory
/// `cwd`. The request fails, as `encode_error`, when it is a shutdown, when
/// it resolves a code lens without entries, or when its document has no
/// URI. `process_id` and `client_version` are announced by `initialize`.
pub fn encode_request(
    request: LspRequest,
    ids: &mut WireIds,
    cwd: &Option<String>,
    process_id: u32,
    client_version: &str,
) -> (r: Result<(JsonValue, Option<(u64, RequestKind)>), EncodeError>)
    ensures
        final(ids).next == (if takes_wire_id(request) {
            old(ids).next.wrapping_add(1)
        } else {
            old(ids).next
        }),
        match r {
            Ok((msg, reg)) => {
                &&& encode_error(request, cwd.deep_view()) is None
                &&& msg.model() == request_json(
                    request,
                    old(ids).next,
                    document_uri(request, cwd.deep_view()),
                    process_id,
                    client_version@,
                )
                &&& registers(request, old(ids).next, reg)
            },
            Err(e) => encode_error(request, cwd.deep_view()) == Some(e),
        },
{
    let group: u8 = match &request {
        LspRequest::Initialize { .. } | LspRequest::DidOpen { .. } | LspRequest::DidChange { .. }
        | LspRequest::DidClose { .. } | LspRequest::Shutdown => 0,
        LspRequest::Completion { .. } | LspRequest::Hover { .. } | LspRequest::GotoDefinition { .. }
        | LspRequest::References { .. } | LspRequest::PrepareRename { .. }
        | LspRequest::SignatureHelp { .. } | LspRequest::PrepareCallHierarchy { .. }
        | LspRequest::PrepareTypeHierarchy { .. } => 1,
        LspRequest::WorkspaceSymbol { .. } | LspRequest::CodeLensResolve { .. }
        | LspRequest::IncomingCalls { .. } | LspRequest::OutgoingCalls { .. }
        | LspRequest::Supertypes { .. } | LspRequest::Subtypes { .. }
        | LspRequest::ExecuteCommand { .. } => 2,
        _ => 3,
    };
    if group == 0 {
        encode_lifecycle(request, ids, cwd, process_id, client_version)
    } else if group == 1 {
        encode_at_position(request, ids, cwd, process_id, client_version)
    } else if group == 2 {
        encode_other(request, ids, cwd, process_id, client_version)
    } else {
        encode_document(request, ids, cwd, process_id, client_version)
    }
}
/// The caller's correlation id a parsed message carries, when it is a
/// response that has one.
pub open spec fn response_caller_id(r: ParsedMessage) -> Option<u64> {
    match r {
        ParsedMessage::Response(x) => match x {
            LspResponse::CompletionList { id, .. } => Some(id),
            LspResponse::HoverResult { id, .. } => Some(id),
            LspResponse::GotoResult { id, .. } => Some(id),
            LspResponse::GotoNone { id } => Some(id),
            LspResponse::ReferencesResult { id, .. } => Some(id),
            LspResponse::PrepareRenameResult { id, .. } => Some(id),
            LspResponse::RenameResult { id, .. } => Some(id),
            LspResponse::SymbolList { id, .. } => Some(id),
            LspResponse::InlayHintResult { id, .. } => Some(id),
            LspResponse::FormatResult { id, .. } => Some(id),
            LspResponse::SignatureHelpResult { id, .. } => Some(id),
            LspResponse::WorkspaceSymbolResult { id, .. } => Some(id),
            LspResponse::CodeActionResult { id, .. } => Some(id),
            LspResponse::CodeLensResult { id, .. } => Some(id),
            LspResponse::SemanticTokensResult { id, .. } => Some(id),
            LspResponse::CallHierarchyPrepareResult { id, .. } => Some(id),
            LspResponse::IncomingCallsResult { id, .. } => Some(id),
            LspResponse::OutgoingCallsResult { id, .. } => Some(id),
            LspResponse::TypeHierarchyPrepareResult { id, .. } => Some(id),
            LspResponse::SupertypesResult { id, .. } => Some(id),
            LspResponse::SubtypesResult { id, .. } => Some(id),
            LspResponse::Error { id, .. } => Some(id),
            _ => None,
        },
        _ => None,
    }
}

/// Correlation: when the server answers, by its wire id, a request that
/// `encode_request` registered as pending, the message the editor gets
/// carries that request's caller correlation id, whether the server sent a
/// result or an error (initialize, which has no caller id, gets none).
pub proof fn lemma_answer_carries_caller_id(
    req: LspRequest,
    wire: u64,
    kind: RequestKind,
    message: Json,
    r: ParsedMessage,
    pending0: Map<u64, RequestKind>,
    pending1: Map<u64, RequestKind>,
    legends0: Legends,
    legends1: Legends,
)
    requires
        registers(req, wire, Some((wire, kind))),
        pending0.contains_key(wire),
        pending0[wire] == kind,
        str_field_of(message, "method"@) is None,
        get(message, "id"@) == Some(num(wire)),
        message_outcome(Some(message), r, pending0, pending1, legends0, legends1),
    ensures
        response_caller_id(r) == request_caller_id(req),
{
}

} // verus!
