//! Data passed between the LSP transport and the editor: diagnostics,
//! completion items, symbols, inlay hints, code actions and progress.

use vstd::prelude::*;
use crate::editor::position::LspPosition;
use crate::text::{push_str, str_chars, chars_eq, owned};
use crate::lsp::json::JsonValue;

verus! {

broadcast use vstd::string::group_string_axioms;

// ── Inlay hint model ─────────────────────────────────────────────────────────

/// LSP 3.17 `InlayHintKind`. Values outside the spec map to `Other`.
#[derive(Debug, Clone, Copy, PartialEq, Eq, Structural)]
pub enum InlayHintKind {
    Type,
    Parameter,
    Other,
}

impl InlayHintKind {
    pub fn default() -> (r: Self)
        ensures
            r == InlayHintKind::Other,
    {
        InlayHintKind::Other
    }
}

/// A single text segment from an `InlayHintLabelPart` or a plain string label.
#[derive(Debug, Clone, PartialEq, Eq)]
pub struct InlayHintLabelPart {
    /// Visible text for this part.
    pub value: String,
    /// Optional tooltip — either plaintext or Markdown.
    pub tooltip: Option<InlayHintTooltip>,
}

/// Tooltip content attached to a hint or label part.
#[derive(Debug, Clone, PartialEq, Eq)]
pub enum InlayHintTooltip {
    PlainText(String),
    Markdown(String),
}

/// One LSP inlay hint, normalised for rendering. `label` holds at least one
/// part, in wire order.
#[derive(Debug, Clone, PartialEq, Eq)]
pub struct LspInlayHint {
    /// UTF-16 line/column where the hint is inserted (zero-based).
    pub position: LspPosition,
    /// Rendered label parts in wire order.
    pub label: Vec<InlayHintLabelPart>,
    pub kind: InlayHintKind,
    /// Optional hint-level tooltip.
    pub tooltip: Option<InlayHintTooltip>,
    pub padding_left: bool,
    pub padding_right: bool,
}

/// The concatenation of the label parts' values.
pub open spec fn concat_values(parts: Seq<InlayHintLabelPart>) -> Seq<char>
    decreases parts.len(),
{
    if parts.len() == 0 {
        Seq::empty()
    } else {
        concat_values(parts.drop_last()) + parts.last().value@
    }
}

impl LspInlayHint {
    /// Concatenates all label part values into one display string.
    pub fn display_text(&self) -> (r: String)
        ensures
            r@ == concat_values(self.label@),
    {
        let mut out = String::new();
        let mut i: usize = 0;
        while i < self.label.len()
            invariant
                i <= self.label.len(),
                out@ == concat_values(self.label@.take(i as int)),
            decreases self.label.len() - i,
        {
            push_str(&mut out, self.label[i].value.as_str());
            i = i + 1;
            assert(self.label@.take(i as int).drop_last() == self.label@.take(i - 1));
        }
        assert(self.label@.take(self.label.len() as int) == self.label@);
        out
    }
}

// ── Symbols ──────────────────────────────────────────────────────────────────

#[derive(Debug, Clone, Copy, PartialEq, Eq, Hash, Structural)]
pub enum SymbolKind {
    Function,
    Struct,
    Enum,
    Trait,
    Impl,
    Constant,
    Module,
    Field,
    Other,
}

pub open spec fn icon_of(k: SymbolKind) -> Seq<char> {
    match k {
        SymbolKind::Function => "fn"@,
        SymbolKind::Struct => "st"@,
        SymbolKind::Enum => "en"@,
        SymbolKind::Trait => "tr"@,
        SymbolKind::Impl => "im"@,
        SymbolKind::Constant => "co"@,
        SymbolKind::Module => "mo"@,
        SymbolKind::Field => "fi"@,
        SymbolKind::Other => "·"@,
    }
}

impl SymbolKind {
    pub fn icon_text(&self) -> (r: &'static str)
        ensures
            r@ == icon_of(*self),
    {
        match self {
            SymbolKind::Function => "fn",
            SymbolKind::Struct => "st",
            SymbolKind::Enum => "en",
            SymbolKind::Trait => "tr",
            SymbolKind::Impl => "im",
            SymbolKind::Constant => "co",
            SymbolKind::Module => "mo",
            SymbolKind::Field => "fi",
            SymbolKind::Other => "·",
        }
    }
}

/// One node of a document outline.
#[derive(Debug)]
pub struct OutlineNode {
    pub name: String,
    pub kind: SymbolKind,
    pub line: usize,
    pub end_line: usize,
    pub children: Vec<OutlineNode>,
    pub expanded: bool,
}

// ── Diagnostics and edits ────────────────────────────────────────────────────

#[derive(Debug, Clone)]
pub struct LspDiagnostic {
    pub line_start: u32,
    pub col_start: u32,
    pub line_end: u32,
    pub col_end: u32,
    pub severity: DiagnosticSeverity,
    pub message: String,
    pub code: Option<String>,
}

#[derive(Debug, Clone, Copy, PartialEq, Eq, Structural)]
pub enum DiagnosticSeverity {
    Error,
    Warning,
    Information,
    Hint,
}

/// Single-span text replacement from a completion `textEdit` (UTF-16
/// columns; `new_text` is applied literally).
#[derive(Debug, Clone, PartialEq, Eq)]
pub struct LspTextEdit {
    pub line_start: u32,
    pub col_start: u32,
    pub line_end: u32,
    pub col_end: u32,
    pub new_text: String,
}

/// One completion candidate after wire normalisation.
#[derive(Debug, Clone, PartialEq, Eq)]
pub struct LspCompletionItem {
    /// Popup display text from wire `label`.
    pub label: String,
    /// Popup kind from wire `kind` (numeric kinds become LSP labels).
    pub kind: Option<String>,
    /// Secondary popup line from wire `detail` or `labelDetails`.
    pub detail: Option<String>,
    /// Wire `insertText`, else `textEdit.newText`, else `label`.
    pub insert_text: Option<String>,
    /// Single primary `textEdit` when present.
    pub text_edit: Option<LspTextEdit>,
    /// Filter text to match against; defaults to the label when absent.
    pub filter_text: Option<String>,
}

/// One reference location from a `textDocument/references` response.
#[derive(Debug, Clone)]
pub struct ReferenceLocation {
    pub path: String,
    pub line_start: u32,
    pub col_start: u32,
    pub line_end: u32,
    pub col_end: u32,
    /// Preview of the line containing the reference.
    pub line_text: Option<String>,
}

/// One file's edits from a workspace edit.
#[derive(Debug, Clone, PartialEq, Eq)]
pub struct FileEdit {
    pub path: String,
    pub edits: Vec<TextEdit>,
}

/// One text replacement from a workspace edit.
#[derive(Debug, Clone, PartialEq, Eq)]
pub struct TextEdit {
    pub line_start: u32,
    pub col_start: u32,
    pub line_end: u32,
    pub col_end: u32,
    pub new_text: String,
}

// ── Signature help and workspace symbols ─────────────────────────────────────

/// A single parameter in a signature.
#[derive(Debug, Clone, PartialEq, Eq)]
pub struct ParameterInfo {
    pub label: String,
    pub documentation: Option<String>,
}

/// One callable signature returned by `textDocument/signatureHelp`.
#[derive(Debug, Clone, PartialEq, Eq)]
pub struct SignatureInfo {
    pub label: String,
    pub documentation: Option<String>,
    pub parameters: Vec<ParameterInfo>,
    pub active_parameter: Option<usize>,
}

/// One symbol returned by `workspace/symbol`.
#[derive(Debug, Clone, PartialEq, Eq)]
pub struct WorkspaceSymbol {
    pub name: String,
    pub kind: SymbolKind,
    pub path: String,
    pub line: u32,
    pub col: u32,
    pub container: Option<String>,
}

// ── Code actions ─────────────────────────────────────────────────────────────

/// The kind of a code action (mirrors LSP `CodeActionKind`).
#[derive(Debug, Clone, PartialEq, Eq)]
pub enum CodeActionKind {
    QuickFix,
    Refactor,
    RefactorExtract,
    RefactorInline,
    RefactorRewrite,
    Source,
    Other(String),
}

/// The text a code-action kind is shown as.
pub open spec fn action_kind_text(k: CodeActionKind) -> Seq<char> {
    match k {
        CodeActionKind::QuickFix => "Quick Fix"@,
        CodeActionKind::Refactor => "Refactor"@,
        CodeActionKind::RefactorExtract => "Extract"@,
        CodeActionKind::RefactorInline => "Inline"@,
        CodeActionKind::RefactorRewrite => "Rewrite"@,
        CodeActionKind::Source => "Source"@,
        CodeActionKind::Other(s) => s@,
    }
}

/// The wire name of a code-action kind.
pub open spec fn action_kind_wire(k: CodeActionKind) -> Seq<char> {
    match k {
        CodeActionKind::QuickFix => "quickfix"@,
        CodeActionKind::Refactor => "refactor"@,
        CodeActionKind::RefactorExtract => "refactor.extract"@,
        CodeActionKind::RefactorInline => "refactor.inline"@,
        CodeActionKind::RefactorRewrite => "refactor.rewrite"@,
        CodeActionKind::Source => "source"@,
        CodeActionKind::Other(s) => s@,
    }
}

pub open spec fn is_known_action_wire(s: Seq<char>) -> bool {
    s == "quickfix"@ || s == "refactor"@ || s == "refactor.extract"@ || s == "refactor.inline"@
        || s == "refactor.rewrite"@ || s == "source"@
}

fn str_is(s: &[char], lit: &str) -> (r: bool)
    ensures
        r == (s@ == lit@),
{
    let l = str_chars(lit);
    chars_eq(s, l.as_slice())
}

impl CodeActionKind {
    /// Parses a wire kind; unknown kinds are kept verbatim as `Other`.
    pub fn from_str(s: &str) -> (r: Self)
        ensures
            action_kind_wire(r) == s@,
            (r is Other) == !is_known_action_wire(s@),
    {
        let cs = str_chars(s);
        let c = cs.as_slice();
        if str_is(c, "quickfix") {
            CodeActionKind::QuickFix
        } else if str_is(c, "refactor") {
            CodeActionKind::Refactor
        } else if str_is(c, "refactor.extract") {
            CodeActionKind::RefactorExtract
        } else if str_is(c, "refactor.inline") {
            CodeActionKind::RefactorInline
        } else if str_is(c, "refactor.rewrite") {
            CodeActionKind::RefactorRewrite
        } else if str_is(c, "source") {
            CodeActionKind::Source
        } else {
            CodeActionKind::Other(owned(s))
        }
    }

    /// The text shown for this kind.
    pub fn display(&self) -> (r: &str)
        ensures
            r@ == action_kind_text(*self),
    {
        match self {
            CodeActionKind::QuickFix => "Quick Fix",
            CodeActionKind::Refactor => "Refactor",
            CodeActionKind::RefactorExtract => "Extract",
            CodeActionKind::RefactorInline => "Inline",
            CodeActionKind::RefactorRewrite => "Rewrite",
            CodeActionKind::Source => "Source",
            CodeActionKind::Other(s) => s.as_str(),
        }
    }
}

/// One code action returned by `textDocument/codeAction`.
#[derive(Debug, Clone, PartialEq, Eq)]
pub struct CodeAction {
    pub title: String,
    pub kind: Option<CodeActionKind>,
    /// Pre-computed workspace edit.
    pub edits: Vec<FileEdit>,
    /// Whether this is a preferred (primary) action.
    pub is_preferred: bool,
}

// ── Wire ranges, semantic modifiers, progress ────────────────────────────────

#[derive(Debug, Clone, Copy, PartialEq, Eq, Structural)]
pub struct LspRange {
    pub start: LspPositionWire,
    pub end: LspPositionWire,
}

#[derive(Debug, Clone, Copy, PartialEq, Eq, Structural)]
pub struct LspPositionWire {
    pub line: u32,
    pub character: u32,
}

#[derive(Debug, Clone, Copy, PartialEq, Eq, Structural)]
pub struct SemanticModifiers {
    pub declaration: bool,
    pub definition: bool,
    pub readonly: bool,
    pub is_static: bool,
    pub deprecated: bool,
    pub is_abstract: bool,
    pub is_async: bool,
    pub modification: bool,
    pub documentation: bool,
    pub default_library: bool,
}

#[derive(Debug, Clone, Copy, PartialEq, Eq, Structural)]
pub enum ProgressKind {
    Begin,
    Work,
    End,
}

#[derive(Debug, Clone, Copy, PartialEq, Eq, Structural)]
pub enum MessageLevel {
    Error,
    Warning,
    Info,
    Log,
}

#[derive(Debug, Clone)]
pub struct ProgressState {
    pub title: String,
    pub message: Option<String>,
    pub percentage: Option<u32>,
    pub kind: ProgressKind,
}

/// Known code-action kinds have distinct wire names, so `from_str` of a
/// known kind's wire name gives that kind back.
pub proof fn lemma_action_kind_wire_injective(a: CodeActionKind, b: CodeActionKind)
    requires
        !(a is Other),
        !(b is Other),
        action_kind_wire(a) == action_kind_wire(b),
    ensures
        a == b,
{
    reveal_strlit("quickfix");
    reveal_strlit("refactor");
    reveal_strlit("refactor.extract");
    reveal_strlit("refactor.inline");
    reveal_strlit("refactor.rewrite");
    reveal_strlit("source");
    if a != b {
        let x = action_kind_wire(a);
        let y = action_kind_wire(b);
        assert(x.len() != y.len() || x[0] != y[0] || x[9] != y[9] || x[8] != y[8]);
    }
}

// ── Code lenses, semantic tokens, call and type hierarchies ─────────────────

/// The code lenses on one line.
#[derive(Debug)]
pub struct CodeLensItem {
    pub line: usize,
    pub entries: Vec<CodeLensEntry>,
}

/// One code lens: its command and the server's data for resolving it.
#[derive(Debug)]
pub struct CodeLensEntry {
    pub title: String,
    pub command: String,
    pub arguments: JsonValue,
    pub data: Option<JsonValue>,
    pub range: Option<LspRange>,
}

/// An opaque RGB colour.
#[derive(Debug, Clone, Copy, PartialEq, Eq, Structural)]
pub struct Rgb {
    pub r: u8,
    pub g: u8,
    pub b: u8,
}

/// One semantic token with the style the editor draws it in (a colour,
/// italic, underline).
#[derive(Debug, Clone, PartialEq, Eq)]
pub struct SemanticToken {
    pub line: u32,
    pub col: u32,
    pub length: u32,
    pub token_type: String,
    pub modifiers: SemanticModifiers,
    pub color: Rgb,
    pub italic: bool,
    pub underline: bool,
}

/// An item of a call hierarchy, as the server sent it.
#[derive(Debug)]
pub struct CallHierarchyItem {
    pub name: String,
    pub kind: u64,
    pub detail: Option<String>,
    pub uri: String,
    pub range: LspRange,
    pub selection_range: LspRange,
    pub data: Option<JsonValue>,
}

/// A caller of a call hierarchy item.
#[derive(Debug)]
pub struct IncomingCall {
    pub from: CallHierarchyItem,
    pub from_ranges: Vec<LspRange>,
}

/// A callee of a call hierarchy item.
#[derive(Debug)]
pub struct OutgoingCall {
    pub to: CallHierarchyItem,
    pub from_ranges: Vec<LspRange>,
}

/// An item of a type hierarchy, as the server sent it.
#[derive(Debug)]
pub struct TypeHierarchyItem {
    pub name: String,
    pub kind: u64,
    pub detail: Option<String>,
    pub uri: String,
    pub range: LspRange,
    pub selection_range: LspRange,
    pub data: Option<JsonValue>,
}

// ── Requests and responses ───────────────────────────────────────────────────

/// What the editor asks of the language server. Positions are zero-based,
/// columns in UTF-16 units; each `id` is the caller's correlation id, which
/// the matching response carries back.
#[derive(Debug)]
pub enum LspRequest {
    Initialize { root_uri: String },
    DidOpen { path: String, language_id: String, text: String, version: i32 },
    DidChange { path: String, text: String, version: i32 },
    DidClose { path: String },
    Completion { path: String, line: u32, col: u32, id: u64 },
    Hover { path: String, line: u32, col: u32, id: u64 },
    GotoDefinition { path: String, line: u32, col: u32, id: u64 },
    References { path: String, line: u32, col: u32, id: u64 },
    PrepareRename { path: String, line: u32, col: u32, id: u64 },
    Rename { path: String, line: u32, col: u32, new_name: String, id: u64 },
    DocumentSymbol { path: String, id: u64 },
    InlayHint { path: String, start_line: u32, end_line: u32, id: u64 },
    Format { path: String, tab_size: u32, insert_spaces: bool, id: u64 },
    RangeFormat {
        path: String,
        tab_size: u32,
        insert_spaces: bool,
        range: (u32, u32, u32, u32),
        id: u64,
    },
    SignatureHelp { path: String, line: u32, col: u32, id: u64 },
    WorkspaceSymbol { query: String, id: u64 },
    CodeAction {
        path: String,
        range: (u32, u32, u32, u32),
        diagnostics: Vec<LspDiagnostic>,
        id: u64,
    },
    CodeLens { path: String, id: u64 },
    CodeLensResolve { item: CodeLensItem, id: u64 },
    SemanticTokensFull { path: String, id: u64 },
    SemanticTokensRange { path: String, start_line: u32, end_line: u32, id: u64 },
    PrepareCallHierarchy { path: String, line: u32, col: u32, id: u64 },
    IncomingCalls { item: CallHierarchyItem, id: u64 },
    OutgoingCalls { item: CallHierarchyItem, id: u64 },
    PrepareTypeHierarchy { path: String, line: u32, col: u32, id: u64 },
    Supertypes { item: TypeHierarchyItem, id: u64 },
    Subtypes { item: TypeHierarchyItem, id: u64 },
    ExecuteCommand { command: String, args: JsonValue, id: u64 },
    Shutdown,
}

/// What the transport hands back to the editor. Each `id` is the caller's
/// correlation id from the request answered.
#[derive(Debug)]
pub enum LspResponse {
    Initialized { token_types: Vec<String> },
    Diagnostics { path: String, diagnostics: Vec<LspDiagnostic> },
    CompletionList { id: u64, items: Vec<LspCompletionItem> },
    HoverResult { id: u64, content: String },
    GotoResult { id: u64, path: String, line: u32, col: u32 },
    GotoNone { id: u64 },
    ReferencesResult { id: u64, locations: Vec<ReferenceLocation> },
    PrepareRenameResult { id: u64, range: Option<(u32, u32, u32, u32)> },
    RenameResult { id: u64, edits: Vec<FileEdit> },
    SymbolList { id: u64, path: String, symbols: Vec<OutlineNode> },
    InlayHintResult { id: u64, hints: Vec<LspInlayHint> },
    FormatResult { id: u64, edits: Vec<TextEdit> },
    SignatureHelpResult { id: u64, active: Option<SignatureInfo> },
    WorkspaceSymbolResult { id: u64, symbols: Vec<WorkspaceSymbol> },
    CodeActionResult { id: u64, actions: Vec<CodeAction> },
    CodeLensResult { id: u64, lenses: Vec<CodeLensItem> },
    SemanticTokensResult { id: u64, tokens: Vec<SemanticToken> },
    CallHierarchyPrepareResult { id: u64, items: Vec<CallHierarchyItem> },
    IncomingCallsResult { id: u64, calls: Vec<IncomingCall> },
    OutgoingCallsResult { id: u64, calls: Vec<OutgoingCall> },
    TypeHierarchyPrepareResult { id: u64, items: Vec<TypeHierarchyItem> },
    SupertypesResult { id: u64, items: Vec<TypeHierarchyItem> },
    SubtypesResult { id: u64, items: Vec<TypeHierarchyItem> },
    Progress {
        token: String,
        kind: ProgressKind,
        title: String,
        message: Option<String>,
        percentage: Option<u32>,
    },
    ServerMessage { level: MessageLevel, message: String },
    Error { id: u64, message: String },
    ServerUnavailable { message: String },
}

// ── Abstract views of the wire results ───────────────────────────────────────

/// A text edit: start line and column, end line and column, new text.
pub type EditView = (u32, u32, u32, u32, Seq<char>);

impl DeepView for TextEdit {
    type V = EditView;

    open spec fn deep_view(&self) -> EditView {
        (self.line_start, self.col_start, self.line_end, self.col_end, self.new_text@)
    }
}

impl DeepView for LspTextEdit {
    type V = EditView;

    open spec fn deep_view(&self) -> EditView {
        (self.line_start, self.col_start, self.line_end, self.col_end, self.new_text@)
    }
}

/// A diagnostic: range, severity, message, code.
pub type DiagnosticView = (u32, u32, u32, u32, DiagnosticSeverity, Seq<char>, Option<Seq<char>>);

impl DeepView for LspDiagnostic {
    type V = DiagnosticView;

    open spec fn deep_view(&self) -> DiagnosticView {
        (
            self.line_start,
            self.col_start,
            self.line_end,
            self.col_end,
            self.severity,
            self.message@,
            self.code.deep_view(),
        )
    }
}

/// A reference: file path, range, line preview.
pub type ReferenceView = (Seq<char>, u32, u32, u32, u32, Option<Seq<char>>);

impl DeepView for ReferenceLocation {
    type V = ReferenceView;

    open spec fn deep_view(&self) -> ReferenceView {
        (
            self.path@,
            self.line_start,
            self.col_start,
            self.line_end,
            self.col_end,
            self.line_text.deep_view(),
        )
    }
}

/// One file's edits: path and edits.
pub type FileEditView = (Seq<char>, Seq<EditView>);

impl DeepView for FileEdit {
    type V = FileEditView;

    open spec fn deep_view(&self) -> FileEditView {
        (self.path@, self.edits.deep_view())
    }
}

/// A completion item: label, kind, detail, insert text, text edit, filter
/// text.
pub type CompletionView = (
    Seq<char>,
    Option<Seq<char>>,
    Option<Seq<char>>,
    Option<Seq<char>>,
    Option<EditView>,
    Option<Seq<char>>,
);

impl DeepView for LspCompletionItem {
    type V = CompletionView;

    open spec fn deep_view(&self) -> CompletionView {
        (
            self.label@,
            self.kind.deep_view(),
            self.detail.deep_view(),
            self.insert_text.deep_view(),
            self.text_edit.deep_view(),
            self.filter_text.deep_view(),
        )
    }
}

/// A tooltip: whether it is Markdown, and its text.
pub type TooltipView = (bool, Seq<char>);

impl DeepView for InlayHintTooltip {
    type V = TooltipView;

    open spec fn deep_view(&self) -> TooltipView {
        match self {
            InlayHintTooltip::PlainText(s) => (false, s@),
            InlayHintTooltip::Markdown(s) => (true, s@),
        }
    }
}

/// A label part: text and tooltip.
pub type LabelPartView = (Seq<char>, Option<TooltipView>);

impl DeepView for InlayHintLabelPart {
    type V = LabelPartView;

    open spec fn deep_view(&self) -> LabelPartView {
        (self.value@, self.tooltip.deep_view())
    }
}

/// An inlay hint: position, label parts, kind, tooltip, paddings.
pub type InlayHintView = (LspPosition, Seq<LabelPartView>, InlayHintKind, Option<TooltipView>, bool, bool);

impl DeepView for LspInlayHint {
    type V = InlayHintView;

    open spec fn deep_view(&self) -> InlayHintView {
        (
            self.position,
            self.label.deep_view(),
            self.kind,
            self.tooltip.deep_view(),
            self.padding_left,
            self.padding_right,
        )
    }
}

/// A parameter: label and documentation.
pub type ParameterView = (Seq<char>, Option<Seq<char>>);

impl DeepView for ParameterInfo {
    type V = ParameterView;

    open spec fn deep_view(&self) -> ParameterView {
        (self.label@, self.documentation.deep_view())
    }
}

/// A signature: label, documentation, parameters, active parameter.
pub type SignatureView = (Seq<char>, Option<Seq<char>>, Seq<ParameterView>, Option<usize>);

impl DeepView for SignatureInfo {
    type V = SignatureView;

    open spec fn deep_view(&self) -> SignatureView {
        (self.label@, self.documentation.deep_view(), self.parameters.deep_view(), self.active_parameter)
    }
}

/// A workspace symbol: name, kind, path, line, column, container.
pub type WorkspaceSymbolView = (Seq<char>, SymbolKind, Seq<char>, u32, u32, Option<Seq<char>>);

impl DeepView for WorkspaceSymbol {
    type V = WorkspaceSymbolView;

    open spec fn deep_view(&self) -> WorkspaceSymbolView {
        (self.name@, self.kind, self.path@, self.line, self.col, self.container.deep_view())
    }
}

impl DeepView for CodeActionKind {
    type V = Seq<char>;

    open spec fn deep_view(&self) -> Seq<char> {
        action_kind_wire(*self)
    }
}

/// A code action: title, kind (its wire name), edits, preferred.
pub type CodeActionView = (Seq<char>, Option<Seq<char>>, Seq<FileEditView>, bool);

impl DeepView for CodeAction {
    type V = CodeActionView;

    open spec fn deep_view(&self) -> CodeActionView {
        (self.title@, self.kind.deep_view(), self.edits.deep_view(), self.is_preferred)
    }
}

/// A code lens entry: title, command, arguments, data, range.
pub type LensEntryView = (Seq<char>, Seq<char>, crate::lsp::json::Json, Option<crate::lsp::json::Json>, Option<LspRange>);

impl DeepView for CodeLensEntry {
    type V = LensEntryView;

    open spec fn deep_view(&self) -> LensEntryView {
        (self.title@, self.command@, self.arguments.model(), self.data.deep_view(), self.range)
    }
}

/// The code lenses of a line.
pub type LensItemView = (usize, Seq<LensEntryView>);

impl DeepView for CodeLensItem {
    type V = LensItemView;

    open spec fn deep_view(&self) -> LensItemView {
        (self.line, self.entries.deep_view())
    }
}

/// A hierarchy item: name, kind, detail, URI, range, selection range, data.
pub type HierarchyItemView = (
    Seq<char>,
    u64,
    Option<Seq<char>>,
    Seq<char>,
    LspRange,
    LspRange,
    Option<crate::lsp::json::Json>,
);

impl DeepView for CallHierarchyItem {
    type V = HierarchyItemView;

    open spec fn deep_view(&self) -> HierarchyItemView {
        (
            self.name@,
            self.kind,
            self.detail.deep_view(),
            self.uri@,
            self.range,
            self.selection_range,
            self.data.deep_view(),
        )
    }
}

impl DeepView for TypeHierarchyItem {
    type V = HierarchyItemView;

    open spec fn deep_view(&self) -> HierarchyItemView {
        (
            self.name@,
            self.kind,
            self.detail.deep_view(),
            self.uri@,
            self.range,
            self.selection_range,
            self.data.deep_view(),
        )
    }
}

/// A call: the item at the other end and the ranges of the calls.
pub type CallView = (HierarchyItemView, Seq<LspRange>);

impl DeepView for IncomingCall {
    type V = CallView;

    open spec fn deep_view(&self) -> CallView {
        (self.from.deep_view(), self.from_ranges@)
    }
}

impl DeepView for OutgoingCall {
    type V = CallView;

    open spec fn deep_view(&self) -> CallView {
        (self.to.deep_view(), self.from_ranges@)
    }
}

/// A semantic token: line, column, length, type, modifiers, colour,
/// italic, underline.
pub type TokenView = (u32, u32, u32, Seq<char>, SemanticModifiers, Rgb, bool, bool);

impl DeepView for SemanticToken {
    type V = TokenView;

    open spec fn deep_view(&self) -> TokenView {
        (
            self.line,
            self.col,
            self.length,
            self.token_type@,
            self.modifiers,
            self.color,
            self.italic,
            self.underline,
        )
    }
}

impl SemanticModifiers {
    /// No modifier set.
    pub fn none() -> (r: Self)
        ensures
            r == semantic_modifiers_none(),
    {
        SemanticModifiers {
            declaration: false,
            definition: false,
            readonly: false,
            is_static: false,
            deprecated: false,
            is_abstract: false,
            is_async: false,
            modification: false,
            documentation: false,
            default_library: false,
        }
    }
}

/// No modifier set.
pub open spec fn semantic_modifiers_none() -> SemanticModifiers {
    SemanticModifiers {
        declaration: false,
        definition: false,
        readonly: false,
        is_static: false,
        deprecated: false,
        is_abstract: false,
        is_async: false,
        modification: false,
        documentation: false,
        default_library: false,
    }
}

impl DeepView for ProgressKind {
    type V = ProgressKind;

    open spec fn deep_view(&self) -> ProgressKind {
        *self
    }
}

impl DeepView for MessageLevel {
    type V = MessageLevel;

    open spec fn deep_view(&self) -> MessageLevel {
        *self
    }
}

} // verus!
