//! Normalisation of language server results: each wire shape the protocol
//! allows is read into the editor's types. Every reader is total: what does
//! not fit the expected shape is skipped or read as nothing.

use vstd::prelude::*;
use crate::lsp::json::{
    as_array, as_i64, as_object, as_str, as_u64, get, lemma_member_models, lemma_models,
    member_models, models, opt_model, Json, JsonValue,
};
use vstd::utf8::{decode_utf8, encode_utf8, is_char_boundary, valid_utf8};
use crate::editor::position::LspPosition;
use crate::lsp::json::as_bool;
use crate::lsp::json::lookup_from;
use crate::lsp::json::{get_opt, NumberModel};
use crate::lsp::encode::{request_json, severity_number};
use crate::lsp::types::LspRequest;
use crate::lsp::transport::utf8_text;
use crate::lsp::types::{
    CodeAction, CodeActionKind, CodeActionView, CompletionView, DiagnosticSeverity,
    DiagnosticView, EditView, FileEdit, FileEditView, InlayHintKind, InlayHintLabelPart,
    InlayHintTooltip, InlayHintView, LabelPartView, LspCompletionItem, LspDiagnostic,
    LspInlayHint, LspTextEdit, ParameterInfo, ParameterView, ReferenceLocation, ReferenceView,
    SignatureInfo, SignatureView, SymbolKind, TextEdit, TooltipView, WorkspaceSymbol,
    WorkspaceSymbolView,
};
use crate::lsp::types::{MessageLevel, ProgressKind};
use crate::text::{decimal, fmt_u64, owned, push_char, push_str, str_chars, str_eq};

verus! {

// ─── Sequences and file URIs ────────────────────────────────────────────────

/// The results of `f` on the elements of `s` that give one, in order.
pub open spec fn filter_map<A, B>(s: Seq<A>, f: spec_fn(A) -> Option<B>) -> Seq<B>
    decreases s.len(),
{
    if s.len() == 0 {
        Seq::empty()
    } else {
        let prev = filter_map(s.drop_last(), f);
        match f(s.last()) {
            Some(b) => prev.push(b),
            None => prev,
        }
    }
}

/// One more element of `s` through `filter_map`.
pub proof fn lemma_filter_map_step<A, B>(s: Seq<A>, i: int, f: spec_fn(A) -> Option<B>)
    requires
        0 <= i < s.len(),
    ensures
        filter_map(s.take(i + 1), f) == match f(s[i]) {
            Some(b) => filter_map(s.take(i), f).push(b),
            None => filter_map(s.take(i), f),
        },
{
    assert(s.take(i + 1).drop_last() == s.take(i));
    assert(s.take(i + 1).last() == s[i]);
}

/// The file path a `file:` URI names (`lsp_types::Url::parse` then
/// `Url::to_file_path`), if it names one.
pub uninterp spec fn file_path_of_uri(uri: Seq<char>) -> Option<Seq<char>>;

/// `lsp_types::Url::parse` followed by `Url::to_file_path`: the file path a
/// URI names. The contract names the result by `file_path_of_uri` and states
/// nothing else of it (percent-decoding and the URL grammar are the `url`
/// crate's). A path that is not UTF-8 is converted lossily.
#[verifier::external_body]
pub fn uri_to_file_path(uri: &str) -> (r: Option<String>)
    ensures
        r.deep_view() == file_path_of_uri(uri@),
{
    match lsp_types::Url::parse(uri) {
        Ok(url) => url.to_file_path().ok().map(|p| p.to_string_lossy().into_owned()),
        Err(_) => None,
    }
}

// ─── Numbers, positions, ranges ─────────────────────────────────────────────

/// Member `key` read as a `u32` (`u32::try_from(v.as_u64()?)`).
pub open spec fn u32_field(j: Json, key: Seq<char>) -> Option<u32> {
    match get(j, key) {
        Some(v) => match as_u64(v) {
            Some(n) => if n <= u32::MAX { Some(n as u32) } else { None },
            None => None,
        },
        None => None,
    }
}

/// `(line, character)` of an LSP position object.
pub open spec fn position_of(j: Json) -> Option<(u32, u32)> {
    match (u32_field(j, "line"@), u32_field(j, "character"@)) {
        (Some(l), Some(c)) => Some((l, c)),
        _ => None,
    }
}

/// The four coordinates of an LSP range object.
pub open spec fn range_of(j: Json) -> Option<(u32, u32, u32, u32)> {
    match (get(j, "start"@), get(j, "end"@)) {
        (Some(s), Some(e)) => match (position_of(s), position_of(e)) {
            (Some(a), Some(b)) => Some((a.0, a.1, b.0, b.1)),
            _ => None,
        },
        _ => None,
    }
}

/// Member `key` of `j` read as a `u32`.
pub fn u32_member(j: &JsonValue, key: &str) -> (r: Option<u32>)
    ensures
        r == u32_field(j.model(), key@),
{
    match j.get(key) {
        Some(v) => match v.as_u64() {
            Some(n) => if n <= 4294967295u64 { Some(n as u32) } else { None },
            None => None,
        },
        None => None,
    }
}

/// An LSP position object, as `position_of`.
pub fn read_position(j: &JsonValue) -> (r: Option<(u32, u32)>)
    ensures
        r == position_of(j.model()),
{
    let l = u32_member(j, "line");
    let c = u32_member(j, "character");
    match (l, c) {
        (Some(l), Some(c)) => Some((l, c)),
        _ => None,
    }
}

/// An LSP range object, as `range_of`.
pub fn read_range(j: &JsonValue) -> (r: Option<(u32, u32, u32, u32)>)
    ensures
        r == range_of(j.model()),
{
    match (j.get("start"), j.get("end")) {
        (Some(s), Some(e)) => match (read_position(s), read_position(e)) {
            (Some(a), Some(b)) => Some((a.0, a.1, b.0, b.1)),
            _ => None,
        },
        _ => None,
    }
}

// ─── Strings ────────────────────────────────────────────────────────────────

/// The decimal text of an `i64`.
pub open spec fn int_text(n: i64) -> Seq<char> {
    if n < 0 {
        seq!['-'] + decimal((-(n as int)) as nat)
    } else {
        decimal(n as nat)
    }
}

/// The decimal text of an `i64` (`i64::to_string`).
pub fn fmt_i64(n: i64) -> (r: String)
    ensures
        r@ == int_text(n),
{
    if n < 0 {
        let m: u64 = (0i128 - (n as i128)) as u64;
        let mut s = String::new();
        push_str(&mut s, "-");
        let digits = fmt_u64(m);
        push_str(&mut s, digits.as_str());
        proof {
            reveal_strlit("-");
        }
        s
    } else {
        fmt_u64(n as u64)
    }
}

/// A string, or an integer written in decimal (diagnostic codes may be
/// either).
pub open spec fn string_or_int(j: Json) -> Option<Seq<char>> {
    match as_str(j) {
        Some(s) => Some(s),
        None => match as_i64(j) {
            Some(n) => Some(int_text(n)),
            None => None,
        },
    }
}

/// A string or an integer as text, as `string_or_int`.
pub fn value_to_string(value: &JsonValue) -> (r: Option<String>)
    ensures
        r.deep_view() == string_or_int(value.model()),
{
    match value.as_str() {
        Some(s) => Some(s.clone()),
        None => match value.as_i64() {
            Some(n) => Some(fmt_i64(n)),
            None => None,
        },
    }
}

/// Member `key` read as a string.
pub open spec fn str_field(j: Json, key: Seq<char>) -> Option<Seq<char>> {
    match get(j, key) {
        Some(v) => as_str(v),
        None => None,
    }
}

/// Member `key` of `j` read as a string, as `str_field`.
pub fn str_member(j: &JsonValue, key: &str) -> (r: Option<String>)
    ensures
        r.deep_view() == str_field(j.model(), key@),
{
    match j.get(key) {
        Some(v) => match v.as_str() {
            Some(s) => Some(s.clone()),
            None => None,
        },
        None => None,
    }
}

// ─── Text edits ─────────────────────────────────────────────────────────────

/// A wire `TextEdit`: a range and `newText`.
pub open spec fn text_edit_of(j: Json) -> Option<EditView> {
    match (get(j, "range"@), str_field(j, "newText"@)) {
        (Some(r), Some(t)) => match range_of(r) {
            Some(x) => Some((x.0, x.1, x.2, x.3, t)),
            None => None,
        },
        _ => None,
    }
}

/// One wire `TextEdit`, as `text_edit_of`.
pub fn parse_single_text_edit(value: &JsonValue) -> (r: Option<TextEdit>)
    ensures
        r.deep_view() == text_edit_of(value.model()),
{
    let range = match value.get("range") {
        Some(r) => r,
        None => return None,
    };
    let new_text = match str_member(value, "newText") {
        Some(t) => t,
        None => return None,
    };
    match read_range(range) {
        Some(x) => Some(
            TextEdit { line_start: x.0, col_start: x.1, line_end: x.2, col_end: x.3, new_text },
        ),
        None => None,
    }
}

/// The well-formed edits among `a`, in order.
pub open spec fn edit_array_of(a: Seq<Json>) -> Seq<EditView> {
    filter_map(a, |e: Json| text_edit_of(e))
}

/// The well-formed edits of an array, in order; nothing when `j` is not an
/// array.
pub open spec fn text_edits_of(j: Json) -> Option<Seq<EditView>> {
    match as_array(j) {
        Some(a) => Some(edit_array_of(a)),
        None => None,
    }
}

/// The well-formed `TextEdit`s of an array, as `text_edits_of`.
pub fn parse_text_edits(value: &JsonValue) -> (r: Option<Vec<TextEdit>>)
    ensures
        r.deep_view() == text_edits_of(value.model()),
{
    let array = match value.as_array() {
        Some(a) => a,
        None => return None,
    };
    Some(parse_edit_array(array))
}

/// The well-formed `TextEdit`s among the elements, in order.
pub fn parse_edit_array(array: &Vec<JsonValue>) -> (r: Vec<TextEdit>)
    ensures
        r.deep_view() == edit_array_of(models(array@)),
{
    let ghost a = models(array@);
    let ghost f = |e: Json| text_edit_of(e);
    proof {
        lemma_models(array@);
    }
    let mut edits: Vec<TextEdit> = Vec::new();
    let mut i: usize = 0;
    while i < array.len()
        invariant
            a == models(array@),
            a.len() == array@.len(),
            forall|k: int| 0 <= k < array@.len() ==> #[trigger] a[k] == array@[k].model(),
            f == (|e: Json| text_edit_of(e)),
            i <= array.len(),
            edits.deep_view() == filter_map(a.take(i as int), f),
        decreases array.len() - i,
    {
        proof {
            lemma_filter_map_step(a, i as int, f);
        }
        let ghost before = edits.deep_view();
        match parse_single_text_edit(&array[i]) {
            Some(e) => {
                edits.push(e);
                assert(edits.deep_view() =~= before.push(text_edit_of(a[i as int]).unwrap()));
            },
            None => {},
        }
        i = i + 1;
    }
    assert(a.take(array.len() as int) == a);
    edits
}

// ─── Diagnostics ────────────────────────────────────────────────────────────

/// Wire severities: 1 error, 2 warning, 4 hint; anything else, or none,
/// information.
pub open spec fn severity_of(j: Option<Json>) -> DiagnosticSeverity {
    match j {
        Some(v) => match as_u64(v) {
            Some(1) => DiagnosticSeverity::Error,
            Some(2) => DiagnosticSeverity::Warning,
            Some(4) => DiagnosticSeverity::Hint,
            _ => DiagnosticSeverity::Information,
        },
        None => DiagnosticSeverity::Information,
    }
}

/// One wire diagnostic: a range, a message, a severity and an optional
/// code (string or integer).
pub open spec fn diagnostic_of(d: Json) -> Option<DiagnosticView> {
    match (get(d, "range"@), str_field(d, "message"@)) {
        (Some(r), Some(m)) => match range_of(r) {
            Some(x) => Some(
                (
                    x.0,
                    x.1,
                    x.2,
                    x.3,
                    severity_of(get(d, "severity"@)),
                    m,
                    match get(d, "code"@) {
                        Some(c) => string_or_int(c),
                        None => None,
                    },
                ),
            ),
            None => None,
        },
        _ => None,
    }
}

/// One wire diagnostic, as `diagnostic_of`.
pub fn parse_diagnostic(d: &JsonValue) -> (r: Option<LspDiagnostic>)
    ensures
        r.deep_view() == diagnostic_of(d.model()),
{
    let range = match d.get("range") {
        Some(r) => r,
        None => return None,
    };
    let message = match str_member(d, "message") {
        Some(m) => m,
        None => return None,
    };
    let x = match read_range(range) {
        Some(x) => x,
        None => return None,
    };
    let severity = match d.get("severity") {
        Some(v) => match v.as_u64() {
            Some(1) => DiagnosticSeverity::Error,
            Some(2) => DiagnosticSeverity::Warning,
            Some(4) => DiagnosticSeverity::Hint,
            _ => DiagnosticSeverity::Information,
        },
        None => DiagnosticSeverity::Information,
    };
    let code = match d.get("code") {
        Some(c) => value_to_string(c),
        None => None,
    };
    Some(
        LspDiagnostic {
            line_start: x.0,
            col_start: x.1,
            line_end: x.2,
            col_end: x.3,
            severity,
            message,
            code,
        },
    )
}

/// A `textDocument/publishDiagnostics` notification: the file its URI
/// names and its well-formed diagnostics, in order.
pub open spec fn diagnostics_of(value: Json) -> Option<(Seq<char>, Seq<DiagnosticView>)> {
    match get(value, "params"@) {
        Some(params) => match (str_field(params, "uri"@), get(params, "diagnostics"@)) {
            (Some(uri), Some(ds)) => match (file_path_of_uri(uri), as_array(ds)) {
                (Some(path), Some(a)) => Some((path, filter_map(a, |d: Json| diagnostic_of(d)))),
                _ => None,
            },
            _ => None,
        },
        None => None,
    }
}

/// A diagnostics notification, as `diagnostics_of`.
pub fn parse_diagnostics(value: &JsonValue) -> (r: Option<(String, Vec<LspDiagnostic>)>)
    ensures
        r.deep_view() == diagnostics_of(value.model()),
{
    let params = match value.get("params") {
        Some(p) => p,
        None => return None,
    };
    let uri = match str_member(params, "uri") {
        Some(u) => u,
        None => return None,
    };
    let ds = match params.get("diagnostics") {
        Some(d) => d,
        None => return None,
    };
    let path = match uri_to_file_path(uri.as_str()) {
        Some(p) => p,
        None => return None,
    };
    let array = match ds.as_array() {
        Some(a) => a,
        None => return None,
    };
    let ghost a = models(array@);
    let ghost f = |d: Json| diagnostic_of(d);
    proof {
        lemma_models(array@);
    }
    let mut diagnostics: Vec<LspDiagnostic> = Vec::new();
    let mut i: usize = 0;
    while i < array.len()
        invariant
            a == models(array@),
            a.len() == array@.len(),
            forall|k: int| 0 <= k < array@.len() ==> #[trigger] a[k] == array@[k].model(),
            f == (|d: Json| diagnostic_of(d)),
            i <= array.len(),
            diagnostics.deep_view() == filter_map(a.take(i as int), f),
        decreases array.len() - i,
    {
        proof {
            lemma_filter_map_step(a, i as int, f);
        }
        let ghost before = diagnostics.deep_view();
        match parse_diagnostic(&array[i]) {
            Some(d) => {
                diagnostics.push(d);
                assert(diagnostics.deep_view() =~= before.push(diagnostic_of(a[i as int]).unwrap()));
            },
            None => {},
        }
        i = i + 1;
    }
    assert(a.take(array.len() as int) == a);
    Some((path, diagnostics))
}

// ─── References, rename, goto ───────────────────────────────────────────────

/// One wire `Location`: the file its URI names and its range.
pub open spec fn reference_of(loc: Json) -> Option<ReferenceView> {
    match (str_field(loc, "uri"@), get(loc, "range"@)) {
        (Some(uri), Some(r)) => match (range_of(r), file_path_of_uri(uri)) {
            (Some(x), Some(path)) => Some((path, x.0, x.1, x.2, x.3, None)),
            _ => None,
        },
        _ => None,
    }
}

/// One wire `Location`, as `reference_of`.
pub fn parse_reference_location(location: &JsonValue) -> (r: Option<ReferenceLocation>)
    ensures
        r.deep_view() == reference_of(location.model()),
{
    let uri = match str_member(location, "uri") {
        Some(u) => u,
        None => return None,
    };
    let range = match location.get("range") {
        Some(r) => r,
        None => return None,
    };
    let x = match read_range(range) {
        Some(x) => x,
        None => return None,
    };
    match uri_to_file_path(uri.as_str()) {
        Some(path) => Some(
            ReferenceLocation {
                path,
                line_start: x.0,
                col_start: x.1,
                line_end: x.2,
                col_end: x.3,
                line_text: None,
            },
        ),
        None => None,
    }
}

/// A `textDocument/references` result: the well-formed locations of an
/// array, in order; none for anything else.
pub open spec fn references_of(result: Json) -> Seq<ReferenceView> {
    match as_array(result) {
        Some(a) => filter_map(a, |l: Json| reference_of(l)),
        None => Seq::empty(),
    }
}

/// A references result, as `references_of`.
pub fn parse_references(result: &JsonValue) -> (r: Vec<ReferenceLocation>)
    ensures
        r.deep_view() == references_of(result.model()),
{
    let mut locations: Vec<ReferenceLocation> = Vec::new();
    let array = match result.as_array() {
        Some(a) => a,
        None => return locations,
    };
    let ghost a = models(array@);
    let ghost f = |l: Json| reference_of(l);
    proof {
        lemma_models(array@);
    }
    let mut i: usize = 0;
    while i < array.len()
        invariant
            a == models(array@),
            a.len() == array@.len(),
            forall|k: int| 0 <= k < array@.len() ==> #[trigger] a[k] == array@[k].model(),
            f == (|l: Json| reference_of(l)),
            i <= array.len(),
            locations.deep_view() == filter_map(a.take(i as int), f),
        decreases array.len() - i,
    {
        proof {
            lemma_filter_map_step(a, i as int, f);
        }
        let ghost before = locations.deep_view();
        match parse_reference_location(&array[i]) {
            Some(l) => {
                locations.push(l);
                assert(locations.deep_view() =~= before.push(reference_of(a[i as int]).unwrap()));
            },
            None => {},
        }
        i = i + 1;
    }
    assert(a.take(array.len() as int) == a);
    locations
}

/// A `textDocument/prepareRename` result: the range of its `range` member,
/// or of the result itself; nothing for `null`.
pub open spec fn prepare_rename_of(result: Json) -> Option<(u32, u32, u32, u32)> {
    if result is Null {
        None
    } else {
        match get(result, "range"@) {
            Some(r) => range_of(r),
            None => range_of(result),
        }
    }
}

/// A prepare-rename result, as `prepare_rename_of`.
pub fn parse_prepare_rename(result: &JsonValue) -> (r: Option<(u32, u32, u32, u32)>)
    ensures
        r == prepare_rename_of(result.model()),
{
    if result.is_null() {
        return None;
    }
    match result.get("range") {
        Some(range) => read_range(range),
        None => read_range(result),
    }
}

/// A `textDocument/definition` result: the first location of an array, or
/// the result itself (a `Location` or `LocationLink`): the file of its URI
/// (`uri`, else `targetUri`) and the start of its range
/// (`targetSelectionRange`, else `targetRange`, else `range`).
pub open spec fn goto_of(result: Json) -> Option<(Seq<char>, u32, u32)> {
    if result is Null {
        None
    } else {
        let location = match as_array(result) {
            Some(a) => if a.len() > 0 { a[0] } else { result },
            None => result,
        };
        if location is Null {
            None
        } else {
            let uri = match get(location, "uri"@) {
                Some(u) => Some(u),
                None => get(location, "targetUri"@),
            };
            let range = match get(location, "targetSelectionRange"@) {
                Some(r) => Some(r),
                None => match get(location, "targetRange"@) {
                    Some(r) => Some(r),
                    None => get(location, "range"@),
                },
            };
            match (uri, range) {
                (Some(u), Some(r)) => match (as_str(u), get(r, "start"@)) {
                    (Some(text), Some(start)) => match (file_path_of_uri(text), position_of(start)) {
                        (Some(path), Some(p)) => Some((path, p.0, p.1)),
                        _ => None,
                    },
                    _ => None,
                },
                _ => None,
            }
        }
    }
}

/// A definition result, as `goto_of`.
pub fn parse_goto_result(result: &JsonValue) -> (r: Option<(String, u32, u32)>)
    ensures
        r.deep_view() == goto_of(result.model()),
{
    if result.is_null() {
        return None;
    }
    let mut location = result;
    match result.as_array() {
        Some(a) => {
            proof {
                lemma_models(a@);
            }
            if a.len() > 0 {
                location = &a[0];
            }
        },
        None => {},
    }
    if location.is_null() {
        return None;
    }
    let uri = match location.get("uri") {
        Some(u) => u,
        None => match location.get("targetUri") {
            Some(u) => u,
            None => return None,
        },
    };
    let uri_text = match uri.as_str() {
        Some(t) => t,
        None => return None,
    };
    let range = match location.get("targetSelectionRange") {
        Some(r) => r,
        None => match location.get("targetRange") {
            Some(r) => r,
            None => match location.get("range") {
                Some(r) => r,
                None => return None,
            },
        },
    };
    let start = match range.get("start") {
        Some(s) => s,
        None => return None,
    };
    let path = match uri_to_file_path(uri_text.as_str()) {
        Some(p) => p,
        None => return None,
    };
    match read_position(start) {
        Some(p) => Some((path, p.0, p.1)),
        None => None,
    }
}

/// One member of a workspace edit's `changes`: the file of its URI and its
/// edits, when both are well-formed.
pub open spec fn file_changes_of(m: (Seq<char>, Json)) -> Option<FileEditView> {
    match (file_path_of_uri(m.0), text_edits_of(m.1)) {
        (Some(path), Some(edits)) => Some((path, edits)),
        _ => None,
    }
}

/// A `textDocument/rename` result (a `WorkspaceEdit`): its `changes`
/// object, member by member; nothing unless `changes` is an object.
pub open spec fn rename_edits_of(result: Json) -> Seq<FileEditView> {
    match get(result, "changes"@) {
        Some(c) => match as_object(c) {
            Some(m) => filter_map(m, |x: (Seq<char>, Json)| file_changes_of(x)),
            None => Seq::empty(),
        },
        None => Seq::empty(),
    }
}

/// A rename result, as `rename_edits_of`.
pub fn parse_rename_edits(result: &JsonValue) -> (r: Vec<FileEdit>)
    ensures
        r.deep_view() == rename_edits_of(result.model()),
{
    let mut file_edits: Vec<FileEdit> = Vec::new();
    let changes = match result.get("changes") {
        Some(c) => match c.as_object() {
            Some(m) => m,
            None => return file_edits,
        },
        None => return file_edits,
    };
    let ghost a = member_models(changes@);
    let ghost f = |x: (Seq<char>, Json)| file_changes_of(x);
    proof {
        lemma_member_models(changes@);
    }
    let mut i: usize = 0;
    while i < changes.len()
        invariant
            a == member_models(changes@),
            a.len() == changes@.len(),
            forall|k: int| 0 <= k < changes@.len() ==> #[trigger] a[k] == (changes@[k].0@, changes@[k].1.model()),
            f == (|x: (Seq<char>, Json)| file_changes_of(x)),
            i <= changes.len(),
            file_edits.deep_view() == filter_map(a.take(i as int), f),
        decreases changes.len() - i,
    {
        proof {
            lemma_filter_map_step(a, i as int, f);
        }
        let ghost before = file_edits.deep_view();
        let (uri, edits_value) = (&changes[i].0, &changes[i].1);
        match uri_to_file_path(uri.as_str()) {
            Some(path) => match parse_text_edits(edits_value) {
                Some(edits) => {
                    file_edits.push(FileEdit { path, edits });
                    assert(file_edits.deep_view() =~= before.push(file_changes_of(a[i as int]).unwrap()));
                },
                None => {},
            },
            None => {},
        }
        i = i + 1;
    }
    assert(a.take(changes.len() as int) == a);
    file_edits
}

// ─── Completion ─────────────────────────────────────────────────────────────

/// `CompletionItemKind` numbers as their names; other numbers read as
/// `Text`.
pub open spec fn completion_kind_name(kind: u64) -> Seq<char> {
    match kind {
        1 => "Text"@,
        2 => "Method"@,
        3 => "Function"@,
        4 => "Constructor"@,
        5 => "Field"@,
        6 => "Variable"@,
        7 => "Class"@,
        8 => "Interface"@,
        9 => "Module"@,
        10 => "Property"@,
        11 => "Unit"@,
        12 => "Value"@,
        13 => "Enum"@,
        14 => "Keyword"@,
        15 => "Snippet"@,
        16 => "Color"@,
        17 => "File"@,
        18 => "Reference"@,
        19 => "Folder"@,
        20 => "EnumMember"@,
        21 => "Constant"@,
        22 => "Struct"@,
        23 => "Event"@,
        24 => "Operator"@,
        25 => "TypeParameter"@,
        _ => "Text"@,
    }
}

/// The name of a `CompletionItemKind` number, as `completion_kind_name`.
pub fn completion_kind_from_lsp(kind: u64) -> (r: &'static str)
    ensures
        r@ == completion_kind_name(kind),
{
    match kind {
        1 => "Text",
        2 => "Method",
        3 => "Function",
        4 => "Constructor",
        5 => "Field",
        6 => "Variable",
        7 => "Class",
        8 => "Interface",
        9 => "Module",
        10 => "Property",
        11 => "Unit",
        12 => "Value",
        13 => "Enum",
        14 => "Keyword",
        15 => "Snippet",
        16 => "Color",
        17 => "File",
        18 => "Reference",
        19 => "Folder",
        20 => "EnumMember",
        21 => "Constant",
        22 => "Struct",
        23 => "Event",
        24 => "Operator",
        25 => "TypeParameter",
        _ => "Text",
    }
}

/// A wire `kind`: a name is kept as sent; a number becomes its name.
pub open spec fn kind_wire_of(j: Json) -> Option<Seq<char>> {
    match as_str(j) {
        Some(name) => Some(name),
        None => match as_u64(j) {
            Some(k) => Some(completion_kind_name(k)),
            None => match as_i64(j) {
                Some(n) => if n >= 0 { Some(completion_kind_name(n as u64)) } else { None },
                None => None,
            },
        },
    }
}

/// A wire `kind`, as `kind_wire_of`.
pub fn completion_kind_wire_value(value: &JsonValue) -> (r: Option<String>)
    ensures
        r.deep_view() == kind_wire_of(value.model()),
{
    match value.as_str() {
        Some(name) => Some(name.clone()),
        None => {
            let kind = match value.as_u64() {
                Some(k) => k,
                None => match value.as_i64() {
                    Some(n) => if n >= 0 { n as u64 } else { return None },
                    None => return None,
                },
            };
            Some(owned(completion_kind_from_lsp(kind)))
        },
    }
}

/// A completion item's label: a string, or the `label` of an object.
pub open spec fn label_of(item: Json) -> Option<Seq<char>> {
    match get(item, "label"@) {
        Some(l) => match as_str(l) {
            Some(t) => Some(t),
            None => str_field(l, "label"@),
        },
        None => None,
    }
}

/// A completion item's detail: `detail`, else the label object's `detail`,
/// else `labelDetails.detail`, else `labelDetails.description`.
pub open spec fn detail_of(item: Json) -> Option<Seq<char>> {
    match str_field(item, "detail"@) {
        Some(d) => Some(d),
        None => match (match get(item, "label"@) {
            Some(l) => str_field(l, "detail"@),
            None => None,
        }) {
            Some(d) => Some(d),
            None => match get(item, "labelDetails"@) {
                Some(ld) => match str_field(ld, "detail"@) {
                    Some(d) => Some(d),
                    None => str_field(ld, "description"@),
                },
                None => None,
            },
        },
    }
}

/// A completion `textEdit`: `newText` over `range`, or over `insert` for an
/// insert-replace edit.
pub open spec fn completion_text_edit_of(v: Json) -> Option<EditView> {
    match str_field(v, "newText"@) {
        Some(t) => match (match get(v, "range"@) {
            Some(r) => Some(r),
            None => get(v, "insert"@),
        }) {
            Some(r) => match range_of(r) {
                Some(x) => Some((x.0, x.1, x.2, x.3, t)),
                None => None,
            },
            None => None,
        },
        None => None,
    }
}

/// One completion item: label, kind, detail, insert text (`insertText`,
/// else the edit's text, else the label), edit, filter text. Items without
/// a label are dropped.
pub open spec fn completion_of(item: Json) -> Option<CompletionView> {
    match label_of(item) {
        Some(label) => {
            let edit = match get(item, "textEdit"@) {
                Some(v) => completion_text_edit_of(v),
                None => None,
            };
            let insert = match str_field(item, "insertText"@) {
                Some(t) => Some(t),
                None => match edit {
                    Some(e) => Some(e.4),
                    None => Some(label),
                },
            };
            let kind = match get(item, "kind"@) {
                Some(k) => kind_wire_of(k),
                None => None,
            };
            Some((label, kind, detail_of(item), insert, edit, str_field(item, "filterText"@)))
        },
        None => None,
    }
}

/// The items of a completion result: a bare array, or a list's `items`.
pub open spec fn completion_array_of(result: Json) -> Option<Seq<Json>> {
    match as_array(result) {
        Some(a) => Some(a),
        None => match get(result, "items"@) {
            Some(i) => as_array(i),
            None => None,
        },
    }
}

/// A `textDocument/completion` result: its labelled items, in order; none
/// for `null` or other shapes.
pub open spec fn completions_of(result: Json) -> Seq<CompletionView> {
    if result is Null {
        Seq::empty()
    } else {
        match completion_array_of(result) {
            Some(a) => filter_map(a, |i: Json| completion_of(i)),
            None => Seq::empty(),
        }
    }
}

fn completion_item_label(item: &JsonValue) -> (r: Option<String>)
    ensures
        r.deep_view() == label_of(item.model()),
{
    let label = match item.get("label") {
        Some(l) => l,
        None => return None,
    };
    match label.as_str() {
        Some(t) => Some(t.clone()),
        None => str_member(label, "label"),
    }
}

fn completion_item_detail(item: &JsonValue) -> (r: Option<String>)
    ensures
        r.deep_view() == detail_of(item.model()),
{
    match str_member(item, "detail") {
        Some(d) => return Some(d),
        None => {},
    }
    let from_label = match item.get("label") {
        Some(l) => str_member(l, "detail"),
        None => None,
    };
    match from_label {
        Some(d) => return Some(d),
        None => {},
    }
    match item.get("labelDetails") {
        Some(ld) => match str_member(ld, "detail") {
            Some(d) => Some(d),
            None => str_member(ld, "description"),
        },
        None => None,
    }
}

/// A completion `textEdit`, as `completion_text_edit_of`.
pub fn parse_completion_text_edit(value: &JsonValue) -> (r: Option<LspTextEdit>)
    ensures
        r.deep_view() == completion_text_edit_of(value.model()),
{
    let new_text = match str_member(value, "newText") {
        Some(t) => t,
        None => return None,
    };
    let range = match value.get("range") {
        Some(r) => r,
        None => match value.get("insert") {
            Some(r) => r,
            None => return None,
        },
    };
    match read_range(range) {
        Some(x) => Some(
            LspTextEdit { line_start: x.0, col_start: x.1, line_end: x.2, col_end: x.3, new_text },
        ),
        None => None,
    }
}

/// One completion item, as `completion_of`.
pub fn parse_completion_item(item: &JsonValue) -> (r: Option<LspCompletionItem>)
    ensures
        r.deep_view() == completion_of(item.model()),
{
    let label = match completion_item_label(item) {
        Some(l) => l,
        None => return None,
    };
    let text_edit = match item.get("textEdit") {
        Some(v) => parse_completion_text_edit(v),
        None => None,
    };
    let insert_text = match str_member(item, "insertText") {
        Some(t) => Some(t),
        None => match &text_edit {
            Some(e) => Some(e.new_text.clone()),
            None => Some(label.clone()),
        },
    };
    let kind = match item.get("kind") {
        Some(k) => completion_kind_wire_value(k),
        None => None,
    };
    let detail = completion_item_detail(item);
    let filter_text = str_member(item, "filterText");
    Some(LspCompletionItem { label, kind, detail, insert_text, text_edit, filter_text })
}

/// A completion result, as `completions_of`.
pub fn parse_completion_items(result: &JsonValue) -> (r: Vec<LspCompletionItem>)
    ensures
        r.deep_view() == completions_of(result.model()),
{
    let mut items: Vec<LspCompletionItem> = Vec::new();
    if result.is_null() {
        return items;
    }
    let array = match result.as_array() {
        Some(a) => a,
        None => match result.get("items") {
            Some(i) => match i.as_array() {
                Some(a) => a,
                None => return items,
            },
            None => return items,
        },
    };
    let ghost a = models(array@);
    let ghost f = |i: Json| completion_of(i);
    proof {
        lemma_models(array@);
    }
    let mut i: usize = 0;
    while i < array.len()
        invariant
            a == models(array@),
            a.len() == array@.len(),
            forall|k: int| 0 <= k < array@.len() ==> #[trigger] a[k] == array@[k].model(),
            f == (|i: Json| completion_of(i)),
            i <= array.len(),
            items.deep_view() == filter_map(a.take(i as int), f),
        decreases array.len() - i,
    {
        proof {
            lemma_filter_map_step(a, i as int, f);
        }
        let ghost before = items.deep_view();
        match parse_completion_item(&array[i]) {
            Some(c) => {
                items.push(c);
                assert(items.deep_view() =~= before.push(completion_of(a[i as int]).unwrap()));
            },
            None => {},
        }
        i = i + 1;
    }
    assert(a.take(array.len() as int) == a);
    items
}

// ─── Hover ──────────────────────────────────────────────────────────────────

/// `s` from index `i` on with CRLF and lone CR turned into LF.
pub open spec fn breaks_from(s: Seq<char>, i: int) -> Seq<char>
    decreases s.len() - i,
{
    if i < 0 || i >= s.len() {
        Seq::empty()
    } else if s[i] == '\r' {
        if i + 1 < s.len() && s[i + 1] == '\n' {
            seq!['\n'] + breaks_from(s, i + 2)
        } else {
            seq!['\n'] + breaks_from(s, i + 1)
        }
    } else {
        seq![s[i]] + breaks_from(s, i + 1)
    }
}

/// `s` with CRLF and lone CR turned into LF; nothing else changes.
pub open spec fn normalized_breaks(s: Seq<char>) -> Seq<char> {
    breaks_from(s, 0)
}

/// CRLF and lone CR become LF; paragraph breaks stay.
pub fn normalize_hover_line_breaks(text: &str) -> (r: String)
    ensures
        r@ == normalized_breaks(text@),
{
    let chars = str_chars(text);
    let mut out = String::new();
    let mut i: usize = 0;
    while i < chars.len()
        invariant
            i <= chars.len(),
            out@ + breaks_from(chars@, i as int) == breaks_from(chars@, 0),
        decreases chars.len() - i,
    {
        let ghost before = out@;
        if chars[i] == '\r' {
            if i + 1 < chars.len() && chars[i + 1] == '\n' {
                push_char(&mut out, '\n');
                assert(before + breaks_from(chars@, i as int) =~= out@ + breaks_from(chars@, i + 2));
                i = i + 2;
            } else {
                push_char(&mut out, '\n');
                assert(before + breaks_from(chars@, i as int) =~= out@ + breaks_from(chars@, i + 1));
                i = i + 1;
            }
        } else {
            push_char(&mut out, chars[i]);
            assert(before + breaks_from(chars@, i as int) =~= out@ + breaks_from(chars@, i + 1));
            i = i + 1;
        }
    }
    assert(out@ + breaks_from(chars@, i as int) =~= out@);
    out
}

/// A wire `contents` string: kept as sent but for its line breaks.
pub fn hover_string_content(text: &str) -> (r: String)
    ensures
        r@ == normalized_breaks(text@),
{
    normalize_hover_line_breaks(text)
}

/// Hover pieces joined with single line feeds, with none added where one
/// side already has one.
pub open spec fn joined_pieces(ps: Seq<Seq<char>>) -> Seq<char>
    decreases ps.len(),
{
    if ps.len() == 0 {
        Seq::empty()
    } else if ps.len() == 1 {
        ps[0]
    } else {
        let prev = joined_pieces(ps.drop_last());
        let p = ps.last();
        if !(prev.len() > 0 && prev.last() == '\n') && !(p.len() > 0 && p[0] == '\n') {
            prev + seq!['\n'] + p
        } else {
            prev + p
        }
    }
}

/// Joins hover pieces, as `joined_pieces`.
pub fn join_hover_content_pieces(pieces: &[String]) -> (r: String)
    ensures
        r@ == joined_pieces(pieces.deep_view()),
{
    let ghost ps = pieces.deep_view();
    let mut output = String::new();
    let mut index: usize = 0;
    while index < pieces.len()
        invariant
            ps == pieces.deep_view(),
            index <= pieces.len(),
            output@ == joined_pieces(ps.take(index as int)),
        decreases pieces.len() - index,
    {
        let piece = &pieces[index];
        proof {
            assert(ps.take(index + 1).drop_last() == ps.take(index as int));
            assert(ps.take(index + 1).last() == piece@);
            if index == 0 {
                assert(ps.take(1) =~= seq![piece@]);
            }
        }
        if index > 0 {
            let out_chars = str_chars(output.as_str());
            let piece_chars = str_chars(piece.as_str());
            let ends_with_break = out_chars.len() > 0 && out_chars[out_chars.len() - 1] == '\n';
            let starts_with_break = piece_chars.len() > 0 && piece_chars[0] == '\n';
            if !ends_with_break && !starts_with_break {
                push_char(&mut output, '\n');
            }
        }
        push_str(&mut output, piece.as_str());
        index = index + 1;
    }
    assert(ps.take(pieces.len() as int) == ps);
    output
}

/// A `MarkupContent` object: it has a string `kind` (not rendered) and its
/// `value` is kept but for line breaks.
pub open spec fn markup_content_of(o: Json) -> Option<Seq<char>> {
    match str_field(o, "kind"@) {
        Some(_) => match str_field(o, "value"@) {
            Some(v) => Some(normalized_breaks(v)),
            None => None,
        },
        None => None,
    }
}

/// A `MarkedString` object: no `kind`; its `value`, in a code fence of its
/// `language` when that is non-empty.
pub open spec fn marked_string_of(o: Json) -> Option<Seq<char>> {
    if get(o, "kind"@) is Some {
        None
    } else {
        match str_field(o, "value"@) {
            Some(v) => {
                let body = normalized_breaks(v);
                match str_field(o, "language"@) {
                    Some(language) => if language.len() > 0 {
                        Some("```"@ + language + seq!['\n'] + body + "\n```"@)
                    } else {
                        Some(body)
                    },
                    None => Some(body),
                }
            },
            None => None,
        }
    }
}

/// One hover piece: a string, or a `MarkupContent` or `MarkedString`
/// object.
pub open spec fn hover_piece_of(v: Json) -> Option<Seq<char>> {
    match as_str(v) {
        Some(t) => Some(normalized_breaks(t)),
        None => if v is Object {
            match markup_content_of(v) {
                Some(t) => Some(t),
                None => marked_string_of(v),
            }
        } else {
            None
        },
    }
}

/// A `textDocument/hover` result flattened to one text: `contents` as a
/// string, an array of pieces joined, or one object; empty for `null`, a
/// missing `contents`, or other shapes.
pub open spec fn hover_text_of(result: Json) -> Seq<char> {
    if result is Null {
        Seq::empty()
    } else {
        match get(result, "contents"@) {
            Some(contents) => match contents {
                Json::Str(t) => normalized_breaks(t),
                Json::Array(a) => joined_pieces(filter_map(a, |p: Json| hover_piece_of(p))),
                Json::Object(_) => match hover_piece_of(contents) {
                    Some(t) => t,
                    None => Seq::empty(),
                },
                _ => Seq::empty(),
            },
            None => Seq::empty(),
        }
    }
}

/// A `MarkupContent` object, as `markup_content_of`.
pub fn hover_markup_content_object(object: &JsonValue) -> (r: Option<String>)
    ensures
        r.deep_view() == markup_content_of(object.model()),
{
    match str_member(object, "kind") {
        Some(_) => match str_member(object, "value") {
            Some(v) => Some(hover_string_content(v.as_str())),
            None => None,
        },
        None => None,
    }
}

/// A `MarkedString` object, as `marked_string_of`.
pub fn hover_marked_string_object(object: &JsonValue) -> (r: Option<String>)
    ensures
        r.deep_view() == marked_string_of(object.model()),
{
    if object.get("kind").is_some() {
        return None;
    }
    let value = match str_member(object, "value") {
        Some(v) => v,
        None => return None,
    };
    let body = hover_string_content(value.as_str());
    match str_member(object, "language") {
        Some(language) => {
            if !language.as_str().is_empty() {
                let mut fenced = String::new();
                push_str(&mut fenced, "```");
                push_str(&mut fenced, language.as_str());
                push_char(&mut fenced, '\n');
                push_str(&mut fenced, body.as_str());
                push_str(&mut fenced, "\n```");
                Some(fenced)
            } else {
                Some(body)
            }
        },
        None => Some(body),
    }
}

/// One hover piece, as `hover_piece_of`.
pub fn format_hover_content_piece(value: &JsonValue) -> (r: Option<String>)
    ensures
        r.deep_view() == hover_piece_of(value.model()),
{
    match value.as_str() {
        Some(t) => return Some(hover_string_content(t.as_str())),
        None => {},
    }
    match value.as_object() {
        Some(_) => match hover_markup_content_object(value) {
            Some(t) => Some(t),
            None => hover_marked_string_object(value),
        },
        None => None,
    }
}

/// The pieces of a `contents` array flattened and joined.
pub fn hover_contents_array(values: &Vec<JsonValue>) -> (r: String)
    ensures
        r@ == joined_pieces(filter_map(models(values@), |p: Json| hover_piece_of(p))),
{
    let ghost a = models(values@);
    let ghost f = |p: Json| hover_piece_of(p);
    proof {
        lemma_models(values@);
    }
    let mut pieces: Vec<String> = Vec::new();
    let mut i: usize = 0;
    while i < values.len()
        invariant
            a == models(values@),
            a.len() == values@.len(),
            forall|k: int| 0 <= k < values@.len() ==> #[trigger] a[k] == values@[k].model(),
            f == (|p: Json| hover_piece_of(p)),
            i <= values.len(),
            pieces.deep_view() == filter_map(a.take(i as int), f),
        decreases values.len() - i,
    {
        proof {
            lemma_filter_map_step(a, i as int, f);
        }
        let ghost before = pieces.deep_view();
        match format_hover_content_piece(&values[i]) {
            Some(p) => {
                pieces.push(p);
                assert(pieces.deep_view() =~= before.push(hover_piece_of(a[i as int]).unwrap()));
            },
            None => {},
        }
        i = i + 1;
    }
    assert(a.take(values.len() as int) == a);
    join_hover_content_pieces(pieces.as_slice())
}

/// A hover result, as `hover_text_of`.
pub fn parse_hover_content(result: &JsonValue) -> (r: String)
    ensures
        r@ == hover_text_of(result.model()),
{
    if result.is_null() {
        return String::new();
    }
    let contents = match result.get("contents") {
        Some(c) => c,
        None => return String::new(),
    };
    match contents {
        JsonValue::String(text) => hover_string_content(text.as_str()),
        JsonValue::Array(values) => hover_contents_array(values),
        JsonValue::Object(_) => match format_hover_content_piece(contents) {
            Some(t) => t,
            None => String::new(),
        },
        _ => String::new(),
    }
}

// ─── Inlay hints ────────────────────────────────────────────────────────────

/// A wire tooltip: a string is plain text; an object gives its `value`,
/// Markdown when its `kind` is `markdown` (plain text by default).
pub open spec fn tooltip_of(v: Json) -> Option<TooltipView> {
    match v {
        Json::Str(s) => Some((false, s)),
        Json::Object(_) => {
            let kind = match str_field(v, "kind"@) {
                Some(k) => k,
                None => "plaintext"@,
            };
            match str_field(v, "value"@) {
                Some(t) => Some((kind == "markdown"@, t)),
                None => None,
            }
        },
        _ => None,
    }
}

/// Member `tooltip` read as a tooltip.
pub open spec fn tooltip_field(j: Json) -> Option<TooltipView> {
    match get(j, "tooltip"@) {
        Some(t) => tooltip_of(t),
        None => None,
    }
}

/// A label part: its `value` and tooltip.
pub open spec fn label_part_of(item: Json) -> Option<LabelPartView> {
    match str_field(item, "value"@) {
        Some(v) => Some((v, tooltip_field(item))),
        None => None,
    }
}

/// Member `key` read as a boolean, false by default.
pub open spec fn flag_field(j: Json, key: Seq<char>) -> bool {
    match get(j, key) {
        Some(b) => match as_bool(b) {
            Some(x) => x,
            None => false,
        },
        None => false,
    }
}

/// One inlay hint: a position, a label (a string, or parts of which at
/// least one is well-formed), kind 1 type and 2 parameter, tooltip and
/// paddings.
pub open spec fn inlay_hint_of(item: Json) -> Option<InlayHintView> {
    match (get(item, "position"@), get(item, "label"@)) {
        (Some(pos), Some(label)) => match position_of(pos) {
            Some(p) => {
                let parts = match label {
                    Json::Str(s) => Some(seq![(s, None::<TooltipView>)]),
                    Json::Array(ps) => Some(filter_map(ps, |x: Json| label_part_of(x))),
                    _ => None,
                };
                match parts {
                    Some(parts) => if parts.len() == 0 {
                        None
                    } else {
                        let kind = match get(item, "kind"@) {
                            Some(k) => match as_u64(k) {
                                Some(1) => InlayHintKind::Type,
                                Some(2) => InlayHintKind::Parameter,
                                _ => InlayHintKind::Other,
                            },
                            None => InlayHintKind::Other,
                        };
                        Some(
                            (
                                LspPosition { line: p.0, character: p.1 },
                                parts,
                                kind,
                                tooltip_field(item),
                                flag_field(item, "paddingLeft"@),
                                flag_field(item, "paddingRight"@),
                            ),
                        )
                    },
                    None => None,
                }
            },
            None => None,
        },
        _ => None,
    }
}

/// A `textDocument/inlayHint` result: its well-formed hints, in order.
pub open spec fn inlay_hints_of(result: Json) -> Seq<InlayHintView> {
    if result is Null {
        Seq::empty()
    } else {
        match as_array(result) {
            Some(a) => filter_map(a, |i: Json| inlay_hint_of(i)),
            None => Seq::empty(),
        }
    }
}

/// A wire tooltip, as `tooltip_of`.
pub fn parse_inlay_hint_tooltip(value: &JsonValue) -> (r: Option<InlayHintTooltip>)
    ensures
        r.deep_view() == tooltip_of(value.model()),
{
    match value {
        JsonValue::String(s) => Some(InlayHintTooltip::PlainText(s.clone())),
        JsonValue::Object(_) => {
            let kind = match str_member(value, "kind") {
                Some(k) => k,
                None => owned("plaintext"),
            };
            let text = match str_member(value, "value") {
                Some(t) => t,
                None => return None,
            };
            if str_eq(kind.as_str(), "markdown") {
                Some(InlayHintTooltip::Markdown(text))
            } else {
                Some(InlayHintTooltip::PlainText(text))
            }
        },
        _ => None,
    }
}

fn tooltip_member(j: &JsonValue) -> (r: Option<InlayHintTooltip>)
    ensures
        r.deep_view() == tooltip_field(j.model()),
{
    match j.get("tooltip") {
        Some(t) => parse_inlay_hint_tooltip(t),
        None => None,
    }
}

fn flag_member(j: &JsonValue, key: &str) -> (r: bool)
    ensures
        r == flag_field(j.model(), key@),
{
    match j.get(key) {
        Some(b) => match b.as_bool() {
            Some(x) => x,
            None => false,
        },
        None => false,
    }
}

/// A label part, as `label_part_of`.
pub fn parse_inlay_hint_label_part(item: &JsonValue) -> (r: Option<InlayHintLabelPart>)
    ensures
        r.deep_view() == label_part_of(item.model()),
{
    let value = match str_member(item, "value") {
        Some(v) => v,
        None => return None,
    };
    let tooltip = tooltip_member(item);
    Some(InlayHintLabelPart { value, tooltip })
}

/// One inlay hint, as `inlay_hint_of`.
pub fn parse_single_inlay_hint(item: &JsonValue) -> (r: Option<LspInlayHint>)
    ensures
        r.deep_view() == inlay_hint_of(item.model()),
{
    let pos = match item.get("position") {
        Some(p) => p,
        None => return None,
    };
    let label = match item.get("label") {
        Some(l) => l,
        None => return None,
    };
    let p = match read_position(pos) {
        Some(p) => p,
        None => return None,
    };
    let position = LspPosition::new(p.0, p.1);
    let mut parts: Vec<InlayHintLabelPart> = Vec::new();
    match label {
        JsonValue::String(s) => {
            parts.push(InlayHintLabelPart { value: s.clone(), tooltip: None });
            assert(parts.deep_view() =~= seq![(s@, None::<TooltipView>)]);
        },
        JsonValue::Array(ps) => {
            let ghost a = models(ps@);
            let ghost f = |x: Json| label_part_of(x);
            proof {
                lemma_models(ps@);
            }
            let mut i: usize = 0;
            while i < ps.len()
                invariant
                    a == models(ps@),
                    a.len() == ps@.len(),
                    forall|k: int| 0 <= k < ps@.len() ==> #[trigger] a[k] == ps@[k].model(),
                    f == (|x: Json| label_part_of(x)),
                    i <= ps.len(),
                    parts.deep_view() == filter_map(a.take(i as int), f),
                decreases ps.len() - i,
            {
                proof {
                    lemma_filter_map_step(a, i as int, f);
                }
                let ghost before = parts.deep_view();
                match parse_inlay_hint_label_part(&ps[i]) {
                    Some(part) => {
                        parts.push(part);
                        assert(parts.deep_view() =~= before.push(label_part_of(a[i as int]).unwrap()));
                    },
                    None => {},
                }
                i = i + 1;
            }
            assert(a.take(ps.len() as int) == a);
        },
        _ => return None,
    }
    if parts.len() == 0 {
        return None;
    }
    let kind = match item.get("kind") {
        Some(k) => match k.as_u64() {
            Some(1) => InlayHintKind::Type,
            Some(2) => InlayHintKind::Parameter,
            _ => InlayHintKind::Other,
        },
        None => InlayHintKind::Other,
    };
    let tooltip = tooltip_member(item);
    let padding_left = flag_member(item, "paddingLeft");
    let padding_right = flag_member(item, "paddingRight");
    Some(LspInlayHint { position, label: parts, kind, tooltip, padding_left, padding_right })
}

/// An inlay-hint result, as `inlay_hints_of`.
pub fn parse_inlay_hints(result: &JsonValue) -> (r: Vec<LspInlayHint>)
    ensures
        r.deep_view() == inlay_hints_of(result.model()),
{
    let mut hints: Vec<LspInlayHint> = Vec::new();
    if result.is_null() {
        return hints;
    }
    let array = match result.as_array() {
        Some(a) => a,
        None => return hints,
    };
    let ghost a = models(array@);
    let ghost f = |i: Json| inlay_hint_of(i);
    proof {
        lemma_models(array@);
    }
    let mut i: usize = 0;
    while i < array.len()
        invariant
            a == models(array@),
            a.len() == array@.len(),
            forall|k: int| 0 <= k < array@.len() ==> #[trigger] a[k] == array@[k].model(),
            f == (|i: Json| inlay_hint_of(i)),
            i <= array.len(),
            hints.deep_view() == filter_map(a.take(i as int), f),
        decreases array.len() - i,
    {
        proof {
            lemma_filter_map_step(a, i as int, f);
        }
        let ghost before = hints.deep_view();
        match parse_single_inlay_hint(&array[i]) {
            Some(h) => {
                hints.push(h);
                assert(hints.deep_view() =~= before.push(inlay_hint_of(a[i as int]).unwrap()));
            },
            None => {},
        }
        i = i + 1;
    }
    assert(a.take(array.len() as int) == a);
    hints
}

// ─── Signature help ─────────────────────────────────────────────────────────

/// Documentation: a string, or the `value` of an object.
pub open spec fn documentation_of(v: Json) -> Option<Seq<char>> {
    match v {
        Json::Str(s) => Some(s),
        Json::Object(_) => str_field(v, "value"@),
        _ => None,
    }
}

/// Member `documentation` read as documentation.
pub open spec fn documentation_field(j: Json) -> Option<Seq<char>> {
    match get(j, "documentation"@) {
        Some(d) => documentation_of(d),
        None => None,
    }
}

/// The text of `label` between UTF-8 byte offsets `start` and `end`
/// (`str::get`), or nothing when the offsets do not delimit characters.
pub open spec fn byte_range_text(label: Seq<char>, start: usize, end: usize) -> Seq<char> {
    let b = encode_utf8(label);
    if start <= end && end <= b.len() && is_char_boundary(b, start as int) && is_char_boundary(
        b,
        end as int,
    ) && valid_utf8(b.subrange(start as int, end as int)) {
        decode_utf8(b.subrange(start as int, end as int))
    } else {
        Seq::empty()
    }
}

/// Element `i` of `a` read as a `usize`, 0 by default.
pub open spec fn offset_at(a: Seq<Json>, i: int) -> usize {
    if 0 <= i < a.len() {
        match as_u64(a[i]) {
            Some(n) => n as usize,
            None => 0,
        }
    } else {
        0
    }
}

/// A parameter: its label (a string, or a pair of byte offsets into the
/// signature's label) and documentation.
pub open spec fn parameter_of(p: Json, label: Seq<char>) -> Option<ParameterView> {
    match get(p, "label"@) {
        Some(Json::Str(s)) => Some((s, documentation_field(p))),
        Some(Json::Array(pair)) => Some(
            (byte_range_text(label, offset_at(pair, 0), offset_at(pair, 1)), documentation_field(p)),
        ),
        _ => None,
    }
}

/// A `textDocument/signatureHelp` result: its active signature (by
/// `activeSignature`, else the first), with label, documentation,
/// parameters and active parameter (the signature's own, else the
/// result's).
pub open spec fn signature_help_of(result: Json) -> Option<SignatureView> {
    if result is Null {
        None
    } else {
        match get(result, "signatures"@) {
            Some(sv) => match as_array(sv) {
                Some(sigs) => if sigs.len() == 0 {
                    None
                } else {
                    let idx = (match get(result, "activeSignature"@) {
                        Some(v) => match as_u64(v) {
                            Some(n) => n,
                            None => 0,
                        },
                        None => 0,
                    }) as usize;
                    let sig = if idx < sigs.len() { sigs[idx as int] } else { sigs[0] };
                    match str_field(sig, "label"@) {
                        Some(label) => {
                            let params = match get(sig, "parameters"@) {
                                Some(ps) => match as_array(ps) {
                                    Some(a) => filter_map(a, |p: Json| parameter_of(p, label)),
                                    None => Seq::empty(),
                                },
                                None => Seq::empty(),
                            };
                            let own = match get(sig, "activeParameter"@) {
                                Some(v) => as_u64(v),
                                None => None,
                            };
                            let outer = match get(result, "activeParameter"@) {
                                Some(v) => as_u64(v),
                                None => None,
                            };
                            let active = match own {
                                Some(n) => Some(n as usize),
                                None => match outer {
                                    Some(n) => Some(n as usize),
                                    None => None,
                                },
                            };
                            Some((label, documentation_field(sig), params, active))
                        },
                        None => None,
                    }
                },
                None => None,
            },
            None => None,
        }
    }
}

fn documentation_member(j: &JsonValue) -> (r: Option<String>)
    ensures
        r.deep_view() == documentation_field(j.model()),
{
    match j.get("documentation") {
        Some(d) => match d {
            JsonValue::String(s) => Some(s.clone()),
            JsonValue::Object(_) => str_member(d, "value"),
            _ => None,
        },
        None => None,
    }
}

fn offset_of(a: &Vec<JsonValue>, i: usize) -> (r: usize)
    ensures
        r == offset_at(models(a@), i as int),
{
    proof {
        lemma_models(a@);
    }
    if i < a.len() {
        match a[i].as_u64() {
            Some(n) => n as usize,
            None => 0,
        }
    } else {
        0
    }
}

/// The text of `label` between two byte offsets, as `byte_range_text`.
fn label_byte_range(label: &String, start: usize, end: usize) -> (r: String)
    ensures
        r@ == byte_range_text(label@, start, end),
{
    let s = label.as_str();
    let bytes = s.as_bytes();
    if start <= end && end <= bytes.len() && s.is_char_boundary(start) && s.is_char_boundary(end) {
        match utf8_text(vstd::slice::slice_subrange(bytes, start, end)) {
            Some(t) => t,
            None => String::new(),
        }
    } else {
        String::new()
    }
}

fn parse_parameter(p: &JsonValue, label: &String) -> (r: Option<ParameterInfo>)
    ensures
        r.deep_view() == parameter_of(p.model(), label@),
{
    let param_label = match p.get("label") {
        Some(JsonValue::String(s)) => s.clone(),
        Some(JsonValue::Array(pair)) => {
            let start = offset_of(pair, 0);
            let end = offset_of(pair, 1);
            label_byte_range(label, start, end)
        },
        _ => return None,
    };
    let documentation = documentation_member(p);
    Some(ParameterInfo { label: param_label, documentation })
}

/// A signature-help result, as `signature_help_of`.
pub fn parse_signature_help(result: &JsonValue) -> (r: Option<SignatureInfo>)
    ensures
        r.deep_view() == signature_help_of(result.model()),
{
    if result.is_null() {
        return None;
    }
    let sigs = match result.get("signatures") {
        Some(sv) => match sv.as_array() {
            Some(a) => a,
            None => return None,
        },
        None => return None,
    };
    proof {
        lemma_models(sigs@);
    }
    if sigs.len() == 0 {
        return None;
    }
    let idx = (match result.get("activeSignature") {
        Some(v) => match v.as_u64() {
            Some(n) => n,
            None => 0,
        },
        None => 0,
    }) as usize;
    let sig = if idx < sigs.len() { &sigs[idx] } else { &sigs[0] };
    let label = match str_member(sig, "label") {
        Some(l) => l,
        None => return None,
    };
    let mut parameters: Vec<ParameterInfo> = Vec::new();
    match sig.get("parameters") {
        Some(ps) => match ps.as_array() {
            Some(array) => {
                let ghost a = models(array@);
                let ghost f = |p: Json| parameter_of(p, label@);
                proof {
                    lemma_models(array@);
                }
                let mut i: usize = 0;
                while i < array.len()
                    invariant
                        a == models(array@),
                        a.len() == array@.len(),
                        forall|k: int| 0 <= k < array@.len() ==> #[trigger] a[k] == array@[k].model(),
                        f == (|p: Json| parameter_of(p, label@)),
                        i <= array.len(),
                        parameters.deep_view() == filter_map(a.take(i as int), f),
                    decreases array.len() - i,
                {
                    proof {
                        lemma_filter_map_step(a, i as int, f);
                    }
                    let ghost before = parameters.deep_view();
                    match parse_parameter(&array[i], &label) {
                        Some(p) => {
                            parameters.push(p);
                            assert(parameters.deep_view() =~= before.push(
                                parameter_of(a[i as int], label@).unwrap(),
                            ));
                        },
                        None => {},
                    }
                    i = i + 1;
                }
                assert(a.take(array.len() as int) == a);
            },
            None => {},
        },
        None => {},
    }
    let own = match sig.get("activeParameter") {
        Some(v) => v.as_u64(),
        None => None,
    };
    let outer = match result.get("activeParameter") {
        Some(v) => v.as_u64(),
        None => None,
    };
    let active_parameter = match own {
        Some(n) => Some(n as usize),
        None => match outer {
            Some(n) => Some(n as usize),
            None => None,
        },
    };
    let documentation = documentation_member(sig);
    Some(SignatureInfo { label, documentation, parameters, active_parameter })
}

// ─── Workspace symbols and code actions ─────────────────────────────────────

/// `SymbolKind` numbers as the outline's kinds.
pub open spec fn symbol_kind_of(kind: u64) -> SymbolKind {
    match kind {
        2 | 3 => SymbolKind::Function,
        5 | 11 => SymbolKind::Struct,
        8 => SymbolKind::Trait,
        9 => SymbolKind::Module,
        10 => SymbolKind::Enum,
        7 | 13 => SymbolKind::Field,
        14 | 21 => SymbolKind::Constant,
        _ => SymbolKind::Other,
    }
}

/// The outline kind of a `SymbolKind` number, as `symbol_kind_of`.
pub fn symbol_kind_from_lsp(kind: u64) -> (r: SymbolKind)
    ensures
        r == symbol_kind_of(kind),
{
    match kind {
        2 => SymbolKind::Function,
        3 => SymbolKind::Function,
        5 => SymbolKind::Struct,
        8 => SymbolKind::Trait,
        9 => SymbolKind::Module,
        10 => SymbolKind::Enum,
        11 => SymbolKind::Struct,
        7 | 13 => SymbolKind::Field,
        14 | 21 => SymbolKind::Constant,
        _ => SymbolKind::Other,
    }
}

/// One workspace symbol: name, kind (0 when absent), the file of its
/// location's URI, the start of its range (0, 0 when unreadable), container.
pub open spec fn workspace_symbol_of(item: Json) -> Option<WorkspaceSymbolView> {
    match (str_field(item, "name"@), get(item, "location"@)) {
        (Some(name), Some(location)) => match str_field(location, "uri"@) {
            Some(uri) => match file_path_of_uri(uri) {
                Some(path) => {
                    let raw = match get(item, "kind"@) {
                        Some(k) => match as_u64(k) {
                            Some(n) => n,
                            None => 0,
                        },
                        None => 0,
                    };
                    let start = match get(location, "range"@) {
                        Some(r) => match get(r, "start"@) {
                            Some(s) => match position_of(s) {
                                Some(p) => p,
                                None => (0u32, 0u32),
                            },
                            None => (0u32, 0u32),
                        },
                        None => (0u32, 0u32),
                    };
                    Some(
                        (
                            name,
                            symbol_kind_of(raw),
                            path,
                            start.0,
                            start.1,
                            str_field(item, "containerName"@),
                        ),
                    )
                },
                None => None,
            },
            None => None,
        },
        _ => None,
    }
}

/// A `workspace/symbol` result: its well-formed symbols, in order.
pub open spec fn workspace_symbols_of(result: Json) -> Seq<WorkspaceSymbolView> {
    if result is Null {
        Seq::empty()
    } else {
        match as_array(result) {
            Some(a) => filter_map(a, |i: Json| workspace_symbol_of(i)),
            None => Seq::empty(),
        }
    }
}

fn parse_workspace_symbol(item: &JsonValue) -> (r: Option<WorkspaceSymbol>)
    ensures
        r.deep_view() == workspace_symbol_of(item.model()),
{
    let name = match str_member(item, "name") {
        Some(n) => n,
        None => return None,
    };
    let raw = match item.get("kind") {
        Some(k) => match k.as_u64() {
            Some(n) => n,
            None => 0,
        },
        None => 0,
    };
    let kind = symbol_kind_from_lsp(raw);
    let container = str_member(item, "containerName");
    let location = match item.get("location") {
        Some(l) => l,
        None => return None,
    };
    let uri = match str_member(location, "uri") {
        Some(u) => u,
        None => return None,
    };
    let path = match uri_to_file_path(uri.as_str()) {
        Some(p) => p,
        None => return None,
    };
    let start = match location.get("range") {
        Some(r) => match r.get("start") {
            Some(s) => match read_position(s) {
                Some(p) => p,
                None => (0u32, 0u32),
            },
            None => (0u32, 0u32),
        },
        None => (0u32, 0u32),
    };
    Some(WorkspaceSymbol { name, kind, path, line: start.0, col: start.1, container })
}

/// A workspace-symbol result, as `workspace_symbols_of`.
pub fn parse_workspace_symbols(result: &JsonValue) -> (r: Vec<WorkspaceSymbol>)
    ensures
        r.deep_view() == workspace_symbols_of(result.model()),
{
    let mut symbols: Vec<WorkspaceSymbol> = Vec::new();
    if result.is_null() {
        return symbols;
    }
    let array = match result.as_array() {
        Some(a) => a,
        None => return symbols,
    };
    let ghost a = models(array@);
    let ghost f = |i: Json| workspace_symbol_of(i);
    proof {
        lemma_models(array@);
    }
    let mut i: usize = 0;
    while i < array.len()
        invariant
            a == models(array@),
            a.len() == array@.len(),
            forall|k: int| 0 <= k < array@.len() ==> #[trigger] a[k] == array@[k].model(),
            f == (|i: Json| workspace_symbol_of(i)),
            i <= array.len(),
            symbols.deep_view() == filter_map(a.take(i as int), f),
        decreases array.len() - i,
    {
        proof {
            lemma_filter_map_step(a, i as int, f);
        }
        let ghost before = symbols.deep_view();
        match parse_workspace_symbol(&array[i]) {
            Some(w) => {
                symbols.push(w);
                assert(symbols.deep_view() =~= before.push(workspace_symbol_of(a[i as int]).unwrap()));
            },
            None => {},
        }
        i = i + 1;
    }
    assert(a.take(array.len() as int) == a);
    symbols
}

// ─── Workspace edits and code actions ───────────────────────────────────────

/// The well-formed edits of `v` when it is an array; none otherwise.
pub open spec fn edits_or_none(v: Option<Json>) -> Seq<EditView> {
    match v {
        Some(x) => match as_array(x) {
            Some(a) => edit_array_of(a),
            None => Seq::empty(),
        },
        None => Seq::empty(),
    }
}

/// A member of `changes`: the file of its URI with its edits, when the URI
/// names a file and at least one edit is well-formed.
pub open spec fn change_entry_of(m: (Seq<char>, Json)) -> Option<FileEditView> {
    match file_path_of_uri(m.0) {
        Some(path) => {
            let edits = edits_or_none(Some(m.1));
            if edits.len() > 0 { Some((path, edits)) } else { None }
        },
        None => None,
    }
}

/// An element of `documentChanges` that is a text document edit: the file
/// of its document's URI with its edits, when at least one is well-formed.
pub open spec fn document_change_of(dc: Json) -> Option<FileEditView> {
    match get(dc, "textDocument"@) {
        Some(td) => match str_field(td, "uri"@) {
            Some(uri) => match file_path_of_uri(uri) {
                Some(path) => {
                    let edits = edits_or_none(get(dc, "edits"@));
                    if edits.len() > 0 { Some((path, edits)) } else { None }
                },
                None => None,
            },
            None => None,
        },
        None => None,
    }
}

/// Index of the first entry for `path`, or -1.
pub open spec fn file_index(acc: Seq<FileEditView>, path: Seq<char>, i: int) -> int
    decreases acc.len() - i,
{
    if i < 0 || i >= acc.len() {
        -1
    } else if acc[i].0 == path {
        i
    } else {
        file_index(acc, path, i + 1)
    }
}

/// Adds a file's edits: appended to the first entry for the same file, or
/// as a new entry at the end.
pub open spec fn merge_file_edit(acc: Seq<FileEditView>, fe: FileEditView) -> Seq<FileEditView> {
    let k = file_index(acc, fe.0, 0);
    if k >= 0 {
        acc.update(k, (acc[k].0, acc[k].1 + fe.1))
    } else {
        acc.push(fe)
    }
}

/// Adds the file edits of `s` one after another.
pub open spec fn merge_all(acc: Seq<FileEditView>, s: Seq<FileEditView>) -> Seq<FileEditView>
    decreases s.len(),
{
    if s.len() == 0 {
        acc
    } else {
        merge_file_edit(merge_all(acc, s.drop_last()), s.last())
    }
}

/// The entries of a workspace edit's `changes`, in member order.
pub open spec fn changes_part(edit: Json) -> Seq<FileEditView> {
    match get(edit, "changes"@) {
        Some(c) => match as_object(c) {
            Some(m) => filter_map(m, |x: (Seq<char>, Json)| change_entry_of(x)),
            None => Seq::empty(),
        },
        None => Seq::empty(),
    }
}

/// A `WorkspaceEdit`: the entries of `changes` in member order, then the
/// text document edits of `documentChanges` merged in by file.
pub open spec fn workspace_edit_of(edit: Json) -> Seq<FileEditView> {
    let from_changes = changes_part(edit);
    match get(edit, "documentChanges"@) {
        Some(d) => match as_array(d) {
            Some(dcs) => merge_all(from_changes, filter_map(dcs, |x: Json| document_change_of(x))),
            None => from_changes,
        },
        None => from_changes,
    }
}

fn edits_of_array_member(v: Option<&JsonValue>) -> (r: Vec<TextEdit>)
    ensures
        r.deep_view() == edits_or_none(opt_model(v)),
{
    match v {
        Some(x) => match x.as_array() {
            Some(a) => parse_edit_array(a),
            None => Vec::new(),
        },
        None => Vec::new(),
    }
}

fn find_file(acc: &Vec<FileEdit>, path: &String) -> (r: Option<usize>)
    ensures
        match r {
            Some(k) => file_index(acc.deep_view(), path@, 0) == k as int && k < acc.len(),
            None => file_index(acc.deep_view(), path@, 0) == -1,
        },
{
    let ghost v = acc.deep_view();
    let mut i: usize = 0;
    while i < acc.len()
        invariant
            v == acc.deep_view(),
            i <= acc.len(),
            file_index(v, path@, 0) == file_index(v, path@, i as int),
        decreases acc.len() - i,
    {
        if str_eq(acc[i].path.as_str(), path.as_str()) {
            return Some(i);
        }
        i = i + 1;
    }
    None
}

fn merge_into(acc: &mut Vec<FileEdit>, fe: FileEdit)
    ensures
        final(acc).deep_view() == merge_file_edit(old(acc).deep_view(), fe.deep_view()),
{
    let ghost before = acc.deep_view();
    let ghost fv = fe.deep_view();
    match find_file(acc, &fe.path) {
        Some(k) => {
            let FileEdit { path: _, edits: mut more } = fe;
            let FileEdit { path, edits: mut existing } = acc.remove(k);
            let ghost old_edits = existing.deep_view();
            existing.append(&mut more);
            assert(existing.deep_view() =~= old_edits + fv.1);
            acc.insert(k, FileEdit { path, edits: existing });
            assert(acc.deep_view() =~= before.update(k as int, (before[k as int].0, before[k as int].1 + fv.1)));
        },
        None => {
            acc.push(fe);
            assert(acc.deep_view() =~= before.push(fv));
        },
    }
}

/// A workspace edit, as `workspace_edit_of`.
pub fn parse_workspace_edit(edit: &JsonValue) -> (r: Vec<FileEdit>)
    ensures
        r.deep_view() == workspace_edit_of(edit.model()),
{
    let mut result: Vec<FileEdit> = Vec::new();
    match edit.get("changes") {
        Some(c) => match c.as_object() {
            Some(changes) => {
                let ghost a = member_models(changes@);
                let ghost f = |x: (Seq<char>, Json)| change_entry_of(x);
                proof {
                    lemma_member_models(changes@);
                }
                let mut i: usize = 0;
                while i < changes.len()
                    invariant
                        a == member_models(changes@),
                        a.len() == changes@.len(),
                        forall|k: int| 0 <= k < changes@.len() ==> #[trigger] a[k] == (changes@[k].0@, changes@[k].1.model()),
                        f == (|x: (Seq<char>, Json)| change_entry_of(x)),
                        i <= changes.len(),
                        result.deep_view() == filter_map(a.take(i as int), f),
                    decreases changes.len() - i,
                {
                    proof {
                        lemma_filter_map_step(a, i as int, f);
                    }
                    let ghost before = result.deep_view();
                    match uri_to_file_path(changes[i].0.as_str()) {
                        Some(path) => {
                            let edits = edits_of_array_member(Some(&changes[i].1));
                            if edits.len() > 0 {
                                result.push(FileEdit { path, edits });
                                assert(result.deep_view() =~= before.push(change_entry_of(a[i as int]).unwrap()));
                            }
                        },
                        None => {},
                    }
                    i = i + 1;
                }
                assert(a.take(changes.len() as int) == a);
            },
            None => {
                assert(result.deep_view() =~= Seq::<FileEditView>::empty());
            },
        },
        None => {
            assert(result.deep_view() =~= Seq::<FileEditView>::empty());
        },
    }
    let ghost from_changes = result.deep_view();
    assert(from_changes == changes_part(edit.model()));
    match edit.get("documentChanges") {
        Some(d) => match d.as_array() {
            Some(dcs) => {
                let ghost a = models(dcs@);
                let ghost f = |x: Json| document_change_of(x);
                proof {
                    lemma_models(dcs@);
                }
                let mut i: usize = 0;
                while i < dcs.len()
                    invariant
                        a == models(dcs@),
                        a.len() == dcs@.len(),
                        forall|k: int| 0 <= k < dcs@.len() ==> #[trigger] a[k] == dcs@[k].model(),
                        f == (|x: Json| document_change_of(x)),
                        i <= dcs.len(),
                        result.deep_view() == merge_all(from_changes, filter_map(a.take(i as int), f)),
                    decreases dcs.len() - i,
                {
                    proof {
                        lemma_filter_map_step(a, i as int, f);
                    }
                    let ghost fm = filter_map(a.take(i as int), f);
                    let dc = &dcs[i];
                    let text_doc = dc.get("textDocument");
                    let uri = match text_doc {
                        Some(td) => str_member(td, "uri"),
                        None => None,
                    };
                    let path = match uri {
                        Some(u) => uri_to_file_path(u.as_str()),
                        None => None,
                    };
                    match path {
                        Some(path) => {
                            let edits = edits_of_array_member(dc.get("edits"));
                            if edits.len() > 0 {
                                merge_into(&mut result, FileEdit { path, edits });
                                assert(fm.push(document_change_of(a[i as int]).unwrap()).drop_last() == fm);
                            }
                        },
                        None => {},
                    }
                    i = i + 1;
                }
                assert(a.take(dcs.len() as int) == a);
            },
            None => {},
        },
        None => {},
    }
    assert(result.deep_view() == workspace_edit_of(edit.model()));
    result
}

/// One code action: title, kind, edits of its `edit` (none when absent),
/// preferred flag. Plain commands (without a title) are dropped.
pub open spec fn code_action_of(item: Json) -> Option<CodeActionView> {
    match str_field(item, "title"@) {
        Some(title) => Some(
            (
                title,
                str_field(item, "kind"@),
                match get(item, "edit"@) {
                    Some(e) => workspace_edit_of(e),
                    None => Seq::empty(),
                },
                flag_field(item, "isPreferred"@),
            ),
        ),
        None => None,
    }
}

/// A `textDocument/codeAction` result: its code actions, in order.
pub open spec fn code_actions_of(result: Json) -> Seq<CodeActionView> {
    if result is Null {
        Seq::empty()
    } else {
        match as_array(result) {
            Some(a) => filter_map(a, |i: Json| code_action_of(i)),
            None => Seq::empty(),
        }
    }
}

fn parse_code_action(item: &JsonValue) -> (r: Option<CodeAction>)
    ensures
        r.deep_view() == code_action_of(item.model()),
{
    let title = match str_member(item, "title") {
        Some(t) => t,
        None => return None,
    };
    let kind = match str_member(item, "kind") {
        Some(k) => Some(CodeActionKind::from_str(k.as_str())),
        None => None,
    };
    let is_preferred = flag_member(item, "isPreferred");
    let edits = match item.get("edit") {
        Some(e) => parse_workspace_edit(e),
        None => Vec::new(),
    };
    Some(CodeAction { title, kind, edits, is_preferred })
}

/// A code-action result, as `code_actions_of`.
pub fn parse_code_actions(result: &JsonValue) -> (r: Vec<CodeAction>)
    ensures
        r.deep_view() == code_actions_of(result.model()),
{
    let mut actions: Vec<CodeAction> = Vec::new();
    if result.is_null() {
        return actions;
    }
    let array = match result.as_array() {
        Some(a) => a,
        None => return actions,
    };
    let ghost a = models(array@);
    let ghost f = |i: Json| code_action_of(i);
    proof {
        lemma_models(array@);
    }
    let mut i: usize = 0;
    while i < array.len()
        invariant
            a == models(array@),
            a.len() == array@.len(),
            forall|k: int| 0 <= k < array@.len() ==> #[trigger] a[k] == array@[k].model(),
            f == (|i: Json| code_action_of(i)),
            i <= array.len(),
            actions.deep_view() == filter_map(a.take(i as int), f),
        decreases array.len() - i,
    {
        proof {
            lemma_filter_map_step(a, i as int, f);
        }
        let ghost before = actions.deep_view();
        match parse_code_action(&array[i]) {
            Some(c) => {
                actions.push(c);
                assert(actions.deep_view() =~= before.push(code_action_of(a[i as int]).unwrap()));
            },
            None => {},
        }
        i = i + 1;
    }
    assert(a.take(array.len() as int) == a);
    actions
}

// ─── Progress and messages ──────────────────────────────────────────────────

/// A progress report: token, kind, title, message, percentage.
pub type ProgressView = (Seq<char>, ProgressKind, Seq<char>, Option<Seq<char>>, Option<u32>);

/// A progress token: a string, or a number written in decimal.
pub open spec fn token_of(t: Json) -> Option<Seq<char>> {
    match as_str(t) {
        Some(s) => Some(s),
        None => match as_u64(t) {
            Some(n) => Some(decimal(n as nat)),
            None => match as_i64(t) {
                Some(n) => Some(int_text(n)),
                None => None,
            },
        },
    }
}

/// A `$/progress` notification: its token and the `kind` (`begin`; `work`
/// or `report`; `end`), `title` (empty by default), `message` and
/// `percentage` (truncated to 32 bits) of its value.
pub open spec fn progress_of(value: Json) -> Option<ProgressView> {
    match get(value, "params"@) {
        Some(params) => match (get(params, "token"@), get(params, "value"@)) {
            (Some(t), Some(v)) => match (token_of(t), str_field(v, "kind"@)) {
                (Some(token), Some(k)) => {
                    let kind = if k == "begin"@ {
                        Some(ProgressKind::Begin)
                    } else if k == "work"@ || k == "report"@ {
                        Some(ProgressKind::Work)
                    } else if k == "end"@ {
                        Some(ProgressKind::End)
                    } else {
                        None
                    };
                    match kind {
                        Some(kind) => Some(
                            (
                                token,
                                kind,
                                match str_field(v, "title"@) {
                                    Some(t) => t,
                                    None => Seq::empty(),
                                },
                                str_field(v, "message"@),
                                match get(v, "percentage"@) {
                                    Some(p) => match as_u64(p) {
                                        Some(n) => Some(n as u32),
                                        None => None,
                                    },
                                    None => None,
                                },
                            ),
                        ),
                        None => None,
                    }
                },
                _ => None,
            },
            _ => None,
        },
        None => None,
    }
}

/// A progress notification, as `progress_of`.
pub fn parse_progress(value: &JsonValue) -> (r: Option<
    (String, ProgressKind, String, Option<String>, Option<u32>),
>)
    ensures
        r.deep_view() == progress_of(value.model()),
{
    let params = match value.get("params") {
        Some(p) => p,
        None => return None,
    };
    let t = match params.get("token") {
        Some(t) => t,
        None => return None,
    };
    let token = match t.as_str() {
        Some(s) => s.clone(),
        None => match t.as_u64() {
            Some(n) => fmt_u64(n),
            None => match t.as_i64() {
                Some(n) => fmt_i64(n),
                None => return None,
            },
        },
    };
    let v = match params.get("value") {
        Some(v) => v,
        None => return None,
    };
    let k = match str_member(v, "kind") {
        Some(k) => k,
        None => return None,
    };
    let kind = if str_eq(k.as_str(), "begin") {
        ProgressKind::Begin
    } else if str_eq(k.as_str(), "work") || str_eq(k.as_str(), "report") {
        ProgressKind::Work
    } else if str_eq(k.as_str(), "end") {
        ProgressKind::End
    } else {
        return None;
    };
    let title = match str_member(v, "title") {
        Some(t) => t,
        None => String::new(),
    };
    let message = str_member(v, "message");
    let percentage = match v.get("percentage") {
        Some(p) => match p.as_u64() {
            Some(n) => Some(n as u32),
            None => None,
        },
        None => None,
    };
    Some((token, kind, title, message, percentage))
}

/// A `window/showMessage` notification: its level (1 error, 2 warning, 3
/// info, anything else log) and message.
pub open spec fn show_message_of(value: Json) -> Option<(MessageLevel, Seq<char>)> {
    match get(value, "params"@) {
        Some(params) => match (get(params, "type"@), str_field(params, "message"@)) {
            (Some(t), Some(message)) => match as_u64(t) {
                Some(n) => Some(
                    (
                        if n == 1 {
                            MessageLevel::Error
                        } else if n == 2 {
                            MessageLevel::Warning
                        } else if n == 3 {
                            MessageLevel::Info
                        } else {
                            MessageLevel::Log
                        },
                        message,
                    ),
                ),
                None => None,
            },
            _ => None,
        },
        None => None,
    }
}

/// A show-message notification, as `show_message_of`.
pub fn parse_show_message(value: &JsonValue) -> (r: Option<(MessageLevel, String)>)
    ensures
        r.deep_view() == show_message_of(value.model()),
{
    let params = match value.get("params") {
        Some(p) => p,
        None => return None,
    };
    let n = match params.get("type") {
        Some(t) => match t.as_u64() {
            Some(n) => n,
            None => return None,
        },
        None => return None,
    };
    let message = match str_member(params, "message") {
        Some(m) => m,
        None => return None,
    };
    let level = match n {
        1 => MessageLevel::Error,
        2 => MessageLevel::Warning,
        3 => MessageLevel::Info,
        4 => MessageLevel::Log,
        _ => MessageLevel::Log,
    };
    Some((level, message))
}

/// A completion result reads the same whether the server sends the items
/// as a bare array or as a completion list holding them (whatever its
/// `isIncomplete`); `null` gives no items.
pub proof fn lemma_completion_shapes_agree(items: Seq<Json>, incomplete: bool)
    ensures
        completions_of(Json::Array(items)) == completions_of(
            Json::Object(seq![("isIncomplete"@, Json::Bool(incomplete)), ("items"@, Json::Array(items))]),
        ),
        completions_of(Json::Null).len() == 0,
{
    reveal_strlit("isIncomplete");
    reveal_strlit("items");
    let m = seq![("isIncomplete"@, Json::Bool(incomplete)), ("items"@, Json::Array(items))];
    assert(m[0].0 != "items"@) by {
        assert(m[0].0.len() != "items"@.len());
    }
    assert(m[1].0 == "items"@);
    assert(lookup_from(m, "items"@, 2) is None);
    assert(lookup_from(m, "items"@, 1) == Some(Json::Array(items)));
    assert(lookup_from(m, "items"@, 0) == Some(Json::Array(items)));
}


/// A diagnostic's wire severity is read as the severity with that wire
/// number (LSP: 1 error, 2 warning, 3 information, 4 hint): whenever a
/// diagnostic object parses and its `severity` is one of 1 to 4, the parsed
/// severity's wire number is that number.
pub proof fn lemma_wire_severity_read_back(d: Json, n: u64)
    requires
        1 <= n <= 4,
        get(d, "severity"@) == Some(Json::Number(NumberModel::PosInt(n))),
        diagnostic_of(d) is Some,
    ensures
        match diagnostic_of(d) {
            Some(v) => severity_number(v.4) == n,
            None => false,
        },
{
}

/// Each severity written as its wire number reads back as itself.
pub proof fn lemma_severity_number_read_back(sev: DiagnosticSeverity)
    ensures
        severity_of(Some(Json::Number(NumberModel::PosInt(severity_number(sev))))) == sev,
{
}

/// An inlay-hint or semantic-tokens-range request asks for the lines it
/// names: reading its message's `params.range` back gives a range from
/// column 0 of `start_line` to column 0 of `end_line`.
pub proof fn lemma_line_range_read_back(
    req: LspRequest,
    wire: u64,
    uri: Seq<char>,
    process_id: u32,
    version: Seq<char>,
)
    requires
        req is InlayHint || req is SemanticTokensRange,
    ensures
        ({
            let params = get(request_json(req, wire, uri, process_id, version), "params"@);
            let range = get_opt(params, "range"@);
            &&& range is Some
            &&& match req {
                LspRequest::InlayHint { start_line, end_line, .. } => range_of(range->0) == Some(
                    (start_line, 0u32, end_line, 0u32),
                ),
                LspRequest::SemanticTokensRange { start_line, end_line, .. } => range_of(range->0)
                    == Some((start_line, 0u32, end_line, 0u32)),
                _ => false,
            }
        }),
{
    reveal_strlit("jsonrpc");
    reveal_strlit("id");
    reveal_strlit("method");
    reveal_strlit("params");
    reveal_strlit("textDocument");
    reveal_strlit("range");
    reveal_strlit("start");
    reveal_strlit("end");
    reveal_strlit("line");
    reveal_strlit("character");
    assert("jsonrpc"@.len() == 7 && "id"@.len() == 2 && "method"@.len() == 6 && "params"@.len() == 6
        && "textDocument"@.len() == 12 && "range"@.len() == 5 && "start"@.len() == 5
        && "end"@.len() == 3 && "line"@.len() == 4 && "character"@.len() == 9);
    assert("method"@[0] != "params"@[0]);
    let (sl, el) = match req {
        LspRequest::InlayHint { start_line, end_line, .. } => (start_line, end_line),
        LspRequest::SemanticTokensRange { start_line, end_line, .. } => (start_line, end_line),
        _ => (0u32, 0u32),
    };
    let p = crate::lsp::encode::lines_params(uri, sl, el);
    let rj = crate::lsp::encode::range_json(sl, 0, el, 0);
    let m = request_json(req, wire, uri, process_id, version);
    assert(m == crate::lsp::encode::message_json(
        Some(wire),
        crate::lsp::encode::method_of(req),
        p,
    ));
    assert(get(m, "params"@) == Some(p)) by {
        reveal_with_fuel(lookup_from, 5);
    }
    assert(get(p, "range"@) == Some(rj)) by {
        reveal_with_fuel(lookup_from, 3);
    }
    let sj = crate::lsp::encode::position_json(sl, 0);
    let ej = crate::lsp::encode::position_json(el, 0);
    assert(get(rj, "start"@) == Some(sj)) by {
        reveal_with_fuel(lookup_from, 3);
    }
    assert(get(rj, "end"@) == Some(ej)) by {
        reveal_with_fuel(lookup_from, 3);
    }
    assert(position_of(sj) == Some((sl, 0u32))) by {
        reveal_with_fuel(lookup_from, 3);
    }
    assert(position_of(ej) == Some((el, 0u32))) by {
        reveal_with_fuel(lookup_from, 3);
    }
}

} // verus!
