use std::collections::HashMap;

use blue_ide::lsp::encode::{encode_request, path_to_uri, EncodeError, WireIds};
use blue_ide::lsp::json::{clone_json, JsonNumber, JsonValue};
use blue_ide::lsp::parse::{
    format_hover_content_piece, hover_markup_content_object, hover_marked_string_object,
    hover_string_content, join_hover_content_pieces, normalize_hover_line_breaks,
    parse_completion_items, parse_hover_content,
};
use blue_ide::lsp::session::{OnWriteFailure, Transport, TransportAction, TransportEvent};
use blue_ide::lsp::transport::{
    frame_message, parse_lsp_message, FrameCursor, FrameError, Legends, ParsedMessage, RequestKind,
};
use blue_ide::lsp::types::{DiagnosticSeverity, LspRequest, LspResponse};

const CWD: &str = "/work/blue";

fn to_json(v: &serde_json::Value) -> JsonValue {
    match v {
        serde_json::Value::Null => JsonValue::Null,
        serde_json::Value::Bool(b) => JsonValue::Bool(*b),
        serde_json::Value::Number(n) => match (n.as_u64(), n.as_i64()) {
            (Some(u), _) => JsonValue::Number(JsonNumber::PosInt(u)),
            (None, Some(i)) => JsonValue::Number(JsonNumber::NegInt(i)),
            _ => JsonValue::Number(JsonNumber::Float(n.to_string())),
        },
        serde_json::Value::String(s) => JsonValue::String(s.clone()),
        serde_json::Value::Array(a) => JsonValue::Array(a.iter().map(to_json).collect()),
        serde_json::Value::Object(m) => {
            JsonValue::Object(m.iter().map(|(k, v)| (k.clone(), to_json(v))).collect())
        }
    }
}

fn to_value(v: &JsonValue) -> serde_json::Value {
    match v {
        JsonValue::Null => serde_json::Value::Null,
        JsonValue::Bool(b) => serde_json::Value::Bool(*b),
        JsonValue::Number(JsonNumber::PosInt(u)) => serde_json::Value::from(*u),
        JsonValue::Number(JsonNumber::NegInt(i)) => serde_json::Value::from(*i),
        JsonValue::Number(JsonNumber::Float(text)) => serde_json::from_str::<serde_json::Number>(text)
            .map(serde_json::Value::Number)
            .unwrap_or(serde_json::Value::Null),
        JsonValue::String(s) => serde_json::Value::String(s.clone()),
        JsonValue::Array(a) => serde_json::Value::Array(a.iter().map(to_value).collect()),
        JsonValue::Object(m) => {
            let mut map = serde_json::Map::new();
            for (k, v) in m {
                map.insert(k.clone(), to_value(v));
            }
            serde_json::Value::Object(map)
        }
    }
}

/// A JSON value from its text.
fn j(text: &str) -> JsonValue {
    to_json(&serde_json::from_str::<serde_json::Value>(text).expect("test JSON"))
}

/// The JSON text of a value.
fn text_of(v: &JsonValue) -> String {
    serde_json::to_string(&to_value(v)).unwrap()
}

/// Values that can stand inside a JSON text.
trait JsonText {
    fn json_text(&self) -> String;
}

impl JsonText for str {
    fn json_text(&self) -> String {
        serde_json::to_string(self).unwrap()
    }
}

impl JsonText for String {
    fn json_text(&self) -> String {
        serde_json::to_string(self).unwrap()
    }
}

impl JsonText for &str {
    fn json_text(&self) -> String {
        serde_json::to_string(*self).unwrap()
    }
}

impl JsonText for u64 {
    fn json_text(&self) -> String {
        self.to_string()
    }
}

impl JsonText for JsonValue {
    fn json_text(&self) -> String {
        text_of(self)
    }
}

fn jt<T: JsonText + ?Sized>(v: &T) -> String {
    v.json_text()
}

/// Parses one inbound message given as JSON.
fn parse(message: &JsonValue, pending: &mut HashMap<u64, RequestKind>) -> ParsedMessage {
    parse_lsp_message(Some(message), pending, &mut Legends::new())
}

/// Parses one inbound message body given as text (`None` when it is not JSON).
fn parse_text(body: &str, pending: &mut HashMap<u64, RequestKind>) -> ParsedMessage {
    let value = serde_json::from_str::<serde_json::Value>(body).ok().map(|v| to_json(&v));
    parse_lsp_message(value.as_ref(), pending, &mut Legends::new())
}

/// Encodes a request from the working directory `CWD`.
fn encode(
    request: LspRequest,
    ids: &mut WireIds,
) -> Result<(serde_json::Value, Option<(u64, RequestKind)>), EncodeError> {
    let cwd = Some(CWD.to_owned());
    encode_request(request, ids, &cwd, 4242, "0.1.0").map(|(m, k)| (to_value(&m), k))
}

/// A path under `CWD`.
fn cwd_path(relative: &str) -> String {
    format!("{CWD}/{relative}")
}

/// The URI of a path.
fn uri_of(path: &str) -> String {
    path_to_uri(path, &Some(CWD.to_owned())).unwrap()
}

fn write_message(out: &mut Vec<u8>, body: &str) -> Result<(), FrameError> {
    out.extend(frame_message(body));
    Ok(())
}

fn write_json(out: &mut Vec<u8>, value: &JsonValue) -> Result<(), FrameError> {
    write_message(out, &text_of(value))
}

fn read_frame(cursor: &mut FrameCursor) -> Result<Option<String>, FrameError> {
    cursor.read_frame()
}

#[test]
fn framing_uses_utf8_byte_length_and_accepts_extra_headers() {
    let body = r#"{"message":"é"}"#;
    let mut bytes = Vec::new();
    write_message(&mut bytes, body).unwrap();
    let text = String::from_utf8_lossy(&bytes);
    assert!(text.starts_with(&format!("Content-Length: {}", body.len())));

    let framed = format!(
        "Content-Length: {}\r\nContent-Type: application/vscode-jsonrpc\r\n\r\n{}",
        body.len(),
        body
    );
    assert_eq!(
        read_frame(&mut FrameCursor::new(framed.into_bytes())).unwrap(),
        Some(body.to_owned())
    );
}

#[test]
fn utf8_framing_behavior_remains_unchanged() {
    let unicode_body = r#"{"jsonrpc":"2.0","result":{"contents":"café 🙂 日本"}}"#;
    assert_ne!(unicode_body.len(), unicode_body.chars().count());

    let mut out = Vec::new();
    write_message(&mut out, unicode_body).unwrap();
    let framed = String::from_utf8(out).unwrap();
    let (header, body) = framed.split_once("\r\n\r\n").expect("CRLF frame separator");
    assert_eq!(header, format!("Content-Length: {}", unicode_body.len()));
    assert_eq!(body, unicode_body);

    assert_eq!(
        read_frame(&mut FrameCursor::new(framed.into_bytes())).unwrap(),
        Some(unicode_body.to_owned())
    );

    let framed_with_extra = format!(
        "Content-Length: {}\r\nContent-Type: application/vscode-jsonrpc\r\nX-Custom: ignored\r\n\r\n{}",
        unicode_body.len(),
        unicode_body
    );
    assert_eq!(
        read_frame(&mut FrameCursor::new(framed_with_extra.into_bytes())).unwrap(),
        Some(unicode_body.to_owned())
    );

    let value = j(r#"{"message": "é"}"#);
    let json_body = text_of(&value);
    let mut json_out = Vec::new();
    write_json(&mut json_out, &value).unwrap();
    let json_framed = String::from_utf8(json_out).unwrap();
    let (json_header, json_payload) = json_framed.split_once("\r\n\r\n").unwrap();
    assert_eq!(json_header, format!("Content-Length: {}", json_body.len()));
    assert_eq!(json_payload, json_body);

    let invalid = b"Content-Length: 2\r\n\r\n\xff\xfe";
    assert!(read_frame(&mut FrameCursor::new(invalid.to_vec())).is_err());

    let first = r#"{"jsonrpc":"2.0","id":1}"#;
    let second = r#"{"jsonrpc":"2.0","id":2,"text":"🙂"}"#;
    let mut dual = Vec::new();
    write_message(&mut dual, first).unwrap();
    write_message(&mut dual, second).unwrap();
    let mut reader = FrameCursor::new(dual);
    assert_eq!(read_frame(&mut reader).unwrap(), Some(first.to_owned()));
    assert_eq!(read_frame(&mut reader).unwrap(), Some(second.to_owned()));
    assert_eq!(read_frame(&mut reader).unwrap(), None);
}

#[test]
fn did_change_encodes_full_document_and_monotonic_wire_ids() {
    let mut ids = WireIds { next: 1 };
    let path = cwd_path("src/main.rs");
    let (change, pending) = encode(
        LspRequest::DidChange {
            path: path.clone(),
            text: "fn main() {}".to_owned(),
            version: 7,
        },
        &mut ids,
    )
    .unwrap();
    assert!(pending.is_none());
    assert_eq!(
        change["params"]["contentChanges"][0]["text"],
        "fn main() {}"
    );
    assert_eq!(change["params"]["textDocument"]["version"], 7);

    let (_, first) = encode(
        LspRequest::Hover {
            path: path.clone(),
            line: 1,
            col: 2,
            id: 40,
        },
        &mut ids,
    )
    .unwrap();
    let (_, second) = encode(
        LspRequest::Completion {
            path,
            line: 1,
            col: 2,
            id: 41,
        },
        &mut ids,
    )
    .unwrap();
    assert!(first.unwrap().0 < second.unwrap().0);
}

#[test]
fn malformed_messages_are_ignored_and_diagnostics_are_mapped() {
    let mut pending = HashMap::new();
    assert!(matches!(
        parse_text("not json", &mut pending),
        ParsedMessage::Ignored
    ));

    let path = cwd_path("src/main.rs");
    let uri = uri_of(&path);
    let message = j(&format!(r#"{{
        "jsonrpc": "2.0",
        "method": "textDocument/publishDiagnostics",
        "params": {{
            "uri": {},
            "diagnostics": [{{
                "range": {{
                    "start": {{"line": 2, "character": 3}},
                    "end": {{"line": 2, "character": 8}}
                }},
                "severity": 1,
                "message": "expected expression",
                "code": "E0001"
            }}]
        }}
    }}"#, jt(&uri)));
    let ParsedMessage::Response(LspResponse::Diagnostics { diagnostics, .. }) =
        parse(&message, &mut pending)
    else {
        panic!("expected diagnostics");
    };
    assert_eq!(diagnostics.len(), 1);
    assert_eq!(diagnostics[0].severity, DiagnosticSeverity::Error);
    assert_eq!(diagnostics[0].code.as_deref(), Some("E0001"));
}

#[test]
fn completion_items_parse_text_edit_and_numeric_kinds() {
    let mut pending = HashMap::from([(3, RequestKind::Completion(7))]);
    let message = j(r#"{"jsonrpc": "2.0", "id": 3, "result": {"items": [{"label": "println!", "kind": 3, "detail": "macro", "textEdit": {"range": {"start": {"line": 1, "character": 4}, "end": {"line": 1, "character": 4}}, "newText": "println!(\"{}\", )"}}]}}"#);
    let ParsedMessage::Response(LspResponse::CompletionList { id, items }) =
        parse(&message, &mut pending)
    else {
        panic!("expected completion response");
    };
    assert_eq!(id, 7);
    assert_eq!(items[0].kind.as_deref(), Some("Function"));
    let edit = items[0].text_edit.as_ref().expect("textEdit");
    assert_eq!(edit.new_text, "println!(\"{}\", )");
    assert_eq!(edit.line_start, 1);
    assert_eq!(edit.col_start, 4);
}

#[test]
fn completion_null_result_parses_to_empty_list() {
    let mut pending = HashMap::from([(4, RequestKind::Completion(5))]);
    let message = j(r#"{"jsonrpc": "2.0", "id": 4, "result": null}"#);
    let ParsedMessage::Response(LspResponse::CompletionList { id, items }) =
        parse(&message, &mut pending)
    else {
        panic!("expected completion response");
    };
    assert_eq!(id, 5);
    assert!(items.is_empty());
}

fn sample_completion_item_json() -> JsonValue {
    j(r#"{"label": "main", "kind": 3, "detail": "fn", "insertText": "main"}"#)
}

#[test]
fn completion_list_and_direct_array_wire_shapes_stay_equivalent() {
    let item = sample_completion_item_json();
    let from_array = parse_completion_items(&j(&format!(r#"[{}]"#, jt(&item))));
    let from_list = parse_completion_items(&j(&format!(r#"{{
        "isIncomplete": true,
        "items": [{}]
    }}"#, jt(&item))));
    assert_eq!(from_array, from_list);
    assert_eq!(from_array[0].label, "main");
    assert_eq!(from_array[0].kind.as_deref(), Some("Function"));
    assert_eq!(from_array[0].detail.as_deref(), Some("fn"));
    assert_eq!(from_array[0].insert_text.as_deref(), Some("main"));
}

#[test]
fn completion_list_and_direct_array_results_parse_correctly() {
    let items = j(r#"[{"label": "main", "kind": 3, "detail": "fn", "insertText": "main"}, {"label": "Vec::new", "kind": 2, "detail": "assoc fn", "textEdit": {"range": {"start": {"line": 0, "character": 0}, "end": {"line": 0, "character": 0}}, "newText": "Vec::new()"}}]"#);

    let mut direct_array_pending = HashMap::from([(7, RequestKind::Completion(101))]);
    let direct_array_message = j(&format!(r#"{{
        "jsonrpc": "2.0",
        "id": 7,
        "result": {}
    }}"#, jt(&items)));
    let ParsedMessage::Response(LspResponse::CompletionList {
        id: direct_id,
        items: direct_items,
    }) = parse(&direct_array_message, &mut direct_array_pending)
    else {
        panic!("expected direct-array completion response");
    };
    assert_eq!(direct_id, 101);
    assert!(direct_array_pending.is_empty());

    let mut completion_list_pending = HashMap::from([(8, RequestKind::Completion(102))]);
    let completion_list_message = j(&format!(r#"{{
        "jsonrpc": "2.0",
        "id": 8,
        "result": {{
            "isIncomplete": true,
            "items": {},
            "ignoredField": {{"nested": true}}
        }}
    }}"#, jt(&items)));
    let ParsedMessage::Response(LspResponse::CompletionList {
        id: list_id,
        items: list_items,
    }) = parse(&completion_list_message, &mut completion_list_pending)
    else {
        panic!("expected CompletionList completion response");
    };
    assert_eq!(list_id, 102);
    assert!(completion_list_pending.is_empty());

    assert_eq!(direct_items, list_items);
    assert_eq!(direct_items.len(), 2);
    assert_eq!(direct_items[0].label, "main");
    assert_eq!(direct_items[0].kind.as_deref(), Some("Function"));
    assert_eq!(direct_items[0].detail.as_deref(), Some("fn"));
    assert_eq!(direct_items[0].insert_text.as_deref(), Some("main"));
    assert_eq!(direct_items[1].label, "Vec::new");
    assert_eq!(direct_items[1].kind.as_deref(), Some("Method"));
    assert_eq!(direct_items[1].detail.as_deref(), Some("assoc fn"));
    assert_eq!(direct_items[1].insert_text.as_deref(), Some("Vec::new()"));
    let edit = direct_items[1].text_edit.as_ref().expect("textEdit");
    assert_eq!(edit.new_text, "Vec::new()");
}

#[test]
fn completion_bare_array_result_is_accepted() {
    let mut pending = HashMap::from([(6, RequestKind::Completion(8))]);
    let message = j(r#"{"jsonrpc": "2.0", "id": 6, "result": [{"label": "Vec", "kind": 7}]}"#);
    let ParsedMessage::Response(LspResponse::CompletionList { items, .. }) =
        parse(&message, &mut pending)
    else {
        panic!("expected completion response");
    };
    assert_eq!(items.len(), 1);
    assert_eq!(items[0].label, "Vec");
    assert_eq!(items[0].kind.as_deref(), Some("Class"));
    assert_eq!(items[0].insert_text.as_deref(), Some("Vec"));
}

#[test]
fn completion_insert_text_is_retained_separate_from_label_detail_and_text_edit() {
    let items = parse_completion_items(&j(r#"{"items": [{"label": "println!", "detail": "macro", "insertText": "println!(\"{}\", )", "textEdit": {"range": {"start": {"line": 0, "character": 0}, "end": {"line": 0, "character": 0}}, "newText": "println!()"}}]}"#));
    assert_eq!(items[0].label, "println!");
    assert_eq!(items[0].detail.as_deref(), Some("macro"));
    assert_eq!(items[0].insert_text.as_deref(), Some("println!(\"{}\", )"));
    assert_eq!(
        items[0]
            .text_edit
            .as_ref()
            .map(|edit| edit.new_text.as_str()),
        Some("println!()")
    );
}

#[test]
fn completion_empty_insert_text_is_retained_verbatim() {
    let items = parse_completion_items(&j(r#"{"items": [{"label": "noop", "insertText": ""}]}"#));
    assert_eq!(items[0].insert_text.as_deref(), Some(""));
}

#[test]
fn completion_label_is_retained_separate_from_insert_text() {
    let items = parse_completion_items(&j(r#"{"items": [{"label": "println!", "insertText": "println!(\"{}\", )"}]}"#));
    assert_eq!(items[0].label, "println!");
    assert_eq!(items[0].insert_text.as_deref(), Some("println!(\"{}\", )"));
}

#[test]
fn completion_label_is_retained_when_insert_text_falls_back_to_text_edit() {
    let items = parse_completion_items(&j(r#"{"items": [{"label": "println!", "textEdit": {"range": {"start": {"line": 0, "character": 0}, "end": {"line": 0, "character": 0}}, "newText": "println!(\"{}\", )"}}]}"#));
    assert_eq!(items[0].label, "println!");
    assert_eq!(items[0].insert_text.as_deref(), Some("println!(\"{}\", )"));
}

#[test]
fn completion_object_label_shape_retains_inner_label_string() {
    let items = parse_completion_items(&j(r#"{"items": [{"label": "plain"}, {"label": {"label": "from_object", "detail": "()"}}, {"label": {"detail": "no_inner_label"}}, {"kind": 3}]}"#));
    assert_eq!(items.len(), 2);
    assert_eq!(items[0].label, "plain");
    assert_eq!(items[1].label, "from_object");
    assert_eq!(items[1].detail.as_deref(), Some("()"));
}

#[test]
fn completion_kind_is_retained_separate_from_label_and_insert_text() {
    let items = parse_completion_items(&j(r#"{"items": [{"label": "println!", "kind": 3, "insertText": "println!(\"{}\", )"}]}"#));
    assert_eq!(items[0].label, "println!");
    assert_eq!(items[0].kind.as_deref(), Some("Function"));
    assert_eq!(items[0].insert_text.as_deref(), Some("println!(\"{}\", )"));
    assert!(items[0].detail.is_none());
}

#[test]
fn completion_string_kind_is_retained_verbatim() {
    let items = parse_completion_items(&j(r#"{"items": [{"label": "Vec", "kind": "Struct"}]}"#));
    assert_eq!(items[0].kind.as_deref(), Some("Struct"));
}

#[test]
fn completion_unknown_numeric_kind_maps_to_text() {
    let items = parse_completion_items(&j(r#"{"items": [{"label": "x", "kind": 99}]}"#));
    assert_eq!(items[0].kind.as_deref(), Some("Text"));
}

#[test]
fn completion_detail_is_retained_separate_from_label_and_insert_text() {
    let items = parse_completion_items(&j(r#"{"items": [{"label": "println!", "detail": "macro", "insertText": "println!(\"{}\", )"}]}"#));
    assert_eq!(items[0].label, "println!");
    assert_eq!(items[0].detail.as_deref(), Some("macro"));
    assert_eq!(items[0].insert_text.as_deref(), Some("println!(\"{}\", )"));
}

#[test]
fn completion_label_details_detail_and_description_are_retained() {
    let from_detail = parse_completion_items(&j(r#"{"items": [{"label": "main", "labelDetails": {"detail": "( )", "description": "src/main.rs"}}]}"#));
    assert_eq!(from_detail[0].detail.as_deref(), Some("( )"));

    let from_description = parse_completion_items(&j(r#"{"items": [{"label": "main", "labelDetails": {"description": "src/main.rs"}}]}"#));
    assert_eq!(from_description[0].detail.as_deref(), Some("src/main.rs"));
}

#[test]
fn completion_insert_replace_edit_uses_insert_range_for_insertion() {
    let mut pending = HashMap::from([(10, RequestKind::Completion(12))]);
    let message = j(r#"{"jsonrpc": "2.0", "id": 10, "result": {"items": [{"label": "main", "textEdit": {"newText": "main", "insert": {"start": {"line": 0, "character": 3}, "end": {"line": 0, "character": 3}}, "replace": {"start": {"line": 0, "character": 0}, "end": {"line": 0, "character": 5}}}}]}}"#);
    let ParsedMessage::Response(LspResponse::CompletionList { items, .. }) =
        parse(&message, &mut pending)
    else {
        panic!("expected completion response");
    };
    let edit = items[0].text_edit.as_ref().expect("textEdit");
    assert_eq!(edit.new_text, "main");
    assert_eq!(edit.line_start, 0);
    assert_eq!(edit.col_start, 3);
    assert_eq!(edit.line_end, 0);
    assert_eq!(edit.col_end, 3);
    assert_eq!(items[0].insert_text.as_deref(), Some("main"));
}

#[test]
fn completion_insert_text_falls_back_to_label_when_absent() {
    let items = parse_completion_items(&j(r#"{"items": [{"label": "main", "kind": 3}]}"#));
    assert_eq!(items[0].label, "main");
    assert_eq!(items[0].insert_text.as_deref(), Some("main"));
    assert!(items[0].text_edit.is_none());
}

#[test]
fn completion_insert_text_fallback_prefers_text_edit_over_label() {
    let items = parse_completion_items(&j(r#"{"items": [{"label": "println!", "textEdit": {"range": {"start": {"line": 0, "character": 0}, "end": {"line": 0, "character": 0}}, "newText": "println!()"}}]}"#));
    assert_eq!(items[0].label, "println!");
    assert_eq!(items[0].insert_text.as_deref(), Some("println!()"));
}

#[test]
fn completion_insert_text_falls_back_to_text_edit_new_text() {
    let items = parse_completion_items(&j(r#"{"items": [{"label": "println!", "textEdit": {"range": {"start": {"line": 0, "character": 0}, "end": {"line": 0, "character": 0}}, "newText": "println!()"}}]}"#));
    assert_eq!(items[0].insert_text.as_deref(), Some("println!()"));
    assert!(items[0].text_edit.is_some());
}

#[test]
fn completion_insert_text_format_is_not_interpreted() {
    let mut pending = HashMap::from([(8, RequestKind::Completion(11))]);
    let message = j(r#"{"jsonrpc": "2.0", "id": 8, "result": {"items": [{"label": "for", "kind": 15, "insertText": "for ${1:i} in ${2:iter} {}", "insertTextFormat": 2}]}}"#);
    let ParsedMessage::Response(LspResponse::CompletionList { items, .. }) =
        parse(&message, &mut pending)
    else {
        panic!("expected completion response");
    };
    assert_eq!(
        items[0].insert_text.as_deref(),
        Some("for ${1:i} in ${2:iter} {}")
    );
    assert!(items[0].text_edit.is_none());
}

#[test]
fn completion_text_edit_snippet_syntax_is_retained_not_expanded() {
    let items = parse_completion_items(&j(r#"{"items": [{"label": "for loop", "insertTextFormat": 2, "textEdit": {"range": {"start": {"line": 0, "character": 0}, "end": {"line": 0, "character": 0}}, "newText": "for ${1:i} in ${2:iter} {}"}}]}"#));
    let edit = items[0].text_edit.as_ref().expect("textEdit");
    assert_eq!(edit.new_text, "for ${1:i} in ${2:iter} {}");
    assert_eq!(
        items[0].insert_text.as_deref(),
        Some("for ${1:i} in ${2:iter} {}")
    );
}

#[test]
fn completion_additional_text_edits_are_not_modeled() {
    let items = parse_completion_items(&j(r#"{"items": [{"label": "use", "textEdit": {"range": {"start": {"line": 0, "character": 0}, "end": {"line": 0, "character": 0}}, "newText": "use std::io;"}, "additionalTextEdits": [{"range": {"start": {"line": 1, "character": 0}, "end": {"line": 1, "character": 0}}, "newText": "\n"}]}]}"#));
    assert_eq!(items.len(), 1);
    assert_eq!(
        items[0]
            .text_edit
            .as_ref()
            .map(|edit| edit.new_text.as_str()),
        Some("use std::io;")
    );
}

// Hover parsing regressions — run: cargo test --lib lsp::transport::tests::hover

#[test]
fn hover_unit_normalize_line_breaks_handles_cr_crlf_and_paragraphs() {
    assert_eq!(normalize_hover_line_breaks("a\r\nb"), "a\nb");
    assert_eq!(normalize_hover_line_breaks("a\rb"), "a\nb");
    assert_eq!(normalize_hover_line_breaks("a\n\nb"), "a\n\nb");
    assert_eq!(hover_string_content("x\r\ny"), "x\ny");
}

#[test]
fn hover_unit_join_pieces_inserts_separator_only_when_needed() {
    assert_eq!(join_hover_content_pieces(&[]), "");
    assert_eq!(join_hover_content_pieces(&["one".to_owned()]), "one");
    assert_eq!(
        join_hover_content_pieces(&["one".to_owned(), "two".to_owned()]),
        "one\ntwo"
    );
    assert_eq!(
        join_hover_content_pieces(&["line\n".to_owned(), "next".to_owned()]),
        "line\nnext"
    );
    assert_eq!(
        join_hover_content_pieces(&["one".to_owned(), "\ntwo".to_owned()]),
        "one\ntwo"
    );
}

#[test]
fn hover_unit_format_content_piece_dispatches_element_shapes() {
    assert_eq!(
        format_hover_content_piece(&j(r#""plain""#)),
        Some("plain".to_owned())
    );
    assert_eq!(
        format_hover_content_piece(&j(r#"{"language": "rust", "value": "fn main() {}"}"#)),
        Some("```rust\nfn main() {}\n```".to_owned())
    );
    assert_eq!(
        format_hover_content_piece(&j(r#"{"kind": "markdown", "value": "docs"}"#)),
        Some("docs".to_owned())
    );
    assert!(format_hover_content_piece(&JsonValue::Null).is_none());
    assert!(format_hover_content_piece(&j(r#"{"language": "rust"}"#)).is_none());
}

#[test]
fn hover_unit_object_helpers_reject_invalid_maps() {
    let empty = JsonValue::Object(Vec::new());
    assert!(hover_marked_string_object(&empty).is_none());
    assert!(hover_markup_content_object(&empty).is_none());

    let marked_without_value = j(r#"{"language": "rust"}"#);
    assert!(hover_marked_string_object(&marked_without_value).is_none());

    let markup_without_value = j(r#"{"kind": "markdown"}"#);
    assert!(hover_markup_content_object(&markup_without_value).is_none());
}

#[test]
fn hover_response_parses_marked_string_blocks() {
    let mut pending = HashMap::from([(4, RequestKind::Hover(9))]);
    let message = j(r#"{"jsonrpc": "2.0", "id": 4, "result": {"contents": [{"language": "rust", "value": "fn main() {}"}, "plain docs"]}}"#);
    let ParsedMessage::Response(LspResponse::HoverResult { id, content }) =
        parse(&message, &mut pending)
    else {
        panic!("expected hover response");
    };
    assert_eq!(id, 9);
    assert!(content.contains("```rust\nfn main() {}\n```"));
    assert!(content.contains("plain docs"));
}

#[test]
fn hover_response_preserves_multiline_markup_content() {
    let mut pending = HashMap::from([(8, RequestKind::Hover(22))]);
    let message = j(r#"{"jsonrpc": "2.0", "id": 8, "result": {"contents": {"kind": "markdown", "value": "Returns the length.\n\n# Examples\n\n```rust\nlet v = vec![1];\n```"}}}"#);
    let ParsedMessage::Response(LspResponse::HoverResult { id, content }) =
        parse(&message, &mut pending)
    else {
        panic!("expected hover response");
    };
    assert_eq!(id, 22);
    assert!(content.contains("Returns the length.\n\n# Examples"));
    assert!(content.contains("let v = vec![1];"));
}

#[test]
fn hover_response_preserves_multiline_rust_signature() {
    let mut pending = HashMap::from([(9, RequestKind::Hover(23))]);
    let message = j(r#"{"jsonrpc": "2.0", "id": 9, "result": {"contents": {"language": "rust", "value": "pub fn foo<T>(\n    value: T,\n) -> T"}}}"#);
    let ParsedMessage::Response(LspResponse::HoverResult { id, content }) =
        parse(&message, &mut pending)
    else {
        panic!("expected hover response");
    };
    assert_eq!(id, 23);
    assert!(content.contains("pub fn foo<T>(\n    value: T,\n) -> T"));
}

#[test]
fn hover_response_joins_array_pieces_without_extra_blank_lines() {
    let mut pending = HashMap::from([(10, RequestKind::Hover(24))]);
    let message = j(r#"{"jsonrpc": "2.0", "id": 10, "result": {"contents": [{"language": "rust", "value": "fn main() {}"}, "Returns nothing.\n", "Additional detail."]}}"#);
    let ParsedMessage::Response(LspResponse::HoverResult { id, content }) =
        parse(&message, &mut pending)
    else {
        panic!("expected hover response");
    };
    assert_eq!(id, 24);
    assert!(content.contains("```rust\nfn main() {}\n```\nReturns nothing."));
    assert!(!content.contains("Returns nothing.\n\nAdditional"));
}

#[test]
fn hover_response_normalizes_crlf_line_endings() {
    let mut pending = HashMap::from([(11, RequestKind::Hover(25))]);
    let message = j(r#"{"jsonrpc": "2.0", "id": 11, "result": {"contents": "line one\r\nline two\r\n\r\nline four"}}"#);
    let ParsedMessage::Response(LspResponse::HoverResult { id, content }) =
        parse(&message, &mut pending)
    else {
        panic!("expected hover response");
    };
    assert_eq!(id, 25);
    assert_eq!(content, "line one\nline two\n\nline four");
}

#[test]
fn hover_response_parses_markup_content() {
    let mut pending = HashMap::from([(7, RequestKind::Hover(21))]);
    let message = j(r#"{"jsonrpc": "2.0", "id": 7, "result": {"contents": {"kind": "markdown", "value": "**Parameters**\n\n- `x`: the input"}}}"#);
    let ParsedMessage::Response(LspResponse::HoverResult { id, content }) =
        parse(&message, &mut pending)
    else {
        panic!("expected hover response");
    };
    assert_eq!(id, 21);
    assert!(content.contains("**Parameters**"));
    assert!(content.contains("`x`"));
}

#[test]
fn hover_wire_parse_returns_string_contents_without_display_filtering() {
    let mut pending = HashMap::from([(12, RequestKind::Hover(26))]);
    let raw_json = "{\"kind\":\"markdown\",\"value\":\"hello\"}";
    let message = j(&format!(r#"{{
        "jsonrpc": "2.0",
        "id": 12,
        "result": {{ "contents": {} }}
    }}"#, jt(&raw_json)));
    let ParsedMessage::Response(LspResponse::HoverResult { id, content }) =
        parse(&message, &mut pending)
    else {
        panic!("expected hover response");
    };
    assert_eq!(id, 26);
    assert_eq!(content, raw_json);
}

#[test]
fn hover_wire_parse_preserves_leaked_lsp_wire_json_strings() {
    let mut pending = HashMap::from([(13, RequestKind::Hover(27))]);
    let leaked = "{\"jsonrpc\":\"2.0\",\"id\":1,\"result\":{\"contents\":\"docs\"}}";
    let message = j(&format!(r#"{{
        "jsonrpc": "2.0",
        "id": 13,
        "result": {{ "contents": {} }}
    }}"#, jt(&leaked)));
    let ParsedMessage::Response(LspResponse::HoverResult { id, content }) =
        parse(&message, &mut pending)
    else {
        panic!("expected hover response");
    };
    assert_eq!(id, 27);
    assert_eq!(content, leaked);
}

#[test]
fn hover_wire_parse_preserves_rust_debug_formatted_strings() {
    let mut pending = HashMap::from([(14, RequestKind::Hover(28))]);
    let debug_text = "Some(\"documentation\")";
    let message = j(&format!(r#"{{
        "jsonrpc": "2.0",
        "id": 14,
        "result": {{ "contents": {} }}
    }}"#, jt(&debug_text)));
    let ParsedMessage::Response(LspResponse::HoverResult { id, content }) =
        parse(&message, &mut pending)
    else {
        panic!("expected hover response");
    };
    assert_eq!(id, 28);
    assert_eq!(content, debug_text);
}

#[test]
fn hover_response_keeps_markdown_with_braces_in_code_fence() {
    let mut pending = HashMap::from([(15, RequestKind::Hover(29))]);
    let message = j(r#"{"jsonrpc": "2.0", "id": 15, "result": {"contents": "Returns nothing.\n\n```rust\nfn main() {}\n```"}}"#);
    let ParsedMessage::Response(LspResponse::HoverResult { id, content }) =
        parse(&message, &mut pending)
    else {
        panic!("expected hover response");
    };
    assert_eq!(id, 29);
    assert!(content.contains("fn main() {}"));
    assert!(!content.is_empty());
}

#[test]
fn hover_missing_contents_parses_to_empty_string() {
    let content = parse_hover_content(&j(r#"{}"#));
    assert!(content.is_empty());

    let mut pending = HashMap::from([(16, RequestKind::Hover(30))]);
    let message = j(r#"{"jsonrpc": "2.0", "id": 16, "result": {}}"#);
    let ParsedMessage::Response(LspResponse::HoverResult { id, content }) =
        parse(&message, &mut pending)
    else {
        panic!("expected hover response");
    };
    assert_eq!(id, 30);
    assert!(content.is_empty());
}

#[test]
fn hover_string_contents_are_retained_with_only_crlf_normalized() {
    let docs = "Returns nothing.\n\n```rust\nfn main() {}\n```";
    let wire = format!("line one\r\nline two\r\n\r\n{docs}");
    let content = parse_hover_content(&j(&format!(r#"{{ "contents": {} }}"#, jt(&wire))));
    assert_eq!(content, format!("line one\nline two\n\n{docs}"));

    let mut pending = HashMap::from([(18, RequestKind::Hover(32))]);
    let message = j(&format!(r#"{{
        "jsonrpc": "2.0",
        "id": 18,
        "result": {{ "contents": {} }}
    }}"#, jt(&docs)));
    let ParsedMessage::Response(LspResponse::HoverResult { id, content }) =
        parse(&message, &mut pending)
    else {
        panic!("expected string-contents hover response");
    };
    assert_eq!(id, 32);
    assert_eq!(content, docs);
    assert!(content.contains("```rust\nfn main() {}\n```"));
}

#[test]
fn hover_marked_string_object_fences_when_language_is_non_empty() {
    let body = "pub fn foo<T>(\n    value: T,\n) -> T";
    let from_top_level = parse_hover_content(&j(&format!(r#"{{
        "contents": {{ "language": "rust", "value": {} }}
    }}"#, jt(&body))));
    assert_eq!(from_top_level, format!("```rust\n{body}\n```"));

    let from_array = parse_hover_content(&j(&format!(r#"{{
        "contents": [{{ "language": "rust", "value": {} }}]
    }}"#, jt(&body))));
    assert_eq!(from_array, format!("```rust\n{body}\n```"));

    let mut pending = HashMap::from([(20, RequestKind::Hover(34))]);
    let message = j(&format!(r#"{{
        "jsonrpc": "2.0",
        "id": 20,
        "result": {{
            "contents": {{ "language": "rust", "value": {} }}
        }}
    }}"#, jt(&body)));
    let ParsedMessage::Response(LspResponse::HoverResult { id, content }) =
        parse(&message, &mut pending)
    else {
        panic!("expected marked-string hover response");
    };
    assert_eq!(id, 34);
    assert!(content.contains("pub fn foo<T>("));
}

#[test]
fn hover_marked_string_object_empty_language_returns_value_only() {
    let body = "plain docs\r\nsecond line";
    let content = parse_hover_content(&j(&format!(r#"{{
        "contents": {{ "language": "", "value": {} }}
    }}"#, jt(&body))));
    assert_eq!(content, "plain docs\nsecond line");
    assert!(!content.contains("```"));
}

#[test]
fn hover_marked_string_array_flattens_elements_in_wire_order() {
    let content = parse_hover_content(&j(r#"{"contents": ["summary line", {"language": "rust", "value": "fn main() {}"}, "footer"]}"#));
    assert_eq!(content, "summary line\n```rust\nfn main() {}\n```\nfooter");

    let mut pending = HashMap::from([(21, RequestKind::Hover(35))]);
    let message = j(r#"{"jsonrpc": "2.0", "id": 21, "result": {"contents": [{"language": "rust", "value": "fn main() {}"}, "plain docs"]}}"#);
    let ParsedMessage::Response(LspResponse::HoverResult { id, content }) =
        parse(&message, &mut pending)
    else {
        panic!("expected marked-string-array hover response");
    };
    assert_eq!(id, 35);
    assert!(content.starts_with("```rust\nfn main() {}\n```"));
    assert!(content.ends_with("plain docs"));
}

#[test]
fn hover_marked_string_array_empty_and_invalid_elements_are_handled() {
    assert_eq!(parse_hover_content(&j(r#"{"contents": []}"#)), "");

    let content = parse_hover_content(&j(r#"{"contents": ["kept", null, 42, {}, {"language": "rust", "value": "fn ok() {}"}]}"#));
    assert_eq!(content, "kept\n```rust\nfn ok() {}\n```");
}

#[test]
fn hover_markup_content_object_retains_value_without_rendering_kind() {
    let body = "**Parameters**\n\n- `x`: input\r\n- `y`: output";
    let expected = "**Parameters**\n\n- `x`: input\n- `y`: output";

    let from_top_level = parse_hover_content(&j(&format!(r#"{{
        "contents": {{ "kind": "markdown", "value": {} }}
    }}"#, jt(&body))));
    assert_eq!(from_top_level, expected);

    let from_plaintext = parse_hover_content(&j(r#"{"contents": {"kind": "plaintext", "value": "plain docs"}}"#));
    assert_eq!(from_plaintext, "plain docs");

    let from_array = parse_hover_content(&j(&format!(r#"{{
        "contents": [{{ "kind": "markdown", "value": {} }}]
    }}"#, jt(&body))));
    assert_eq!(from_array, expected);

    let mut pending = HashMap::from([(22, RequestKind::Hover(36))]);
    let message = j(r#"{"jsonrpc": "2.0", "id": 22, "result": {"contents": {"kind": "markdown", "value": "Returns the length.\n\n# Examples"}}}"#);
    let ParsedMessage::Response(LspResponse::HoverResult { id, content }) =
        parse(&message, &mut pending)
    else {
        panic!("expected markup-content hover response");
    };
    assert_eq!(id, 36);
    assert_eq!(content, "Returns the length.\n\n# Examples");
    assert!(!content.contains("kind"));
}

#[test]
fn hover_markup_content_object_empty_value_and_missing_value_are_handled() {
    assert_eq!(
        parse_hover_content(&j(r#"{"contents": {"kind": "markdown", "value": ""}}"#)),
        ""
    );
    assert_eq!(
        parse_hover_content(&j(r#"{"contents": {"kind": "markdown"}}"#)),
        ""
    );

    let from_array = parse_hover_content(&j(r#"{"contents": [{"kind": "markdown"}, {"kind": "markdown", "value": "kept"}]}"#));
    assert_eq!(from_array, "kept");
}

#[test]
fn hover_marked_string_object_is_distinct_from_markup_content() {
    let marked = parse_hover_content(&j(r#"{"contents": {"language": "rust", "value": "fn main() {}"}}"#));
    let markup = parse_hover_content(&j(r#"{"contents": {"kind": "markdown", "value": "fn main() {}"}}"#));
    assert_eq!(marked, "```rust\nfn main() {}\n```");
    assert_eq!(markup, "fn main() {}");
}

#[test]
fn hover_empty_string_contents_are_supported() {
    let content = parse_hover_content(&j(r#"{"contents": ""}"#));
    assert_eq!(content, "");

    let mut pending = HashMap::from([(19, RequestKind::Hover(33))]);
    let message = j(r#"{"jsonrpc": "2.0", "id": 19, "result": {"contents": ""}}"#);
    let ParsedMessage::Response(LspResponse::HoverResult { id, content }) =
        parse(&message, &mut pending)
    else {
        panic!("expected empty string-contents hover response");
    };
    assert_eq!(id, 33);
    assert!(content.is_empty());
}

#[test]
fn hover_contents_string_array_and_object_shapes_keep_working() {
    let plain = "plain documentation";
    let marked_body = "fn example() {}";
    let markup_body = "**Summary**\n\nDetails here.";

    let from_string = parse_hover_content(&j(&format!(r#"{{ "contents": {} }}"#, jt(&plain))));
    assert_eq!(from_string, plain);

    let from_array = parse_hover_content(&j(&format!(r#"{{
        "contents": [
            {},
            {{ "language": "rust", "value": {} }},
            {{ "kind": "markdown", "value": {} }}
        ]
    }}"#, jt(&plain), jt(&marked_body), jt(&markup_body))));
    assert!(from_array.starts_with(plain));
    assert!(from_array.contains(&format!("```rust\n{marked_body}\n```")));
    assert!(from_array.contains(markup_body));

    let from_marked_object = parse_hover_content(&j(&format!(r#"{{
        "contents": {{ "language": "rust", "value": {} }}
    }}"#, jt(&marked_body))));
    assert_eq!(from_marked_object, format!("```rust\n{marked_body}\n```"));

    let from_markup_object = parse_hover_content(&j(&format!(r#"{{
        "contents": {{ "kind": "markdown", "value": {} }}
    }}"#, jt(&markup_body))));
    assert_eq!(from_markup_object, markup_body);

    let mut pending = HashMap::from([(17, RequestKind::Hover(31))]);
    let message = j(&format!(r#"{{
        "jsonrpc": "2.0",
        "id": 17,
        "result": {{ "contents": {} }}
    }}"#, jt(&plain)));
    let ParsedMessage::Response(LspResponse::HoverResult { id, content }) =
        parse(&message, &mut pending)
    else {
        panic!("expected string-contents hover response");
    };
    assert_eq!(id, 31);
    assert_eq!(content, plain);
}

#[test]
fn hover_contents_wire_shapes_flatten_to_equivalent_marked_string() {
    let body = "fn main() {}";
    let from_string = parse_hover_content(&j(&format!(r#"{{ "contents": {} }}"#, jt(&body))));
    let from_marked = parse_hover_content(&j(&format!(r#"{{
        "contents": {{ "language": "rust", "value": {} }}
    }}"#, jt(&body))));
    let from_array = parse_hover_content(&j(&format!(r#"{{
        "contents": [{{ "language": "rust", "value": {} }}]
    }}"#, jt(&body))));

    assert_eq!(from_string, body);
    assert_eq!(from_marked, format!("```rust\n{body}\n```"));
    assert_eq!(from_array, format!("```rust\n{body}\n```"));
}

#[test]
fn hover_null_result_maps_to_empty_content() {
    assert!(parse_hover_content(&JsonValue::Null).is_empty());

    let mut pending = HashMap::from([(5, RequestKind::Hover(11))]);
    let message = j(r#"{"jsonrpc": "2.0", "id": 5, "result": null}"#);
    let ParsedMessage::Response(LspResponse::HoverResult { id, content }) =
        parse(&message, &mut pending)
    else {
        panic!("expected hover success response, not error");
    };
    assert_eq!(id, 11);
    assert!(content.is_empty());
    assert!(pending.is_empty());
}

#[test]
fn hover_string_marked_string_array_markup_content_and_null_results_parse_safely() {
    let plain = "summary documentation";
    let marked_body = "fn example() -> i32 { 0 }";
    let markup_body = "**Returns** the value.\n\n# Example";

    let mut string_pending = HashMap::from([(40, RequestKind::Hover(201))]);
    let string_message = j(&format!(r#"{{
        "jsonrpc": "2.0",
        "id": 40,
        "result": {{ "contents": {} }}
    }}"#, jt(&plain)));
    let ParsedMessage::Response(LspResponse::HoverResult { id, content }) =
        parse(&string_message, &mut string_pending)
    else {
        panic!("expected string-contents hover response");
    };
    assert_eq!(id, 201);
    assert_eq!(content, plain);
    assert!(string_pending.is_empty());

    let mut array_pending = HashMap::from([(41, RequestKind::Hover(202))]);
    let array_message = j(&format!(r#"{{
        "jsonrpc": "2.0",
        "id": 41,
        "result": {{
            "contents": [
                {},
                null,
                99,
                {{}},
                {{ "language": "rust", "value": {} }},
                {{ "kind": "markdown", "value": {} }}
            ]
        }}
    }}"#, jt(&plain), jt(&marked_body), jt(&markup_body)));
    let ParsedMessage::Response(LspResponse::HoverResult { id, content }) =
        parse(&array_message, &mut array_pending)
    else {
        panic!("expected marked-string-array hover response");
    };
    assert_eq!(id, 202);
    assert!(content.starts_with(plain));
    assert!(content.contains(&format!("```rust\n{marked_body}\n```")));
    assert!(content.contains(markup_body));
    assert!(array_pending.is_empty());

    let mut markup_pending = HashMap::from([(42, RequestKind::Hover(203))]);
    let markup_message = j(&format!(r#"{{
        "jsonrpc": "2.0",
        "id": 42,
        "result": {{
            "contents": {{ "kind": "markdown", "value": {} }}
        }}
    }}"#, jt(&markup_body)));
    let ParsedMessage::Response(LspResponse::HoverResult { id, content }) =
        parse(&markup_message, &mut markup_pending)
    else {
        panic!("expected markup-content hover response");
    };
    assert_eq!(id, 203);
    assert_eq!(content, markup_body);
    assert!(markup_pending.is_empty());

    let mut null_pending = HashMap::from([(43, RequestKind::Hover(204))]);
    let null_message = j(r#"{"jsonrpc": "2.0", "id": 43, "result": null}"#);
    let ParsedMessage::Response(LspResponse::HoverResult { id, content }) =
        parse(&null_message, &mut null_pending)
    else {
        panic!("expected null hover success response, not error");
    };
    assert_eq!(id, 204);
    assert!(content.is_empty());
    assert!(null_pending.is_empty());

    assert_eq!(parse_hover_content(&j(r#"{"contents": 42}"#)), "");
    assert_eq!(parse_hover_content(&j(r#"{"contents": true}"#)), "");
    assert_eq!(parse_hover_content(&j(r#"{}"#)), "");
}

#[test]
fn ui_correlation_ids_survive_independent_wire_id_mapping() {
    let mut wire_ids = WireIds { next: 50 };
    let path = "src/main.rs".to_owned();
    const UI_COMPLETION: u64 = 9_001;
    const UI_HOVER: u64 = 9_002;
    const UI_GOTO: u64 = 9_003;

    let (completion_req, completion_pending) = encode(
        LspRequest::Completion {
            path: path.clone(),
            line: 1,
            col: 2,
            id: UI_COMPLETION,
        },
        &mut wire_ids,
    )
    .unwrap();
    let completion_wire = completion_req["id"].as_u64().unwrap();
    assert_eq!(completion_wire, 50);
    assert_ne!(completion_wire, UI_COMPLETION);
    let (stored_wire, completion_kind) = completion_pending.unwrap();
    assert_eq!(stored_wire, completion_wire);
    assert!(matches!(
        completion_kind,
        RequestKind::Completion(UI_COMPLETION)
    ));

    let mut pending = HashMap::from([(completion_wire, completion_kind)]);
    let completion_message = j(&format!(r#"{{
        "jsonrpc": "2.0",
        "id": {},
        "result": [{{"label": "main", "kind": 3}}]
    }}"#, jt(&completion_wire)));
    let ParsedMessage::Response(LspResponse::CompletionList { id, items }) =
        parse(&completion_message, &mut pending)
    else {
        panic!("expected completion response");
    };
    assert_eq!(id, UI_COMPLETION);
    assert_eq!(items[0].label, "main");
    assert!(pending.is_empty());

    let (hover_req, hover_pending) = encode(
        LspRequest::Hover {
            path: path.clone(),
            line: 3,
            col: 4,
            id: UI_HOVER,
        },
        &mut wire_ids,
    )
    .unwrap();
    let hover_wire = hover_req["id"].as_u64().unwrap();
    assert_eq!(hover_wire, 51);
    assert_ne!(hover_wire, UI_HOVER);
    let (stored_wire, hover_kind) = hover_pending.unwrap();
    assert_eq!(stored_wire, hover_wire);
    assert!(matches!(hover_kind, RequestKind::Hover(UI_HOVER)));

    pending.insert(hover_wire, hover_kind);
    let hover_message = j(&format!(r#"{{
        "jsonrpc": "2.0",
        "id": {},
        "result": {{"contents": "hover docs"}}
    }}"#, jt(&hover_wire)));
    let ParsedMessage::Response(LspResponse::HoverResult { id, content }) =
        parse(&hover_message, &mut pending)
    else {
        panic!("expected hover response");
    };
    assert_eq!(id, UI_HOVER);
    assert_eq!(content, "hover docs");
    assert!(pending.is_empty());

    let (goto_req, goto_pending) = encode(
        LspRequest::GotoDefinition {
            path: path.clone(),
            line: 5,
            col: 6,
            id: UI_GOTO,
        },
        &mut wire_ids,
    )
    .unwrap();
    let goto_wire = goto_req["id"].as_u64().unwrap();
    assert_eq!(goto_wire, 52);
    assert_ne!(goto_wire, UI_GOTO);
    let (stored_wire, goto_kind) = goto_pending.unwrap();
    assert_eq!(stored_wire, goto_wire);
    assert!(matches!(goto_kind, RequestKind::GotoDefinition(UI_GOTO)));

    let goto_uri = uri_of(&path);
    pending.insert(goto_wire, goto_kind);
    let goto_message = j(&format!(r#"{{
        "jsonrpc": "2.0",
        "id": {},
        "result": {{
            "uri": {},
            "range": {{
                "start": {{"line": 7, "character": 8}},
                "end": {{"line": 7, "character": 12}}
            }}
        }}
    }}"#, jt(&goto_wire), jt(&goto_uri)));
    let ParsedMessage::Response(LspResponse::GotoResult { id, line, col, .. }) =
        parse(&goto_message, &mut pending)
    else {
        panic!("expected goto response");
    };
    assert_eq!(id, UI_GOTO);
    assert_eq!(line, 7);
    assert_eq!(col, 8);
    assert!(pending.is_empty());
}

#[test]
fn typed_responses_use_the_caller_correlation_id() {
    let mut pending = HashMap::from([(9, RequestKind::Completion(42))]);
    let message = j(r#"{"jsonrpc": "2.0", "id": 9, "result": {"items": [{"label": "println", "detail": "macro"}]}}"#);
    let ParsedMessage::Response(LspResponse::CompletionList { id, items }) =
        parse(&message, &mut pending)
    else {
        panic!("expected completion response");
    };
    assert_eq!(id, 42);
    assert_eq!(items[0].label, "println");
    assert!(pending.is_empty());
}

#[test]
fn completion_requests_use_text_document_completion() {
    let mut ids = WireIds { next: 10 };
    let path = "src/main.rs".to_owned();
    let (req, pending) = encode(
        LspRequest::Completion {
            path: path.clone(),
            line: 1,
            col: 4,
            id: 77,
        },
        &mut ids,
    )
    .unwrap();

    assert_eq!(req["jsonrpc"], "2.0");
    assert_eq!(req["method"], "textDocument/completion");
    assert_ne!(req["method"], "textDocument/hover");
    assert_ne!(req["method"], "textDocument/definition");
    assert_eq!(req["params"]["position"]["line"], 1);
    assert_eq!(req["params"]["position"]["character"], 4);
    assert!(req["params"]["textDocument"]["uri"].is_string());

    let (wire_id, kind) = pending.unwrap();
    assert_eq!(wire_id, 10);
    assert!(matches!(kind, RequestKind::Completion(77)));
}

#[test]
fn completion_request_encoding_preserves_caller_correlation_id() {
    let mut ids = WireIds { next: 10 };
    let path = "src/main.rs".to_owned();
    let (req, pending) = encode(
        LspRequest::Completion {
            path: path.clone(),
            line: 1,
            col: 4,
            id: 77,
        },
        &mut ids,
    )
    .unwrap();

    assert_eq!(req["method"], "textDocument/completion");
    let (wire_id, kind) = pending.unwrap();
    assert_eq!(wire_id, 10);
    assert!(matches!(kind, RequestKind::Completion(77)));
}

#[test]
fn completion_correlation_id_survives_bare_array_and_completion_list_shapes() {
    let bare_array = j(r#"{"jsonrpc": "2.0", "id": 3, "result": [{"label": "main", "kind": 3}]}"#);
    let mut bare_pending = HashMap::from([(3, RequestKind::Completion(88))]);
    let ParsedMessage::Response(LspResponse::CompletionList { id, items }) =
        parse(&bare_array, &mut bare_pending)
    else {
        panic!("expected bare-array completion response");
    };
    assert_eq!(id, 88);
    assert_eq!(items[0].label, "main");

    let completion_list = j(r#"{"jsonrpc": "2.0", "id": 4, "result": {"isIncomplete": true, "items": [{"label": "Vec", "kind": 7}]}}"#);
    let mut list_pending = HashMap::from([(4, RequestKind::Completion(89))]);
    let ParsedMessage::Response(LspResponse::CompletionList { id, items }) =
        parse(&completion_list, &mut list_pending)
    else {
        panic!("expected completion-list response");
    };
    assert_eq!(id, 89);
    assert_eq!(items[0].label, "Vec");
}

#[test]
fn completion_correlation_id_survives_null_and_error_results() {
    let mut null_pending = HashMap::from([(5, RequestKind::Completion(90))]);
    let null_message = j(r#"{"jsonrpc": "2.0", "id": 5, "result": null}"#);
    let ParsedMessage::Response(LspResponse::CompletionList { id, items }) =
        parse(&null_message, &mut null_pending)
    else {
        panic!("expected null completion response");
    };
    assert_eq!(id, 90);
    assert!(items.is_empty());

    let mut error_pending = HashMap::from([(6, RequestKind::Completion(91))]);
    let error_message = j(r#"{"jsonrpc": "2.0", "id": 6, "error": {"code": -32803, "message": "server busy"}}"#);
    let ParsedMessage::Response(LspResponse::Error { id, message }) =
        parse(&error_message, &mut error_pending)
    else {
        panic!("expected completion error response");
    };
    assert_eq!(id, 91);
    assert_eq!(message, "server busy");
}

#[test]
fn uncorrelated_completion_wire_response_is_ignored() {
    let mut pending = HashMap::from([(1, RequestKind::Completion(10))]);
    let orphan = j(r#"{"jsonrpc": "2.0", "id": 99, "result": {"items": [{"label": "orphan"}]}}"#);
    assert!(matches!(
        parse(&orphan, &mut pending),
        ParsedMessage::Ignored
    ));
    assert_eq!(pending.len(), 1);
    assert!(matches!(pending.get(&1), Some(RequestKind::Completion(10))));
}

#[test]
fn hover_response_uses_the_caller_correlation_id() {
    let mut pending = HashMap::from([(6, RequestKind::Hover(15))]);
    let message = j(r#"{"jsonrpc": "2.0", "id": 6, "result": {"contents": "docs"}}"#);
    let ParsedMessage::Response(LspResponse::HoverResult { id, content }) =
        parse(&message, &mut pending)
    else {
        panic!("expected hover response");
    };
    assert_eq!(id, 15);
    assert_eq!(content, "docs");
}

#[test]
fn missing_server_is_reported_without_panicking() {
    let binary = "blue-ide-definitely-missing-language-server";
    let mut session = Transport::new(binary.to_owned(), Some(CWD.to_owned()), 4242, "0.1.0".to_owned());
    let mut legends = Legends::new();
    let actions = session.step(TransportEvent::ServerClosed, &mut legends);
    assert_eq!(actions.len(), 2);
    assert!(matches!(
        &actions[0],
        TransportAction::Send(LspResponse::ServerUnavailable { message })
            if message == &format!("{binary} not found — LSP disabled")
    ));
    assert!(matches!(actions[1], TransportAction::Stop));
}

#[test]
fn hover_requests_use_text_document_hover() {
    let mut ids = WireIds { next: 10 };
    let path = "src/main.rs".to_owned();
    let (req, pending) = encode(
        LspRequest::Hover {
            path: path.clone(),
            line: 3,
            col: 8,
            id: 77,
        },
        &mut ids,
    )
    .unwrap();

    assert_eq!(req["jsonrpc"], "2.0");
    assert_eq!(req["method"], "textDocument/hover");
    assert_ne!(req["method"], "textDocument/completion");
    assert_ne!(req["method"], "textDocument/definition");
    assert_eq!(req["params"]["position"]["line"], 3);
    assert_eq!(req["params"]["position"]["character"], 8);
    assert!(req["params"]["textDocument"]["uri"].is_string());

    let (wire_id, kind) = pending.unwrap();
    assert_eq!(wire_id, 10);
    assert!(matches!(kind, RequestKind::Hover(77)));
}

#[test]
fn hover_request_encoding_preserves_caller_correlation_id() {
    let mut ids = WireIds { next: 10 };
    let path = "src/main.rs".to_owned();
    let (req, pending) = encode(
        LspRequest::Hover {
            path: path.clone(),
            line: 3,
            col: 8,
            id: 77,
        },
        &mut ids,
    )
    .unwrap();

    assert_eq!(req["method"], "textDocument/hover");
    let (wire_id, kind) = pending.unwrap();
    assert_eq!(wire_id, 10);
    assert!(matches!(kind, RequestKind::Hover(77)));
}

#[test]
fn goto_definition_request_encoding() {
    let mut ids = WireIds { next: 10 };
    let path = "src/main.rs".to_owned();
    let (req, pending) = encode(
        LspRequest::GotoDefinition {
            path: path.clone(),
            line: 5,
            col: 10,
            id: 1234,
        },
        &mut ids,
    )
    .unwrap();

    assert_eq!(req["method"], "textDocument/definition");
    assert_eq!(req["params"]["position"]["line"], 5);
    assert_eq!(req["params"]["position"]["character"], 10);

    let (wire_id, kind) = pending.unwrap();
    assert_eq!(wire_id, 10);
    assert!(matches!(kind, RequestKind::GotoDefinition(1234)));
}

#[test]
fn parse_goto_definition_responses() {
    // 1. A single Location parses correctly.
    {
        let mut pending = HashMap::from([(10, RequestKind::GotoDefinition(1234))]);
        let path = cwd_path("src/main.rs");
        let uri = uri_of(&path);
        let message = j(&format!(r#"{{
            "jsonrpc": "2.0",
            "id": 10,
            "result": {{
                "uri": {},
                "range": {{
                    "start": {{"line": 15, "character": 20}},
                    "end": {{"line": 15, "character": 25}}
                }}
            }}
        }}"#, jt(&uri)));
        let ParsedMessage::Response(LspResponse::GotoResult {
            id,
            path: target_path,
            line,
            col,
        }) = parse(&message, &mut pending)
        else {
            panic!("expected GotoResult");
        };
        assert_eq!(id, 1234);
        assert_eq!(target_path, path);
        assert_eq!(line, 15);
        assert_eq!(col, 20);
    }

    // 2. A location array selects the first item.
    {
        let mut pending = HashMap::from([(10, RequestKind::GotoDefinition(1234))]);
        let path1 = cwd_path("src/main.rs");
        let path2 = cwd_path("src/lib.rs");
        let uri1 = uri_of(&path1);
        let uri2 = uri_of(&path2);
        let message = j(&format!(r#"{{
            "jsonrpc": "2.0",
            "id": 10,
            "result": [
                {{
                    "uri": {},
                    "range": {{
                        "start": {{"line": 15, "character": 20}},
                        "end": {{"line": 15, "character": 25}}
                    }}
                }},
                {{
                    "uri": {},
                    "range": {{
                        "start": {{"line": 30, "character": 40}},
                        "end": {{"line": 30, "character": 45}}
                    }}
                }}
            ]
        }}"#, jt(&uri1), jt(&uri2)));
        let ParsedMessage::Response(LspResponse::GotoResult {
            id,
            path: target_path,
            line,
            col,
        }) = parse(&message, &mut pending)
        else {
            panic!("expected GotoResult");
        };
        assert_eq!(id, 1234);
        assert_eq!(target_path, path1);
        assert_eq!(line, 15);
        assert_eq!(col, 20);
    }

    // 3. A single LocationLink parses correctly (uses targetSelectionRange).
    {
        let mut pending = HashMap::from([(10, RequestKind::GotoDefinition(1234))]);
        let path = cwd_path("src/main.rs");
        let uri = uri_of(&path);
        let message = j(&format!(r#"{{
            "jsonrpc": "2.0",
            "id": 10,
            "result": {{
                "targetUri": {},
                "targetRange": {{
                    "start": {{"line": 10, "character": 5}},
                    "end": {{"line": 12, "character": 5}}
                }},
                "targetSelectionRange": {{
                    "start": {{"line": 11, "character": 10}},
                    "end": {{"line": 11, "character": 15}}
                }}
            }}
        }}"#, jt(&uri)));
        let ParsedMessage::Response(LspResponse::GotoResult {
            id,
            path: target_path,
            line,
            col,
        }) = parse(&message, &mut pending)
        else {
            panic!("expected GotoResult");
        };
        assert_eq!(id, 1234);
        assert_eq!(target_path, path);
        assert_eq!(line, 11);
        assert_eq!(col, 10);
    }

    // 4. An array of LocationLink objects (selects first, uses targetSelectionRange).
    {
        let mut pending = HashMap::from([(10, RequestKind::GotoDefinition(1234))]);
        let path = cwd_path("src/main.rs");
        let uri = uri_of(&path);
        let message = j(&format!(r#"{{
            "jsonrpc": "2.0",
            "id": 10,
            "result": [
                {{
                    "targetUri": {},
                    "targetRange": {{
                        "start": {{"line": 10, "character": 5}},
                        "end": {{"line": 12, "character": 5}}
                    }},
                    "targetSelectionRange": {{
                        "start": {{"line": 11, "character": 10}},
                        "end": {{"line": 11, "character": 15}}
                    }}
                }}
            ]
        }}"#, jt(&uri)));
        let ParsedMessage::Response(LspResponse::GotoResult {
            id,
            path: target_path,
            line,
            col,
        }) = parse(&message, &mut pending)
        else {
            panic!("expected GotoResult");
        };
        assert_eq!(id, 1234);
        assert_eq!(target_path, path);
        assert_eq!(line, 11);
        assert_eq!(col, 10);
    }

    // 5. An empty array is handled as no definition (produces GotoNone).
    {
        let mut pending = HashMap::from([(10, RequestKind::GotoDefinition(1234))]);
        let message = j(r#"{"jsonrpc": "2.0", "id": 10, "result": []}"#);
        let ParsedMessage::Response(LspResponse::GotoNone { id }) =
            parse(&message, &mut pending)
        else {
            panic!("expected GotoNone");
        };
        assert_eq!(id, 1234);
    }

    // 6. Null is handled as no definition (produces GotoNone).
    {
        let mut pending = HashMap::from([(10, RequestKind::GotoDefinition(1234))]);
        let message = j(r#"{"jsonrpc": "2.0", "id": 10, "result": null}"#);
        let ParsedMessage::Response(LspResponse::GotoNone { id }) =
            parse(&message, &mut pending)
        else {
            panic!("expected GotoNone");
        };
        assert_eq!(id, 1234);
    }

    // 7. Unsupported URIs do not panic (produces GotoNone).
    {
        let mut pending = HashMap::from([(10, RequestKind::GotoDefinition(1234))]);
        let message = j(r#"{"jsonrpc": "2.0", "id": 10, "result": {"uri": "http://example.com/source.rs", "range": {"start": {"line": 15, "character": 20}, "end": {"line": 15, "character": 25}}}}"#);
        let ParsedMessage::Response(LspResponse::GotoNone { id }) =
            parse(&message, &mut pending)
        else {
            panic!("expected GotoNone");
        };
        assert_eq!(id, 1234);
    }
}

fn written(action: &TransportAction) -> serde_json::Value {
    match action {
        TransportAction::Write { message, .. } => to_value(message),
        other => panic!("expected a write, got {other:?}"),
    }
}

#[test]
fn session_queues_requests_until_the_server_initializes() {
    let mut session = Transport::new("ra".to_owned(), Some(CWD.to_owned()), 7, "0.1.0".to_owned());
    let mut legends = Legends::new();

    let init = session.step(
        TransportEvent::Request(LspRequest::Initialize { root_uri: "file:///work/blue".to_owned() }),
        &mut legends,
    );
    assert_eq!(init.len(), 1);
    let init_message = written(&init[0]);
    assert_eq!(init_message["method"], "initialize");
    assert_eq!(init_message["id"], 1);
    assert_eq!(init_message["params"]["processId"], 7);

    let held = session.step(
        TransportEvent::Request(LspRequest::Hover {
            path: cwd_path("src/main.rs"),
            line: 1,
            col: 2,
            id: 50,
        }),
        &mut legends,
    );
    assert!(held.is_empty());
    assert_eq!(session.queued.len(), 1);

    let reply = j(r#"{"jsonrpc":"2.0","id":1,"result":{"capabilities":{}}}"#);
    let actions = session.step(TransportEvent::ServerMessage(Some(reply)), &mut legends);
    assert_eq!(actions.len(), 3);
    assert_eq!(written(&actions[0])["method"], "initialized");
    assert!(matches!(&actions[1], TransportAction::Send(LspResponse::Initialized { .. })));
    let hover = written(&actions[2]);
    assert_eq!(hover["method"], "textDocument/hover");
    assert_eq!(hover["id"], 2);
    assert!(session.initialized);
    assert!(session.queued.is_empty());

    let answer = j(r#"{"jsonrpc":"2.0","id":2,"result":{"contents":"docs"}}"#);
    let actions = session.step(TransportEvent::ServerMessage(Some(answer)), &mut legends);
    assert_eq!(actions.len(), 1);
    assert!(matches!(
        &actions[0],
        TransportAction::Send(LspResponse::HoverResult { id: 50, content }) if content == "docs"
    ));
}

#[test]
fn session_shutdown_sends_exit_once_acknowledged() {
    let mut session = Transport::new("ra".to_owned(), Some(CWD.to_owned()), 7, "0.1.0".to_owned());
    let mut legends = Legends::new();
    let actions = session.step(TransportEvent::Request(LspRequest::Shutdown), &mut legends);
    assert_eq!(actions.len(), 1);
    assert_eq!(written(&actions[0])["method"], "shutdown");
    assert!(matches!(
        &actions[0],
        TransportAction::Write { on_failure: OnWriteFailure::AbandonShutdown, .. }
    ));
    assert!(session.step(TransportEvent::Request(LspRequest::Shutdown), &mut legends).is_empty());
    assert_eq!(session.finish().len(), 1);

    let ack = j(r#"{"jsonrpc":"2.0","id":1,"result":null}"#);
    let actions = session.step(TransportEvent::ServerMessage(Some(ack)), &mut legends);
    assert_eq!(actions.len(), 2);
    assert_eq!(written(&actions[0])["method"], "exit");
    assert!(matches!(actions[1], TransportAction::Stop));
    assert!(session.finish().is_empty());
}

#[test]
fn session_ignores_idle_and_reports_failed_writes() {
    let mut session = Transport::new("ra".to_owned(), None, 7, "0.1.0".to_owned());
    let mut legends = Legends::new();
    assert!(session.step(TransportEvent::Idle, &mut legends).is_empty());
    assert!(session.step(TransportEvent::ShutdownTimedOut, &mut legends).is_empty());
    assert!(session
        .step(TransportEvent::WriteFailed(OnWriteFailure::Ignore), &mut legends)
        .is_empty());
    let actions =
        session.step(TransportEvent::WriteFailed(OnWriteFailure::ReportAndStop), &mut legends);
    assert_eq!(actions.len(), 2);
    assert!(matches!(actions[1], TransportAction::Stop));
    let closed = session.step(TransportEvent::EditorGone, &mut legends);
    assert_eq!(written(&closed[0])["method"], "shutdown");
    assert!(matches!(
        session.step(TransportEvent::ServerClosed, &mut legends)[..],
        [TransportAction::Stop]
    ));
}

#[test]
fn frames_written_in_turn_read_back_in_turn() {
    let bodies = ["{\"id\":1}", "", "{\"text\":\"naïve – ✓\"}"];
    let mut bytes = Vec::new();
    for body in bodies {
        bytes.extend(frame_message(body));
    }
    let mut cursor = FrameCursor::new(bytes);
    for body in bodies {
        assert_eq!(cursor.read_frame(), Ok(Some(body.to_owned())));
    }
    assert_eq!(cursor.read_frame(), Ok(None));
}

#[test]
fn fractional_numbers_are_echoed_unchanged() {
    let original: serde_json::Value =
        serde_json::from_str(r#"{"ratio": 0.25, "big": 1e300, "n": -3, "k": 7}"#).unwrap();
    let echoed = to_value(&clone_json(&to_json(&original)));
    assert_eq!(echoed, original);
}
