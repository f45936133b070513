use blue_ide::lsp::client::{ClientState, ProgressTable};
use blue_ide::lsp::encode::path_to_uri;
use blue_ide::lsp::types::{
    DiagnosticSeverity, LspDiagnostic, LspRequest, LspResponse, ProgressKind, ProgressState,
};

const MAIN_RS: &str = "/work/blue/src/main.rs";

fn running_client() -> ClientState {
    let mut client = ClientState::new();
    let forwarded = client.absorb(LspResponse::Initialized { token_types: Vec::new() });
    assert!(forwarded.is_some());
    client
}

fn position_request(kind: &str, running: bool) -> bool {
    let client = if running { running_client() } else { ClientState::new() };
    let request = match kind {
        "completion" => LspRequest::Completion { path: MAIN_RS.to_owned(), line: 0, col: 0, id: 1 },
        "hover" => LspRequest::Hover { path: MAIN_RS.to_owned(), line: 0, col: 0, id: 2 },
        _ => LspRequest::GotoDefinition { path: MAIN_RS.to_owned(), line: 0, col: 0, id: 3 },
    };
    client.may_send(&request)
}

#[test]
fn completion_and_hover_requests_require_a_running_server() {
    assert!(!position_request("completion", false));
    assert!(!position_request("hover", false));
}

#[test]
fn completion_and_hover_requests_enqueue_when_running() {
    assert!(position_request("completion", true));
    assert!(position_request("hover", true));
}

#[test]
fn client_goto_definition_requires_running_server() {
    assert!(!position_request("goto", false));
    assert!(position_request("goto", true));
}

#[test]
fn document_notifications_are_sent_whether_or_not_the_server_runs() {
    let client = ClientState::new();
    assert!(client.may_send(&LspRequest::DidClose { path: MAIN_RS.to_owned() }));
    assert!(client.may_send(&LspRequest::Initialize { root_uri: "file:///work/blue".to_owned() }));
}

#[test]
fn poll_forwards_hover_results_without_parsing_or_ui_state() {
    let mut client = running_client();
    let forwarded = client.absorb(LspResponse::HoverResult {
        id: 42,
        content: "fn main — documentation".to_owned(),
    });
    assert!(matches!(
        forwarded,
        Some(LspResponse::HoverResult { id: 42, ref content }) if content == "fn main — documentation"
    ));
    assert_eq!(client.diagnostics.len(), 0, "hover responses must not be cached as diagnostics");
}

#[test]
fn file_uri_round_trips_absolute_paths() {
    let cwd = Some("/work/blue".to_owned());
    let uri = path_to_uri("src/main.rs", &cwd).unwrap();
    assert_eq!(uri, "file:///work/blue/src/main.rs");
    assert_eq!(
        lsp_types::Url::parse(&uri).unwrap().to_file_path().unwrap(),
        std::path::PathBuf::from(MAIN_RS)
    );
    assert_eq!(path_to_uri(MAIN_RS, &None).unwrap(), uri);
}

#[test]
fn client_poll_caches_diagnostics_and_forwards_typed_responses() {
    let mut client = running_client();
    let kept = client.absorb(LspResponse::Diagnostics {
        path: MAIN_RS.to_owned(),
        diagnostics: vec![LspDiagnostic {
            line_start: 0,
            col_start: 0,
            line_end: 0,
            col_end: 1,
            severity: DiagnosticSeverity::Error,
            message: "expected expression".to_owned(),
            code: None,
        }],
    });
    assert!(kept.is_none());
    let forwarded = client.absorb(LspResponse::CompletionList { id: 12, items: Vec::new() });
    assert!(matches!(forwarded, Some(LspResponse::CompletionList { id: 12, .. })));
    assert_eq!(client.diagnostics_for(MAIN_RS).map(|d| d.len()), Some(1));
}

#[test]
fn client_poll_marks_running_on_initialized() {
    let mut client = ClientState::new();
    assert!(!client.is_running());
    let forwarded = client.absorb(LspResponse::Initialized { token_types: Vec::new() });
    assert!(matches!(forwarded, Some(LspResponse::Initialized { .. })));
    assert!(client.is_running());
}

#[test]
fn client_did_close_removes_cached_diagnostics() {
    let mut client = running_client();
    client.absorb(LspResponse::Diagnostics { path: MAIN_RS.to_owned(), diagnostics: Vec::new() });
    assert!(client.diagnostics_for(MAIN_RS).is_some());

    client.forget_file(MAIN_RS);
    assert!(client.diagnostics_for(MAIN_RS).is_none());
}

#[test]
fn unavailable_server_stops_running_and_keeps_the_legend() {
    let mut client = ClientState::new();
    client.absorb(LspResponse::Initialized { token_types: vec!["keyword".to_owned()] });
    assert_eq!(client.token_type_legend, vec!["keyword".to_owned()]);
    let forwarded =
        client.absorb(LspResponse::ServerUnavailable { message: "gone".to_owned() });
    assert!(forwarded.is_some());
    assert!(!client.is_running());
    assert_eq!(client.token_type_legend, vec!["keyword".to_owned()]);
}

#[test]
fn progress_is_tracked_until_it_ends() {
    let mut client = running_client();
    client.absorb(LspResponse::Progress {
        token: "index".to_owned(),
        kind: ProgressKind::Begin,
        title: "Indexing".to_owned(),
        message: None,
        percentage: Some(0),
    });
    assert!(client.active_progress.get("index").is_some());
    client.absorb(LspResponse::Progress {
        token: "index".to_owned(),
        kind: ProgressKind::Work,
        title: "Indexing".to_owned(),
        message: Some("half".to_owned()),
        percentage: Some(50),
    });
    assert_eq!(client.active_progress.len(), 1);
    assert_eq!(client.active_progress.get("index").unwrap().percentage, Some(50));
    client.absorb(LspResponse::Progress {
        token: "index".to_owned(),
        kind: ProgressKind::End,
        title: String::new(),
        message: None,
        percentage: None,
    });
    assert!(client.active_progress.get("index").is_none());
}

#[test]
fn new_diagnostics_for_a_file_replace_the_old_ones() {
    let mut client = running_client();
    let diagnostic = |message: &str| LspDiagnostic {
        line_start: 1,
        col_start: 2,
        line_end: 1,
        col_end: 3,
        severity: DiagnosticSeverity::Warning,
        message: message.to_owned(),
        code: Some("W1".to_owned()),
    };
    client.absorb(LspResponse::Diagnostics {
        path: MAIN_RS.to_owned(),
        diagnostics: vec![diagnostic("a"), diagnostic("b")],
    });
    client.absorb(LspResponse::Diagnostics {
        path: MAIN_RS.to_owned(),
        diagnostics: vec![diagnostic("c")],
    });
    let kept = client.diagnostics_for(MAIN_RS).unwrap();
    assert_eq!(kept.len(), 1);
    assert_eq!(kept[0].message, "c");
}

fn report(title: &str, percentage: Option<u32>) -> ProgressState {
    ProgressState {
        title: title.to_owned(),
        message: None,
        percentage,
        kind: ProgressKind::Work,
    }
}

#[test]
fn progress_table_holds_each_token_once() {
    let mut table = ProgressTable::new();
    table.set("index".to_owned(), report("Indexing", Some(10)));
    table.set("build".to_owned(), report("Building", None));
    table.set("index".to_owned(), report("Indexing", Some(60)));
    assert_eq!(table.len(), 2);
    assert_eq!(table.get("index").unwrap().percentage, Some(60));
    assert_eq!(table.entry(0).0, "index");
    table.remove("index");
    assert!(table.get("index").is_none());
    assert_eq!(table.len(), 1);
    assert_eq!(table.get("build").unwrap().title, "Building");
    table.remove("missing");
    assert_eq!(table.len(), 1);
}

#[test]
fn forgetting_a_file_keeps_the_others() {
    let mut client = running_client();
    client.absorb(LspResponse::Diagnostics { path: MAIN_RS.to_owned(), diagnostics: Vec::new() });
    client.absorb(LspResponse::Diagnostics {
        path: "/work/blue/src/lib.rs".to_owned(),
        diagnostics: Vec::new(),
    });
    client.forget_file(MAIN_RS);
    assert!(client.diagnostics_for(MAIN_RS).is_none());
    assert!(client.diagnostics_for("/work/blue/src/lib.rs").is_some());
}
