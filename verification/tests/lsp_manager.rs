use blue_ide::language::LanguageServerId;
use blue_ide::lsp::client::ClientState;
use blue_ide::lsp::manager::{server_for, LspManager, RequestPlan};
use blue_ide::lsp::types::{
    DiagnosticSeverity, LspDiagnostic, LspRequest, LspResponse, ProgressKind,
};

fn hover(path: &str) -> LspRequest {
    LspRequest::Hover { path: path.to_owned(), line: 0, col: 0, id: 1 }
}

fn did_open(path: &str) -> LspRequest {
    LspRequest::DidOpen {
        path: path.to_owned(),
        language_id: "rust".to_owned(),
        text: String::new(),
        version: 1,
    }
}

fn diagnostic(message: &str) -> LspDiagnostic {
    LspDiagnostic {
        line_start: 0,
        col_start: 0,
        line_end: 0,
        col_end: 1,
        severity: DiagnosticSeverity::Error,
        message: message.to_owned(),
        code: None,
    }
}

#[test]
fn files_are_served_by_the_server_of_their_language() {
    assert_eq!(server_for("src/main.rs"), Some(LanguageServerId::Rust));
    assert_eq!(server_for("app.PY"), Some(LanguageServerId::Python));
    assert_eq!(server_for("web/index.tsx"), Some(LanguageServerId::TypeScript));
    assert_eq!(server_for("web/index.js"), Some(LanguageServerId::TypeScript));
    assert_eq!(server_for("README.md"), None);
}

#[test]
fn servers_start_lazily_and_take_requests_once_running() {
    let mut manager = LspManager::new();
    assert_eq!(manager.plan_request("notes.txt", &did_open("notes.txt"), true), RequestPlan::NoServer);
    assert_eq!(manager.plan_request("src/main.rs", &hover("src/main.rs"), false), RequestPlan::Refused);
    assert_eq!(
        manager.plan_request("src/main.rs", &did_open("src/main.rs"), true),
        RequestPlan::Start { server: LanguageServerId::Rust, send: true }
    );
    assert_eq!(
        manager.plan_request("src/main.rs", &hover("src/main.rs"), true),
        RequestPlan::Start { server: LanguageServerId::Rust, send: false }
    );

    manager.register(LanguageServerId::Rust, ClientState::new());
    assert!(manager.is_started(LanguageServerId::Rust));
    assert!(!manager.is_running(LanguageServerId::Rust));
    assert_eq!(manager.plan_request("src/main.rs", &hover("src/main.rs"), true), RequestPlan::Refused);
    assert_eq!(
        manager.plan_request("src/main.rs", &did_open("src/main.rs"), true),
        RequestPlan::Send(LanguageServerId::Rust)
    );

    let forwarded = manager
        .absorb(LanguageServerId::Rust, LspResponse::Initialized { token_types: Vec::new() });
    assert!(forwarded.is_some());
    assert!(manager.is_running(LanguageServerId::Rust));
    assert_eq!(
        manager.plan_request("src/main.rs", &hover("src/main.rs"), true),
        RequestPlan::Send(LanguageServerId::Rust)
    );
}

#[test]
fn diagnostics_are_kept_per_server_and_dropped_on_close() {
    let mut manager = LspManager::new();
    manager.register(LanguageServerId::Rust, ClientState::new());
    manager.register(LanguageServerId::Python, ClientState::new());
    assert!(manager
        .absorb(
            LanguageServerId::Rust,
            LspResponse::Diagnostics {
                path: "src/main.rs".to_owned(),
                diagnostics: vec![diagnostic("a")],
            },
        )
        .is_none());
    manager.absorb(
        LanguageServerId::Python,
        LspResponse::Diagnostics { path: "app.py".to_owned(), diagnostics: vec![diagnostic("b"), diagnostic("c")] },
    );
    assert_eq!(manager.diagnostics_for("src/main.rs").map(|d| d.len()), Some(1));
    assert_eq!(manager.diagnostics_for("app.py").map(|d| d.len()), Some(2));
    assert!(manager.diagnostics_for("web/x.ts").is_none());

    let all = manager.all_diagnostics();
    assert_eq!(all.len(), 2);
    assert_eq!(all.get("app.py").map(|d| d[1].message.clone()), Some("c".to_owned()));

    assert_eq!(manager.close_file("src/main.rs"), Some(LanguageServerId::Rust));
    assert!(manager.diagnostics_for("src/main.rs").is_none());
    assert_eq!(manager.close_file("web/x.ts"), None);
}

#[test]
fn progress_of_every_server_is_gathered() {
    let mut manager = LspManager::new();
    manager.register(LanguageServerId::Rust, ClientState::new());
    manager.register(LanguageServerId::TypeScript, ClientState::new());
    for (id, token) in [(LanguageServerId::Rust, "index"), (LanguageServerId::TypeScript, "load")] {
        manager.absorb(
            id,
            LspResponse::Progress {
                token: token.to_owned(),
                kind: ProgressKind::Begin,
                title: "Working".to_owned(),
                message: None,
                percentage: None,
            },
        );
    }
    let all = manager.active_progresses();
    assert_eq!(all.len(), 2);
    assert!(all.get("index").is_some());
    assert!(all.get("load").is_some());
}

#[test]
fn settings_changes_stop_only_the_changed_started_servers() {
    let mut manager = LspManager::new();
    manager.register(LanguageServerId::Rust, ClientState::new());
    manager.register(LanguageServerId::Python, ClientState::new());
    let stopped = manager.handle_settings_change(true, false, true);
    assert_eq!(stopped, vec![LanguageServerId::Rust]);
    assert!(!manager.is_started(LanguageServerId::Rust));
    assert!(manager.is_started(LanguageServerId::Python));
    assert!(manager.stop_server(LanguageServerId::Python).is_some());
    assert!(manager.stop_server(LanguageServerId::Python).is_none());
}

#[test]
fn workspace_symbols_go_to_the_first_running_server() {
    let mut manager = LspManager::new();
    let all = [LanguageServerId::Rust, LanguageServerId::Python, LanguageServerId::TypeScript];
    let (starts, target) = manager.plan_workspace_symbol(&all);
    assert_eq!(starts, all.to_vec());
    assert_eq!(target, None);

    manager.register(LanguageServerId::Rust, ClientState::new());
    manager.register(LanguageServerId::Python, ClientState::new());
    manager.absorb(LanguageServerId::Python, LspResponse::Initialized { token_types: Vec::new() });
    let (starts, target) = manager.plan_workspace_symbol(&[LanguageServerId::TypeScript]);
    assert!(starts.is_empty());
    assert_eq!(target, Some(LanguageServerId::Python));

    let ids = manager.shutdown_all();
    assert_eq!(ids, vec![LanguageServerId::Rust, LanguageServerId::Python]);
    assert!(!manager.is_started(LanguageServerId::Python));
}
