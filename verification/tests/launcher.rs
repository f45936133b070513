use blue_ide::launcher::{
    display_for, fuzzy_score, is_skipped_entry, sort_workspace_files, CommandId, CommandSpec,
    LauncherEvent, LauncherKey, LauncherMode, LauncherState, RowAction, WorkspaceFile,
    WorkspaceScan,
};

#[test]
fn fuzzy_matching_rewards_basename_boundaries_and_contiguous_runs() {
    let contiguous = fuzzy_score("src/search_panel.rs", "sp").unwrap();
    let scattered = fuzzy_score("src/settings/preferences.rs", "sp").unwrap();
    assert!(contiguous > scattered);
    assert!(fuzzy_score("src/AppState.rs", "appstate").is_some());
    assert!(fuzzy_score("src/editor.rs", "xyz").is_none());
}

#[test]
fn fuzzy_empty_query_scores_zero() {
    assert_eq!(fuzzy_score("anything", "   "), Some(0));
}

#[test]
fn fuzzy_exact_scores() {
    // "ab" against "ab": two matches (10 each), the second adjacent (+18),
    // the first a word start (+16), both in the base name (+4 each), exact
    // match bonus 1000, no length penalty.
    assert_eq!(fuzzy_score("ab", "ab"), Some(10 + 16 + 4 + 10 + 18 + 4 + 1000));
    // Backslashes count as separators; the base name "ab" matches exactly.
    assert_eq!(fuzzy_score("x\\ab", "AB"), Some(10 + 16 + 4 + 10 + 18 + 4 + 800 - 2));
}

#[test]
fn command_filtering_is_typed_and_selection_clamps_to_results() {
    let mut state = LauncherState::default();
    state.open_commands(vec![
        CommandSpec::new(CommandId::QuickOpen, "File", "Quick Open", Some("Ctrl+P")),
        CommandSpec::new(CommandId::OpenSettings, "Preferences", "Open Settings", None),
    ]);

    state.selected = 1;
    state.query = "qopen".to_owned();
    state.rebuild_rows();

    assert_eq!(state.mode(), Some(LauncherMode::Commands));
    assert_eq!(state.rows.len(), 1);
    assert_eq!(state.selected, 0);
    assert_eq!(state.selected_event(), Some(LauncherEvent::Execute(CommandId::QuickOpen)));
}

#[test]
fn file_filtering_preserves_native_paths_and_uses_relative_display_text() {
    let native = String::from(r"C:\workspace\src\main.rs");
    let mut state = LauncherState {
        mode: Some(LauncherMode::Files),
        files: vec![WorkspaceFile { path: native.clone(), display: "src/main.rs".to_owned() }],
        query: "smr".to_owned(),
        ..LauncherState::default()
    };

    state.rebuild_rows();

    assert_eq!(state.rows.len(), 1);
    assert_eq!(state.rows[0].primary, "main.rs");
    assert_eq!(state.rows[0].secondary, "src");
    assert_eq!(state.rows[0].action, RowAction::File(native));
}

#[test]
fn launcher_rows_are_keyboard_navigable_and_escape_dismisses() {
    let mut state = LauncherState::default();
    state.open_commands(vec![
        CommandSpec::new(CommandId::QuickOpen, "File", "Quick Open", None),
        CommandSpec::new(CommandId::OpenSettings, "Preferences", "Settings", None),
    ]);
    assert_eq!(state.handle_key(LauncherKey::Down), None);
    let accepted = state.handle_key(LauncherKey::Enter);
    assert_eq!(accepted, Some(LauncherEvent::Execute(CommandId::OpenSettings)));

    assert_eq!(state.handle_key(LauncherKey::Escape), Some(LauncherEvent::Dismissed));
    assert!(!state.is_open());
}

#[test]
fn escape_clears_the_query_and_the_selection() {
    let mut state = LauncherState::default();
    state.open_commands(vec![
        CommandSpec::new(CommandId::QuickOpen, "File", "Quick Open", None),
        CommandSpec::new(CommandId::OpenSettings, "Preferences", "Settings", None),
    ]);
    state.set_query("set".to_owned());
    assert_eq!(state.handle_key(LauncherKey::Escape), Some(LauncherEvent::Dismissed));
    assert!(!state.is_open());
    assert_eq!(state.query, "");
    assert_eq!(state.selected, 0);
    assert!(state.rows.is_empty());
    assert!(!state.request_focus);
    assert_eq!(state.commands.len(), 2);
}

#[test]
fn selection_stops_at_both_ends() {
    let mut state = LauncherState::default();
    state.open_commands(vec![
        CommandSpec::new(CommandId::QuickOpen, "File", "Quick Open", None),
        CommandSpec::new(CommandId::OpenSettings, "Preferences", "Settings", None),
    ]);
    state.handle_key(LauncherKey::Up);
    assert_eq!(state.selected, 0);
    state.handle_key(LauncherKey::PageDown);
    assert_eq!(state.selected, 1);
    state.handle_key(LauncherKey::PageUp);
    assert_eq!(state.selected, 0);
}

#[test]
fn empty_query_lists_every_command() {
    let mut state = LauncherState::default();
    state.open_commands(vec![
        CommandSpec::new(CommandId::QuickOpen, "File", "Quick Open", Some("Ctrl+P")),
        CommandSpec::new(CommandId::OpenSettings, "Preferences", "Open Settings", None),
    ]);
    assert!(state.is_open());
    assert_eq!(state.rows.len(), 2);
    assert_eq!(state.rows[0].shortcut.as_deref(), Some("Ctrl+P"));
}

#[test]
fn stale_index_results_are_ignored() {
    let mut state = LauncherState::default();
    let roots = vec!["/w".to_owned()];
    let first = state.open_files(roots.clone());
    assert!(first.is_some());
    let generation = first.unwrap();
    let newer = state.refresh_workspace(roots.clone());
    assert!(newer != generation);
    let mut stale = WorkspaceScan::default();
    stale.files.push(WorkspaceFile { path: "/w/old.rs".to_owned(), display: "old.rs".to_owned() });
    state.accept_index(generation, &roots, stale);
    assert!(state.files.is_empty());
    let mut fresh = WorkspaceScan::default();
    fresh.files.push(WorkspaceFile { path: "/w/new.rs".to_owned(), display: "new.rs".to_owned() });
    state.accept_index(newer, &roots, fresh);
    assert_eq!(state.files.len(), 1);
    assert!(!state.loading);
}

#[test]
fn workspace_helpers_skip_build_output_and_prefix_several_roots() {
    assert!(is_skipped_entry(1, true, "target"));
    assert!(is_skipped_entry(3, true, "TARGET"));
    assert!(!is_skipped_entry(0, true, "target"));
    assert!(!is_skipped_entry(1, false, "target"));
    assert_eq!(display_for("blue", "src/main.rs", true), "blue/src/main.rs");
    assert_eq!(display_for("blue", "src/main.rs", false), "src/main.rs");
    let sorted = sort_workspace_files(vec![
        WorkspaceFile { path: "/b".to_owned(), display: "b.rs".to_owned() },
        WorkspaceFile { path: "/a".to_owned(), display: "a.rs".to_owned() },
    ]);
    assert_eq!(sorted[0].display, "a.rs");
    assert_eq!(sorted[1].display, "b.rs");
}

#[test]
fn file_rows_are_ranked_by_score_then_shorter_name() {
    let files = ["src/main.rs", "docs/manual/readme.md", "src/mr.rs", "tests/more/runner.rs", "m.rs"]
        .iter()
        .map(|p| WorkspaceFile { path: format!("/w/{p}"), display: (*p).to_owned() })
        .collect();
    let mut state = LauncherState {
        mode: Some(LauncherMode::Files),
        files,
        query: "mr".to_owned(),
        ..LauncherState::default()
    };
    state.rebuild_rows();
    assert!(state.rows.len() >= 3);
    for pair in state.rows.windows(2) {
        assert!(pair[0].score >= pair[1].score);
        if pair[0].score == pair[1].score {
            assert!(pair[0].primary.len() <= pair[1].primary.len());
        }
    }
    assert_eq!(state.rows[0].primary, "mr.rs");
}
