use blue_ide::perf::startup::{
    date_text, duration_text, history_bar_color, push_history, StartupBreakdownState,
    StartupCategory, StartupData, StartupEvent, StartupHistoryEntry, StartupTimer,
};

const MS: u64 = 1_000_000;

#[test]
fn startup_timer_records_events_in_order() {
    let mut timer = StartupTimer::new();
    timer.begin("Config load".to_owned(), 0);
    timer.end("Config load", 1 * MS);

    timer.begin("Git init".to_owned(), 2 * MS);
    timer.end("Git init", 3 * MS);

    let data = timer.finish(4 * MS);
    assert_eq!(data.events.len(), 2);
    assert_eq!(data.events[0].name, "Config load");
    assert_eq!(data.events[1].name, "Git init");
    assert!(data.events[0].duration_ns >= 1 * MS);
}

#[test]
fn startup_timer_infers_correct_categories() {
    assert_eq!(StartupCategory::from_name("Config load"), StartupCategory::Config);
    assert_eq!(StartupCategory::from_name("Git init"), StartupCategory::Git);
    assert_eq!(StartupCategory::from_name("LSP spawn"), StartupCategory::Lsp);
    assert_eq!(StartupCategory::from_name("Plugin discovery"), StartupCategory::Plugins);
    assert_eq!(StartupCategory::from_name("Session restore"), StartupCategory::Session);
    assert_eq!(StartupCategory::from_name("File tree scan"), StartupCategory::FileTree);
    assert_eq!(StartupCategory::from_name("First render"), StartupCategory::Rendering);
    assert_eq!(StartupCategory::from_name("Widget init"), StartupCategory::Other);
}

#[test]
fn startup_data_text_report_contains_event_names() {
    let data = StartupData {
        events: vec![StartupEvent {
            name: "Config load".into(),
            elapsed_since_start_ns: 0,
            duration_ns: 42 * MS,
            category: StartupCategory::Config,
        }],
        total_ns: 500 * MS,
    };
    let report = data.text_report(0);
    assert!(report.contains("Config load"));
    assert!(report.contains("42ms"));
    assert!(report.contains("Total:"));
}

#[test]
fn report_is_exact() {
    let data = StartupData {
        events: vec![
            StartupEvent {
                name: "Config load".into(),
                elapsed_since_start_ns: 0,
                duration_ns: 42 * MS + 999_999,
                category: StartupCategory::Config,
            },
            StartupEvent {
                name: "LSP spawn".into(),
                elapsed_since_start_ns: 5 * MS,
                duration_ns: 0,
                category: StartupCategory::Lsp,
            },
        ],
        total_ns: 1_234_500_000,
    };
    assert_eq!(
        data.text_report(86_400 * 365 + 3661),
        "Blue IDE Startup Report\nGenerated: 1971-01-01 01:01:01\nTotal: 1.234s\n---\nConfig load: 42ms\nLSP spawn: 0ms\n"
    );
}

#[test]
fn date_text_uses_rough_calendar() {
    assert_eq!(date_text(0), "1970-01-01 00:00:00");
    assert_eq!(date_text(86_400 * 31 + 59), "1970-02-02 00:00:59");
    assert_eq!(date_text(86_400 * 364), "1970-12-05 00:00:00");
}

#[test]
fn end_closes_the_latest_event_of_that_name_and_finish_sorts_by_start() {
    let mut timer = StartupTimer::new();
    timer.begin("Buffer".to_owned(), 10 * MS);
    timer.begin("Buffer".to_owned(), 20 * MS);
    timer.end("Buffer", 25 * MS);
    assert_eq!(timer.events[0].elapsed_since_start_ns, 20 * MS);
    assert_eq!(timer.events[0].duration_ns, 5 * MS);
    timer.end("Nothing open", 30 * MS);
    assert_eq!(timer.events.len(), 1);
    timer.record("Window shown".to_owned(), 1 * MS);
    timer.begin("LSP handshake".to_owned(), 2 * MS);
    timer.complete_lsp_handshake(4 * MS);
    let data = timer.finish(40 * MS);
    let starts: Vec<u64> = data.events.iter().map(|e| e.elapsed_since_start_ns).collect();
    assert_eq!(starts, vec![1 * MS, 2 * MS, 10 * MS, 20 * MS]);
    assert_eq!(data.events[2].duration_ns, 30 * MS);
    assert_eq!(data.events[0].category, StartupCategory::System);
    assert_eq!(data.events[1].category, StartupCategory::Lsp);
    assert_eq!(data.total_ns, 40 * MS);
}

#[test]
fn history_entry_sums_categories_and_history_keeps_ten() {
    let data = StartupData {
        events: vec![
            StartupEvent { name: "LSP spawn".into(), elapsed_since_start_ns: 0, duration_ns: 3 * MS + 500, category: StartupCategory::Lsp },
            StartupEvent { name: "LSP init".into(), elapsed_since_start_ns: 0, duration_ns: 4 * MS, category: StartupCategory::Lsp },
            StartupEvent { name: "Plugin load".into(), elapsed_since_start_ns: 0, duration_ns: 7 * MS, category: StartupCategory::Plugins },
        ],
        total_ns: 1_500 * MS,
    };
    let entry = data.to_history_entry(1_700_000_000);
    assert_eq!(
        entry,
        StartupHistoryEntry { timestamp: 1_700_000_000, total_ms: 1500, lsp_ms: 7, plugins_ms: 7, session_ms: 0 }
    );
    let mut history = Vec::new();
    for i in 0..12 {
        push_history(&mut history, StartupHistoryEntry { timestamp: i, ..entry });
    }
    assert_eq!(history.len(), 10);
    assert_eq!(history[0].timestamp, 2);
    assert_eq!(history[9].timestamp, 11);
    assert_eq!(data.slowest_category(), Some(StartupCategory::Plugins));
    assert_eq!(
        data.slowest_category_advice(),
        "Plugins are slow. Check which plugin is slowest and disable it if not needed."
    );
    assert!(!data.is_slow());
}

#[test]
fn panel_state_and_texts() {
    let mut state = StartupBreakdownState::default();
    assert!(state.open_panel());
    state.set_history(Vec::new());
    assert!(!state.open_panel());
    state.toggle_row(3);
    assert_eq!(state.expanded_row, Some(3));
    state.toggle_row(3);
    assert_eq!(state.expanded_row, None);
    assert_eq!(duration_text(42 * MS), "42ms");
    assert_eq!(duration_text(1_005 * MS), "1.00s");
    assert_eq!(duration_text(1_016 * MS), "1.02s");
    assert_eq!(history_bar_color(3001), (220, 80, 80));
    assert_eq!(history_bar_color(1600), (220, 180, 50));
    assert_eq!(history_bar_color(1500), (60, 180, 90));
    assert_eq!(StartupCategory::FileTree.label(), "File Tree");
    let empty = StartupData { events: Vec::new(), total_ns: 4_000 * MS };
    assert_eq!(empty.slowest_category(), None);
    assert_eq!(empty.slowest_category_advice(), "Review the event list below for the bottleneck.");
    assert!(empty.is_slow());
}
