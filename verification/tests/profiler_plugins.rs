use blue_ide::plugins::{
    get_line, is_path_within, plugin_cursor, set_cursor_action,
    NotifyLevel, PluginAction, PluginEvent, PluginHook, PluginSystem, CURSOR_EVENT_INTERVAL_NS,
    TEXT_EVENT_INTERVAL_NS,
};
use blue_ide::profiler::{
    append_log, check_timeout, finish_status, frame_hash, max_samples, split_title, svg_frames,
    title_percent_before_comma, FrameTitle, ProfilerStatus, TIMEOUT_SECS,
};

const SECOND: u64 = 1_000_000_000;

#[test]
fn profiler_status_labels() {
    assert_eq!(ProfilerStatus::Idle.label(0), "Idle");
    let running = ProfilerStatus::Running { started_ns: 5 * SECOND };
    assert_eq!(running.label(7 * SECOND + SECOND / 2), "Running... (2.5s)");
    assert_eq!(running.label(0), "Running... (0.0s)");
    assert_eq!(ProfilerStatus::Done { elapsed_ns: 12 * SECOND }.label(0), "Done (12.0s)");
    assert_eq!(ProfilerStatus::Error("boom".to_owned()).label(0), "Error: boom");
}

#[test]
fn profiler_run_times_out_after_the_limit() {
    let running = ProfilerStatus::Running { started_ns: 0 };
    assert!(running.is_running());
    assert!(!running.timed_out(TIMEOUT_SECS * SECOND));
    assert!(running.timed_out((TIMEOUT_SECS + 1) * SECOND));
    assert!(!ProfilerStatus::Idle.timed_out(u64::MAX));
    assert!(!ProfilerStatus::Idle.is_running());
}

#[test]
fn finishing_a_run_reports_done_or_the_error() {
    let running = ProfilerStatus::Running { started_ns: SECOND };
    assert_eq!(
        finish_status(&running, 4 * SECOND, true, None),
        ProfilerStatus::Done { elapsed_ns: 3 * SECOND }
    );
    assert_eq!(
        finish_status(&running, 4 * SECOND, false, Some("cargo failed".to_owned())),
        ProfilerStatus::Error("cargo failed".to_owned())
    );
    assert_eq!(
        finish_status(&running, 4 * SECOND, false, None),
        ProfilerStatus::Error("flamegraph.svg not produced".to_owned())
    );
}

#[test]
fn profiler_log_gets_one_line_per_output_line() {
    let mut log = String::new();
    append_log(&mut log, "first");
    append_log(&mut log, "second");
    assert_eq!(log, "first\nsecond\n");
}

#[test]
fn frame_color_is_deterministic() {
    assert_eq!(frame_hash("main"), frame_hash("main"));
    assert_eq!(frame_hash(""), 0);
    assert_eq!(frame_hash("a"), 97);
    assert_eq!(frame_hash("ab"), 97 + 97 * 31 + 98);
    assert_ne!(frame_hash("main"), frame_hash("other_fn"));
}

#[test]
fn notify_levels_accept_short_names() {
    assert_eq!(NotifyLevel::from_str("warn"), NotifyLevel::Warning);
    assert_eq!(NotifyLevel::from_str("warning"), NotifyLevel::Warning);
    assert_eq!(NotifyLevel::from_str("err"), NotifyLevel::Error);
    assert_eq!(NotifyLevel::from_str("error"), NotifyLevel::Error);
    assert_eq!(NotifyLevel::from_str("anything"), NotifyLevel::Info);
}

#[test]
fn frequent_events_are_throttled() {
    let mut system = PluginSystem::new(0);
    assert_eq!(
        system.route_event(&PluginEvent::FileSaved("a.rs".to_owned()), 1),
        Some(PluginHook::OnSave)
    );
    assert_eq!(system.route_event(&PluginEvent::CursorMoved(1, 2), 1), None);
    assert_eq!(
        system.route_event(&PluginEvent::CursorMoved(1, 2), CURSOR_EVENT_INTERVAL_NS),
        Some(PluginHook::OnCursorMove)
    );
    assert_eq!(
        system.route_event(&PluginEvent::CursorMoved(1, 3), CURSOR_EVENT_INTERVAL_NS + 1),
        None
    );
    assert_eq!(system.route_event(&PluginEvent::TextChanged("x".to_owned()), 2), None);
    assert_eq!(
        system.route_event(&PluginEvent::TextChanged("x".to_owned()), TEXT_EVENT_INTERVAL_NS),
        Some(PluginHook::OnTextChange)
    );
    assert_eq!(PluginHook::OnSave.global_key(), "__blue_hook_on_save");
}

#[test]
fn plugin_actions_add_menu_items_once_and_queue_notifications() {
    let mut system = PluginSystem::new(0);
    let rest = system.split_actions(
        vec![
            PluginAction::AddMenuItem { label: "Run".to_owned(), callback_name: "run".to_owned() },
            PluginAction::Notify { message: "hello".to_owned(), level: NotifyLevel::Info },
            PluginAction::SaveFile,
            PluginAction::AddMenuItem { label: "Run".to_owned(), callback_name: "other".to_owned() },
        ],
        "demo",
        10,
    );
    assert_eq!(rest.len(), 1);
    assert!(matches!(rest[0], PluginAction::SaveFile));
    assert_eq!(system.menu_items.len(), 1);
    assert_eq!(system.notifications.len(), 1);
    assert_eq!(system.notifications[0].created_at_ns, 10);
    assert_eq!(
        system.menu_callback("Run"),
        Some(("demo".to_owned(), "run".to_owned()))
    );
    assert_eq!(system.menu_callback("Missing"), None);

    system.expire_notifications(5 * SECOND, 10 + 5 * SECOND - 1);
    assert_eq!(system.notifications.len(), 1);
    system.expire_notifications(5 * SECOND, 10 + 5 * SECOND);
    assert_eq!(system.notifications.len(), 0);
}

#[test]
fn a_run_past_the_limit_is_given_up() {
    let running = ProfilerStatus::Running { started_ns: 0 };
    assert_eq!(check_timeout(running.clone(), SECOND), running);
    assert_eq!(
        check_timeout(running, (TIMEOUT_SECS + 1) * SECOND),
        ProfilerStatus::Error("Timed out after 60s".to_owned())
    );
    assert_eq!(check_timeout(ProfilerStatus::Idle, u64::MAX), ProfilerStatus::Idle);
}

#[test]
fn total_samples_is_the_largest_frame() {
    assert_eq!(max_samples(&[]), 0);
    assert_eq!(max_samples(&[3, 9, 4]), 9);
}

#[test]
fn parse_flamegraph_svg_extracts_frames() {
    let svg = r##"<svg viewBox="0 0 1200 600">
<g><rect x="0" y="540" width="600" height="16" fill="#e05"/>
<title>my_crate::some_fn (200 samples, 40.00%)</title></g>
<g><rect x="0" y="520" width="300" height="16" fill="#e05"/>
<title>std::rt::lang_start (100 samples, 20.00%)</title></g>
</svg>"##;
    let frames = svg_frames(svg);
    assert_eq!(frames.len(), 2);
    let f = &frames[0];
    assert_eq!(f.x.as_deref(), Some("0"));
    assert_eq!(f.y.as_deref(), Some("540"));
    assert_eq!(f.width.as_deref(), Some("600"));
    assert!(!title_percent_before_comma(&f.title));
    let title = split_title(&f.title).unwrap();
    assert_eq!(title.func_name, "my_crate::some_fn");
    assert_eq!(title.short_name, "some_fn");
    assert_eq!(title.samples, 200);
    let pct: f32 = title.pct.parse().unwrap();
    assert!((pct - 40.0).abs() < 0.01);
    let width: f32 = f.width.as_deref().unwrap().parse().unwrap();
    assert!((width / 1200.0 - 0.5).abs() < 0.001);
    assert_eq!(frames[1].title, "std::rt::lang_start (100 samples, 20.00%)");
}

#[test]
fn parse_flamegraph_svg_empty_svg_returns_empty() {
    assert!(svg_frames("<svg></svg>").is_empty());
}

#[test]
fn parse_flamegraph_svg_malformed_title_skipped() {
    let svg = r#"<svg viewBox="0 0 1200 600">
<g><rect x="0" y="540" width="600" height="16"/>
<title>bad title no numbers</title></g>
</svg>"#;
    let frames = svg_frames(svg);
    assert_eq!(frames.len(), 1);
    assert!(!title_percent_before_comma(&frames[0].title));
    assert_eq!(split_title(&frames[0].title), None);
}

#[test]
fn rectangles_without_a_nearby_title_are_passed_over() {
    let svg = "<rect x=\"1\"/><g></g><title>a (1 samples, 1%)</title><rect y=\"2\">";
    assert!(svg_frames(svg).is_empty());
    let unclosed = "<rect x=\"1\"";
    assert!(svg_frames(unclosed).is_empty());
}

#[test]
fn titles_split_into_name_samples_and_percentage() {
    assert_eq!(
        split_title("src/main.rs::a::b (1 samples, 12.5 %)"),
        Some(FrameTitle {
            func_name: "src/main.rs::a::b".to_owned(),
            short_name: "b".to_owned(),
            samples: 1,
            pct: "12.5".to_owned(),
            file_hint: Some("src/main.rs::a::b".to_owned()),
        })
    );
    assert_eq!(split_title("f (99999999999 samples, 1%)"), None);
    assert_eq!(split_title("f (x samples, 1%)"), None);
    assert!(title_percent_before_comma("f (3 samples %,)"));
}

#[test]
fn plugin_lines_are_counted_from_one() {
    let text = "first\r\nsecond\n\nfourth\n";
    assert_eq!(get_line(text, 0), None);
    assert_eq!(get_line(text, 1), Some("first".to_owned()));
    assert_eq!(get_line(text, 2), Some("second".to_owned()));
    assert_eq!(get_line(text, 3), Some(String::new()));
    assert_eq!(get_line(text, 4), Some("fourth".to_owned()));
    assert_eq!(get_line(text, 5), None);
    assert_eq!(get_line("", 1), None);
    assert_eq!(get_line("tail\r", 1), Some("tail\r".to_owned()));
}

#[test]
fn plugin_cursor_is_one_based() {
    assert_eq!(plugin_cursor(0, 4), (1, 5));
    match set_cursor_action(3, 0) {
        PluginAction::SetCursor { line, col } => assert_eq!((line, col), (2, 0)),
        other => panic!("unexpected action {:?}", other),
    }
}

#[test]
fn plugin_paths_stay_inside_the_workspace() {
    assert!(is_path_within("/work/blue/src/main.rs", "/work/blue"));
    assert!(is_path_within("/work/blue/", "/work/blue"));
    assert!(is_path_within("/work//blue/./src", "/work/blue/"));
    assert!(!is_path_within("/work/bluegreen/a.rs", "/work/blue"));
    assert!(!is_path_within("/work", "/work/blue"));
    assert!(!is_path_within("work/blue/a.rs", "/work/blue"));
}

#[test]
fn profiling_runs_only_in_an_open_trusted_idle_workspace() {
    assert!(ProfilerStatus::Idle.can_run(true, true));
    assert!(!ProfilerStatus::Idle.can_run(false, true));
    assert!(!ProfilerStatus::Idle.can_run(true, false));
    assert!(!ProfilerStatus::Running { started_ns: 0 }.can_run(true, true));
    assert!(ProfilerStatus::Done { elapsed_ns: 1 }.can_run(true, true));
}
