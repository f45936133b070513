use blue_ide::editor::position::decode_utf16_column;
use blue_ide::lsp::types::{DiagnosticSeverity, LspDiagnostic};
use blue_ide::problems_panel::{
    count_all_diagnostics, count_diagnostics, flatten_diagnostics, group_problems, row_file_name,
    severity_icon, severity_order, DiagnosticRow, DiagnosticsByFile, ProblemsPanel,
};

fn make_diagnostic(line: u32, col: u32, severity: DiagnosticSeverity, message: &str) -> LspDiagnostic {
    LspDiagnostic {
        line_start: line,
        col_start: col,
        line_end: line,
        col_end: col,
        severity,
        message: message.to_owned(),
        code: None,
    }
}

#[test]
fn flatten_produces_sorted_rows() {
    let mut diagnostics = DiagnosticsByFile::new();
    diagnostics.insert(
        "b.rs".to_string(),
        vec![make_diagnostic(5, 10, DiagnosticSeverity::Error, "error b")],
    );
    diagnostics.insert(
        "a.rs".to_string(),
        vec![
            make_diagnostic(10, 0, DiagnosticSeverity::Warning, "warning a"),
            make_diagnostic(5, 0, DiagnosticSeverity::Error, "error a"),
        ],
    );

    let rows = flatten_diagnostics(&diagnostics);

    assert_eq!(rows.len(), 3);
    assert_eq!(rows[0].path, "a.rs");
    assert_eq!(rows[0].line, 5);
    assert_eq!(rows[0].severity, DiagnosticSeverity::Error);
    assert_eq!(rows[1].path, "a.rs");
    assert_eq!(rows[1].line, 10);
    assert_eq!(rows[1].severity, DiagnosticSeverity::Warning);
    assert_eq!(rows[2].path, "b.rs");
    assert_eq!(rows[2].line, 5);
}

#[test]
fn count_diagnostics_returns_correct_totals() {
    let rows = vec![
        DiagnosticRow {
            path: "a.rs".to_string(),
            line: 0,
            col: 0,
            severity: DiagnosticSeverity::Error,
            message: "e1".to_owned(),
            code: None,
        },
        DiagnosticRow {
            path: "a.rs".to_string(),
            line: 1,
            col: 0,
            severity: DiagnosticSeverity::Warning,
            message: "w1".to_owned(),
            code: None,
        },
        DiagnosticRow {
            path: "a.rs".to_string(),
            line: 2,
            col: 0,
            severity: DiagnosticSeverity::Hint,
            message: "h1".to_owned(),
            code: None,
        },
    ];

    let counts = count_diagnostics(&rows);

    assert_eq!(counts.total, 3);
    assert_eq!(counts.errors, 1);
    assert_eq!(counts.warnings, 1);
}

#[test]
fn empty_diagnostics_returns_empty_rows() {
    let diagnostics = DiagnosticsByFile::new();
    let rows = flatten_diagnostics(&diagnostics);
    assert!(rows.is_empty());
}

#[test]
fn diagnostic_code_is_preserved() {
    let mut diagnostics = DiagnosticsByFile::new();
    let mut diag = make_diagnostic(0, 0, DiagnosticSeverity::Error, "unused");
    diag.code = Some("E0001".to_owned());
    diagnostics.insert("main.rs".to_string(), vec![diag]);

    let rows = flatten_diagnostics(&diagnostics);

    assert_eq!(rows.len(), 1);
    assert_eq!(rows[0].code, Some("E0001".to_owned()));
}

#[test]
fn flatten_breaks_ties_by_column_severity_and_message() {
    let mut diagnostics = DiagnosticsByFile::new();
    diagnostics.insert(
        "x.rs".to_string(),
        vec![
            make_diagnostic(1, 4, DiagnosticSeverity::Error, "late column"),
            make_diagnostic(1, 2, DiagnosticSeverity::Hint, "b"),
            make_diagnostic(1, 2, DiagnosticSeverity::Hint, "a"),
            make_diagnostic(1, 2, DiagnosticSeverity::Warning, "z"),
        ],
    );
    let rows = flatten_diagnostics(&diagnostics);
    let messages: Vec<&str> = rows.iter().map(|r| r.message.as_str()).collect();
    assert_eq!(messages, vec!["z", "a", "b", "late column"]);
}

#[test]
fn inserting_a_path_again_replaces_its_diagnostics() {
    let mut diagnostics = DiagnosticsByFile::new();
    assert!(diagnostics
        .insert("a.rs".to_string(), vec![make_diagnostic(0, 0, DiagnosticSeverity::Error, "old")])
        .is_none());
    let previous = diagnostics
        .insert("a.rs".to_string(), vec![make_diagnostic(1, 0, DiagnosticSeverity::Hint, "new")]);
    assert_eq!(previous.map(|v| v.len()), Some(1));
    assert_eq!(diagnostics.len(), 1);
    let rows = flatten_diagnostics(&diagnostics);
    assert_eq!(rows.len(), 1);
    assert_eq!(rows[0].message, "new");
}

#[test]
fn counts_over_files_agree_with_counts_over_rows() {
    let mut diagnostics = DiagnosticsByFile::new();
    diagnostics.insert(
        "a.rs".to_string(),
        vec![
            make_diagnostic(0, 0, DiagnosticSeverity::Error, "e"),
            make_diagnostic(1, 0, DiagnosticSeverity::Warning, "w"),
        ],
    );
    diagnostics.insert(
        "b.rs".to_string(),
        vec![
            make_diagnostic(0, 0, DiagnosticSeverity::Error, "e2"),
            make_diagnostic(0, 1, DiagnosticSeverity::Information, "i"),
        ],
    );
    let (errors, warnings) = count_all_diagnostics(&diagnostics);
    assert_eq!((errors, warnings), (2, 1));
    let counts = count_diagnostics(&flatten_diagnostics(&diagnostics));
    assert_eq!((counts.errors, counts.warnings, counts.total), (2, 1, 4));
}

#[test]
fn severity_icons_and_order() {
    assert_eq!(severity_icon(DiagnosticSeverity::Error), "\u{2716}");
    assert_eq!(severity_icon(DiagnosticSeverity::Warning), "\u{26a0}");
    assert_eq!(severity_icon(DiagnosticSeverity::Information), "\u{2139}");
    assert_eq!(severity_icon(DiagnosticSeverity::Hint), "\u{1f4a1}");
    assert_eq!(severity_order(DiagnosticSeverity::Error), 0);
    assert_eq!(severity_order(DiagnosticSeverity::Hint), 3);
}

#[test]
fn row_file_name_is_last_component() {
    assert_eq!(row_file_name("src/lib.rs"), "lib.rs");
    assert_eq!(row_file_name("/"), "");
    assert_eq!(row_file_name("a/.."), "");
}

#[test]
fn grouped_view_filters_sorts_and_orders_files_by_component() {
    let mut diagnostics = DiagnosticsByFile::new();
    diagnostics.insert(
        "src-b/x.rs".to_string(),
        vec![make_diagnostic(3, 0, DiagnosticSeverity::Error, "Broken thing")],
    );
    diagnostics.insert(
        "src/a.rs".to_string(),
        vec![
            make_diagnostic(9, 0, DiagnosticSeverity::Warning, "unused import"),
            make_diagnostic(2, 5, DiagnosticSeverity::Error, "mismatched types"),
            make_diagnostic(1, 0, DiagnosticSeverity::Hint, "consider this"),
        ],
    );
    diagnostics.insert(
        "src/c.rs".to_string(),
        vec![make_diagnostic(0, 0, DiagnosticSeverity::Hint, "hint only")],
    );

    let mut state = ProblemsPanel::default();
    state.show_hints = false;
    let groups = group_problems(&diagnostics, &state);
    let paths: Vec<&str> = groups.iter().map(|g| g.0.as_str()).collect();
    assert_eq!(paths, vec!["src/a.rs", "src-b/x.rs"]);
    let messages: Vec<&str> = groups[0].1.iter().map(|d| d.message.as_str()).collect();
    assert_eq!(messages, vec!["mismatched types", "unused import"]);

    state.show_hints = true;
    state.filter_text = "BROKEN".to_string();
    let groups = group_problems(&diagnostics, &state);
    assert_eq!(groups.len(), 1);
    assert_eq!(groups[0].0, "src-b/x.rs");

    state.filter_text = "C.RS".to_string();
    let groups = group_problems(&diagnostics, &state);
    assert_eq!(groups.len(), 1);
    assert_eq!(groups[0].0, "src/c.rs");
}

#[test]
fn utf16_navigation_ascii() {
    let line = "hello world";
    assert_eq!(decode_utf16_column(line, 0), 0);
    assert_eq!(decode_utf16_column(line, 5), 5);
    assert_eq!(decode_utf16_column(line, 11), 11);
}

#[test]
fn utf16_navigation_multibyte_bmp() {
    let line = "文字列";
    assert_eq!(decode_utf16_column(line, 0), 0);
    assert_eq!(decode_utf16_column(line, 1), 1);
    assert_eq!(decode_utf16_column(line, 2), 2);
    assert_eq!(decode_utf16_column(line, 3), 3);
}

#[test]
fn utf16_navigation_end_of_line_and_clamped() {
    let ascii = "hello world";
    let ascii_eol = ascii.chars().count();
    assert_eq!(decode_utf16_column(ascii, ascii_eol as u32), ascii_eol);
    assert_eq!(decode_utf16_column(ascii, 99), ascii_eol);

    let emoji = "a😀b";
    assert_eq!(decode_utf16_column(emoji, 4), 3);
    assert_eq!(decode_utf16_column(emoji, 99), 3);
}

#[test]
fn utf16_navigation_emoji_non_bmp() {
    let line = "a😀b";
    assert_eq!(decode_utf16_column(line, 0), 0);
    assert_eq!(decode_utf16_column(line, 1), 1);
    assert_eq!(decode_utf16_column(line, 2), 1);
    assert_eq!(decode_utf16_column(line, 3), 2);
    assert_eq!(decode_utf16_column(line, 4), 3);
}

#[test]
fn toggling_a_file_collapses_then_opens_it() {
    let mut panel = ProblemsPanel::default();
    assert!(!panel.is_collapsed("src/main.rs"));
    panel.toggle_collapsed("src/main.rs");
    panel.toggle_collapsed("src/lib.rs");
    assert!(panel.is_collapsed("src/main.rs"));
    assert!(panel.is_collapsed("src/lib.rs"));
    assert_eq!(panel.collapsed_files.len(), 2);
    panel.toggle_collapsed("src/main.rs");
    assert!(!panel.is_collapsed("src/main.rs"));
    assert!(panel.is_collapsed("src/lib.rs"));
    assert_eq!(panel.collapsed_files, vec!["src/lib.rs".to_owned()]);
}

#[test]
fn equal_positions_keep_the_server_order() {
    let mut diagnostics = DiagnosticsByFile::new();
    diagnostics.insert(
        "a.rs".to_string(),
        vec![
            make_diagnostic(3, 1, DiagnosticSeverity::Warning, "second sent first"),
            make_diagnostic(3, 1, DiagnosticSeverity::Error, "error"),
            make_diagnostic(3, 1, DiagnosticSeverity::Warning, "sent later"),
            make_diagnostic(1, 0, DiagnosticSeverity::Warning, "earlier line"),
        ],
    );
    let groups = group_problems(&diagnostics, &ProblemsPanel::default());
    assert_eq!(groups.len(), 1);
    let messages: Vec<&str> = groups[0].1.iter().map(|d| d.message.as_str()).collect();
    assert_eq!(messages, vec!["error", "earlier line", "second sent first", "sent later"]);
}
