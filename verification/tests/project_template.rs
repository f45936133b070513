use blue_ide::project_template::{NewProjectState, TemplateKind};

fn state(name: &str, target_dir: &str) -> NewProjectState {
    NewProjectState {
        name: name.to_owned(),
        target_dir: target_dir.to_owned(),
        ..NewProjectState::default()
    }
}

#[test]
fn rejects_empty_name() {
    let state = state("", "/tmp");
    assert!(state.validate().is_err());
}

#[test]
fn rejects_invalid_ident() {
    let state = state("123bad", "/tmp");
    assert!(state.validate().is_err());
}

#[test]
fn accepts_valid_ident_with_hyphens() {
    let state = state("my-app", "/tmp");
    assert!(state.validate().is_ok());
}

#[test]
fn validation_messages_and_blank_directory() {
    assert_eq!(state("   ", "/tmp").validate(), Err("Project name cannot be empty.".to_owned()));
    assert_eq!(
        state("a b", "/tmp").validate(),
        Err("Project name must start with a letter or underscore and contain only letters, digits, hyphens, and underscores.".to_owned())
    );
    assert_eq!(state("app", "  ").validate(), Err("Target directory cannot be empty.".to_owned()));
    assert!(state("_app9", "/tmp").validate().is_ok());
    assert!(state("caf\u{e9}", "/tmp").validate().is_ok());
}

#[test]
fn project_path_joins_trimmed_directory_and_name() {
    assert_eq!(state(" my_app ", " /tmp ").project_path(), "/tmp/my_app");
    assert_eq!(state("my_app", "/tmp/").project_path(), "/tmp/my_app");
    assert_eq!(state("x", "/tmp").preview_path(), Some("/tmp/x".to_owned()));
    assert_eq!(state("", "/tmp").preview_path(), None);
}

#[test]
fn rust_binary_template_files() {
    let files = state("my_app", "/tmp").template_files();
    assert_eq!(files.len(), 4);
    assert_eq!(files[0].0, "Cargo.toml");
    assert_eq!(
        files[0].1,
        "[package]\nname = \"my_app\"\nversion = \"0.1.0\"\nedition = \"2021\"\n\n[dependencies]\n"
    );
    assert_eq!(files[1], ("src/main.rs".to_owned(), "fn main() {\n    println!(\"Hello, world!\");\n}\n".to_owned()));
    assert_eq!(files[2], (".gitignore".to_owned(), "/target\n".to_owned()));
    assert_eq!(files[3], ("README.md".to_owned(), "# my_app\n\nA new Rust project.\n".to_owned()));
    assert_eq!(TemplateKind::RustBinary.label(), "Rust \u{2014} Binary (Cargo)");
    assert_eq!(TemplateKind::all(), vec![TemplateKind::RustBinary]);
}

#[test]
fn outcome_updates_feedback_and_visibility() {
    let mut s = state("my_app", "/tmp");
    s.open();
    assert!(s.open);
    assert!(s.name.is_empty());
    s.open_after = false;
    s.record_outcome(Ok("/tmp/my_app".to_owned()));
    assert_eq!(s.feedback.as_deref(), Some("Project created at /tmp/my_app"));
    assert_eq!(s.success_path.as_deref(), Some("/tmp/my_app"));
    assert!(!s.open);
    s.open = true;
    s.record_outcome(Err("boom".to_owned()));
    assert_eq!(s.feedback.as_deref(), Some("boom"));
    assert!(s.success_path.is_none());
    assert!(s.open);
    s.cancel();
    assert!(!s.open);
}
