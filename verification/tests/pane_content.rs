use blue_ide::pane_content::PaneContent;

#[test]
fn markdown_toggle_follows_the_extension() {
    let readme = PaneContent::detect_from_path(&"docs/README.MD".to_owned(), false);
    assert_eq!(readme, PaneContent::CodeEditor { path: "docs/README.MD".to_owned() });
    assert!(readme.is_markdown_related());

    let notes = PaneContent::detect_from_path(&"notes.markdown".to_owned(), true);
    assert_eq!(notes, PaneContent::MarkdownPreview { path: "notes.markdown".to_owned() });
    assert!(notes.is_markdown_related());

    let image = PaneContent::detect_from_path(&"logo.png".to_owned(), true);
    assert_eq!(image, PaneContent::ImageViewer { path: "logo.png".to_owned() });
    assert!(!image.is_markdown_related());

    let code = PaneContent::detect_from_path(&"src/main.rs".to_owned(), true);
    assert!(!code.is_markdown_related());
    assert!(!PaneContent::Empty.is_markdown_related());
}
