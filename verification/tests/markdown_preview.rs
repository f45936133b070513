use blue_ide::markdown_preview::{is_remote_image, layout_markdown, markdown_blocks, MdBlock, MdEvent, MdTag, MdTagEnd};

fn text(s: &str) -> MdEvent {
    MdEvent::Text(s.to_owned())
}

fn para(s: &str, quoted: bool) -> MdBlock {
    MdBlock::Paragraph { text: s.to_owned(), quoted }
}

#[test]
fn headings_and_paragraphs_are_laid_out_in_order() {
    let events = vec![
        MdEvent::Start(MdTag::Heading(1)),
        text("Title"),
        MdEvent::End(MdTagEnd::Heading),
        MdEvent::Start(MdTag::Paragraph),
        text("Hello"),
        MdEvent::SoftBreak,
        text("world"),
        MdEvent::End(MdTagEnd::Paragraph),
    ];
    assert_eq!(
        layout_markdown(&events),
        vec![
            MdBlock::Heading { level: 1, text: "Title".to_owned() },
            MdBlock::Space(4),
            para("Hello world", false),
            MdBlock::Space(8),
        ]
    );
}

#[test]
fn code_blocks_keep_their_text_and_language() {
    let events = vec![
        MdEvent::Start(MdTag::CodeBlock("rust".to_owned())),
        text("fn main() {}\n"),
        MdEvent::Code("x".to_owned()),
        MdEvent::SoftBreak,
        MdEvent::End(MdTagEnd::CodeBlock),
        MdEvent::Code("inline".to_owned()),
    ];
    assert_eq!(
        layout_markdown(&events),
        vec![
            MdBlock::CodeBlock { lang: "rust".to_owned(), code: "fn main() {}\nx".to_owned() },
            MdBlock::Space(4),
            MdBlock::InlineCode("inline".to_owned()),
        ]
    );
}

#[test]
fn ordered_lists_count_and_nested_items_indent() {
    let item = |s: &str| vec![MdEvent::Start(MdTag::Item), text(s), MdEvent::End(MdTagEnd::Item)];
    let mut events = vec![MdEvent::Start(MdTag::List(Some(3)))];
    events.extend(item("a"));
    events.extend(item("b"));
    events.push(MdEvent::Start(MdTag::List(None)));
    events.extend(item("c"));
    events.push(MdEvent::End(MdTagEnd::List));
    events.push(MdEvent::End(MdTagEnd::List));
    let bullet = |indent: usize, b: &str, t: &str| MdBlock::ListItem {
        indent,
        bullet: b.to_owned(),
        text: t.to_owned(),
    };
    assert_eq!(
        layout_markdown(&events),
        vec![
            bullet(0, "3.", "a"),
            bullet(0, "4.", "b"),
            bullet(1, "\u{2022}", "c"),
            MdBlock::Space(4),
            MdBlock::Space(4),
        ]
    );
}

#[test]
fn tables_collect_header_and_rows() {
    let cell = |s: &str| {
        vec![MdEvent::Start(MdTag::TableCell), text(s), MdEvent::End(MdTagEnd::TableCell)]
    };
    let mut events = vec![MdEvent::Start(MdTag::Table), MdEvent::Start(MdTag::TableHead)];
    events.extend(cell("k"));
    events.extend(cell("v"));
    events.push(MdEvent::End(MdTagEnd::TableHead));
    events.push(MdEvent::Start(MdTag::TableRow));
    events.extend(cell("a"));
    events.push(MdEvent::End(MdTagEnd::TableRow));
    events.push(MdEvent::End(MdTagEnd::Table));
    let rows = vec![
        vec!["k".to_owned(), "v".to_owned()],
        vec!["a".to_owned()],
    ];
    assert_eq!(
        layout_markdown(&events),
        vec![MdBlock::Table { rows, columns: 2 }, MdBlock::Space(8)]
    );
}

#[test]
fn quotes_rules_links_images_and_checkboxes() {
    let events = vec![
        MdEvent::Start(MdTag::BlockQuote),
        MdEvent::Start(MdTag::Paragraph),
        text("said"),
        MdEvent::End(MdTagEnd::Paragraph),
        MdEvent::End(MdTagEnd::BlockQuote),
        MdEvent::Rule,
        MdEvent::Start(MdTag::Other),
        text("docs"),
        MdEvent::End(MdTagEnd::Link),
        MdEvent::Start(MdTag::Image("pic.png".to_owned())),
        MdEvent::TaskListMarker(true),
        MdEvent::Other,
        text("tail"),
    ];
    assert_eq!(
        layout_markdown(&events),
        vec![
            para("said", true),
            MdBlock::Space(8),
            MdBlock::Space(4),
            MdBlock::Space(4),
            MdBlock::Rule,
            MdBlock::Space(4),
            MdBlock::Link("docs".to_owned()),
            MdBlock::Image("pic.png".to_owned()),
            MdBlock::Checkbox(true),
            para("tail", false),
        ]
    );
}

#[test]
fn empty_documents_draw_nothing() {
    assert!(layout_markdown(&[]).is_empty());
    assert!(layout_markdown(&[MdEvent::Start(MdTag::Paragraph), MdEvent::End(MdTagEnd::Other)]).is_empty());
}

#[test]
fn remote_images_are_told_apart() {
    assert!(is_remote_image("https://example.com/a.png"));
    assert!(is_remote_image("http://example.com/a.png"));
    assert!(!is_remote_image("img/a.png"));
}

#[test]
fn documents_are_parsed_and_laid_out() {
    assert_eq!(
        markdown_blocks("# Title\n\nHello *world*\n"),
        vec![
            MdBlock::Heading { level: 1, text: "Title".to_owned() },
            MdBlock::Space(4),
            para("Hello world", false),
            MdBlock::Space(8),
        ]
    );
    assert!(markdown_blocks("").is_empty());
}
