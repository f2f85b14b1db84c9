//! Release notes as plain text.
use anthelion::markdown::{markdown_to_plain_text, EndTag, MarkdownEvent, PlainText};

fn plain(events: Vec<MarkdownEvent<String, EndTag>>) -> Option<String> {
    let mut text = PlainText::new();
    for event in events {
        text.push(event);
    }
    text.finish()
}

fn text(s: &str) -> MarkdownEvent<String, EndTag> {
    MarkdownEvent::Text(s.to_owned())
}

#[test]
fn converts_a_document() {
    assert_eq!(
        markdown_to_plain_text(
            "# Changes\n\nSome *emphasized* `code`\nin two lines.\n\n- first\n- [x] second\n\n## More\n\n1. one\n"
        ),
        Some(
            "Changes\nSome emphasized code\nin two lines.\n- first\n- [x] second\n\nMore\n- one"
                .to_owned()
        )
    );
}

#[test]
fn nothing_comes_of_an_empty_document() {
    assert_eq!(markdown_to_plain_text(""), None);
    assert_eq!(markdown_to_plain_text(" \n\n"), None);
    assert_eq!(markdown_to_plain_text("---"), None);
    assert_eq!(plain(Vec::new()), None);
    assert_eq!(plain(vec![text("  "), MarkdownEvent::HardBreak]), None);
}

#[test]
fn keeps_tables_and_code_blocks() {
    assert_eq!(
        markdown_to_plain_text("| a | b |\n|---|---|\n| c | d |\n"),
        Some("ab\ncd".to_owned())
    );
    assert_eq!(
        markdown_to_plain_text("```rust\nfn main() {}\n```\n> quoted\n"),
        Some("fn main() {}\nquoted".to_owned())
    );
    assert_eq!(markdown_to_plain_text("a <b>bold</b> word"), Some("a <b>bold</b> word".to_owned()));
}

#[test]
fn an_empty_line_comes_before_each_heading_but_the_first() {
    let heading = |s: &str| {
        vec![
            MarkdownEvent::StartHeading,
            text(s),
            MarkdownEvent::End(EndTag::Heading),
        ]
    };
    let mut events = heading("a");
    events.extend(heading("b"));
    assert_eq!(plain(events), Some("a\n\nb".to_owned()));

    let events = vec![
        MarkdownEvent::StartHeading,
        text("a"),
        MarkdownEvent::StartHeading,
        text("b"),
    ];
    assert_eq!(plain(events), Some("a\n\nb".to_owned()));

    let events = vec![
        MarkdownEvent::StartHeading,
        text("a\n\n"),
        MarkdownEvent::StartHeading,
        text("b"),
    ];
    assert_eq!(plain(events), Some("a\n\nb".to_owned()));
}

#[test]
fn items_start_on_their_own_line() {
    let events = vec![
        MarkdownEvent::StartItem,
        text("a"),
        MarkdownEvent::StartItem,
        MarkdownEvent::TaskListMarker(false),
        text("b"),
        MarkdownEvent::End(EndTag::Item),
        MarkdownEvent::End(EndTag::List),
        text("c"),
    ];
    assert_eq!(plain(events), Some("- a\n- [ ] b\nc".to_owned()));
}

#[test]
fn ends_of_blocks_end_the_line_once() {
    for tag in vec![
        EndTag::Paragraph,
        EndTag::Heading,
        EndTag::BlockQuote,
        EndTag::CodeBlock,
        EndTag::Item,
        EndTag::List,
        EndTag::Table,
        EndTag::TableHead,
        EndTag::TableRow,
    ] {
        let events =
            vec![text("a"), MarkdownEvent::End(tag), MarkdownEvent::End(tag), text("b")];
        assert_eq!(plain(events), Some("a\nb".to_owned()));
    }
    let events = vec![text("a"), MarkdownEvent::End(EndTag::Other), text("b")];
    assert_eq!(plain(events), Some("ab".to_owned()));
}

#[test]
fn breaks_and_rules() {
    let events = vec![
        text("a"),
        MarkdownEvent::SoftBreak,
        MarkdownEvent::SoftBreak,
        MarkdownEvent::Rule,
        text("b"),
        MarkdownEvent::Rule,
        MarkdownEvent::Code("c".to_owned()),
        MarkdownEvent::Html("<d>".to_owned()),
        MarkdownEvent::InlineHtml("<e>".to_owned()),
        MarkdownEvent::Other,
        MarkdownEvent::HardBreak,
        text("f"),
    ];
    assert_eq!(plain(events), Some("a\n\nb\nc<d><e>\nf".to_owned()));
}
