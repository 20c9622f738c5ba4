use freya::markdown::{markdown_elements, parse_markdown, MarkdownElement, TextSpan};
use pulldown_cmark::{CowStr, Event, HeadingLevel, Tag, TagEnd};

fn span(text: &str, bold: bool, italic: bool, code: bool) -> TextSpan {
    TextSpan { text: text.to_string(), bold, italic, strikethrough: false, code }
}

fn plain(text: &str) -> TextSpan {
    span(text, false, false, false)
}

#[test]
fn heading_and_styled_paragraph() {
    let elements = parse_markdown("# Hello World\n\nThis is **bold** and *italic* text.");
    assert_eq!(
        elements,
        vec![
            MarkdownElement::Heading { level: 1, spans: vec![plain("Hello World")] },
            MarkdownElement::Paragraph {
                spans: vec![
                    plain("This is "),
                    span("bold", true, false, false),
                    plain(" and "),
                    span("italic", false, true, false),
                    plain(" text."),
                ],
            },
        ]
    );
}

#[test]
fn fenced_code_is_trimmed_and_keeps_its_language() {
    let elements = parse_markdown("```rust\nfn main() {}\n```\n\n```\n  x  \n```");
    assert_eq!(
        elements,
        vec![
            MarkdownElement::CodeBlock { code: "fn main() {}".to_string(), language: Some("rust".to_string()) },
            MarkdownElement::CodeBlock { code: "x".to_string(), language: None },
        ]
    );
}

#[test]
fn lists() {
    assert_eq!(
        parse_markdown("- a\n- b"),
        vec![MarkdownElement::UnorderedList { items: vec![vec![plain("a")], vec![plain("b")]] }]
    );
    assert_eq!(
        parse_markdown("3. x\n4. y"),
        vec![MarkdownElement::OrderedList { start: 3, items: vec![vec![plain("x")], vec![plain("y")]] }]
    );
}

#[test]
fn tables_quotes_and_rules() {
    assert_eq!(
        parse_markdown("| a | b |\n|---|---|\n| 1 | 2 |"),
        vec![MarkdownElement::Table {
            headers: vec![vec![plain("a")], vec![plain("b")]],
            rows: vec![vec![vec![plain("1")], vec![plain("2")]]],
        }]
    );
    assert_eq!(parse_markdown("> quote"), vec![MarkdownElement::Blockquote { spans: vec![plain("quote")] }]);
    assert_eq!(parse_markdown("***"), vec![MarkdownElement::HorizontalRule]);
}

#[test]
fn links_images_and_inline_code() {
    assert_eq!(
        parse_markdown("[site](http://x.y \"T\")"),
        vec![
            MarkdownElement::Link {
                url: "http://x.y".to_string(),
                title: Some("T".to_string()),
                text: vec![plain("site")],
            },
            MarkdownElement::Paragraph { spans: vec![] },
        ]
    );
    assert_eq!(
        parse_markdown("![alt](img.png)"),
        vec![
            MarkdownElement::Image { url: "img.png".to_string(), alt: String::new() },
            MarkdownElement::Paragraph { spans: vec![plain("alt")] },
        ]
    );
    assert_eq!(
        parse_markdown("use `x` here"),
        vec![MarkdownElement::Paragraph {
            spans: vec![plain("use "), span("x", false, false, true), plain(" here")],
        }]
    );
}

#[test]
fn line_breaks_become_blanks_and_strikethrough_is_kept() {
    let elements = parse_markdown("a\nb ~~c~~");
    assert_eq!(
        elements,
        vec![MarkdownElement::Paragraph {
            spans: vec![
                plain("a"),
                plain(" "),
                plain("b "),
                TextSpan { text: "c".to_string(), bold: false, italic: false, strikethrough: true, code: false },
            ],
        }]
    );
}

#[test]
fn events_build_blocks() {
    let events = vec![
        Event::Start(Tag::Heading { level: HeadingLevel::H3, id: None, classes: vec![], attrs: vec![] }),
        Event::Text(CowStr::Borrowed("T")),
        Event::End(TagEnd::Heading(HeadingLevel::H3)),
        Event::Rule,
        Event::End(TagEnd::Heading(HeadingLevel::H3)),
    ];
    assert_eq!(
        markdown_elements(&events),
        vec![MarkdownElement::Heading { level: 3, spans: vec![plain("T")] }, MarkdownElement::HorizontalRule]
    );
}
