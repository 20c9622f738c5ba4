use freya::editor_theme::EditorSyntaxTheme;
use freya::editor::EditorBuffer;
use freya::highlight::{input_edit_of, EditorMetrics, InputEditExt, SyntaxHighlighter};
use freya::languages::LanguageId;
use freya::syntax::{SyntaxBlocks, TextNode};
use ropey::Rope;
use tree_sitter::{InputEdit, Point};

#[test]
fn unknown_languages_get_plain_lines() {
    let t = EditorSyntaxTheme::dark();
    let mut h = SyntaxHighlighter::new();
    h.set_language(LanguageId::Python, &t);
    let rope = Rope::from_str("x = 1\ny");
    let mut blocks = SyntaxBlocks::new();
    h.parse(&rope, &mut blocks, None, &t);
    assert_eq!(blocks.len(), 2);
    assert_eq!(blocks.get_line(0), &[(t.text, TextNode::Range(0..6))]);
    assert_eq!(blocks.get_line(1), &[(t.text, TextNode::Range(6..7))]);
}

#[test]
fn rust_keywords_are_highlighted() {
    let t = EditorSyntaxTheme::dark();
    let mut h = SyntaxHighlighter::default();
    h.set_language(LanguageId::Rust, &t);
    let rope = Rope::from_str("fn main() {}\n");
    let mut blocks = SyntaxBlocks::new();
    h.parse(&rope, &mut blocks, None, &t);
    assert_eq!(blocks.len(), 2);
    let first = &blocks.get_line(0)[0];
    assert_eq!(first, &(t.keyword, TextNode::Range(0..2)));
    assert!(blocks.get_line(1).is_empty());
}

#[test]
fn reparsing_after_an_edit_uses_the_new_text() {
    let t = EditorSyntaxTheme::dark();
    let mut h = SyntaxHighlighter::new();
    h.set_language(LanguageId::Rust, &t);
    let mut blocks = SyntaxBlocks::new();
    h.parse(&Rope::from_str("fn a() {}"), &mut blocks, None, &t);
    let edit = InputEdit::new_edit(0, 0, 4, (0, 0), (0, 0), (0, 4));
    h.parse(&Rope::from_str("pub fn a() {}"), &mut blocks, Some(edit), &t);
    assert_eq!(blocks.len(), 1);
    assert_eq!(blocks.get_line(0)[0], (t.keyword, TextNode::Range(0..3)));
    h.invalidate_tree();
    h.parse(&Rope::from_str("let"), &mut blocks, None, &t);
    assert_eq!(blocks.len(), 1);
}

#[test]
fn new_edit_keeps_offsets_and_positions() {
    let e = InputEdit::new_edit(1, 2, 3, (4, 5), (6, 7), (8, 9));
    assert_eq!(e.start_byte, 1);
    assert_eq!(e.old_end_byte, 2);
    assert_eq!(e.new_end_byte, 3);
    assert_eq!(e.start_position, Point { row: 4, column: 5 });
    assert_eq!(e.old_end_position, Point { row: 6, column: 7 });
    assert_eq!(e.new_end_position, Point { row: 8, column: 9 });
}

#[test]
fn an_editor_hands_its_pending_edit_to_the_parser() {
    let t = EditorSyntaxTheme::dark();
    let mut buffer = EditorBuffer::new(Rope::from_str("fn a() {}"));
    let mut metrics = EditorMetrics::new();
    buffer.parse(&mut metrics, LanguageId::Rust, &t);
    buffer.insert("pub ", 0);
    let edit = input_edit_of(buffer.pending_edit.unwrap());
    assert_eq!((edit.start_byte, edit.old_end_byte, edit.new_end_byte), (0, 0, 4));
    assert_eq!(edit.new_end_position, Point { row: 0, column: 4 });
    buffer.parse(&mut metrics, LanguageId::Rust, &t);
    assert!(buffer.pending_edit.is_none());
    assert_eq!(metrics.syntax_blocks.len(), 1);
    assert_eq!(metrics.syntax_blocks.get_line(0)[0], (t.keyword, TextNode::Range(0..3)));
    metrics.run_parser(&Rope::from_str("x\ny"), LanguageId::Unknown, None, &t);
    assert_eq!(metrics.syntax_blocks.len(), 2);
}

#[test]
fn each_bundled_grammar_has_a_highlight_query() {
    let t = EditorSyntaxTheme::dark();
    assert!(LanguageId::Rust.lang_config(&t).is_some());
    assert!(LanguageId::Json.lang_config(&t).is_some());
    assert!(LanguageId::Toml.lang_config(&t).is_some());
    assert!(LanguageId::Markdown.lang_config(&t).is_some());
    assert!(LanguageId::Python.lang_config(&t).is_none());
    assert!(LanguageId::Unknown.lang_config(&t).is_none());
}

#[test]
fn json_and_toml_values_are_highlighted() {
    let t = EditorSyntaxTheme::dark();
    let mut h = SyntaxHighlighter::new();
    h.set_language(LanguageId::Json, &t);
    let mut blocks = SyntaxBlocks::new();
    h.parse(&Rope::from_str("[1, true]"), &mut blocks, None, &t);
    assert_eq!(blocks.len(), 1);
    assert!(blocks.get_line(0).iter().any(|(c, n)| *c == t.number && *n == TextNode::Range(1..2)));
    h.set_language(LanguageId::Toml, &t);
    h.parse(&Rope::from_str("a = 1"), &mut blocks, None, &t);
    assert_eq!(blocks.len(), 1);
    assert!(blocks.get_line(0).iter().any(|(c, _)| *c == t.number));
}
