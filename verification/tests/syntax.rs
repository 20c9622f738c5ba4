use freya::editor_theme::{CodeEditorThemeExt, Color, EditorSyntaxTheme, EditorTheme, Theme, ThemeValue};
use freya::syntax::{
    build_lines_from_spans, build_plain_blocks, highlight_lines, resolve_capture_color,
    spans_from_captures, Span, SyntaxBlocks, SyntaxLine, TextNode,
};
use ropey::Rope;

fn run(color: Color, node: TextNode) -> (Color, TextNode) {
    (color, node)
}

#[test]
fn colors_pack_their_channels() {
    assert_eq!(Color::from_rgb(1, 2, 3).argb, 0xFF01_0203);
    assert_eq!(Color::from_argb(51, 223, 191, 142).argb, 0x33DF_BF8E);
    assert_eq!(EditorSyntaxTheme::dark().text, Color::from_rgb(235, 219, 178));
    assert_eq!(EditorSyntaxTheme::light().keyword, Color::from_rgb(215, 58, 73));
    assert_eq!(EditorSyntaxTheme::default(), EditorSyntaxTheme::light());
    assert_eq!(EditorTheme::dark().cursor, Color::from_rgb(255, 255, 255));
    assert_eq!(EditorTheme::default(), EditorTheme::light());
}

#[test]
fn capture_names_fall_back_to_their_prefixes() {
    let t = EditorSyntaxTheme::dark();
    assert_eq!(resolve_capture_color("function.method", &t), t.function_method);
    assert_eq!(resolve_capture_color("function.method.call", &t), t.function_method);
    assert_eq!(resolve_capture_color("keyword.control.rust", &t), t.keyword);
    assert_eq!(resolve_capture_color("string.special.key", &t), t.string_special);
    assert_eq!(resolve_capture_color("type.builtin", &t), t.type_);
    assert_eq!(resolve_capture_color("variable.other.member", &t), t.variable);
    assert_eq!(resolve_capture_color("comment.documentation", &t), t.comment);
    assert_eq!(resolve_capture_color("nothing.known", &t), t.text);
    assert_eq!(resolve_capture_color("", &t), t.text);
}

#[test]
fn an_exact_entry_is_taken_whatever_its_color() {
    let mut t = EditorSyntaxTheme::dark();
    t.punctuation_bracket = t.text;
    assert_ne!(t.punctuation, t.text);
    assert_eq!(resolve_capture_color("punctuation.bracket", &t), t.text);
    assert_eq!(resolve_capture_color("punctuation.bracket.round", &t), t.text);
    assert_eq!(resolve_capture_color("punctuation.other", &t), t.punctuation);
    t.keyword = t.text;
    assert_eq!(resolve_capture_color("keyword.control", &t), t.text);
}

#[test]
fn leading_blanks_become_dots_and_spans_color_runs() {
    let t = EditorSyntaxTheme::dark();
    let k = Color::from_rgb(9, 9, 9);
    let rope = Rope::from_str("  ab\ncd");
    let spans = [Span { start_byte: 2, end_byte: 3, color: k }];
    let mut blocks = SyntaxBlocks::default();
    build_lines_from_spans(&rope, &spans, &mut blocks, &t);
    assert_eq!(blocks.len(), 2);
    assert_eq!(
        blocks.get_line(0),
        &[
            run(t.whitespace, TextNode::LineOfChars { len: 2, char: '\u{B7}' }),
            run(k, TextNode::Range(2..3)),
            run(t.text, TextNode::Range(3..4)),
        ]
    );
    assert_eq!(blocks.get_line(1), &[run(t.text, TextNode::Range(5..7))]);
}

#[test]
fn later_spans_draw_over_earlier_ones_and_line_breaks_are_left_out() {
    let t = EditorSyntaxTheme::light();
    let a = Color::from_rgb(1, 0, 0);
    let b = Color::from_rgb(0, 1, 0);
    let rope = Rope::from_str("abcdef\r\n\r\nx");
    let spans = [
        Span { start_byte: 0, end_byte: 4, color: a },
        Span { start_byte: 2, end_byte: 3, color: b },
        Span { start_byte: 5, end_byte: 11, color: b },
    ];
    let mut blocks = SyntaxBlocks::new();
    build_lines_from_spans(&rope, &spans, &mut blocks, &t);
    assert_eq!(blocks.len(), 3);
    assert_eq!(
        blocks.get_line(0),
        &[
            run(a, TextNode::Range(0..2)),
            run(b, TextNode::Range(2..3)),
            run(a, TextNode::Range(3..4)),
            run(t.text, TextNode::Range(4..5)),
            run(b, TextNode::Range(5..6)),
        ]
    );
    assert!(blocks.get_line(1).is_empty());
    assert_eq!(blocks.get_line(2), &[run(b, TextNode::Range(10..11))]);
}

#[test]
fn a_run_inside_one_char_is_an_empty_dot_row_at_the_line_start() {
    let t = EditorSyntaxTheme::dark();
    let k = Color::from_rgb(7, 7, 7);
    let rope = Rope::from_str("\u{e9}x");
    let spans = [Span { start_byte: 0, end_byte: 1, color: k }];
    let mut blocks = SyntaxBlocks::new();
    build_lines_from_spans(&rope, &spans, &mut blocks, &t);
    assert_eq!(
        blocks.get_line(0),
        &[
            run(t.whitespace, TextNode::LineOfChars { len: 0, char: '\u{B7}' }),
            run(t.text, TextNode::Range(0..2)),
        ]
    );
}

#[test]
fn plain_blocks_take_whole_lines() {
    let t = EditorSyntaxTheme::dark();
    let rope = Rope::from_str("ab\n\ncd");
    let mut blocks = SyntaxBlocks::new();
    build_plain_blocks(&rope, &mut blocks, &t);
    assert_eq!(blocks.len(), 3);
    assert_eq!(blocks.get_line(0), &[run(t.text, TextNode::Range(0..3))]);
    assert_eq!(blocks.get_line(1), &[run(t.text, TextNode::Range(3..4))]);
    assert_eq!(blocks.get_line(2), &[run(t.text, TextNode::Range(4..6))]);
    blocks.clear();
    assert!(blocks.is_empty());
}

#[test]
fn captures_are_colored_by_index_and_sorted_stably() {
    let t = EditorSyntaxTheme::dark();
    let c0 = Color::from_rgb(0, 0, 1);
    let c1 = Color::from_rgb(0, 0, 2);
    let colors = [c0, c1];
    let caps = [(3, 4, 1), (0, 4, 0), (0, 1, 1), (0, 2, 7)];
    let spans = spans_from_captures(&caps, &colors);
    assert_eq!(
        spans,
        vec![
            Span { start_byte: 3, end_byte: 4, color: c1 },
            Span { start_byte: 0, end_byte: 4, color: c0 },
            Span { start_byte: 0, end_byte: 1, color: c1 },
        ]
    );
    let rope = Rope::from_str("abcd");
    let mut blocks = SyntaxBlocks::new();
    highlight_lines(&rope, &caps, &colors, &mut blocks, &t);
    assert_eq!(
        blocks.get_line(0),
        &[run(c1, TextNode::Range(0..1)), run(c0, TextNode::Range(1..3)), run(c1, TextNode::Range(3..4))]
    );
}

#[test]
fn code_editor_themes_register_under_their_names() {
    let theme = Theme::new().with_dark_code_editor();
    assert_eq!(theme.get("code_editor"), Some(ThemeValue::Editor(EditorTheme::dark())));
    assert_eq!(theme.get("code_editor_syntax"), Some(ThemeValue::EditorSyntax(EditorSyntaxTheme::dark())));
    let theme = theme.with_light_code_editor();
    assert_eq!(theme.get("code_editor"), Some(ThemeValue::Editor(EditorTheme::light())));
    assert_eq!(theme.get("code_editor_syntax"), Some(ThemeValue::EditorSyntax(EditorSyntaxTheme::light())));
    assert_eq!(theme.get("button"), None);
    let mut theme = Theme::new();
    theme.set("a", ThemeValue::Editor(EditorTheme::dark()));
    theme.set("b", ThemeValue::Editor(EditorTheme::light()));
    theme.set("a", ThemeValue::Editor(EditorTheme::light()));
    assert_eq!(theme.get("a"), Some(ThemeValue::Editor(EditorTheme::light())));
    assert_eq!(theme.get("b"), Some(ThemeValue::Editor(EditorTheme::light())));
}

#[test]
fn every_line_draws_its_content_chars_once() {
    let t = EditorSyntaxTheme::dark();
    let rope = Rope::from_str("\t  fn x\u{e9}\r\n  \n\u{1F600} y");
    let spans = [
        Span { start_byte: 0, end_byte: 2, color: t.keyword },
        Span { start_byte: 3, end_byte: 6, color: t.keyword },
        Span { start_byte: 7, end_byte: 9, color: t.string },
        Span { start_byte: 15, end_byte: 17, color: t.number },
    ];
    let mut blocks = SyntaxBlocks::new();
    build_lines_from_spans(&rope, &spans, &mut blocks, &t);
    let content = [8usize, 2, 3];
    for (line, expected) in content.iter().enumerate() {
        let drawn: usize = blocks
            .get_line(line)
            .iter()
            .map(|(_, node)| match node {
                TextNode::Range(r) => r.end - r.start,
                TextNode::LineOfChars { len, .. } => *len,
            })
            .sum();
        assert_eq!(drawn, *expected);
    }
}

#[test]
fn pushed_lines_read_back() {
    let t = EditorSyntaxTheme::light();
    let mut line = SyntaxLine::new();
    line.push((t.text, TextNode::Range(0..4)));
    line.push((t.whitespace, TextNode::LineOfChars { len: 2, char: '\u{B7}' }));
    assert_eq!(line.as_slice().len(), 2);
    let mut blocks = SyntaxBlocks::default();
    blocks.push_line(SyntaxLine::new());
    blocks.push_line(line);
    assert_eq!(blocks.len(), 2);
    assert!(blocks.get_line(0).is_empty());
    assert_eq!(
        blocks.get_line(1),
        &[(t.text, TextNode::Range(0..4)), (t.whitespace, TextNode::LineOfChars { len: 2, char: '\u{B7}' })]
    );
}
