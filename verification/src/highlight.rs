//! Syntax highlighting with tree-sitter: the grammar and highlight query of a language, the
//! parse tree kept between edits, and the syntax lines built from the query's captures.

use vstd::prelude::*;

use ropey::Rope;
use tree_sitter::{
    InputEdit, Language, Parser, Point, Query, QueryCursor, StreamingIterator, Tree,
};

use crate::editor::{EditorBuffer, TextEdit};
use crate::editor_theme::{Color, EditorSyntaxTheme};
use crate::languages::LanguageId;
use crate::rope::rope_text;
use crate::syntax::{
    build_plain_blocks, captured_spans, highlight_lines, plain_lines_of, resolved_capture_color,
    resolve_capture_color, sorted_by_start, syntax_lines_of, SyntaxBlocks,
};

verus! {

#[verifier::external_type_specification]
#[verifier::external_body]
pub struct ExLanguage(Language);

#[verifier::external_type_specification]
#[verifier::external_body]
pub struct ExParser(Parser);

#[verifier::external_type_specification]
#[verifier::external_body]
pub struct ExTree(Tree);

#[verifier::external_type_specification]
#[verifier::external_body]
pub struct ExQuery(Query);

#[verifier::external_type_specification]
#[verifier::external_body]
pub struct ExQueryCursor(QueryCursor);

#[verifier::external_type_specification]
pub struct ExPoint(Point);

#[verifier::external_type_specification]
pub struct ExInputEdit(InputEdit);

/// Makes a tree-sitter edit from byte offsets and (row, byte column) positions.
pub trait InputEditExt {
    fn new_edit(
        start_byte: usize,
        old_end_byte: usize,
        new_end_byte: usize,
        start_position: (usize, usize),
        old_end_position: (usize, usize),
        new_end_position: (usize, usize),
    ) -> InputEdit;
}

impl InputEditExt for InputEdit {
    /// The edit with these offsets and positions.
    fn new_edit(
        start_byte: usize,
        old_end_byte: usize,
        new_end_byte: usize,
        start_position: (usize, usize),
        old_end_position: (usize, usize),
        new_end_position: (usize, usize),
    ) -> (r: InputEdit)
        ensures
            r.start_byte == start_byte,
            r.old_end_byte == old_end_byte,
            r.new_end_byte == new_end_byte,
            r.start_position == (Point { row: start_position.0, column: start_position.1 }),
            r.old_end_position == (Point { row: old_end_position.0, column: old_end_position.1 }),
            r.new_end_position == (Point { row: new_end_position.0, column: new_end_position.1 }),
    {
        InputEdit {
            start_byte,
            old_end_byte,
            new_end_byte,
            start_position: Point { row: start_position.0, column: start_position.1 },
            old_end_position: Point { row: old_end_position.0, column: old_end_position.1 },
            new_end_position: Point { row: new_end_position.0, column: new_end_position.1 },
        }
    }
}

/// Whether the highlight query bundled with the grammar of `id` compiles against that grammar
/// (`Query::new`). It depends on the grammar and query sources alone.
pub uninterp spec fn highlight_query_compiles(id: LanguageId) -> bool;

/// Whether tree-sitter's parser takes the grammar of `id` (`Parser::set_language`): it does
/// exactly when the grammar's ABI version is one this tree-sitter reads.
pub uninterp spec fn grammar_accepted(id: LanguageId) -> bool;

/// The Rust grammar (`tree_sitter_rust::LANGUAGE`) with its highlight query compiled by
/// `Query::new`; none when the query does not compile.
#[verifier::external_body]
fn rust_highlighting() -> (r: Option<(Language, Query)>)
    ensures
        r is Some <==> highlight_query_compiles(LanguageId::Rust),
{
    let language: Language = tree_sitter_rust::LANGUAGE.into();
    match Query::new(&language, tree_sitter_rust::HIGHLIGHTS_QUERY) {
        Ok(query) => Some((language, query)),
        Err(_) => None,
    }
}

/// The JSON grammar (`tree_sitter_json::LANGUAGE`) with its highlight query compiled by
/// `Query::new`; none when the query does not compile.
#[verifier::external_body]
fn json_highlighting() -> (r: Option<(Language, Query)>)
    ensures
        r is Some <==> highlight_query_compiles(LanguageId::Json),
{
    let language: Language = tree_sitter_json::LANGUAGE.into();
    match Query::new(&language, tree_sitter_json::HIGHLIGHTS_QUERY) {
        Ok(query) => Some((language, query)),
        Err(_) => None,
    }
}

/// The TOML grammar (`tree_sitter_toml_ng::LANGUAGE`) with its highlight query compiled by
/// `Query::new`; none when the query does not compile.
#[verifier::external_body]
fn toml_highlighting() -> (r: Option<(Language, Query)>)
    ensures
        r is Some <==> highlight_query_compiles(LanguageId::Toml),
{
    let language: Language = tree_sitter_toml_ng::LANGUAGE.into();
    match Query::new(&language, tree_sitter_toml_ng::HIGHLIGHTS_QUERY) {
        Ok(query) => Some((language, query)),
        Err(_) => None,
    }
}

/// The markdown block grammar (`tree_sitter_md::LANGUAGE`) with its block highlight query
/// compiled by `Query::new`; none when the query does not compile.
#[verifier::external_body]
fn markdown_highlighting() -> (r: Option<(Language, Query)>)
    ensures
        r is Some <==> highlight_query_compiles(LanguageId::Markdown),
{
    let language: Language = tree_sitter_md::LANGUAGE.into();
    match Query::new(&language, tree_sitter_md::HIGHLIGHT_QUERY_BLOCK) {
        Ok(query) => Some((language, query)),
        Err(_) => None,
    }
}

/// `Query::capture_names`: the names of the query's captures, by capture index. The names
/// are not stated: the query is opaque here.
#[verifier::external_body]
fn query_capture_names(query: &Query) -> Vec<String> {
    query.capture_names().iter().map(|name| name.to_string()).collect()
}

/// `Parser::new`: a parser without a language.
#[verifier::external_body]
fn new_parser() -> Parser {
    Parser::new()
}

/// `QueryCursor::new`: a cursor for running queries.
#[verifier::external_body]
fn new_query_cursor() -> QueryCursor {
    QueryCursor::new()
}

/// `Tree::edit`: tells the old tree where the text changed. What that does to the tree is
/// not stated: a `Tree` is opaque here.
#[verifier::external_body]
fn tree_edit(tree: &mut Tree, edit: &InputEdit) {
    tree.edit(edit)
}

/// `Parser::set_language` with the config's grammar, then `Parser::parse` of the rope's text,
/// reusing `old_tree`. tree-sitter's parse fails only where no language is set, a timeout
/// expired or a cancellation flag was flipped, and no timeout or flag is set here; so a tree
/// comes back exactly when the parser takes the grammar. (A `LangConfig` holds the grammar of
/// its language: `lang_config` alone makes one.) The tree is not stated: a `Tree` is opaque here.
#[verifier::external_body]
fn parse_text(parser: &mut Parser, cfg: &LangConfig, rope: &Rope, old_tree: Option<&Tree>) -> (r:
    Option<Tree>)
    ensures
        r is Some <==> grammar_accepted(cfg.language_id()),
{
    match parser.set_language(&cfg.language) {
        Ok(()) => parser.parse(rope.to_string(), old_tree),
        Err(_) => None,
    }
}

/// `QueryCursor::captures` over the whole tree: each capture as (start byte, end byte, capture
/// index), in the order tree-sitter yields them. Which captures come back is not stated: it
/// depends on the tree and query, which are opaque here.
#[verifier::external_body]
fn query_captures(cursor: &mut QueryCursor, query: &Query, tree: &Tree, rope: &Rope) -> Vec<
    (usize, usize, usize),
> {
    let text = rope.to_string();
    cursor.set_byte_range(0..usize::MAX);
    let mut captures = cursor.captures(query, tree.root_node(), text.as_bytes());
    let mut out = Vec::new();
    while let Some((found, i)) = captures.next() {
        let capture = &found.captures[*i];
        out.push((capture.node.start_byte(), capture.node.end_byte(), capture.index as usize));
    }
    out
}

/// A language's grammar, highlight query, and the color of each of the query's captures. Only
/// `LanguageId::lang_config` makes one, from that language's grammar.
pub struct LangConfig {
    language_id: LanguageId,
    language: Language,
    query: Query,
    capture_names: Vec<String>,
    capture_colors: Vec<Color>,
}

impl LangConfig {
    /// Each capture's color is the one its name resolves to.
    pub closed spec fn colors_resolved(&self, theme: EditorSyntaxTheme) -> bool {
        &&& self.capture_colors@.len() == self.capture_names@.len()
        &&& forall|i: int|
            0 <= i < self.capture_names@.len() ==> #[trigger] self.capture_colors@[i]
                == resolved_capture_color(self.capture_names@[i]@, theme)
    }

    /// The color of each capture, by capture index.
    pub closed spec fn colors(&self) -> Seq<Color> {
        self.capture_colors@
    }

    /// The language whose grammar and query it holds.
    pub closed spec fn language_id(&self) -> LanguageId {
        self.language_id
    }
}

/// The languages with a grammar.
pub open spec fn has_grammar(id: LanguageId) -> bool {
    id == LanguageId::Rust || id == LanguageId::Json || id == LanguageId::Toml || id
        == LanguageId::Markdown
}

impl LanguageId {
    /// The grammar, highlight query and capture colors of this language: there is one exactly
    /// when the language has a grammar whose highlight query compiles.
    pub fn lang_config(&self, theme: &EditorSyntaxTheme) -> (r: Option<LangConfig>)
        ensures
            r is Some <==> has_grammar(*self) && highlight_query_compiles(*self),
            r matches Some(c) ==> c.colors_resolved(*theme) && c.language_id() == *self,
    {
        let compiled = match self {
            LanguageId::Rust => rust_highlighting(),
            LanguageId::Json => json_highlighting(),
            LanguageId::Toml => toml_highlighting(),
            LanguageId::Markdown => markdown_highlighting(),
            _ => {
                return None;
            },
        };
        let (language, query) = match compiled {
            Some(pair) => pair,
            None => {
                return None;
            },
        };
        let capture_names = query_capture_names(&query);
        let mut capture_colors: Vec<Color> = Vec::new();
        let mut i: usize = 0;
        while i < capture_names.len()
            invariant
                i <= capture_names@.len(),
                capture_colors@.len() == i,
                forall|k: int|
                    0 <= k < i ==> #[trigger] capture_colors@[k] == resolved_capture_color(
                        capture_names@[k]@,
                        *theme,
                    ),
            decreases capture_names@.len() - i,
        {
            let color = resolve_capture_color(capture_names[i].as_str(), theme);
            capture_colors.push(color);
            i = i + 1;
        }
        Some(LangConfig { language_id: *self, language, query, capture_names, capture_colors })
    }
}

/// Runs the highlight query over a parse tree and appends the syntax lines of its captures.
fn build_syntax_blocks(
    tree: &Tree,
    cfg: &LangConfig,
    cursor: &mut QueryCursor,
    rope: &Rope,
    syntax_blocks: &mut SyntaxBlocks,
    theme: &EditorSyntaxTheme,
)
    ensures
        exists|caps: Seq<(usize, usize, usize)>|
            final(syntax_blocks)@ == old(syntax_blocks)@ + syntax_lines_of(
                rope_text(*rope),
                sorted_by_start(#[trigger] captured_spans(caps, cfg.colors())),
                *theme,
            ),
{
    let caps = query_captures(cursor, &cfg.query, tree, rope);
    highlight_lines(rope, caps.as_slice(), cfg.capture_colors.as_slice(), syntax_blocks, theme);
    proof {
        assert(cfg.colors() == cfg.capture_colors@);
        assert(syntax_blocks@ == old(syntax_blocks)@ + syntax_lines_of(
            rope_text(*rope),
            sorted_by_start(captured_spans(caps@, cfg.colors())),
            *theme,
        ));
    }
}

/// The syntax lines highlighting leaves for a text: with the capture colors of a highlight
/// query, the lines drawn with the spans of the query's captures; without, one plain line per
/// line.
pub open spec fn highlighting_of(
    blocks: Seq<Seq<(Color, crate::syntax::TextNode)>>,
    text: Seq<char>,
    colors: Option<Seq<Color>>,
    theme: EditorSyntaxTheme,
) -> bool {
    match colors {
        Some(cs) => exists|caps: Seq<(usize, usize, usize)>|
            blocks == syntax_lines_of(text, sorted_by_start(#[trigger] captured_spans(caps, cs)), theme),
        None => blocks == plain_lines_of(text, theme),
    }
}

/// Parses a text with the grammar of its language, keeping the tree for the next edit.
pub struct SyntaxHighlighter {
    parser: Parser,
    tree: Option<Tree>,
    config: Option<LangConfig>,
    cursor: QueryCursor,
    language_id: LanguageId,
}

impl SyntaxHighlighter {
    /// The language it highlights.
    pub closed spec fn language(&self) -> LanguageId {
        self.language_id
    }

    /// The capture colors of its highlight query, if it has one.
    pub closed spec fn capture_colors(&self) -> Option<Seq<Color>> {
        match self.config {
            Some(c) => Some(c.colors()),
            None => None,
        }
    }

    /// The capture colors it highlights with: those of its highlight query, if it has one and
    /// the parser takes the query's grammar.
    pub closed spec fn highlight_colors(&self) -> Option<Seq<Color>> {
        match self.config {
            Some(c) => if grammar_accepted(c.language_id()) {
                Some(c.colors())
            } else {
                None
            },
            None => None,
        }
    }

    /// Each capture color of its highlight query, if it has one, is the one its capture name
    /// resolves to with `theme`.
    pub closed spec fn colors_resolved(&self, theme: EditorSyntaxTheme) -> bool {
        match self.config {
            Some(c) => c.colors_resolved(theme),
            None => true,
        }
    }

    /// Whether it keeps a parse tree from an earlier parse.
    pub closed spec fn has_tree(&self) -> bool {
        self.tree is Some
    }

    /// A highlighter without a language.
    pub fn new() -> (r: Self)
        ensures
            r.language() == LanguageId::Unknown,
            r.capture_colors() is None,
            r.highlight_colors() is None,
            !r.has_tree(),
    {
        SyntaxHighlighter {
            parser: new_parser(),
            tree: None,
            config: None,
            cursor: new_query_cursor(),
            language_id: LanguageId::Unknown,
        }
    }

    /// Switches to `language_id`: a new language drops the tree and takes that language's
    /// grammar and capture colors, which it has exactly when the language has a grammar whose
    /// highlight query compiles; the same language changes nothing.
    pub fn set_language(&mut self, language_id: LanguageId, theme: &EditorSyntaxTheme)
        ensures
            final(self).language() == language_id,
            old(self).language() == language_id ==> *final(self) == *old(self),
            old(self).language() != language_id ==> {
                &&& !final(self).has_tree()
                &&& final(self).colors_resolved(*theme)
                &&& (final(self).capture_colors() is Some <==> has_grammar(language_id)
                    && highlight_query_compiles(language_id))
                &&& final(self).highlight_colors() == if grammar_accepted(language_id) {
                    final(self).capture_colors()
                } else {
                    None
                }
            },
    {
        if self.language_id == language_id {
            return;
        }
        self.language_id = language_id;
        self.tree = None;
        self.config = language_id.lang_config(theme);
    }

    /// Forgets the parse tree, so that the next parse starts afresh.
    pub fn invalidate_tree(&mut self)
        ensures
            !final(self).has_tree(),
            final(self).language() == old(self).language(),
            final(self).capture_colors() == old(self).capture_colors(),
            final(self).highlight_colors() == old(self).highlight_colors(),
    {
        self.tree = None;
    }

    /// Parses the rope (reusing the tree, told of `edit`) and replaces `syntax_blocks` with its
    /// lines: highlighted from the query's captures when the language has a query and the
    /// parser takes its grammar, plain otherwise.
    pub fn parse(
        &mut self,
        rope: &Rope,
        syntax_blocks: &mut SyntaxBlocks,
        edit: Option<InputEdit>,
        theme: &EditorSyntaxTheme,
    )
        ensures
            final(self).language() == old(self).language(),
            final(self).capture_colors() == old(self).capture_colors(),
            final(self).highlight_colors() == old(self).highlight_colors(),
            highlighting_of(final(syntax_blocks)@, rope_text(*rope), old(self).highlight_colors(), *theme),
    {
        syntax_blocks.clear();
        let mut old_tree = self.tree.take();
        if let Some(input_edit) = edit {
            if let Some(tree) = &mut old_tree {
                tree_edit(tree, &input_edit);
            }
        }
        let t = Ghost(rope_text(*rope));
        match &self.config {
            Some(cfg) => {
                let new_tree = parse_text(&mut self.parser, cfg, rope, old_tree.as_ref());
                match new_tree {
                    Some(tree) => {
                        build_syntax_blocks(&tree, cfg, &mut self.cursor, rope, syntax_blocks, theme);
                        proof {
                            let caps = choose|caps: Seq<(usize, usize, usize)>|
                                syntax_blocks@ == Seq::<Seq<(Color, crate::syntax::TextNode)>>::empty()
                                    + syntax_lines_of(t@, sorted_by_start(#[trigger] captured_spans(caps, cfg.colors())), *theme);
                            let some_colors = Some(cfg.colors());
                            assert(syntax_blocks@ =~= syntax_lines_of(t@, sorted_by_start(captured_spans(caps, some_colors->0)), *theme));
                            assert(highlighting_of(syntax_blocks@, t@, some_colors, *theme));
                        }
                        self.tree = Some(tree);
                    },
                    None => {
                        build_plain_blocks(rope, syntax_blocks, theme);
                        proof {
                            assert(syntax_blocks@ =~= plain_lines_of(t@, *theme));
                        }
                        self.tree = old_tree;
                    },
                }
            },
            None => {
                self.tree = old_tree;
                build_plain_blocks(rope, syntax_blocks, theme);
                proof {
                    assert(syntax_blocks@ =~= plain_lines_of(t@, *theme));
                }
            },
        }
    }
}

impl Default for SyntaxHighlighter {
    /// A highlighter without a language.
    fn default() -> (r: Self)
        ensures
            r.language() == LanguageId::Unknown,
            r.capture_colors() is None,
            r.highlight_colors() is None,
            !r.has_tree(),
    {
        SyntaxHighlighter::new()
    }
}

/// The tree-sitter edit of an editor edit.
pub fn input_edit_of(e: TextEdit) -> (r: InputEdit)
    ensures
        r.start_byte == e.start_byte,
        r.old_end_byte == e.old_end_byte,
        r.new_end_byte == e.new_end_byte,
        r.start_position == (Point { row: e.start_position.row, column: e.start_position.column }),
        r.old_end_position == (Point { row: e.old_end_position.row, column: e.old_end_position.column }),
        r.new_end_position == (Point { row: e.new_end_position.row, column: e.new_end_position.column }),
{
    InputEdit::new_edit(
        e.start_byte,
        e.old_end_byte,
        e.new_end_byte,
        (e.start_position.row, e.start_position.column),
        (e.old_end_position.row, e.old_end_position.column),
        (e.new_end_position.row, e.new_end_position.column),
    )
}

/// The syntax lines of an editor's text and the highlighter that builds them.
pub struct EditorMetrics {
    pub syntax_blocks: SyntaxBlocks,
    pub highlighter: SyntaxHighlighter,
}

impl EditorMetrics {
    /// No lines, and a highlighter without a language.
    pub fn new() -> (r: Self)
        ensures
            r.syntax_blocks@.len() == 0,
            r.highlighter.language() == LanguageId::Unknown,
    {
        EditorMetrics { syntax_blocks: SyntaxBlocks::new(), highlighter: SyntaxHighlighter::new() }
    }

    /// Highlights `rope` as `language_id`, telling the parser of `edit`.
    pub fn run_parser(
        &mut self,
        rope: &Rope,
        language_id: LanguageId,
        edit: Option<InputEdit>,
        theme: &EditorSyntaxTheme,
    )
        ensures
            final(self).highlighter.language() == language_id,
            old(self).highlighter.language() == language_id ==> final(self).highlighter.highlight_colors()
                == old(self).highlighter.highlight_colors(),
            old(self).highlighter.language() != language_id ==> (final(self).highlighter.capture_colors() is Some
                <==> has_grammar(language_id) && highlight_query_compiles(language_id)),
            old(self).highlighter.language() != language_id ==> final(self).highlighter.highlight_colors()
                == if grammar_accepted(language_id) {
                final(self).highlighter.capture_colors()
            } else {
                None
            },
            highlighting_of(
                final(self).syntax_blocks@,
                rope_text(*rope),
                final(self).highlighter.highlight_colors(),
                *theme,
            ),
    {
        self.highlighter.set_language(language_id, theme);
        self.highlighter.parse(rope, &mut self.syntax_blocks, edit, theme);
    }
}

impl EditorBuffer {
    /// Highlights the text, handing the parser the edit it has not seen yet, which is then
    /// cleared.
    pub fn parse(&mut self, metrics: &mut EditorMetrics, language_id: LanguageId, theme: &EditorSyntaxTheme)
        ensures
            final(self).pending_edit is None,
            rope_text(final(self).rope) == rope_text(old(self).rope),
            final(self).selection == old(self).selection,
            final(metrics).highlighter.language() == language_id,
            old(metrics).highlighter.language() == language_id ==> final(metrics).highlighter.highlight_colors()
                == old(metrics).highlighter.highlight_colors(),
            old(metrics).highlighter.language() != language_id ==> (final(metrics).highlighter.capture_colors() is Some
                <==> has_grammar(language_id) && highlight_query_compiles(language_id)),
            old(metrics).highlighter.language() != language_id ==> final(metrics).highlighter.highlight_colors()
                == if grammar_accepted(language_id) {
                final(metrics).highlighter.capture_colors()
            } else {
                None
            },
            highlighting_of(
                final(metrics).syntax_blocks@,
                rope_text(old(self).rope),
                final(metrics).highlighter.highlight_colors(),
                *theme,
            ),
    {
        let edit = match self.pending_edit.take() {
            Some(e) => Some(input_edit_of(e)),
            None => None,
        };
        metrics.run_parser(&self.rope, language_id, edit, theme);
    }
}

} // verus!
