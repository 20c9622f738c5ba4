//! Syntax lines: the colored runs the code editor draws for each line of its text.
//!
//! Highlighting hands over spans of bytes with their colors; every byte of a line takes the
//! color of the last span that covers it (the plain text color where none does), bytes of
//! one color in a row make a run, and each run is drawn as the chars its bytes belong to.
//! Runs of blanks that start a line are drawn as a row of middle dots instead.

use vstd::prelude::*;

use ropey::Rope;
use rustc_hash::FxHashMap;
use smallvec::SmallVec;

use crate::editor_theme::{Color, EditorSyntaxTheme};
use crate::rope::{
    break_ends_at, breaks_upto, byte_offset, byte_to_char, char_at, is_char_of_byte, is_line_start, is_unicode_white_space,
    is_whitespace, lemma_breaks_monotone, lemma_offsets_monotone, len_lines, line_count,
    line_start, line_to_byte, line_to_char, rope_text, utf8_len, utf8_width, char_of_byte,
};
use crate::text::str_eq;

verus! {

/// What a syntax line shows in a run: a range of the text's chars, or a char repeated.
#[derive(Debug, PartialEq, Eq)]
pub enum TextNode {
    Range(core::ops::Range<usize>),
    LineOfChars { len: usize, char: char },
}

/// The runs of one line, left to right, kept in a `SmallVec` that stores a few inline.
#[verifier::external_body]
pub struct SyntaxLine {
    runs: SmallVec<[(Color, TextNode); 4]>,
}

/// The runs a syntax line holds, in order.
pub uninterp spec fn line_runs(line: SyntaxLine) -> Seq<(Color, TextNode)>;

/// `SmallVec::new`: a line without runs.
#[verifier::external_body]
fn line_new() -> (r: SyntaxLine)
    ensures
        line_runs(r) == Seq::<(Color, TextNode)>::empty(),
{
    SyntaxLine { runs: SmallVec::new() }
}

/// `SmallVec::push`: appends a run.
#[verifier::external_body]
fn line_push(line: &mut SyntaxLine, run: (Color, TextNode))
    ensures
        line_runs(*final(line)) == line_runs(*old(line)).push(run),
{
    line.runs.push(run)
}

/// `SmallVec::as_slice`: the runs, as a slice.
#[verifier::external_body]
fn line_as_slice(line: &SyntaxLine) -> (r: &[(Color, TextNode)])
    ensures
        r@ == line_runs(*line),
{
    line.runs.as_slice()
}

impl SyntaxLine {
    /// A line without runs.
    pub fn new() -> (r: Self)
        ensures
            line_runs(r) == Seq::<(Color, TextNode)>::empty(),
    {
        line_new()
    }

    /// Appends a run.
    pub fn push(&mut self, run: (Color, TextNode))
        ensures
            line_runs(*final(self)) == line_runs(*old(self)).push(run),
    {
        line_push(self, run)
    }

    /// The runs, in order.
    pub fn as_slice(&self) -> (r: &[(Color, TextNode)])
        ensures
            r@ == line_runs(*self),
    {
        line_as_slice(self)
    }
}

/// Syntax lines by line number, in a hash map with rustc's fast hasher.
pub type LineMap = FxHashMap<usize, SyntaxLine>;

#[verifier::external_type_specification]
#[verifier::external_body]
pub struct ExFxBuildHasher(rustc_hash::FxBuildHasher);

/// The lines a map of syntax lines holds, by key.
pub uninterp spec fn block_lines(m: LineMap) -> Map<usize, Seq<(Color, TextNode)>>;

/// `FxHashMap::default`: a map without entries.
#[verifier::external_body]
fn blocks_new() -> (m: LineMap)
    ensures
        block_lines(m).dom() == Set::<usize>::empty(),
{
    FxHashMap::default()
}

/// `HashMap::insert`: sets the line under `key`.
#[verifier::external_body]
fn blocks_insert(m: &mut LineMap, key: usize, line: SyntaxLine)
    ensures
        block_lines(*final(m)) == block_lines(*old(m)).insert(key, line_runs(line)),
{
    m.insert(key, line);
}

/// `HashMap::get(..).unwrap()`: the line under a key the map has.
#[verifier::external_body]
fn blocks_get(m: &LineMap, key: usize) -> (r: &SyntaxLine)
    requires
        block_lines(*m).contains_key(key),
    ensures
        line_runs(*r) == block_lines(*m)[key],
{
    m.get(&key).unwrap()
}

/// `HashMap::len`: the number of entries.
#[verifier::external_body]
fn blocks_len(m: &LineMap) -> (n: usize)
    ensures
        n == block_lines(*m).len(),
{
    m.len()
}

/// `HashMap::is_empty`: whether there are no entries.
#[verifier::external_body]
fn blocks_is_empty(m: &LineMap) -> (r: bool)
    ensures
        r == (block_lines(*m).len() == 0),
{
    m.is_empty()
}

/// `HashMap::clear`: removes every entry.
#[verifier::external_body]
fn blocks_clear(m: &mut LineMap)
    ensures
        block_lines(*final(m)).dom() == Set::<usize>::empty(),
{
    m.clear()
}

/// The syntax lines of a text, numbered from 0.
pub struct SyntaxBlocks {
    blocks: LineMap,
}

impl SyntaxBlocks {
    /// The lines are keyed `0 .. n` without a gap.
    #[verifier::type_invariant]
    spec fn keys_are_line_numbers(self) -> bool {
        let m = block_lines(self.blocks);
        &&& m.dom().finite()
        &&& forall|k: usize| m.contains_key(k) <==> k < m.len()
    }

    /// The lines, in order.
    pub closed spec fn view(&self) -> Seq<Seq<(Color, TextNode)>> {
        let m = block_lines(self.blocks);
        Seq::new(m.len(), |i: int| m[i as usize])
    }

    /// No lines.
    pub fn new() -> (r: Self)
        ensures
            r@ == Seq::<Seq<(Color, TextNode)>>::empty(),
    {
        let r = SyntaxBlocks { blocks: blocks_new() };
        proof {
            assert(block_lines(r.blocks).dom() =~= Set::<usize>::empty());
        }
        r
    }

    /// Appends a line.
    pub fn push_line(&mut self, line: SyntaxLine)
        ensures
            final(self)@ == old(self)@.push(line_runs(line)),
    {
        proof {
            use_type_invariant(&*self);
        }
        let n = blocks_len(&self.blocks);
        let ghost m0 = block_lines(self.blocks);
        let mut blocks = blocks_new();
        std::mem::swap(&mut blocks, &mut self.blocks);
        blocks_insert(&mut blocks, n, line);
        proof {
            let m1 = block_lines(blocks);
            assert(!m0.contains_key(n));
            assert(m1.dom() =~= m0.dom().insert(n));
            assert(m1.len() == m0.len() + 1);
            assert(forall|k: usize| m1.contains_key(k) <==> k < m1.len());
        }
        self.blocks = blocks;
        proof {
            let m1 = block_lines(self.blocks);
            assert(self@ =~= old(self)@.push(line_runs(line)));
        }
    }

    /// The runs of line `line`.
    pub fn get_line(&self, line: usize) -> (r: &[(Color, TextNode)])
        requires
            line < self@.len(),
        ensures
            r@ == self@[line as int],
    {
        proof {
            use_type_invariant(self);
        }
        line_as_slice(blocks_get(&self.blocks, line))
    }

    /// The number of lines.
    pub fn len(&self) -> (n: usize)
        ensures
            n == self@.len(),
    {
        blocks_len(&self.blocks)
    }

    /// Whether there are no lines.
    pub fn is_empty(&self) -> (r: bool)
        ensures
            r == (self@.len() == 0),
    {
        blocks_is_empty(&self.blocks)
    }

    /// Removes every line.
    pub fn clear(&mut self)
        ensures
            final(self)@ == Seq::<Seq<(Color, TextNode)>>::empty(),
    {
        let mut blocks = blocks_new();
        std::mem::swap(&mut blocks, &mut self.blocks);
        blocks_clear(&mut blocks);
        proof {
            assert(block_lines(blocks).dom() =~= Set::<usize>::empty());
        }
        self.blocks = blocks;
        proof {
            assert(self@ =~= Seq::<Seq<(Color, TextNode)>>::empty());
        }
    }
}

impl Default for SyntaxBlocks {
    /// No lines.
    fn default() -> (r: Self)
        ensures
            r@ == Seq::<Seq<(Color, TextNode)>>::empty(),
    {
        SyntaxBlocks::new()
    }
}

/// The theme entry for a capture name, if the theme lists that name.
pub open spec fn capture_color_of(name: Seq<char>, t: EditorSyntaxTheme) -> Option<Color> {
    if name == "attribute"@ {
        Some(t.attribute)
    } else if name == "boolean"@ {
        Some(t.boolean)
    } else if name == "comment"@ || name == "comment.documentation"@ {
        Some(t.comment)
    } else if name == "constant"@ || name == "constant.builtin"@ {
        Some(t.constant)
    } else if name == "constructor"@ {
        Some(t.constructor)
    } else if name == "escape"@ {
        Some(t.escape)
    } else if name == "function"@ || name == "function.builtin"@ {
        Some(t.function)
    } else if name == "function.macro"@ {
        Some(t.function_macro)
    } else if name == "function.method"@ {
        Some(t.function_method)
    } else if name == "keyword"@ {
        Some(t.keyword)
    } else if name == "label"@ {
        Some(t.label)
    } else if name == "module"@ {
        Some(t.module)
    } else if name == "number"@ {
        Some(t.number)
    } else if name == "operator"@ {
        Some(t.operator)
    } else if name == "property"@ {
        Some(t.property)
    } else if name == "punctuation"@ {
        Some(t.punctuation)
    } else if name == "punctuation.bracket"@ {
        Some(t.punctuation_bracket)
    } else if name == "punctuation.delimiter"@ {
        Some(t.punctuation_delimiter)
    } else if name == "punctuation.special"@ {
        Some(t.punctuation_special)
    } else if name == "string"@ {
        Some(t.string)
    } else if name == "string.escape"@ {
        Some(t.string_escape)
    } else if name == "string.special"@ || name == "string.special.key"@ || name == "string.special.symbol"@ {
        Some(t.string_special)
    } else if name == "tag"@ {
        Some(t.tag)
    } else if name == "text.literal"@ {
        Some(t.text_literal)
    } else if name == "text.reference"@ {
        Some(t.text_reference)
    } else if name == "text.title"@ {
        Some(t.text_title)
    } else if name == "text.uri"@ {
        Some(t.text_uri)
    } else if name == "text.emphasis"@ || name == "text.strong"@ {
        Some(t.text_emphasis)
    } else if name == "type"@ || name == "type.builtin"@ {
        Some(t.type_)
    } else if name == "variable"@ {
        Some(t.variable)
    } else if name == "variable.builtin"@ {
        Some(t.variable_builtin)
    } else if name == "variable.parameter"@ {
        Some(t.variable_parameter)
    } else {
        None
    }
}

/// The theme entry for a capture name, if the theme lists that name.
fn capture_color(name: &str, theme: &EditorSyntaxTheme) -> (c: Option<Color>)
    ensures
        c == capture_color_of(name@, *theme),
{
    if str_eq(name, "attribute") {
        Some(theme.attribute)
    } else if str_eq(name, "boolean") {
        Some(theme.boolean)
    } else if str_eq(name, "comment") || str_eq(name, "comment.documentation") {
        Some(theme.comment)
    } else if str_eq(name, "constant") || str_eq(name, "constant.builtin") {
        Some(theme.constant)
    } else if str_eq(name, "constructor") {
        Some(theme.constructor)
    } else if str_eq(name, "escape") {
        Some(theme.escape)
    } else if str_eq(name, "function") || str_eq(name, "function.builtin") {
        Some(theme.function)
    } else if str_eq(name, "function.macro") {
        Some(theme.function_macro)
    } else if str_eq(name, "function.method") {
        Some(theme.function_method)
    } else if str_eq(name, "keyword") {
        Some(theme.keyword)
    } else if str_eq(name, "label") {
        Some(theme.label)
    } else if str_eq(name, "module") {
        Some(theme.module)
    } else if str_eq(name, "number") {
        Some(theme.number)
    } else if str_eq(name, "operator") {
        Some(theme.operator)
    } else if str_eq(name, "property") {
        Some(theme.property)
    } else if str_eq(name, "punctuation") {
        Some(theme.punctuation)
    } else if str_eq(name, "punctuation.bracket") {
        Some(theme.punctuation_bracket)
    } else if str_eq(name, "punctuation.delimiter") {
        Some(theme.punctuation_delimiter)
    } else if str_eq(name, "punctuation.special") {
        Some(theme.punctuation_special)
    } else if str_eq(name, "string") {
        Some(theme.string)
    } else if str_eq(name, "string.escape") {
        Some(theme.string_escape)
    } else if str_eq(name, "string.special") || str_eq(name, "string.special.key") || str_eq(name, "string.special.symbol") {
        Some(theme.string_special)
    } else if str_eq(name, "tag") {
        Some(theme.tag)
    } else if str_eq(name, "text.literal") {
        Some(theme.text_literal)
    } else if str_eq(name, "text.reference") {
        Some(theme.text_reference)
    } else if str_eq(name, "text.title") {
        Some(theme.text_title)
    } else if str_eq(name, "text.uri") {
        Some(theme.text_uri)
    } else if str_eq(name, "text.emphasis") || str_eq(name, "text.strong") {
        Some(theme.text_emphasis)
    } else if str_eq(name, "type") || str_eq(name, "type.builtin") {
        Some(theme.type_)
    } else if str_eq(name, "variable") {
        Some(theme.variable)
    } else if str_eq(name, "variable.builtin") {
        Some(theme.variable_builtin)
    } else if str_eq(name, "variable.parameter") {
        Some(theme.variable_parameter)
    } else {
        None
    }
}

/// The color of a capture name: its own entry where the theme lists it; else, for a name
/// with dots, the color the part before its last dot resolves to; else the plain text color.
pub open spec fn resolved_capture_color(name: Seq<char>, t: EditorSyntaxTheme) -> Color
    decreases name.len(), 1int,
{
    match capture_color_of(name, t) {
        Some(c) => c,
        None => color_before_last_dot(name, t),
    }
}

/// The color the part of `s` before its last dot resolves to, or the plain text color when
/// `s` has no dot.
pub open spec fn color_before_last_dot(s: Seq<char>, t: EditorSyntaxTheme) -> Color
    decreases s.len(), 0int,
{
    if s.len() == 0 {
        t.text
    } else if s.last() == '.' {
        resolved_capture_color(s.drop_last(), t)
    } else {
        color_before_last_dot(s.drop_last(), t)
    }
}

/// Dropping chars after the last dot does not change what the part before it resolves to.
proof fn lemma_color_before_last_dot(s: Seq<char>, k: int, t: EditorSyntaxTheme)
    requires
        0 <= k <= s.len(),
        forall|j: int| k <= j < s.len() ==> s[j] != '.',
    ensures
        color_before_last_dot(s, t) == color_before_last_dot(s.subrange(0, k), t),
    decreases s.len() - k,
{
    if k < s.len() {
        assert(s.drop_last() =~= s.subrange(0, s.len() - 1));
        lemma_color_before_last_dot(s.drop_last(), k, t);
        assert(s.drop_last().subrange(0, k) =~= s.subrange(0, k));
    } else {
        assert(s.subrange(0, k) =~= s);
    }
}

/// The color of a capture name: its exact entry first; names the theme does not list fall
/// back to their dot-separated prefixes (`function.method.call` to `function.method`, then
/// `function`), and to the plain text color when no prefix is listed either.
pub fn resolve_capture_color(name: &str, theme: &EditorSyntaxTheme) -> (c: Color)
    ensures
        c == resolved_capture_color(name@, *theme),
{
    if let Some(color) = capture_color(name, theme) {
        return color;
    }
    let mut candidate: &str = name;
    loop
        invariant
            resolved_capture_color(name@, *theme) == color_before_last_dot(candidate@, *theme),
        decreases candidate@.len(),
    {
        let n = candidate.unicode_len();
        let mut i = n;
        let mut dot: Option<usize> = None;
        while i > 0
            invariant_except_break
                i <= n == candidate@.len(),
                forall|j: int| i <= j < n ==> candidate@[j] != '.',
                dot is None,
            ensures
                n == candidate@.len(),
                dot is None ==> forall|j: int| 0 <= j < n ==> candidate@[j] != '.',
                dot matches Some(p) ==> p < n && candidate@[p as int] == '.' && forall|j: int|
                    p < j < n ==> candidate@[j] != '.',
            decreases i,
        {
            if candidate.get_char(i - 1) == '.' {
                dot = Some(i - 1);
                break;
            }
            i = i - 1;
        }
        match dot {
            None => {
                proof {
                    lemma_color_before_last_dot(candidate@, 0, *theme);
                }
                return theme.text;
            },
            Some(pos) => {
                let ghost whole = candidate@;
                proof {
                    lemma_color_before_last_dot(whole, pos + 1, *theme);
                    let upto_dot = whole.subrange(0, pos + 1);
                    assert(upto_dot.drop_last() =~= whole.subrange(0, pos as int));
                    assert(upto_dot.last() == '.');
                    assert(color_before_last_dot(upto_dot, *theme) == resolved_capture_color(
                        whole.subrange(0, pos as int),
                        *theme,
                    ));
                }
                candidate = candidate.substring_char(0, pos);
                if let Some(c) = capture_color(candidate, theme) {
                    return c;
                }
            },
        }
    }
}

/// A span of the text, in UTF-8 bytes `start_byte .. end_byte`, to be drawn in `color`.
#[derive(Clone, Copy, Debug, PartialEq, Eq, Structural)]
pub struct Span {
    pub start_byte: usize,
    pub end_byte: usize,
    pub color: Color,
}

/// Spans ordered by where they start.
pub open spec fn spans_sorted(spans: Seq<Span>) -> bool {
    forall|i: int, j: int| 0 <= i <= j < spans.len() ==> spans[i].start_byte <= spans[j].start_byte
}

/// The span covers byte `b`.
pub open spec fn covers(span: Span, b: int) -> bool {
    span.start_byte <= b < span.end_byte
}

/// The color byte `b` is drawn in: that of the last span covering it, else `default`.
pub open spec fn painted(spans: Seq<Span>, b: int, default: Color) -> Color
    decreases spans.len(),
{
    if spans.len() == 0 {
        default
    } else if covers(spans.last(), b) {
        spans.last().color
    } else {
        painted(spans.drop_last(), b, default)
    }
}

/// The colors of bytes `from .. to`.
pub open spec fn byte_colors(spans: Seq<Span>, from: int, to: int, default: Color) -> Seq<Color> {
    Seq::new((to - from) as nat, |i: int| painted(spans, from + i, default))
}

/// Where the run of equal colors that holds position `i` ends.
pub open spec fn run_end(colors: Seq<Color>, i: int) -> int
    decreases colors.len() - i,
{
    if i + 1 >= colors.len() || colors[i + 1] != colors[i] {
        i + 1
    } else {
        run_end(colors, i + 1)
    }
}

/// The chars `a .. b` are all blanks other than a line feed.
pub open spec fn all_blank(s: Seq<char>, a: int, b: int) -> bool {
    forall|k: int| a <= k < b ==> is_unicode_white_space(#[trigger] s[k]) && s[k] != '\n'
}

/// The middle dot that stands for a leading blank.
pub open spec fn blank_mark() -> char {
    '\u{B7}'
}

/// The runs of a line from byte `i` of its content on: each run of equal colors becomes the
/// chars its bytes belong to; while `leading` holds, all-blank runs become rows of middle dots
/// in the whitespace color, and the first other run ends the leading part.
pub open spec fn runs_from(
    s: Seq<char>,
    colors: Seq<Color>,
    base: int,
    i: int,
    leading: bool,
    t: EditorSyntaxTheme,
) -> Seq<(Color, TextNode)>
    decreases colors.len() - i,
{
    if i < 0 || i >= colors.len() {
        Seq::empty()
    } else {
        let j = run_end(colors, i);
        proof {
            lemma_run_end_bounds(colors, i);
        }
        let sc = char_of_byte(s, base + i);
        let ec = char_of_byte(s, base + j);
        if leading && all_blank(s, sc, ec) {
            seq![(t.whitespace, TextNode::LineOfChars { len: (ec - sc) as usize, char: blank_mark() })]
                + runs_from(s, colors, base, j, true, t)
        } else {
            seq![(colors[i], TextNode::Range(core::ops::Range { start: sc as usize, end: ec as usize }))]
                + runs_from(s, colors, base, j, false, t)
        }
    }
}

/// Where the content of the line `ls .. le` ends: before its final `\n`, or `\r\n`.
pub open spec fn content_end(s: Seq<char>, ls: int, le: int) -> int {
    if le > ls && s[le - 1] == '\n' {
        if le - 1 > ls && s[le - 2] == '\r' {
            le - 2
        } else {
            le - 1
        }
    } else {
        le
    }
}

/// The syntax line of line `l` of `s`, drawn with `spans`.
pub open spec fn syntax_line_of(s: Seq<char>, spans: Seq<Span>, t: EditorSyntaxTheme, l: int) -> Seq<
    (Color, TextNode),
> {
    let ls = line_start(s, l);
    let ce = content_end(s, ls, line_start(s, l + 1));
    let lb = byte_offset(s, ls) as int;
    runs_from(s, byte_colors(spans, lb, byte_offset(s, ce) as int, t.text), lb, 0, true, t)
}

/// The syntax lines of all lines of `s`.
pub open spec fn syntax_lines_of(s: Seq<char>, spans: Seq<Span>, t: EditorSyntaxTheme) -> Seq<
    Seq<(Color, TextNode)>,
> {
    Seq::new(line_count(s), |l: int| syntax_line_of(s, spans, t, l))
}

/// The plain line of line `l` of `s`: all its chars, line break included, in the text color.
pub open spec fn plain_line_of(s: Seq<char>, t: EditorSyntaxTheme, l: int) -> Seq<(Color, TextNode)> {
    let a = line_start(s, l);
    let b = line_start(s, l + 1);
    if a < b {
        seq![(t.text, TextNode::Range(core::ops::Range { start: a as usize, end: b as usize }))]
    } else {
        Seq::empty()
    }
}

/// The plain lines of all lines of `s`.
pub open spec fn plain_lines_of(s: Seq<char>, t: EditorSyntaxTheme) -> Seq<Seq<(Color, TextNode)>> {
    Seq::new(line_count(s), |l: int| plain_line_of(s, t, l))
}

/// A run ends after where it starts, and no later than the colors.
pub proof fn lemma_run_end_bounds(colors: Seq<Color>, i: int)
    requires
        0 <= i < colors.len(),
    ensures
        i < run_end(colors, i) <= colors.len(),
    decreases colors.len() - i,
{
    if !(i + 1 >= colors.len() || colors[i + 1] != colors[i]) {
        lemma_run_end_bounds(colors, i + 1);
    }
}

/// A run holds one color, and the position after it (if any) has another.
proof fn lemma_run_end_color(colors: Seq<Color>, i: int)
    requires
        0 <= i < colors.len(),
    ensures
        forall|k: int| i <= k < run_end(colors, i) ==> colors[k] == colors[i],
        run_end(colors, i) < colors.len() ==> colors[run_end(colors, i)] != colors[i],
    decreases colors.len() - i,
{
    if !(i + 1 >= colors.len() || colors[i + 1] != colors[i]) {
        lemma_run_end_color(colors, i + 1);
    }
}

/// A stretch of one color that the next position (if any) does not continue is a run.
proof fn lemma_run_end_is(colors: Seq<Color>, i: int, j: int)
    requires
        0 <= i < j <= colors.len(),
        forall|k: int| i <= k < j ==> colors[k] == colors[i],
        j == colors.len() || colors[j] != colors[i],
    ensures
        run_end(colors, i) == j,
    decreases j - i,
{
    if i + 1 < j {
        assert(colors[i + 1] == colors[i]);
        lemma_run_end_is(colors, i + 1, j);
    }
}

/// Painting `x` and then `y` is painting `x + y`.
proof fn lemma_painted_concat(x: Seq<Span>, y: Seq<Span>, b: int, d: Color)
    ensures
        painted(x + y, b, d) == painted(y, b, painted(x, b, d)),
    decreases y.len(),
{
    if y.len() == 0 {
        assert(x + y =~= x);
    } else {
        assert((x + y).drop_last() =~= x + y.drop_last());
        lemma_painted_concat(x, y.drop_last(), b, d);
    }
}

/// Spans that do not cover a byte leave its color alone.
proof fn lemma_painted_none(x: Seq<Span>, b: int, d: Color)
    requires
        forall|j: int| 0 <= j < x.len() ==> !covers(#[trigger] x[j], b),
    ensures
        painted(x, b, d) == d,
    decreases x.len(),
{
    if x.len() > 0 {
        lemma_painted_none(x.drop_last(), b, d);
    }
}

/// The offset of the char after `i` adds the width of char `i`.
proof fn lemma_byte_offset_step(s: Seq<char>, i: int)
    requires
        0 <= i < s.len(),
    ensures
        byte_offset(s, i + 1) == byte_offset(s, i) + utf8_width(s[i]),
{
    assert(s.subrange(0, i + 1).drop_last() =~= s.subrange(0, i));
}

/// The whole text ends at its UTF-8 length.
proof fn lemma_byte_offset_end(s: Seq<char>)
    ensures
        byte_offset(s, s.len() as int) == utf8_len(s),
{
    assert(s.subrange(0, s.len() as int) =~= s);
}

/// Bytes map to chars in order.
proof fn lemma_char_of_byte_monotone(s: Seq<char>, b1: int, b2: int, r1: int, r2: int)
    requires
        b1 <= b2,
        is_char_of_byte(s, b1, r1),
        is_char_of_byte(s, b2, r2),
    ensures
        r1 <= r2,
{
    if r1 > r2 {
        lemma_offsets_monotone(s, r2 + 1, r1);
    }
}

/// Line `l` starts no later than line `l + 1`.
proof fn lemma_line_starts_ordered(s: Seq<char>, l: int, r1: int, r2: int)
    requires
        0 <= l,
        is_line_start(s, l, r1),
        is_line_start(s, l + 1, r2),
    ensures
        r1 <= r2,
{
    if l + 1 != line_count(s) && r2 < r1 {
        lemma_breaks_monotone(s, r2, r1);
    }
}

/// Where line `l` starts and where its content ends, in bytes.
fn line_bounds(rope: &Rope, l: usize) -> (r: (usize, usize))
    requires
        l < line_count(rope_text(*rope)) <= usize::MAX,
    ensures
        ({
            let s = rope_text(*rope);
            let ls = line_start(s, l as int);
            let le = line_start(s, l + 1);
            &&& is_line_start(s, l as int, ls)
            &&& is_line_start(s, l + 1, le)
            &&& ls <= content_end(s, ls, le) <= le
            &&& r.0 == byte_offset(s, ls)
            &&& r.1 == byte_offset(s, content_end(s, ls, le))
            &&& r.0 <= r.1 <= byte_offset(s, le) <= utf8_len(s)
        }),
{
    let ghost s = rope_text(*rope);
    let line_start_byte = line_to_byte(rope, l);
    let first_char = line_to_char(rope, l);
    let end_char = line_to_char(rope, l + 1);
    let line_end_byte = line_to_byte(rope, l + 1);
    proof {
        lemma_line_starts_ordered(s, l as int, first_char as int, end_char as int);
    }
    let chars = end_char - first_char;
    let mut end = line_end_byte;
    if chars > 0 && char_at(rope, end_char - 1) == '\n' {
        proof {
            lemma_byte_offset_step(s, end_char - 1);
        }
        end = end - 1;
        if chars > 1 && char_at(rope, end_char - 2) == '\r' {
            proof {
                lemma_byte_offset_step(s, end_char - 2);
            }
            end = end - 1;
        }
    }
    proof {
        let ce = content_end(s, first_char as int, end_char as int);
        lemma_offsets_monotone(s, first_char as int, ce);
        lemma_offsets_monotone(s, ce, end_char as int);
        lemma_offsets_monotone(s, end_char as int, s.len() as int);
        lemma_byte_offset_end(s);
    }
    (line_start_byte, end)
}

/// The colors of the content bytes `ls .. ce` of a line; spans before `span_idx` end before it.
fn paint_line(spans: &[Span], span_idx: usize, ls: usize, ce: usize, default: Color) -> (colors: Vec<
    Color,
>)
    requires
        ls < ce,
        span_idx <= spans@.len(),
        spans_sorted(spans@),
        forall|j: int| 0 <= j < span_idx ==> #[trigger] spans@[j].end_byte <= ls,
    ensures
        colors@ == byte_colors(spans@, ls as int, ce as int, default),
{
    let n = ce - ls;
    let mut colors: Vec<Color> = Vec::new();
    let mut k: usize = 0;
    while k < n
        invariant
            k <= n,
            colors@.len() == k,
            forall|i: int| 0 <= i < k ==> colors@[i] == default,
        decreases n - k,
    {
        colors.push(default);
        k = k + 1;
    }
    proof {
        assert(spans@.subrange(span_idx as int, span_idx as int) =~= Seq::<Span>::empty());
    }
    let mut si = span_idx;
    while si < spans.len() && spans[si].start_byte < ce
        invariant
            span_idx <= si <= spans@.len(),
            colors@.len() == n == ce - ls,
            forall|i: int|
                0 <= i < n ==> colors@[i] == painted(
                    spans@.subrange(span_idx as int, si as int),
                    ls + i,
                    default,
                ),
        decreases spans@.len() - si,
    {
        let span = spans[si];
        let ghost before = colors@;
        let ghost sub = spans@.subrange(span_idx as int, si as int);
        proof {
            assert(spans@.subrange(span_idx as int, si + 1) =~= sub.push(span));
            assert(sub.push(span).drop_last() =~= sub);
        }
        if span.end_byte > ls {
            let s = if span.start_byte > ls {
                span.start_byte
            } else {
                ls
            } - ls;
            let e = if span.end_byte < ce {
                span.end_byte
            } else {
                ce
            } - ls;
            let mut c = s;
            while c < e
                invariant
                    s <= c,
                    s < e ==> c <= e,
                    s >= e ==> c == s,
                    e <= n,
                    colors@.len() == n,
                    before.len() == n,
                    forall|i: int| 0 <= i < n ==> #[trigger] colors@[i] == if s <= i < c {
                        span.color
                    } else {
                        before[i]
                    },
                decreases e - c,
            {
                colors.set(c, span.color);
                c = c + 1;
            }
            proof {
                assert forall|i: int| 0 <= i < n implies colors@[i] == painted(
                    sub.push(span),
                    ls + i,
                    default,
                ) by {
                    assert(covers(span, ls + i) <==> s <= i < e);
                    assert(painted(sub.push(span), ls + i, default) == if covers(span, ls + i) {
                        span.color
                    } else {
                        painted(sub, ls + i, default)
                    });
                }
            }
        } else {
            proof {
                assert forall|i: int| 0 <= i < n implies colors@[i] == painted(
                    sub.push(span),
                    ls + i,
                    default,
                ) by {
                    assert(!covers(span, ls + i));
                    assert(painted(sub.push(span), ls + i, default) == painted(sub, ls + i, default));
                }
            }
        }
        si = si + 1;
    }
    proof {
        let pre = spans@.subrange(0, span_idx as int);
        let mid = spans@.subrange(span_idx as int, si as int);
        let post = spans@.subrange(si as int, spans@.len() as int);
        assert(spans@ =~= pre + mid + post);
        assert forall|i: int| 0 <= i < n implies colors@[i] == painted(spans@, ls + i, default) by {
            let b = ls + i;
            assert forall|j: int| 0 <= j < pre.len() implies !covers(#[trigger] pre[j], b) by {
                assert(pre[j] == spans@[j]);
            }
            assert forall|j: int| 0 <= j < post.len() implies !covers(#[trigger] post[j], b) by {
                assert(post[j] == spans@[si + j]);
                assert(spans@[si as int].start_byte <= spans@[si + j].start_byte);
            }
            lemma_painted_concat(pre + mid, post, b, default);
            lemma_painted_concat(pre, mid, b, default);
            lemma_painted_none(pre, b, default);
            lemma_painted_none(post, b, painted(pre + mid, b, default));
        }
        assert(colors@ =~= byte_colors(spans@, ls as int, ce as int, default));
    }
    colors
}

/// Whether the chars `a .. b` are all blanks other than a line feed.
fn chars_all_blank(rope: &Rope, a: usize, b: usize) -> (r: bool)
    requires
        a <= b <= rope_text(*rope).len(),
    ensures
        r == all_blank(rope_text(*rope), a as int, b as int),
{
    let mut k = a;
    while k < b
        invariant
            a <= k <= b <= rope_text(*rope).len(),
            all_blank(rope_text(*rope), a as int, k as int),
        decreases b - k,
    {
        let c = char_at(rope, k);
        if !(is_whitespace(c) && c != '\n') {
            return false;
        }
        k = k + 1;
    }
    true
}

/// The runs of a line whose content bytes start at `base` and have the given colors.
fn line_of_runs(rope: &Rope, colors: &Vec<Color>, base: usize, theme: &EditorSyntaxTheme) -> (line:
    SyntaxLine)
    requires
        base + colors@.len() <= utf8_len(rope_text(*rope)),
        base + colors@.len() <= usize::MAX,
    ensures
        line_runs(line) == runs_from(rope_text(*rope), colors@, base as int, 0, true, *theme),
{
    let ghost s = rope_text(*rope);
    let ghost whole = runs_from(s, colors@, base as int, 0, true, *theme);
    let n = colors.len();
    let mut line = line_new();
    let mut leading = true;
    let mut run_start: usize = 0;
    proof {
        assert(line_runs(line) + whole =~= whole);
    }
    while run_start < n
        invariant
            n == colors@.len(),
            base + n <= utf8_len(s),
            base + n <= usize::MAX,
            s == rope_text(*rope),
            run_start <= n,
            whole == runs_from(s, colors@, base as int, 0, true, *theme),
            line_runs(line) + runs_from(s, colors@, base as int, run_start as int, leading, *theme)
                == whole,
        decreases n - run_start,
    {
        let run_color = colors[run_start];
        let mut run_end = run_start + 1;
        while run_end < n && colors[run_end] == run_color
            invariant
                run_start < run_end <= n == colors@.len(),
                run_color == colors@[run_start as int],
                forall|k: int| run_start <= k < run_end ==> colors@[k] == run_color,
            decreases n - run_end,
        {
            run_end = run_end + 1;
        }
        proof {
            lemma_run_end_is(colors@, run_start as int, run_end as int);
        }
        let start_char = byte_to_char(rope, base + run_start);
        let end_char = byte_to_char(rope, base + run_end);
        proof {
            lemma_char_of_byte_monotone(
                s,
                base + run_start,
                base + run_end,
                start_char as int,
                end_char as int,
            );
        }
        let ghost rest = runs_from(s, colors@, base as int, run_start as int, leading, *theme);
        if leading {
            let blank = chars_all_blank(rope, start_char, end_char);
            if blank {
                let run = (
                    theme.whitespace,
                    TextNode::LineOfChars { len: end_char - start_char, char: '\u{B7}' },
                );
                proof {
                    assert(rest == seq![run] + runs_from(s, colors@, base as int, run_end as int, true, *theme));
                }
                line_push(&mut line, run);
                proof {
                    assert(line_runs(line) + runs_from(s, colors@, base as int, run_end as int, true, *theme)
                        =~= whole);
                }
                run_start = run_end;
                continue;
            }
            leading = false;
        }
        let run = (run_color, TextNode::Range(start_char..end_char));
        proof {
            assert(rest == seq![run] + runs_from(s, colors@, base as int, run_end as int, false, *theme));
        }
        line_push(&mut line, run);
        proof {
            assert(line_runs(line) + runs_from(s, colors@, base as int, run_end as int, false, *theme)
                =~= whole);
        }
        run_start = run_end;
    }
    proof {
        assert(line_runs(line) + Seq::<(Color, TextNode)>::empty() =~= line_runs(line));
    }
    line
}

/// Appends the syntax lines of the rope's text, drawn with `spans` (ordered by start), to
/// `syntax_blocks`.
pub fn build_lines_from_spans(
    rope: &Rope,
    spans: &[Span],
    syntax_blocks: &mut SyntaxBlocks,
    theme: &EditorSyntaxTheme,
)
    requires
        spans_sorted(spans@),
    ensures
        final(syntax_blocks)@ == old(syntax_blocks)@ + syntax_lines_of(
            rope_text(*rope),
            spans@,
            *theme,
        ),
{
    let ghost s = rope_text(*rope);
    let total_lines = len_lines(rope);
    let mut span_idx: usize = 0;
    let mut line_idx: usize = 0;
    while line_idx < total_lines
        invariant
            s == rope_text(*rope),
            total_lines == line_count(s),
            line_idx <= total_lines,
            span_idx <= spans@.len(),
            spans_sorted(spans@),
            line_idx < total_lines ==> forall|j: int|
                0 <= j < span_idx ==> #[trigger] spans@[j].end_byte <= byte_offset(
                    s,
                    line_start(s, line_idx as int),
                ),
            syntax_blocks@ == old(syntax_blocks)@ + Seq::new(
                line_idx as nat,
                |l: int| syntax_line_of(s, spans@, *theme, l),
            ),
        decreases total_lines - line_idx,
    {
        let (line_start_byte, content_end_byte) = line_bounds(rope, line_idx);
        while span_idx < spans.len() && spans[span_idx].end_byte <= line_start_byte
            invariant
                span_idx <= spans@.len(),
                forall|j: int| 0 <= j < span_idx ==> #[trigger] spans@[j].end_byte <= line_start_byte,
            decreases spans@.len() - span_idx,
        {
            span_idx = span_idx + 1;
        }
        let ghost want = syntax_line_of(s, spans@, *theme, line_idx as int);
        if content_end_byte == line_start_byte {
            let line = line_new();
            proof {
                assert(want =~= Seq::<(Color, TextNode)>::empty());
            }
            syntax_blocks.push_line(line);
        } else {
            let colors = paint_line(spans, span_idx, line_start_byte, content_end_byte, theme.text);
            let line = line_of_runs(rope, &colors, line_start_byte, theme);
            syntax_blocks.push_line(line);
        }
        proof {
            assert(syntax_blocks@ =~= old(syntax_blocks)@ + Seq::new(
                (line_idx + 1) as nat,
                |l: int| syntax_line_of(s, spans@, *theme, l),
            ));
            if line_idx + 1 < total_lines {
                let next = line_start(s, line_idx + 1);
                lemma_offsets_monotone(s, line_start(s, line_idx as int), next);
            }
        }
        line_idx = line_idx + 1;
    }
    proof {
        assert(Seq::new(line_idx as nat, |l: int| syntax_line_of(s, spans@, *theme, l))
            =~= syntax_lines_of(s, spans@, *theme));
    }
}

/// Appends one plain line per line of the rope's text: its chars, in the text color.
pub fn build_plain_blocks(rope: &Rope, syntax_blocks: &mut SyntaxBlocks, theme: &EditorSyntaxTheme)
    ensures
        final(syntax_blocks)@ == old(syntax_blocks)@ + plain_lines_of(rope_text(*rope), *theme),
{
    let ghost s = rope_text(*rope);
    let total_lines = len_lines(rope);
    let mut n: usize = 0;
    while n < total_lines
        invariant
            s == rope_text(*rope),
            total_lines == line_count(s),
            n <= total_lines,
            syntax_blocks@ == old(syntax_blocks)@ + Seq::new(
                n as nat,
                |l: int| plain_line_of(s, *theme, l),
            ),
        decreases total_lines - n,
    {
        let mut line_blocks = line_new();
        let start = line_to_char(rope, n);
        let next = line_to_char(rope, n + 1);
        proof {
            lemma_line_starts_ordered(s, n as int, start as int, next as int);
        }
        let end = next - start;
        if end > 0 {
            line_push(&mut line_blocks, (theme.text, TextNode::Range(start..start + end)));
        }
        proof {
            assert(line_runs(line_blocks) =~= plain_line_of(s, *theme, n as int));
        }
        syntax_blocks.push_line(line_blocks);
        proof {
            assert(syntax_blocks@ =~= old(syntax_blocks)@ + Seq::new(
                (n + 1) as nat,
                |l: int| plain_line_of(s, *theme, l),
            ));
        }
        n = n + 1;
    }
    proof {
        assert(Seq::new(n as nat, |l: int| plain_line_of(s, *theme, l)) =~= plain_lines_of(s, *theme));
    }
}

/// The number of spans that start at or before byte `b`.
pub open spec fn count_starting_by(s: Seq<Span>, b: usize) -> nat
    decreases s.len(),
{
    if s.len() == 0 {
        0
    } else {
        count_starting_by(s.drop_last(), b) + if s.last().start_byte <= b {
            1nat
        } else {
            0nat
        }
    }
}

/// `x` put among the spans `s` right after the last one that starts no later than it.
pub open spec fn insert_by_start(s: Seq<Span>, x: Span) -> Seq<Span> {
    s.insert(count_starting_by(s, x.start_byte) as int, x)
}

/// The spans ordered by where they start; spans that start at the same byte keep their order.
pub open spec fn sorted_by_start(s: Seq<Span>) -> Seq<Span>
    decreases s.len(),
{
    if s.len() == 0 {
        s
    } else {
        insert_by_start(sorted_by_start(s.drop_last()), s.last())
    }
}

/// In spans ordered by start, those starting by `b` come first.
proof fn lemma_count_starting_by(s: Seq<Span>, b: usize)
    requires
        spans_sorted(s),
    ensures
        count_starting_by(s, b) <= s.len(),
        forall|i: int| 0 <= i < count_starting_by(s, b) ==> #[trigger] s[i].start_byte <= b,
        forall|i: int| count_starting_by(s, b) <= i < s.len() ==> #[trigger] s[i].start_byte > b,
    decreases s.len(),
{
    if s.len() > 0 {
        let t = s.drop_last();
        assert(spans_sorted(t));
        lemma_count_starting_by(t, b);
        let n = s.len() - 1;
        assert forall|i: int| 0 <= i < n implies #[trigger] s[i] == t[i] by {}
        if s.last().start_byte <= b {
            assert forall|i: int| 0 <= i < t.len() implies #[trigger] t[i].start_byte <= b by {
                assert(s[i].start_byte <= s[n].start_byte);
            }
            assert(count_starting_by(t, b) == t.len());
            assert forall|i: int| 0 <= i < count_starting_by(s, b) implies #[trigger] s[i].start_byte <= b by {
                if i < n {
                    assert(t[i].start_byte <= b);
                }
            }
        } else {
            assert forall|i: int| 0 <= i < count_starting_by(s, b) implies #[trigger] s[i].start_byte <= b by {
                assert(t[i].start_byte <= b);
            }
            assert forall|i: int| count_starting_by(s, b) <= i < s.len() implies #[trigger] s[i].start_byte > b by {
                if i < n {
                    assert(t[i].start_byte > b);
                }
            }
        }
    }
}

/// Ordering by start gives spans ordered by start, as many as there were.
pub proof fn lemma_sorted_by_start(s: Seq<Span>)
    ensures
        spans_sorted(sorted_by_start(s)),
        sorted_by_start(s).len() == s.len(),
    decreases s.len(),
{
    if s.len() > 0 {
        let t = sorted_by_start(s.drop_last());
        lemma_sorted_by_start(s.drop_last());
        let x = s.last();
        lemma_count_starting_by(t, x.start_byte);
        let c = count_starting_by(t, x.start_byte) as int;
        let r = t.insert(c, x);
        assert forall|i: int, j: int| 0 <= i <= j < r.len() implies r[i].start_byte <= r[j].start_byte by {
            if i < c && j < c {
            } else if i < c && j == c {
            } else if i < c {
                assert(r[j] == t[j - 1]);
            } else if i == c && j > c {
                assert(r[j] == t[j - 1]);
            } else if i > c {
                assert(r[i] == t[i - 1]);
                assert(r[j] == t[j - 1]);
            }
        }
    }
}

/// `slice::sort_by_key` on the start byte, which std documents as stable: spans that start at
/// the same byte keep their order.
#[verifier::external_body]
fn sort_by_start(spans: &mut Vec<Span>)
    ensures
        final(spans)@ == sorted_by_start(old(spans)@),
{
    spans.sort_by_key(|s| s.start_byte)
}

/// The spans of highlight captures, each a (start byte, end byte, capture index) triple: a span
/// in the capture's color for each capture whose index has a color.
pub open spec fn captured_spans(caps: Seq<(usize, usize, usize)>, colors: Seq<Color>) -> Seq<Span>
    decreases caps.len(),
{
    if caps.len() == 0 {
        Seq::empty()
    } else {
        let rest = captured_spans(caps.drop_last(), colors);
        let c = caps.last();
        if c.2 < colors.len() {
            rest.push(Span { start_byte: c.0, end_byte: c.1, color: colors[c.2 as int] })
        } else {
            rest
        }
    }
}

/// The spans of highlight captures, colored by capture index.
pub fn spans_from_captures(caps: &[(usize, usize, usize)], colors: &[Color]) -> (r: Vec<Span>)
    ensures
        r@ == captured_spans(caps@, colors@),
{
    let mut r: Vec<Span> = Vec::new();
    let mut i: usize = 0;
    while i < caps.len()
        invariant
            i <= caps@.len(),
            r@ == captured_spans(caps@.subrange(0, i as int), colors@),
        decreases caps@.len() - i,
    {
        let (start_byte, end_byte, index) = caps[i];
        if index < colors.len() {
            r.push(Span { start_byte, end_byte, color: colors[index] });
        }
        proof {
            assert(caps@.subrange(0, i + 1).drop_last() =~= caps@.subrange(0, i as int));
        }
        i = i + 1;
    }
    proof {
        assert(caps@.subrange(0, i as int) =~= caps@);
    }
    r
}

/// Appends the syntax lines of the rope's text drawn with highlight captures, each a
/// (start byte, end byte, capture index) triple colored by `colors`: the captures' spans
/// are ordered by start, later spans drawn over earlier ones.
pub fn highlight_lines(
    rope: &Rope,
    caps: &[(usize, usize, usize)],
    colors: &[Color],
    syntax_blocks: &mut SyntaxBlocks,
    theme: &EditorSyntaxTheme,
)
    ensures
        final(syntax_blocks)@ == old(syntax_blocks)@ + syntax_lines_of(
            rope_text(*rope),
            sorted_by_start(captured_spans(caps@, colors@)),
            *theme,
        ),
{
    let mut spans = spans_from_captures(caps, colors);
    sort_by_start(&mut spans);
    proof {
        lemma_sorted_by_start(captured_spans(caps@, colors@));
    }
    build_lines_from_spans(rope, spans.as_slice(), syntax_blocks, theme);
}

/// The number of chars a run draws.
pub open spec fn node_len(n: TextNode) -> int {
    match n {
        TextNode::Range(r) => r.end - r.start,
        TextNode::LineOfChars { len, .. } => len as int,
    }
}

/// The number of chars the runs of a line draw together.
pub open spec fn runs_len(runs: Seq<(Color, TextNode)>) -> int
    decreases runs.len(),
{
    if runs.len() == 0 {
        0
    } else {
        node_len(runs[0].1) + runs_len(runs.subrange(1, runs.len() as int))
    }
}

/// The runs draw the chars `from .. to` in order, each run going on where the one before it
/// ended: a range run starts at the next char, and a row of marks stands for as many chars as
/// it is long.
pub open spec fn tiles(runs: Seq<(Color, TextNode)>, from: int, to: int) -> bool
    decreases runs.len(),
{
    if runs.len() == 0 {
        from == to
    } else {
        match runs[0].1 {
            TextNode::Range(r) => r.start == from && r.start <= r.end && tiles(
                runs.subrange(1, runs.len() as int),
                r.end as int,
                to,
            ),
            TextNode::LineOfChars { len, .. } => tiles(
                runs.subrange(1, runs.len() as int),
                from + len,
                to,
            ),
        }
    }
}

/// A syntax line's runs are in shape: rows of middle dots in the whitespace color, standing
/// for leading blanks, come before any range of chars, and two ranges next to each other differ
/// in color, so that each range is a whole run of one color.
pub proof fn law_syntax_line_is_in_shape(s: Seq<char>, spans: Seq<Span>, t: EditorSyntaxTheme, l: int)
    requires
        0 <= l < line_count(s),
        s.len() <= usize::MAX,
    ensures
        runs_in_shape(syntax_line_of(s, spans, t, l), t),
{
    let ls = line_start(s, l);
    let le = line_start(s, l + 1);
    lemma_line_start_exists_for(s, l);
    lemma_line_start_exists_for(s, l + 1);
    lemma_line_starts_ordered(s, l, ls, le);
    let ce = content_end(s, ls, le);
    let lb = byte_offset(s, ls) as int;
    let cb = byte_offset(s, ce) as int;
    lemma_offsets_monotone(s, ls, ce);
    lemma_offsets_monotone(s, ce, s.len() as int);
    lemma_byte_offset_end(s);
    lemma_runs_from_shape(s, byte_colors(spans, lb, cb, t.text), lb, 0, true, t);
}

/// Every byte of the text belongs to some char.
proof fn lemma_char_of_byte_exists(s: Seq<char>, b: int, r: int)
    requires
        0 <= r <= s.len(),
        byte_offset(s, r) <= b <= utf8_len(s),
    ensures
        is_char_of_byte(s, b, char_of_byte(s, b)),
    decreases s.len() - r,
{
    if r == s.len() {
        assert(is_char_of_byte(s, b, r));
    } else if b < byte_offset(s, r + 1) {
        assert(is_char_of_byte(s, b, r));
    } else {
        lemma_char_of_byte_exists(s, b, r + 1);
    }
}

/// The byte a char starts at belongs to that char.
proof fn lemma_char_of_char_start(s: Seq<char>, i: int)
    requires
        0 <= i <= s.len(),
    ensures
        char_of_byte(s, byte_offset(s, i) as int) == i,
{
    let b = byte_offset(s, i) as int;
    if i < s.len() {
        lemma_byte_offset_step(s, i);
    }
    assert(is_char_of_byte(s, b, i));
    let r = char_of_byte(s, b);
    lemma_char_of_byte_monotone(s, b, b, r, i);
    lemma_char_of_byte_monotone(s, b, b, i, r);
}

/// The runs from byte `i` on draw the chars from that byte's char to the content's end.
proof fn lemma_runs_from_len(
    s: Seq<char>,
    colors: Seq<Color>,
    base: int,
    i: int,
    leading: bool,
    t: EditorSyntaxTheme,
)
    requires
        0 <= base,
        0 <= i <= colors.len(),
        base + colors.len() <= utf8_len(s),
        s.len() <= usize::MAX,
    ensures
        runs_len(runs_from(s, colors, base, i, leading, t)) == char_of_byte(s, base + colors.len())
            - char_of_byte(s, base + i),
    decreases colors.len() - i,
{
    lemma_char_of_byte_exists(s, base + i, 0);
    if i < colors.len() {
        let j = run_end(colors, i);
        lemma_run_end_bounds(colors, i);
        lemma_char_of_byte_exists(s, base + j, 0);
        lemma_char_of_byte_monotone(s, base + i, base + j, char_of_byte(s, base + i), char_of_byte(s, base + j));
        let sc = char_of_byte(s, base + i);
        let ec = char_of_byte(s, base + j);
        let next = all_blank(s, sc, ec) && leading;
        lemma_runs_from_len(s, colors, base, j, next, t);
        lemma_runs_from_len(s, colors, base, j, false, t);
        lemma_runs_from_len(s, colors, base, j, true, t);
        let r = runs_from(s, colors, base, i, leading, t);
        assert(r.subrange(1, r.len() as int) =~= runs_from(s, colors, base, j, leading && all_blank(s, sc, ec), t));
        assert(node_len(r[0].1) == ec - sc);
    }
}

/// The runs from byte `i` on tile the chars from that byte's char to the content's end.
proof fn lemma_runs_from_tile(
    s: Seq<char>,
    colors: Seq<Color>,
    base: int,
    i: int,
    leading: bool,
    t: EditorSyntaxTheme,
)
    requires
        0 <= base,
        0 <= i <= colors.len(),
        base + colors.len() <= utf8_len(s),
        s.len() <= usize::MAX,
    ensures
        tiles(
            runs_from(s, colors, base, i, leading, t),
            char_of_byte(s, base + i),
            char_of_byte(s, base + colors.len()),
        ),
    decreases colors.len() - i,
{
    lemma_char_of_byte_exists(s, base + i, 0);
    if i < colors.len() {
        let j = run_end(colors, i);
        lemma_run_end_bounds(colors, i);
        lemma_char_of_byte_exists(s, base + j, 0);
        lemma_char_of_byte_monotone(s, base + i, base + j, char_of_byte(s, base + i), char_of_byte(s, base + j));
        let sc = char_of_byte(s, base + i);
        let ec = char_of_byte(s, base + j);
        lemma_runs_from_tile(s, colors, base, j, false, t);
        lemma_runs_from_tile(s, colors, base, j, true, t);
        let r = runs_from(s, colors, base, i, leading, t);
        assert(r.subrange(1, r.len() as int) =~= runs_from(s, colors, base, j, leading && all_blank(s, sc, ec), t));
    } else {
        assert(runs_from(s, colors, base, i, leading, t) =~= Seq::<(Color, TextNode)>::empty());
    }
}

/// The shape of a line's runs: rows of middle dots in the whitespace color come first, ranges
/// of chars after them, and two ranges next to each other differ in color.
pub open spec fn runs_in_shape(runs: Seq<(Color, TextNode)>, t: EditorSyntaxTheme) -> bool {
    &&& forall|k: int|
        0 <= k < runs.len() ==> ((#[trigger] runs[k]).1 matches TextNode::LineOfChars { char: mark, .. }
            ==> runs[k].0 == t.whitespace && mark == blank_mark())
    &&& forall|k: int, m: int|
        0 <= k < m < runs.len() && (#[trigger] runs[m]).1 is LineOfChars ==> (#[trigger] runs[k]).1 is LineOfChars
    &&& forall|k: int|
        0 <= k && k + 1 < runs.len() && (#[trigger] runs[k]).1 is Range && runs[k + 1].1 is Range
            ==> runs[k].0 != runs[k + 1].0
}

/// The runs from byte `i` on are in shape; past the leading part they are all ranges, and the
/// first, if a range, has the color of byte `i`.
proof fn lemma_runs_from_shape(
    s: Seq<char>,
    colors: Seq<Color>,
    base: int,
    i: int,
    leading: bool,
    t: EditorSyntaxTheme,
)
    requires
        0 <= base,
        0 <= i <= colors.len(),
        base + colors.len() <= utf8_len(s),
        s.len() <= usize::MAX,
    ensures
        runs_in_shape(runs_from(s, colors, base, i, leading, t), t),
        !leading ==> forall|k: int|
            0 <= k < runs_from(s, colors, base, i, leading, t).len() ==> (#[trigger] runs_from(
                s,
                colors,
                base,
                i,
                leading,
                t,
            )[k]).1 is Range,
        runs_from(s, colors, base, i, leading, t).len() > 0 && runs_from(s, colors, base, i, leading, t)[0].1 is Range
            ==> runs_from(s, colors, base, i, leading, t)[0].0 == colors[i],
    decreases colors.len() - i,
{
    let r = runs_from(s, colors, base, i, leading, t);
    if i < colors.len() {
        let j = run_end(colors, i);
        lemma_run_end_bounds(colors, i);
        lemma_run_end_color(colors, i);
        let sc = char_of_byte(s, base + i);
        let ec = char_of_byte(s, base + j);
        let next = leading && all_blank(s, sc, ec);
        lemma_runs_from_shape(s, colors, base, j, next, t);
        let rest = runs_from(s, colors, base, j, next, t);
        assert(r =~= seq![r[0]] + rest);
        assert forall|k: int| 1 <= k < r.len() implies r[k] == rest[k - 1] by {}
        assert forall|k: int, m: int|
            0 <= k < m < r.len() && (#[trigger] r[m]).1 is LineOfChars implies (#[trigger] r[k]).1 is LineOfChars by {
            if k > 0 {
                assert(r[m] == rest[m - 1]);
                assert(r[k] == rest[k - 1]);
            } else {
                assert(r[m] == rest[m - 1]);
            }
        }
        assert forall|k: int|
            0 <= k && k + 1 < r.len() && (#[trigger] r[k]).1 is Range && r[k + 1].1 is Range implies r[k].0 != r[k + 1].0 by {
            assert(r[k + 1] == rest[k]);
            if k > 0 {
                assert(r[k] == rest[k - 1]);
            }
        }
    } else {
        assert(r =~= Seq::<(Color, TextNode)>::empty());
    }
}

/// Byte `b` is where some char of `s` starts, or the end of `s`.
pub open spec fn on_char_boundary(s: Seq<char>, b: int) -> bool {
    exists|p: int| 0 <= p <= s.len() && #[trigger] byte_offset(s, p) == b
}

/// Each char a range run draws has the run's color: that of the last span covering the char's
/// first byte, else `default`.
pub open spec fn ranges_painted(
    runs: Seq<(Color, TextNode)>,
    s: Seq<char>,
    spans: Seq<Span>,
    default: Color,
) -> bool {
    forall|k: int, p: int|
        0 <= k < runs.len() ==> ((#[trigger] runs[k]).1 matches TextNode::Range(r) && r.start <= p < r.end
            ==> painted(spans, #[trigger] byte_offset(s, p) as int, default) == runs[k].0)
}

/// Where the color changes from one byte to the next, some span starts or ends.
proof fn lemma_painted_change(spans: Seq<Span>, b: int, d: Color)
    requires
        painted(spans, b - 1, d) != painted(spans, b, d),
    ensures
        exists|k: int|
            0 <= k < spans.len() && ((#[trigger] spans[k]).start_byte == b || spans[k].end_byte == b),
    decreases spans.len(),
{
    let last = spans.last();
    if covers(last, b - 1) == covers(last, b) {
        if !covers(last, b) {
            lemma_painted_change(spans.drop_last(), b, d);
            let k = choose|k: int|
                0 <= k < spans.drop_last().len() && ((#[trigger] spans.drop_last()[k]).start_byte == b
                    || spans.drop_last()[k].end_byte == b);
            assert(spans[k] == spans.drop_last()[k]);
        }
    } else {
        assert(spans[spans.len() - 1] == last);
    }
}

/// The char holding a byte where a char starts is that char.
proof fn lemma_char_of_boundary(s: Seq<char>, p: int)
    requires
        0 <= p <= s.len(),
    ensures
        char_of_byte(s, byte_offset(s, p) as int) == p,
{
    lemma_char_of_char_start(s, p);
}

/// A char starts before the next one does.
proof fn lemma_byte_offset_strict(s: Seq<char>, p: int, q: int)
    requires
        0 <= p < q <= s.len(),
    ensures
        byte_offset(s, p) < byte_offset(s, q),
{
    lemma_byte_offset_step(s, p);
    lemma_offsets_monotone(s, p + 1, q);
}

/// The range runs from byte `i` on have the colors their chars are painted in, when the spans
/// and the run's first byte sit on char boundaries.
proof fn lemma_runs_from_painted(
    s: Seq<char>,
    spans: Seq<Span>,
    d: Color,
    lb: int,
    cb: int,
    i: int,
    leading: bool,
    t: EditorSyntaxTheme,
)
    requires
        0 <= lb <= cb <= utf8_len(s),
        0 <= i <= cb - lb,
        s.len() <= usize::MAX,
        on_char_boundary(s, lb + i),
        on_char_boundary(s, cb),
        forall|k: int|
            0 <= k < spans.len() ==> on_char_boundary(s, (#[trigger] spans[k]).start_byte as int)
                && on_char_boundary(s, spans[k].end_byte as int),
    ensures
        ranges_painted(runs_from(s, byte_colors(spans, lb, cb, d), lb, i, leading, t), s, spans, d),
    decreases cb - lb - i,
{
    let colors = byte_colors(spans, lb, cb, d);
    let r = runs_from(s, colors, lb, i, leading, t);
    if i < colors.len() {
        let j = run_end(colors, i);
        lemma_run_end_bounds(colors, i);
        lemma_run_end_color(colors, i);
        lemma_char_of_byte_exists(s, lb + j, 0);
        let p0 = choose|p: int| 0 <= p <= s.len() && #[trigger] byte_offset(s, p) == lb + i;
        lemma_char_of_boundary(s, p0);
        let sc = char_of_byte(s, lb + i);
        let ec = char_of_byte(s, lb + j);
        assert(sc == p0);
        if j < colors.len() {
            assert(colors[j - 1] == colors[i]);
            assert(colors[j - 1] == painted(spans, lb + j - 1, d));
            assert(colors[j] == painted(spans, lb + j, d));
            lemma_painted_change(spans, lb + j, d);
            let k = choose|k: int|
                0 <= k < spans.len() && ((#[trigger] spans[k]).start_byte == lb + j || spans[k].end_byte
                    == lb + j);
            assert(on_char_boundary(s, spans[k].start_byte as int) && on_char_boundary(s, spans[k].end_byte as int));
        }
        assert(on_char_boundary(s, lb + j));
        let next = leading && all_blank(s, sc, ec);
        lemma_runs_from_painted(s, spans, d, lb, cb, j, next, t);
        let rest = runs_from(s, colors, lb, j, next, t);
        assert(r =~= seq![r[0]] + rest);
        assert forall|p: int| sc <= p < ec implies painted(spans, #[trigger] byte_offset(s, p) as int, d)
            == colors[i] by {
            lemma_offsets_monotone(s, sc, p);
            lemma_byte_offset_strict(s, p, ec);
            let b = byte_offset(s, p) as int;
            assert(colors[b - lb] == colors[i]);
        }
        assert forall|k: int, p: int|
            0 <= k < r.len() implies ((#[trigger] r[k]).1 matches TextNode::Range(rg) && rg.start <= p
                < rg.end ==> painted(spans, #[trigger] byte_offset(s, p) as int, d) == r[k].0) by {
            if k > 0 {
                assert(r[k] == rest[k - 1]);
            }
        }
    } else {
        assert(r =~= Seq::<(Color, TextNode)>::empty());
    }
}

/// Each char of a syntax line drawn as a range has the color of the last span covering it, or
/// the text color where none does, when the spans start and end on char boundaries.
pub proof fn law_syntax_line_paints_the_spans(s: Seq<char>, spans: Seq<Span>, t: EditorSyntaxTheme, l: int)
    requires
        0 <= l < line_count(s),
        s.len() <= usize::MAX,
        forall|k: int|
            0 <= k < spans.len() ==> on_char_boundary(s, (#[trigger] spans[k]).start_byte as int)
                && on_char_boundary(s, spans[k].end_byte as int),
    ensures
        ranges_painted(syntax_line_of(s, spans, t, l), s, spans, t.text),
{
    let ls = line_start(s, l);
    let le = line_start(s, l + 1);
    lemma_line_start_exists_for(s, l);
    lemma_line_start_exists_for(s, l + 1);
    lemma_line_starts_ordered(s, l, ls, le);
    let ce = content_end(s, ls, le);
    let lb = byte_offset(s, ls) as int;
    let cb = byte_offset(s, ce) as int;
    lemma_offsets_monotone(s, ls, ce);
    lemma_offsets_monotone(s, ce, s.len() as int);
    lemma_byte_offset_end(s);
    assert(on_char_boundary(s, lb + 0));
    assert(on_char_boundary(s, cb));
    lemma_runs_from_painted(s, spans, t.text, lb, cb, 0, true, t);
}

/// Every line number up to the number of lines has a start.
proof fn lemma_line_start_exists_for(s: Seq<char>, l: int)
    requires
        0 <= l <= line_count(s),
    ensures
        is_line_start(s, l, line_start(s, l)),
{
    if l == line_count(s) {
        assert(is_line_start(s, l, s.len() as int));
    } else if l == 0 {
        assert(breaks_upto(s, 0) == 0);
        assert(is_line_start(s, 0, 0));
    } else {
        lemma_first_position_with_breaks(s, l, 0);
    }
}

/// Scanning right from a position with fewer than `l` breaks finds where the `l`-th break ends.
proof fn lemma_first_position_with_breaks(s: Seq<char>, l: int, i: int)
    requires
        1 <= l < line_count(s),
        0 <= i <= s.len(),
        breaks_upto(s, i) < l,
    ensures
        is_line_start(s, l, line_start(s, l)),
    decreases s.len() - i,
{
    lemma_breaks_monotone(s, i, s.len() as int);
    assert(i < s.len());
    if breaks_upto(s, i + 1) == l {
        assert(break_ends_at(s, i + 1));
        assert(is_line_start(s, l, i + 1));
    } else {
        lemma_first_position_with_breaks(s, l, i + 1);
    }
}

/// The runs of a syntax line draw, in order and with no gap or overlap, exactly the chars the
/// line has before its line break; a line with nothing before its break has no runs.
pub proof fn law_syntax_line_covers_the_content(s: Seq<char>, spans: Seq<Span>, t: EditorSyntaxTheme, l: int)
    requires
        0 <= l < line_count(s),
        s.len() <= usize::MAX,
    ensures
        runs_len(syntax_line_of(s, spans, t, l)) == content_end(s, line_start(s, l), line_start(s, l + 1))
            - line_start(s, l),
        tiles(
            syntax_line_of(s, spans, t, l),
            line_start(s, l),
            content_end(s, line_start(s, l), line_start(s, l + 1)),
        ),
        content_end(s, line_start(s, l), line_start(s, l + 1)) == line_start(s, l) ==> syntax_line_of(
            s,
            spans,
            t,
            l,
        ).len() == 0,
{
    let ls = line_start(s, l);
    let le = line_start(s, l + 1);
    lemma_line_start_exists_for(s, l);
    lemma_line_start_exists_for(s, l + 1);
    lemma_line_starts_ordered(s, l, ls, le);
    let ce = content_end(s, ls, le);
    let lb = byte_offset(s, ls) as int;
    let cb = byte_offset(s, ce) as int;
    lemma_offsets_monotone(s, ls, ce);
    lemma_offsets_monotone(s, ce, s.len() as int);
    lemma_byte_offset_end(s);
    let colors = byte_colors(spans, lb, cb, t.text);
    lemma_runs_from_len(s, colors, lb, 0, true, t);
    lemma_runs_from_tile(s, colors, lb, 0, true, t);
    lemma_char_of_char_start(s, ls);
    lemma_char_of_char_start(s, ce);
}

/// Every capture name the theme lists resolves to its own theme color, whatever that color
/// is: an exact entry is taken before any fallback to a shorter name.
pub proof fn law_listed_capture_names_resolve_to_their_colors(t: EditorSyntaxTheme)
    ensures
        resolved_capture_color("attribute"@, t) == t.attribute,
        resolved_capture_color("boolean"@, t) == t.boolean,
        resolved_capture_color("comment"@, t) == t.comment,
        resolved_capture_color("comment.documentation"@, t) == t.comment,
        resolved_capture_color("constant"@, t) == t.constant,
        resolved_capture_color("constant.builtin"@, t) == t.constant,
        resolved_capture_color("constructor"@, t) == t.constructor,
        resolved_capture_color("escape"@, t) == t.escape,
        resolved_capture_color("function"@, t) == t.function,
        resolved_capture_color("function.builtin"@, t) == t.function,
        resolved_capture_color("function.macro"@, t) == t.function_macro,
        resolved_capture_color("function.method"@, t) == t.function_method,
        resolved_capture_color("keyword"@, t) == t.keyword,
        resolved_capture_color("label"@, t) == t.label,
        resolved_capture_color("module"@, t) == t.module,
        resolved_capture_color("number"@, t) == t.number,
        resolved_capture_color("operator"@, t) == t.operator,
        resolved_capture_color("property"@, t) == t.property,
        resolved_capture_color("punctuation"@, t) == t.punctuation,
        resolved_capture_color("punctuation.bracket"@, t) == t.punctuation_bracket,
        resolved_capture_color("punctuation.delimiter"@, t) == t.punctuation_delimiter,
        resolved_capture_color("punctuation.special"@, t) == t.punctuation_special,
        resolved_capture_color("string"@, t) == t.string,
        resolved_capture_color("string.escape"@, t) == t.string_escape,
        resolved_capture_color("string.special"@, t) == t.string_special,
        resolved_capture_color("string.special.key"@, t) == t.string_special,
        resolved_capture_color("string.special.symbol"@, t) == t.string_special,
        resolved_capture_color("tag"@, t) == t.tag,
        resolved_capture_color("text.literal"@, t) == t.text_literal,
        resolved_capture_color("text.reference"@, t) == t.text_reference,
        resolved_capture_color("text.title"@, t) == t.text_title,
        resolved_capture_color("text.uri"@, t) == t.text_uri,
        resolved_capture_color("text.emphasis"@, t) == t.text_emphasis,
        resolved_capture_color("text.strong"@, t) == t.text_emphasis,
        resolved_capture_color("type"@, t) == t.type_,
        resolved_capture_color("type.builtin"@, t) == t.type_,
        resolved_capture_color("variable"@, t) == t.variable,
        resolved_capture_color("variable.builtin"@, t) == t.variable_builtin,
        resolved_capture_color("variable.parameter"@, t) == t.variable_parameter,
{
    reveal_strlit("attribute");
    reveal_strlit("boolean");
    reveal_strlit("comment");
    reveal_strlit("comment.documentation");
    reveal_strlit("constant");
    reveal_strlit("constant.builtin");
    reveal_strlit("constructor");
    reveal_strlit("escape");
    reveal_strlit("function");
    reveal_strlit("function.builtin");
    reveal_strlit("function.macro");
    reveal_strlit("function.method");
    reveal_strlit("keyword");
    reveal_strlit("label");
    reveal_strlit("module");
    reveal_strlit("number");
    reveal_strlit("operator");
    reveal_strlit("property");
    reveal_strlit("punctuation");
    reveal_strlit("punctuation.bracket");
    reveal_strlit("punctuation.delimiter");
    reveal_strlit("punctuation.special");
    reveal_strlit("string");
    reveal_strlit("string.escape");
    reveal_strlit("string.special");
    reveal_strlit("string.special.key");
    reveal_strlit("string.special.symbol");
    reveal_strlit("tag");
    reveal_strlit("text.literal");
    reveal_strlit("text.reference");
    reveal_strlit("text.title");
    reveal_strlit("text.uri");
    reveal_strlit("text.emphasis");
    reveal_strlit("text.strong");
    reveal_strlit("type");
    reveal_strlit("type.builtin");
    reveal_strlit("variable");
    reveal_strlit("variable.builtin");
    reveal_strlit("variable.parameter");
    // each name told apart from the others by its length or a few of its chars
    assert("attribute"@.len() == 9);
    assert("boolean"@.len() == 7 && "boolean"@[0] == 'b');
    assert("comment"@.len() == 7 && "comment"@[0] == 'c');
    assert("comment.documentation"@.len() == 21 && "comment.documentation"@[0] == 'c');
    assert("constant"@.len() == 8 && "constant"@[0] == 'c');
    assert("constant.builtin"@.len() == 16 && "constant.builtin"@[0] == 'c');
    assert("constructor"@.len() == 11 && "constructor"@[0] == 'c');
    assert("escape"@.len() == 6 && "escape"@[0] == 'e');
    assert("function"@.len() == 8 && "function"@[0] == 'f');
    assert("function.builtin"@.len() == 16 && "function.builtin"@[0] == 'f');
    assert("function.macro"@.len() == 14 && "function.macro"@[0] == 'f');
    assert("function.method"@.len() == 15);
    assert("keyword"@.len() == 7 && "keyword"@[0] == 'k');
    assert("label"@.len() == 5);
    assert("module"@.len() == 6 && "module"@[0] == 'm');
    assert("number"@.len() == 6 && "number"@[0] == 'n');
    assert("operator"@.len() == 8 && "operator"@[0] == 'o');
    assert("property"@.len() == 8 && "property"@[0] == 'p');
    assert("punctuation"@.len() == 11 && "punctuation"@[0] == 'p');
    assert("punctuation.bracket"@.len() == 19 && "punctuation.bracket"@[12] == 'b');
    assert("punctuation.delimiter"@.len() == 21 && "punctuation.delimiter"@[0] == 'p');
    assert("punctuation.special"@.len() == 19 && "punctuation.special"@[12] == 's');
    assert("string"@.len() == 6 && "string"@[0] == 's');
    assert("string.escape"@.len() == 13 && "string.escape"@[0] == 's');
    assert("string.special"@.len() == 14 && "string.special"@[0] == 's');
    assert("string.special.key"@.len() == 18 && "string.special.key"@[0] == 's');
    assert("string.special.symbol"@.len() == 21 && "string.special.symbol"@[0] == 's');
    assert("tag"@.len() == 3);
    assert("text.literal"@.len() == 12 && "text.literal"@[1] == 'e');
    assert("text.reference"@.len() == 14 && "text.reference"@[0] == 't');
    assert("text.title"@.len() == 10);
    assert("text.uri"@.len() == 8 && "text.uri"@[0] == 't');
    assert("text.emphasis"@.len() == 13 && "text.emphasis"@[0] == 't');
    assert("text.strong"@.len() == 11 && "text.strong"@[0] == 't');
    assert("type"@.len() == 4);
    assert("type.builtin"@.len() == 12 && "type.builtin"@[1] == 'y');
    assert("variable"@.len() == 8 && "variable"@[0] == 'v');
    assert("variable.builtin"@.len() == 16 && "variable.builtin"@[0] == 'v');
    assert("variable.parameter"@.len() == 18 && "variable.parameter"@[0] == 'v');
}

} // verus!
