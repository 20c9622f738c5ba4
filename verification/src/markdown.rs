//! Markdown structure: the block elements a markdown viewer draws and their styled text,
//! built from the events pulldown-cmark reads in the text.

use vstd::prelude::*;

use pulldown_cmark::{
    Alignment, BlockQuoteKind, CodeBlockKind, CowStr, Event, HeadingLevel, LinkType,
    MetadataBlockKind, Options, Parser, Tag, TagEnd,
};

use crate::rope::is_unicode_white_space;

verus! {

#[verifier::external_type_specification]
#[verifier::external_body]
pub struct ExCowStr<'a>(CowStr<'a>);

#[verifier::external_type_specification]
pub struct ExHeadingLevel(HeadingLevel);

#[verifier::external_type_specification]
pub struct ExBlockQuoteKind(BlockQuoteKind);

#[verifier::external_type_specification]
pub struct ExMetadataBlockKind(MetadataBlockKind);

#[verifier::external_type_specification]
pub struct ExAlignment(Alignment);

#[verifier::external_type_specification]
pub struct ExLinkType(LinkType);

#[verifier::external_type_specification]
pub struct ExCodeBlockKind<'a>(CodeBlockKind<'a>);

#[verifier::external_type_specification]
pub struct ExTag<'a>(Tag<'a>);

#[verifier::external_type_specification]
pub struct ExTagEnd(TagEnd);

#[verifier::external_type_specification]
pub struct ExEvent<'a>(Event<'a>);

/// A run of text with its style.
#[derive(Debug, PartialEq, Eq)]
pub struct TextSpan {
    pub text: String,
    pub bold: bool,
    pub italic: bool,
    pub strikethrough: bool,
    pub code: bool,
}

/// A block of a markdown document, as the viewer draws it.
#[derive(Debug, PartialEq, Eq)]
pub enum MarkdownElement {
    Heading { level: u8, spans: Vec<TextSpan> },
    Paragraph { spans: Vec<TextSpan> },
    CodeBlock { code: String, language: Option<String> },
    UnorderedList { items: Vec<Vec<TextSpan>> },
    OrderedList { start: u64, items: Vec<Vec<TextSpan>> },
    Image { url: String, alt: String },
    Link { url: String, title: Option<String>, text: Vec<TextSpan> },
    Blockquote { spans: Vec<TextSpan> },
    Table { headers: Vec<Vec<TextSpan>>, rows: Vec<Vec<Vec<TextSpan>>> },
    HorizontalRule,
}

/// A styled run of text, by its chars.
pub struct SpanModel {
    pub text: Seq<char>,
    pub bold: bool,
    pub italic: bool,
    pub strikethrough: bool,
    pub code: bool,
}

/// A block, with its texts as chars.
pub enum ElementModel {
    Heading { level: u8, spans: Seq<SpanModel> },
    Paragraph { spans: Seq<SpanModel> },
    CodeBlock { code: Seq<char>, language: Option<Seq<char>> },
    UnorderedList { items: Seq<Seq<SpanModel>> },
    OrderedList { start: u64, items: Seq<Seq<SpanModel>> },
    Image { url: Seq<char>, alt: Seq<char> },
    Link { url: Seq<char>, title: Option<Seq<char>>, text: Seq<SpanModel> },
    Blockquote { spans: Seq<SpanModel> },
    Table { headers: Seq<Seq<SpanModel>>, rows: Seq<Seq<Seq<SpanModel>>> },
    HorizontalRule,
}

impl View for TextSpan {
    type V = SpanModel;

    open spec fn view(&self) -> SpanModel {
        SpanModel {
            text: self.text@,
            bold: self.bold,
            italic: self.italic,
            strikethrough: self.strikethrough,
            code: self.code,
        }
    }
}

/// The runs of a list of spans.
pub open spec fn spans_model(v: Seq<TextSpan>) -> Seq<SpanModel> {
    v.map_values(|s: TextSpan| s@)
}

/// The runs of each of a list of span lists.
pub open spec fn lists_model(v: Seq<Vec<TextSpan>>) -> Seq<Seq<SpanModel>> {
    v.map_values(|l: Vec<TextSpan>| spans_model(l@))
}

/// The cells of each of a list of table rows.
pub open spec fn rows_model(v: Seq<Vec<Vec<TextSpan>>>) -> Seq<Seq<Seq<SpanModel>>> {
    v.map_values(|r: Vec<Vec<TextSpan>>| lists_model(r@))
}

/// The chars of an optional string.
pub open spec fn opt_text(o: Option<String>) -> Option<Seq<char>> {
    match o {
        Some(s) => Some(s@),
        None => None,
    }
}

/// A block, by its chars.
pub open spec fn element_model(e: MarkdownElement) -> ElementModel {
    match e {
        MarkdownElement::Heading { level, spans } => ElementModel::Heading { level, spans: spans_model(spans@) },
        MarkdownElement::Paragraph { spans } => ElementModel::Paragraph { spans: spans_model(spans@) },
        MarkdownElement::CodeBlock { code, language } => ElementModel::CodeBlock {
            code: code@,
            language: opt_text(language),
        },
        MarkdownElement::UnorderedList { items } => ElementModel::UnorderedList { items: lists_model(items@) },
        MarkdownElement::OrderedList { start, items } => ElementModel::OrderedList {
            start,
            items: lists_model(items@),
        },
        MarkdownElement::Image { url, alt } => ElementModel::Image { url: url@, alt: alt@ },
        MarkdownElement::Link { url, title, text } => ElementModel::Link {
            url: url@,
            title: opt_text(title),
            text: spans_model(text@),
        },
        MarkdownElement::Blockquote { spans } => ElementModel::Blockquote { spans: spans_model(spans@) },
        MarkdownElement::Table { headers, rows } => ElementModel::Table {
            headers: lists_model(headers@),
            rows: rows_model(rows@),
        },
        MarkdownElement::HorizontalRule => ElementModel::HorizontalRule,
    }
}

/// The blocks of a list, by their chars.
pub open spec fn elements_model(v: Seq<MarkdownElement>) -> Seq<ElementModel> {
    v.map_values(|e: MarkdownElement| element_model(e))
}

/// What the structure builder reads of a markdown event.
pub enum MdEvent {
    StartHeading(u8),
    StartParagraph,
    StartCodeBlock(Option<Seq<char>>),
    StartList(Option<u64>),
    StartItem,
    StartStrong,
    StartEmphasis,
    StartStrikethrough,
    StartBlockQuote,
    StartImage { url: Seq<char>, title: Seq<char> },
    StartLink { url: Seq<char>, title: Seq<char> },
    StartTable,
    StartTableRow,
    StartTableCell,
    StartOther,
    EndHeading,
    EndParagraph,
    EndCodeBlock,
    EndList,
    EndItem,
    EndStrong,
    EndEmphasis,
    EndStrikethrough,
    EndBlockQuote,
    EndTable,
    EndTableHead,
    EndTableRow,
    EndTableCell,
    EndLink,
    EndOther,
    Text(Seq<char>),
    Code(Seq<char>),
    Break,
    Rule,
    Other,
}

/// The chars a pulldown-cmark string holds.
pub uninterp spec fn cow_text(s: CowStr) -> Seq<char>;

/// The number of a heading level.
pub open spec fn heading_number(l: HeadingLevel) -> u8 {
    match l {
        HeadingLevel::H1 => 1,
        HeadingLevel::H2 => 2,
        HeadingLevel::H3 => 3,
        HeadingLevel::H4 => 4,
        HeadingLevel::H5 => 5,
        HeadingLevel::H6 => 6,
    }
}

/// What the builder reads of the start of a tag.
pub open spec fn start_event(tag: Tag) -> MdEvent {
    match tag {
        Tag::Heading { level, .. } => MdEvent::StartHeading(heading_number(level)),
        Tag::Paragraph => MdEvent::StartParagraph,
        Tag::CodeBlock(kind) => MdEvent::StartCodeBlock(
            match kind {
                CodeBlockKind::Fenced(lang) => Some(cow_text(lang)),
                CodeBlockKind::Indented => None,
            },
        ),
        Tag::List(start) => MdEvent::StartList(start),
        Tag::Item => MdEvent::StartItem,
        Tag::Strong => MdEvent::StartStrong,
        Tag::Emphasis => MdEvent::StartEmphasis,
        Tag::Strikethrough => MdEvent::StartStrikethrough,
        Tag::BlockQuote(_) => MdEvent::StartBlockQuote,
        Tag::Image { dest_url, title, .. } => MdEvent::StartImage { url: cow_text(dest_url), title: cow_text(title) },
        Tag::Link { dest_url, title, .. } => MdEvent::StartLink { url: cow_text(dest_url), title: cow_text(title) },
        Tag::Table(_) => MdEvent::StartTable,
        Tag::TableRow => MdEvent::StartTableRow,
        Tag::TableCell => MdEvent::StartTableCell,
        _ => MdEvent::StartOther,
    }
}

/// What the builder reads of the end of a tag.
pub open spec fn end_event(tag: TagEnd) -> MdEvent {
    match tag {
        TagEnd::Heading(_) => MdEvent::EndHeading,
        TagEnd::Paragraph => MdEvent::EndParagraph,
        TagEnd::CodeBlock => MdEvent::EndCodeBlock,
        TagEnd::List(_) => MdEvent::EndList,
        TagEnd::Item => MdEvent::EndItem,
        TagEnd::Strong => MdEvent::EndStrong,
        TagEnd::Emphasis => MdEvent::EndEmphasis,
        TagEnd::Strikethrough => MdEvent::EndStrikethrough,
        TagEnd::BlockQuote(_) => MdEvent::EndBlockQuote,
        TagEnd::Table => MdEvent::EndTable,
        TagEnd::TableHead => MdEvent::EndTableHead,
        TagEnd::TableRow => MdEvent::EndTableRow,
        TagEnd::TableCell => MdEvent::EndTableCell,
        TagEnd::Link => MdEvent::EndLink,
        _ => MdEvent::EndOther,
    }
}

/// What the builder reads of an event.
pub open spec fn md_event(e: Event) -> MdEvent {
    match e {
        Event::Start(tag) => start_event(tag),
        Event::End(tag) => end_event(tag),
        Event::Text(t) => MdEvent::Text(cow_text(t)),
        Event::Code(c) => MdEvent::Code(cow_text(c)),
        Event::SoftBreak => MdEvent::Break,
        Event::HardBreak => MdEvent::Break,
        Event::Rule => MdEvent::Rule,
        _ => MdEvent::Other,
    }
}

/// The events pulldown-cmark reads in a markdown text (with tables and strikethrough on), as
/// the builder sees them.
pub uninterp spec fn markdown_events(content: Seq<char>) -> Seq<MdEvent>;

/// The number of blanks a text starts with.
pub open spec fn leading_blanks(s: Seq<char>) -> nat
    decreases s.len(),
{
    if s.len() > 0 && is_unicode_white_space(s[0]) {
        1 + leading_blanks(s.drop_first())
    } else {
        0
    }
}

/// The number of blanks a text ends with.
pub open spec fn trailing_blanks(s: Seq<char>) -> nat
    decreases s.len(),
{
    if s.len() > 0 && is_unicode_white_space(s.last()) {
        1 + trailing_blanks(s.drop_last())
    } else {
        0
    }
}

/// A text without its leading and trailing blanks.
pub open spec fn trimmed(s: Seq<char>) -> Seq<char> {
    let t = s.subrange(leading_blanks(s) as int, s.len() as int);
    t.subrange(0, t.len() - trailing_blanks(t))
}

/// The state of the structure builder between events.
pub struct MdState {
    pub elements: Seq<ElementModel>,
    pub current_spans: Seq<SpanModel>,
    pub list_items: Seq<Seq<SpanModel>>,
    pub current_list_item: Seq<SpanModel>,
    pub in_heading: Option<u8>,
    pub in_paragraph: bool,
    pub in_code_block: bool,
    pub code_block_content: Seq<char>,
    pub code_block_language: Option<Seq<char>>,
    pub ordered_list_start: Option<u64>,
    pub in_list_item: bool,
    pub in_blockquote: bool,
    pub blockquote_spans: Seq<SpanModel>,
    pub in_table_cell: bool,
    pub table_headers: Seq<Seq<SpanModel>>,
    pub table_rows: Seq<Seq<Seq<SpanModel>>>,
    pub current_table_row: Seq<Seq<SpanModel>>,
    pub current_cell_spans: Seq<SpanModel>,
    pub in_link: bool,
    pub link_url: Option<Seq<char>>,
    pub link_title: Option<Seq<char>>,
    pub link_spans: Seq<SpanModel>,
    pub bold: bool,
    pub italic: bool,
    pub strikethrough: bool,
}

/// The builder before the first event.
pub open spec fn md_initial() -> MdState {
    MdState {
        elements: Seq::empty(),
        current_spans: Seq::empty(),
        list_items: Seq::empty(),
        current_list_item: Seq::empty(),
        in_heading: None,
        in_paragraph: false,
        in_code_block: false,
        code_block_content: Seq::empty(),
        code_block_language: None,
        ordered_list_start: None,
        in_list_item: false,
        in_blockquote: false,
        blockquote_spans: Seq::empty(),
        in_table_cell: false,
        table_headers: Seq::empty(),
        table_rows: Seq::empty(),
        current_table_row: Seq::empty(),
        current_cell_spans: Seq::empty(),
        in_link: false,
        link_url: None,
        link_title: None,
        link_spans: Seq::empty(),
        bold: false,
        italic: false,
        strikethrough: false,
    }
}

/// A run of `text` in the current style.
pub open spec fn styled(st: MdState, text: Seq<char>, code: bool) -> SpanModel {
    SpanModel { text, bold: st.bold, italic: st.italic, strikethrough: st.strikethrough, code }
}

/// The run a line break becomes: one plain blank.
pub open spec fn break_span() -> SpanModel {
    SpanModel { text: seq![' '], bold: false, italic: false, strikethrough: false, code: false }
}

/// Where the builder puts a run that is not in a table cell: the quote outside its
/// paragraphs, the list item outside its paragraphs, the link, or the current block.
pub open spec fn add_run(st: MdState, sp: SpanModel, paragraph_matters: bool) -> MdState {
    if st.in_blockquote && !(paragraph_matters && st.in_paragraph) {
        MdState { blockquote_spans: st.blockquote_spans.push(sp), ..st }
    } else if st.in_list_item && !(paragraph_matters && st.in_paragraph) {
        MdState { current_list_item: st.current_list_item.push(sp), ..st }
    } else if st.in_link {
        MdState { link_spans: st.link_spans.push(sp), ..st }
    } else {
        MdState { current_spans: st.current_spans.push(sp), ..st }
    }
}

/// The builder after one more event.
pub open spec fn md_step(st: MdState, ev: MdEvent) -> MdState {
    match ev {
        MdEvent::StartHeading(level) => MdState { in_heading: Some(level), current_spans: Seq::empty(), ..st },
        MdEvent::StartParagraph => if st.in_blockquote || st.in_list_item {
            st
        } else {
            MdState { in_paragraph: true, current_spans: Seq::empty(), ..st }
        },
        MdEvent::StartCodeBlock(lang) => MdState {
            in_code_block: true,
            code_block_content: Seq::empty(),
            code_block_language: match lang {
                Some(l) => if l.len() == 0 {
                    None
                } else {
                    Some(l)
                },
                None => None,
            },
            ..st
        },
        MdEvent::StartList(start) => MdState { ordered_list_start: start, list_items: Seq::empty(), ..st },
        MdEvent::StartItem => MdState { in_list_item: true, current_list_item: Seq::empty(), ..st },
        MdEvent::StartStrong => MdState { bold: true, ..st },
        MdEvent::StartEmphasis => MdState { italic: true, ..st },
        MdEvent::StartStrikethrough => MdState { strikethrough: true, ..st },
        MdEvent::StartBlockQuote => MdState { in_blockquote: true, blockquote_spans: Seq::empty(), ..st },
        MdEvent::StartImage { url, title } => MdState {
            elements: st.elements.push(ElementModel::Image { url, alt: title }),
            ..st
        },
        MdEvent::StartLink { url, title } => MdState {
            in_link: true,
            link_url: Some(url),
            link_title: Some(title),
            link_spans: Seq::empty(),
            ..st
        },
        MdEvent::StartTable => MdState {
            table_headers: Seq::empty(),
            table_rows: Seq::empty(),
            current_table_row: Seq::empty(),
            ..st
        },
        MdEvent::StartTableRow => MdState { current_table_row: Seq::empty(), ..st },
        MdEvent::StartTableCell => MdState { in_table_cell: true, current_cell_spans: Seq::empty(), ..st },
        MdEvent::StartOther => st,
        MdEvent::EndHeading => match st.in_heading {
            Some(level) => MdState {
                in_heading: None,
                elements: st.elements.push(ElementModel::Heading { level, spans: st.current_spans }),
                ..st
            },
            None => st,
        },
        MdEvent::EndParagraph => if st.in_blockquote {
            MdState {
                blockquote_spans: st.blockquote_spans + st.current_spans,
                current_spans: Seq::empty(),
                ..st
            }
        } else if st.in_list_item {
            MdState {
                current_list_item: st.current_list_item + st.current_spans,
                current_spans: Seq::empty(),
                ..st
            }
        } else if st.in_paragraph {
            MdState {
                in_paragraph: false,
                elements: st.elements.push(ElementModel::Paragraph { spans: st.current_spans }),
                ..st
            }
        } else {
            st
        },
        MdEvent::EndCodeBlock => MdState {
            in_code_block: false,
            elements: st.elements.push(
                ElementModel::CodeBlock { code: st.code_block_content, language: st.code_block_language },
            ),
            code_block_language: None,
            ..st
        },
        MdEvent::EndList => match st.ordered_list_start {
            Some(start) => MdState {
                ordered_list_start: None,
                elements: st.elements.push(ElementModel::OrderedList { start, items: st.list_items }),
                ..st
            },
            None => MdState {
                elements: st.elements.push(ElementModel::UnorderedList { items: st.list_items }),
                ..st
            },
        },
        MdEvent::EndItem => MdState {
            in_list_item: false,
            list_items: st.list_items.push(st.current_list_item),
            ..st
        },
        MdEvent::EndStrong => MdState { bold: false, ..st },
        MdEvent::EndEmphasis => MdState { italic: false, ..st },
        MdEvent::EndStrikethrough => MdState { strikethrough: false, ..st },
        MdEvent::EndBlockQuote => MdState {
            in_blockquote: false,
            elements: st.elements.push(ElementModel::Blockquote { spans: st.blockquote_spans }),
            ..st
        },
        MdEvent::EndTable => MdState {
            elements: st.elements.push(ElementModel::Table { headers: st.table_headers, rows: st.table_rows }),
            ..st
        },
        MdEvent::EndTableHead => MdState {
            table_headers: st.current_table_row,
            current_table_row: Seq::empty(),
            ..st
        },
        MdEvent::EndTableRow => MdState {
            table_rows: st.table_rows.push(st.current_table_row),
            current_table_row: Seq::empty(),
            ..st
        },
        MdEvent::EndTableCell => MdState {
            in_table_cell: false,
            current_table_row: st.current_table_row.push(st.current_cell_spans),
            ..st
        },
        MdEvent::EndLink => match st.link_url {
            Some(url) => MdState {
                in_link: false,
                link_url: None,
                link_title: None,
                elements: st.elements.push(ElementModel::Link { url, title: st.link_title, text: st.link_spans }),
                ..st
            },
            None => MdState { in_link: false, ..st },
        },
        MdEvent::EndOther => st,
        MdEvent::Text(t) => if st.in_code_block {
            MdState { code_block_content: st.code_block_content + trimmed(t), ..st }
        } else if st.in_table_cell {
            MdState { current_cell_spans: st.current_cell_spans.push(styled(st, t, false)), ..st }
        } else {
            add_run(st, styled(st, t, false), true)
        },
        MdEvent::Code(c) => if st.in_table_cell {
            MdState { current_cell_spans: st.current_cell_spans.push(styled(st, c, true)), ..st }
        } else {
            add_run(st, styled(st, c, true), false)
        },
        MdEvent::Break => add_run(st, break_span(), false),
        MdEvent::Rule => MdState { elements: st.elements.push(ElementModel::HorizontalRule), ..st },
        MdEvent::Other => st,
    }
}

/// The builder after a sequence of events.
pub open spec fn md_run(evs: Seq<MdEvent>) -> MdState
    decreases evs.len(),
{
    if evs.len() == 0 {
        md_initial()
    } else {
        md_step(md_run(evs.drop_last()), evs.last())
    }
}

/// The blocks a sequence of events builds.
pub open spec fn markdown_blocks(evs: Seq<MdEvent>) -> Seq<ElementModel> {
    md_run(evs).elements
}

/// `CowStr` as a `String` (through `Deref<Target = str>`).
#[verifier::external_body]
fn cow_to_string(s: &CowStr) -> (r: String)
    ensures
        r@ == cow_text(*s),
{
    s.to_string()
}

/// `str::trim`: the text without leading and trailing Unicode white space.
#[verifier::external_body]
fn trim(s: &str) -> (r: &str)
    ensures
        r@ == trimmed(s@),
{
    s.trim()
}

/// `String::push_str`: appends `t`.
#[verifier::external_body]
fn push_str(s: &mut String, t: &str)
    ensures
        final(s)@ == old(s)@ + t@,
{
    s.push_str(t)
}

/// `Parser::new_ext` with tables and strikethrough: the events of a markdown text.
#[verifier::external_body]
fn parse_events(content: &str) -> (r: Vec<Event<'_>>)
    ensures
        r@.map_values(|e: Event| md_event(e)) == markdown_events(content@),
{
    Parser::new_ext(content, Options::ENABLE_STRIKETHROUGH | Options::ENABLE_TABLES).collect()
}

/// A copy of a span.
fn copy_span(s: &TextSpan) -> (r: TextSpan)
    ensures
        r@ == s@,
{
    TextSpan {
        text: s.text.clone(),
        bold: s.bold,
        italic: s.italic,
        strikethrough: s.strikethrough,
        code: s.code,
    }
}

/// A copy of a list of spans.
fn copy_spans(v: &Vec<TextSpan>) -> (r: Vec<TextSpan>)
    ensures
        spans_model(r@) == spans_model(v@),
{
    let mut r: Vec<TextSpan> = Vec::new();
    let mut i: usize = 0;
    while i < v.len()
        invariant
            i <= v@.len(),
            r@.len() == i,
            forall|k: int| 0 <= k < i ==> #[trigger] r@[k]@ == v@[k]@,
        decreases v@.len() - i,
    {
        let s = copy_span(&v[i]);
        r.push(s);
        i = i + 1;
    }
    proof {
        assert(spans_model(r@) =~= spans_model(v@));
    }
    r
}

/// A copy of a list of span lists.
fn copy_lists(v: &Vec<Vec<TextSpan>>) -> (r: Vec<Vec<TextSpan>>)
    ensures
        lists_model(r@) == lists_model(v@),
{
    let mut r: Vec<Vec<TextSpan>> = Vec::new();
    let mut i: usize = 0;
    while i < v.len()
        invariant
            i <= v@.len(),
            r@.len() == i,
            forall|k: int| 0 <= k < i ==> #[trigger] spans_model(r@[k]@) == spans_model(v@[k]@),
        decreases v@.len() - i,
    {
        let s = copy_spans(&v[i]);
        r.push(s);
        i = i + 1;
    }
    proof {
        assert(lists_model(r@) =~= lists_model(v@));
    }
    r
}

/// A copy of a list of table rows.
fn copy_rows(v: &Vec<Vec<Vec<TextSpan>>>) -> (r: Vec<Vec<Vec<TextSpan>>>)
    ensures
        rows_model(r@) == rows_model(v@),
{
    let mut r: Vec<Vec<Vec<TextSpan>>> = Vec::new();
    let mut i: usize = 0;
    while i < v.len()
        invariant
            i <= v@.len(),
            r@.len() == i,
            forall|k: int| 0 <= k < i ==> #[trigger] lists_model(r@[k]@) == lists_model(v@[k]@),
        decreases v@.len() - i,
    {
        let s = copy_lists(&v[i]);
        r.push(s);
        i = i + 1;
    }
    proof {
        assert(rows_model(r@) =~= rows_model(v@));
    }
    r
}

/// Appends a span.
fn push_span(v: &mut Vec<TextSpan>, s: TextSpan)
    ensures
        spans_model(final(v)@) == spans_model(old(v)@).push(s@),
{
    v.push(s);
    proof {
        assert(spans_model(v@) =~= spans_model(old(v)@).push(s@));
    }
}

/// Moves the spans of `w` to the end of `v`.
fn append_spans(v: &mut Vec<TextSpan>, w: &mut Vec<TextSpan>)
    ensures
        spans_model(final(v)@) == spans_model(old(v)@) + spans_model(old(w)@),
        spans_model(final(w)@) == Seq::<SpanModel>::empty(),
{
    v.append(w);
    proof {
        assert(spans_model(v@) =~= spans_model(old(v)@) + spans_model(old(w)@));
        assert(spans_model(w@) =~= Seq::<SpanModel>::empty());
    }
}

/// Appends a span list.
fn push_list(v: &mut Vec<Vec<TextSpan>>, s: Vec<TextSpan>)
    ensures
        lists_model(final(v)@) == lists_model(old(v)@).push(spans_model(s@)),
{
    v.push(s);
    proof {
        assert(lists_model(v@) =~= lists_model(old(v)@).push(spans_model(s@)));
    }
}

/// Appends a table row.
fn push_row(v: &mut Vec<Vec<Vec<TextSpan>>>, s: Vec<Vec<TextSpan>>)
    ensures
        rows_model(final(v)@) == rows_model(old(v)@).push(lists_model(s@)),
{
    v.push(s);
    proof {
        assert(rows_model(v@) =~= rows_model(old(v)@).push(lists_model(s@)));
    }
}

/// Appends a block.
fn push_element(v: &mut Vec<MarkdownElement>, e: MarkdownElement)
    ensures
        elements_model(final(v)@) == elements_model(old(v)@).push(element_model(e)),
{
    v.push(e);
    proof {
        assert(elements_model(v@) =~= elements_model(old(v)@).push(element_model(e)));
    }
}

/// No spans.
fn no_spans() -> (r: Vec<TextSpan>)
    ensures
        spans_model(r@) == Seq::<SpanModel>::empty(),
{
    let r: Vec<TextSpan> = Vec::new();
    proof {
        assert(spans_model(r@) =~= Seq::<SpanModel>::empty());
    }
    r
}

/// No span lists.
fn no_lists() -> (r: Vec<Vec<TextSpan>>)
    ensures
        lists_model(r@) == Seq::<Seq<SpanModel>>::empty(),
{
    let r: Vec<Vec<TextSpan>> = Vec::new();
    proof {
        assert(lists_model(r@) =~= Seq::<Seq<SpanModel>>::empty());
    }
    r
}

/// No table rows.
fn no_rows() -> (r: Vec<Vec<Vec<TextSpan>>>)
    ensures
        rows_model(r@) == Seq::<Seq<Seq<SpanModel>>>::empty(),
{
    let r: Vec<Vec<Vec<TextSpan>>> = Vec::new();
    proof {
        assert(rows_model(r@) =~= Seq::<Seq<Seq<SpanModel>>>::empty());
    }
    r
}

/// The structure builder, between events.
struct MarkdownBuilder {
    elements: Vec<MarkdownElement>,
    current_spans: Vec<TextSpan>,
    list_items: Vec<Vec<TextSpan>>,
    current_list_item: Vec<TextSpan>,
    in_heading: Option<u8>,
    in_paragraph: bool,
    in_code_block: bool,
    code_block_content: String,
    code_block_language: Option<String>,
    ordered_list_start: Option<u64>,
    in_list_item: bool,
    in_blockquote: bool,
    blockquote_spans: Vec<TextSpan>,
    in_table_cell: bool,
    table_headers: Vec<Vec<TextSpan>>,
    table_rows: Vec<Vec<Vec<TextSpan>>>,
    current_table_row: Vec<Vec<TextSpan>>,
    current_cell_spans: Vec<TextSpan>,
    in_link: bool,
    link_url: Option<String>,
    link_title: Option<String>,
    link_spans: Vec<TextSpan>,
    bold: bool,
    italic: bool,
    strikethrough: bool,
}

impl View for MarkdownBuilder {
    type V = MdState;

    closed spec fn view(&self) -> MdState {
        MdState {
            elements: elements_model(self.elements@),
            current_spans: spans_model(self.current_spans@),
            list_items: lists_model(self.list_items@),
            current_list_item: spans_model(self.current_list_item@),
            in_heading: self.in_heading,
            in_paragraph: self.in_paragraph,
            in_code_block: self.in_code_block,
            code_block_content: self.code_block_content@,
            code_block_language: opt_text(self.code_block_language),
            ordered_list_start: self.ordered_list_start,
            in_list_item: self.in_list_item,
            in_blockquote: self.in_blockquote,
            blockquote_spans: spans_model(self.blockquote_spans@),
            in_table_cell: self.in_table_cell,
            table_headers: lists_model(self.table_headers@),
            table_rows: rows_model(self.table_rows@),
            current_table_row: lists_model(self.current_table_row@),
            current_cell_spans: spans_model(self.current_cell_spans@),
            in_link: self.in_link,
            link_url: opt_text(self.link_url),
            link_title: opt_text(self.link_title),
            link_spans: spans_model(self.link_spans@),
            bold: self.bold,
            italic: self.italic,
            strikethrough: self.strikethrough,
        }
    }
}

impl MarkdownBuilder {
    /// The builder before the first event.
    fn new() -> (r: Self)
        ensures
            r@ == md_initial(),
    {
        let r = MarkdownBuilder {
            elements: Vec::new(),
            current_spans: no_spans(),
            list_items: no_lists(),
            current_list_item: no_spans(),
            in_heading: None,
            in_paragraph: false,
            in_code_block: false,
            code_block_content: String::new(),
            code_block_language: None,
            ordered_list_start: None,
            in_list_item: false,
            in_blockquote: false,
            blockquote_spans: no_spans(),
            in_table_cell: false,
            table_headers: no_lists(),
            table_rows: no_rows(),
            current_table_row: no_lists(),
            current_cell_spans: no_spans(),
            in_link: false,
            link_url: None,
            link_title: None,
            link_spans: no_spans(),
            bold: false,
            italic: false,
            strikethrough: false,
        };
        proof {
            assert(elements_model(r.elements@) =~= Seq::<ElementModel>::empty());
            assert(r.code_block_content@ =~= Seq::<char>::empty());
        }
        r
    }

    /// A run of `text` in the current style.
    fn styled_span(&self, text: String, code: bool) -> (r: TextSpan)
        ensures
            r@ == styled(self@, text@, code),
    {
        TextSpan { text, bold: self.bold, italic: self.italic, strikethrough: self.strikethrough, code }
    }

    /// Puts a run that is not in a table cell where it belongs.
    fn add_run(&mut self, span: TextSpan, paragraph_matters: bool)
        ensures
            final(self)@ == add_run(old(self)@, span@, paragraph_matters),
    {
        if self.in_blockquote && !(paragraph_matters && self.in_paragraph) {
            push_span(&mut self.blockquote_spans, span);
        } else if self.in_list_item && !(paragraph_matters && self.in_paragraph) {
            push_span(&mut self.current_list_item, span);
        } else if self.in_link {
            push_span(&mut self.link_spans, span);
        } else {
            push_span(&mut self.current_spans, span);
        }
    }

    /// The start of a tag.
    #[verifier::rlimit(60)]
    fn start(&mut self, tag: &Tag)
        ensures
            final(self)@ == md_step(old(self)@, start_event(*tag)),
    {
        match tag {
            Tag::Heading { level, .. } => {
                let n: u8 = match level {
                    HeadingLevel::H1 => 1,
                    HeadingLevel::H2 => 2,
                    HeadingLevel::H3 => 3,
                    HeadingLevel::H4 => 4,
                    HeadingLevel::H5 => 5,
                    HeadingLevel::H6 => 6,
                };
                self.in_heading = Some(n);
                self.current_spans = no_spans();
            },
            Tag::Paragraph => {
                if self.in_blockquote {
                } else if self.in_list_item {
                } else {
                    self.in_paragraph = true;
                    self.current_spans = no_spans();
                }
            },
            Tag::CodeBlock(kind) => {
                self.in_code_block = true;
                self.code_block_content = String::new();
                self.code_block_language = match kind {
                    CodeBlockKind::Fenced(lang) => {
                        let lang_str = cow_to_string(lang);
                        if lang_str.as_str().is_empty() {
                            None
                        } else {
                            Some(lang_str)
                        }
                    },
                    CodeBlockKind::Indented => None,
                };
                proof {
                    assert(self.code_block_content@ =~= Seq::<char>::empty());
                }
            },
            Tag::List(start) => {
                self.ordered_list_start = *start;
                self.list_items = no_lists();
            },
            Tag::Item => {
                self.in_list_item = true;
                self.current_list_item = no_spans();
            },
            Tag::Strong => self.bold = true,
            Tag::Emphasis => self.italic = true,
            Tag::Strikethrough => self.strikethrough = true,
            Tag::BlockQuote(_) => {
                self.in_blockquote = true;
                self.blockquote_spans = no_spans();
            },
            Tag::Image { dest_url, title, .. } => {
                let url = cow_to_string(dest_url);
                let alt = cow_to_string(title);
                push_element(&mut self.elements, MarkdownElement::Image { url, alt });
            },
            Tag::Link { dest_url, title, .. } => {
                self.in_link = true;
                self.link_url = Some(cow_to_string(dest_url));
                self.link_title = Some(cow_to_string(title));
                self.link_spans = no_spans();
            },
            Tag::Table(_) => {
                self.table_headers = no_lists();
                self.table_rows = no_rows();
                self.current_table_row = no_lists();
            },
            Tag::TableHead => {},
            Tag::TableRow => {
                self.current_table_row = no_lists();
            },
            Tag::TableCell => {
                self.in_table_cell = true;
                self.current_cell_spans = no_spans();
            },
            _ => {},
        }
    }

    /// The end of a tag.
    #[verifier::rlimit(60)]
    fn end(&mut self, tag: &TagEnd)
        ensures
            final(self)@ == md_step(old(self)@, end_event(*tag)),
    {
        match tag {
            TagEnd::Heading(_) => {
                if let Some(level) = self.in_heading {
                    self.in_heading = None;
                    let spans = copy_spans(&self.current_spans);
                    push_element(&mut self.elements, MarkdownElement::Heading { level, spans });
                }
            },
            TagEnd::Paragraph => {
                if self.in_blockquote {
                    append_spans(&mut self.blockquote_spans, &mut self.current_spans);
                } else if self.in_list_item {
                    append_spans(&mut self.current_list_item, &mut self.current_spans);
                } else if self.in_paragraph {
                    self.in_paragraph = false;
                    let spans = copy_spans(&self.current_spans);
                    push_element(&mut self.elements, MarkdownElement::Paragraph { spans });
                }
            },
            TagEnd::CodeBlock => {
                self.in_code_block = false;
                let code = self.code_block_content.clone();
                let language = self.code_block_language.take();
                push_element(&mut self.elements, MarkdownElement::CodeBlock { code, language });
            },
            TagEnd::List(_) => {
                if let Some(start) = self.ordered_list_start.take() {
                    let items = copy_lists(&self.list_items);
                    push_element(&mut self.elements, MarkdownElement::OrderedList { start, items });
                } else {
                    let items = copy_lists(&self.list_items);
                    push_element(&mut self.elements, MarkdownElement::UnorderedList { items });
                }
            },
            TagEnd::Item => {
                self.in_list_item = false;
                let item = copy_spans(&self.current_list_item);
                push_list(&mut self.list_items, item);
            },
            TagEnd::Strong => self.bold = false,
            TagEnd::Emphasis => self.italic = false,
            TagEnd::Strikethrough => self.strikethrough = false,
            TagEnd::BlockQuote(_) => {
                self.in_blockquote = false;
                let spans = copy_spans(&self.blockquote_spans);
                push_element(&mut self.elements, MarkdownElement::Blockquote { spans });
            },
            TagEnd::Table => {
                let headers = copy_lists(&self.table_headers);
                let rows = copy_rows(&self.table_rows);
                push_element(&mut self.elements, MarkdownElement::Table { headers, rows });
            },
            TagEnd::TableHead => {
                self.table_headers = copy_lists(&self.current_table_row);
                self.current_table_row = no_lists();
            },
            TagEnd::TableRow => {
                let row = copy_lists(&self.current_table_row);
                push_row(&mut self.table_rows, row);
                self.current_table_row = no_lists();
            },
            TagEnd::TableCell => {
                self.in_table_cell = false;
                let cell = copy_spans(&self.current_cell_spans);
                push_list(&mut self.current_table_row, cell);
            },
            TagEnd::Link => {
                self.in_link = false;
                if let Some(url) = self.link_url.take() {
                    let title = self.link_title.take();
                    let text = copy_spans(&self.link_spans);
                    push_element(&mut self.elements, MarkdownElement::Link { url, title, text });
                }
            },
            _ => {},
        }
    }

    /// One more event.
    fn step(&mut self, event: &Event)
        ensures
            final(self)@ == md_step(old(self)@, md_event(*event)),
    {
        match event {
            Event::Start(tag) => self.start(tag),
            Event::End(tag) => self.end(tag),
            Event::Text(text) => {
                if self.in_code_block {
                    let t = cow_to_string(text);
                    push_str(&mut self.code_block_content, trim(t.as_str()));
                } else if self.in_table_cell {
                    let span = self.styled_span(cow_to_string(text), false);
                    push_span(&mut self.current_cell_spans, span);
                } else {
                    let span = self.styled_span(cow_to_string(text), false);
                    self.add_run(span, true);
                }
            },
            Event::Code(code) => {
                let span = self.styled_span(cow_to_string(code), true);
                if self.in_table_cell {
                    push_span(&mut self.current_cell_spans, span);
                } else {
                    self.add_run(span, false);
                }
            },
            Event::SoftBreak | Event::HardBreak => {
                let span = TextSpan {
                    text: " ".to_owned(),
                    bold: false,
                    italic: false,
                    strikethrough: false,
                    code: false,
                };
                proof {
                    reveal_strlit(" ");
                    assert(span.text@ =~= seq![' ']);
                }
                self.add_run(span, false);
            },
            Event::Rule => {
                push_element(&mut self.elements, MarkdownElement::HorizontalRule);
            },
            _ => {},
        }
    }
}

/// The blocks a sequence of pulldown-cmark events builds.
pub fn markdown_elements(events: &[Event]) -> (r: Vec<MarkdownElement>)
    ensures
        elements_model(r@) == markdown_blocks(events@.map_values(|e: Event| md_event(e))),
{
    let ghost evs = events@.map_values(|e: Event| md_event(e));
    let mut builder = MarkdownBuilder::new();
    let mut i: usize = 0;
    while i < events.len()
        invariant
            i <= events@.len(),
            evs == events@.map_values(|e: Event| md_event(e)),
            builder@ == md_run(evs.subrange(0, i as int)),
        decreases events@.len() - i,
    {
        builder.step(&events[i]);
        proof {
            assert(evs.subrange(0, i + 1).drop_last() =~= evs.subrange(0, i as int));
        }
        i = i + 1;
    }
    proof {
        assert(evs.subrange(0, i as int) =~= evs);
    }
    builder.elements
}

/// The blocks of a markdown text, as the viewer draws them.
pub fn parse_markdown(content: &str) -> (r: Vec<MarkdownElement>)
    ensures
        elements_model(r@) == markdown_blocks(markdown_events(content@)),
{
    let events = parse_events(content);
    markdown_elements(events.as_slice())
}

/// Inline styles open and close with their tags: an opening `~~`, `**` or `*` turns its style
/// on and the closing one turns just that style off, leaving the other styles and all that is
/// built so far. So a run of text in a plain paragraph after a closed `~~..~~` is not struck
/// through, and one inside it is.
pub proof fn law_inline_styles_end_with_their_tags(st: MdState, text: Seq<char>)
    ensures
        md_step(st, MdEvent::StartStrikethrough).strikethrough,
        md_step(st, MdEvent::StartStrong).bold,
        md_step(st, MdEvent::StartEmphasis).italic,
        !md_step(st, MdEvent::EndStrikethrough).strikethrough,
        !md_step(st, MdEvent::EndStrong).bold,
        !md_step(st, MdEvent::EndEmphasis).italic,
        md_step(st, MdEvent::EndStrikethrough) == (MdState { strikethrough: false, ..st }),
        md_step(st, MdEvent::EndStrong) == (MdState { bold: false, ..st }),
        md_step(st, MdEvent::EndEmphasis) == (MdState { italic: false, ..st }),
        !st.in_code_block && !st.in_table_cell && !st.in_blockquote && !st.in_list_item && !st.in_link
            ==> {
            &&& md_step(md_step(st, MdEvent::EndStrikethrough), MdEvent::Text(text)).current_spans
                == st.current_spans.push(
                (SpanModel { text, bold: st.bold, italic: st.italic, strikethrough: false, code: false }),
            )
            &&& md_step(md_step(st, MdEvent::StartStrikethrough), MdEvent::Text(text)).current_spans
                == st.current_spans.push(
                (SpanModel { text, bold: st.bold, italic: st.italic, strikethrough: true, code: false }),
            )
        },
{
}

} // verus!
