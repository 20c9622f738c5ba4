//! Editing the code editor's text: insertions and removals at UTF-16 positions, the
//! incremental-parse edit each one reports, and the undo record it leaves.

use vstd::prelude::*;

use ropey::Rope;

use crate::rope::{
    breaks_upto, byte_offset, char_of_utf16, char_to_byte, char_to_line, char_to_utf16_cu,
    get_line, get_slice, insert_char, insert_str, is_char_of_utf16, lemma_breaks_monotone,
    lemma_char_of_utf16_monotone, lemma_char_of_utf16_unique, lemma_len_le_utf8_len,
    lemma_line_start_before, lemma_offsets_monotone, lemma_utf16_len_concat, lemma_utf8_len_concat,
    len_bytes, len_chars, len_lines, len_utf16_cu, line_count, line_start, line_to_byte, line_to_char,
    remove_range, rope_to_string, rope_text, slice_to_string, utf16_count, utf16_cu_to_char, utf16_len,
    utf16_offset, utf16_width, utf8_len,
};

verus! {

/// The selection of an editor: a caret, or a range between two UTF-16 positions.
#[derive(Clone, Copy, Debug, PartialEq, Eq, Structural)]
pub enum TextSelection {
    Cursor(usize),
    Range { from: usize, to: usize },
}

/// A (line, byte column) position in the text.
#[derive(Clone, Copy, Debug, PartialEq, Eq, Structural)]
pub struct TextPoint {
    pub row: usize,
    pub column: usize,
}

/// A text edit as an incremental parser wants it: byte offsets and (line, byte column)
/// positions of where it starts, where the replaced text ended, and where the new text ends.
#[derive(Clone, Copy, Debug, PartialEq, Eq, Structural)]
pub struct TextEdit {
    pub start_byte: usize,
    pub old_end_byte: usize,
    pub new_end_byte: usize,
    pub start_position: TextPoint,
    pub old_end_position: TextPoint,
    pub new_end_position: TextPoint,
}

/// What an edit did, for the undo history.
#[derive(Clone, Debug)]
pub enum HistoryChange {
    InsertChar { idx: usize, ch: char, len: usize, selection: TextSelection },
    InsertText { idx: usize, text: String, len: usize, selection: TextSelection },
    Remove { idx: usize, text: String, len: usize, selection: TextSelection },
}

/// A line of the text, with its UTF-16 length.
#[derive(Clone, Debug)]
pub struct Line {
    pub text: String,
    pub utf16_len: usize,
}

/// The (line, byte column) position of char index `i`.
pub open spec fn text_position(s: Seq<char>, i: int) -> TextPoint {
    let line = breaks_upto(s, i) as int;
    TextPoint {
        row: line as usize,
        column: (byte_offset(s, i) - byte_offset(s, line_start(s, line))) as usize,
    }
}

/// The text of an editor, with its selection and the edit the parser has not seen yet.
pub struct EditorBuffer {
    pub rope: Rope,
    pub selection: TextSelection,
    pub pending_edit: Option<TextEdit>,
}

/// The position of char index `i` of the rope, computed with the rope's own conversions.
fn position_in(rope: &Rope, i: usize) -> (r: TextPoint)
    requires
        i <= rope_text(*rope).len(),
    ensures
        r == text_position(rope_text(*rope), i as int),
{
    let byte = char_to_byte(rope, i);
    let line = char_to_line(rope, i);
    proof {
        let s = rope_text(*rope);
        lemma_breaks_monotone(s, i as int, s.len() as int);
        lemma_line_start_before(s, i as int);
        lemma_offsets_monotone(s, line_start(s, line as int), i as int);
    }
    let line_byte = line_to_byte(rope, line);
    TextPoint { row: line, column: byte - line_byte }
}

impl EditorBuffer {
    /// A buffer for `rope` with the caret at the start.
    pub fn new(rope: Rope) -> (r: Self)
        ensures
            rope_text(r.rope) == rope_text(rope),
            r.selection == TextSelection::Cursor(0),
            r.pending_edit is None,
    {
        EditorBuffer { rope, selection: TextSelection::Cursor(0), pending_edit: None }
    }

    /// Inserts `ch` at UTF-16 position `idx`; returns how many UTF-16 code units were added and
    /// the undo record.
    pub fn insert_char(&mut self, ch: char, idx: usize) -> (r: (usize, HistoryChange))
        requires
            idx <= utf16_len(rope_text(old(self).rope)),
            utf8_len(rope_text(old(self).rope)) + 4 <= usize::MAX,
            utf16_len(rope_text(old(self).rope)) + 2 <= usize::MAX,
        ensures
            ({
                let s = rope_text(old(self).rope);
                let c = char_of_utf16(s, idx as int);
                let s2 = rope_text(final(self).rope);
                &&& is_char_of_utf16(s, idx as int, c)
                &&& s2 == s.insert(c, ch)
                &&& r.0 == utf16_width(ch)
                &&& final(self).selection == old(self).selection
                &&& final(self).pending_edit == Some(
                    TextEdit {
                        start_byte: byte_offset(s, c) as usize,
                        old_end_byte: byte_offset(s, c) as usize,
                        new_end_byte: byte_offset(s2, c + 1) as usize,
                        start_position: text_position(s, c),
                        old_end_position: text_position(s, c),
                        new_end_position: text_position(s2, c + 1),
                    },
                )
                &&& r.1 matches HistoryChange::InsertChar { idx: hi, ch: hc, len, selection }
                    && hi == idx && hc == ch && len == r.0 && selection == old(self).selection
            }),
    {
        let ghost s = rope_text(self.rope);
        proof {
            lemma_len_le_utf8_len(s);
        }
        let idx_char = utf16_cu_to_char(&self.rope, idx);
        let selection = self.selection;
        let start_byte = char_to_byte(&self.rope, idx_char);
        let start_position = position_in(&self.rope, idx_char);
        let len_before = len_utf16_cu(&self.rope);
        insert_char(&mut self.rope, idx_char, ch);
        let ghost s2 = rope_text(self.rope);
        proof {
            assert(s2 =~= s.subrange(0, idx_char as int) + seq![ch] + s.subrange(
                idx_char as int,
                s.len() as int,
            ));
            assert(s =~= s.subrange(0, idx_char as int) + s.subrange(idx_char as int, s.len() as int));
            lemma_utf16_len_concat(s.subrange(0, idx_char as int) + seq![ch], s.subrange(idx_char as int, s.len() as int));
            lemma_utf16_len_concat(s.subrange(0, idx_char as int), seq![ch]);
            lemma_utf16_len_concat(s.subrange(0, idx_char as int), s.subrange(idx_char as int, s.len() as int));
            assert(seq![ch].drop_last() =~= Seq::<char>::empty());
            assert(seq![ch].last() == ch);
            assert(utf16_len(Seq::<char>::empty()) == 0);
            assert(utf16_len(seq![ch]) == utf16_width(ch));
            lemma_utf8_len_concat(s.subrange(0, idx_char as int) + seq![ch], s.subrange(idx_char as int, s.len() as int));
            lemma_utf8_len_concat(s.subrange(0, idx_char as int), seq![ch]);
            lemma_utf8_len_concat(s.subrange(0, idx_char as int), s.subrange(idx_char as int, s.len() as int));
        }
        let len_after = len_utf16_cu(&self.rope);
        let inserted = len_after - len_before;
        let new_end_char = idx_char + 1;
        let new_end_byte = char_to_byte(&self.rope, new_end_char);
        let new_end_position = position_in(&self.rope, new_end_char);
        self.pending_edit = Some(
            TextEdit {
                start_byte,
                old_end_byte: start_byte,
                new_end_byte,
                start_position,
                old_end_position: start_position,
                new_end_position,
            },
        );
        (inserted, HistoryChange::InsertChar { idx, ch, len: inserted, selection })
    }

    /// Inserts `text` at UTF-16 position `idx`; returns how many UTF-16 code units were added
    /// and the undo record.
    pub fn insert(&mut self, text: &str, idx: usize) -> (r: (usize, HistoryChange))
        requires
            idx <= utf16_len(rope_text(old(self).rope)),
            utf8_len(rope_text(old(self).rope)) + utf8_len(text@) <= usize::MAX,
            utf16_len(rope_text(old(self).rope)) + utf16_len(text@) <= usize::MAX,
        ensures
            ({
                let s = rope_text(old(self).rope);
                let c = char_of_utf16(s, idx as int);
                let s2 = rope_text(final(self).rope);
                let e = c + text@.len();
                &&& is_char_of_utf16(s, idx as int, c)
                &&& s2 == s.subrange(0, c) + text@ + s.subrange(c, s.len() as int)
                &&& r.0 == utf16_len(text@)
                &&& final(self).selection == old(self).selection
                &&& final(self).pending_edit == Some(
                    TextEdit {
                        start_byte: byte_offset(s, c) as usize,
                        old_end_byte: byte_offset(s, c) as usize,
                        new_end_byte: byte_offset(s2, e) as usize,
                        start_position: text_position(s, c),
                        old_end_position: text_position(s, c),
                        new_end_position: text_position(s2, e),
                    },
                )
                &&& r.1 matches HistoryChange::InsertText { idx: hi, text: ht, len, selection }
                    && hi == idx && ht@ == text@ && len == r.0 && selection == old(self).selection
            }),
    {
        let ghost s = rope_text(self.rope);
        proof {
            lemma_len_le_utf8_len(s);
            lemma_len_le_utf8_len(text@);
        }
        let idx_char = utf16_cu_to_char(&self.rope, idx);
        let selection = self.selection;
        let start_byte = char_to_byte(&self.rope, idx_char);
        let start_position = position_in(&self.rope, idx_char);
        let len_before = len_utf16_cu(&self.rope);
        insert_str(&mut self.rope, idx_char, text);
        let ghost s2 = rope_text(self.rope);
        proof {
            let pre = s.subrange(0, idx_char as int);
            let post = s.subrange(idx_char as int, s.len() as int);
            assert(s =~= pre + post);
            lemma_utf16_len_concat(pre + text@, post);
            lemma_utf16_len_concat(pre, text@);
            lemma_utf16_len_concat(pre, post);
            lemma_utf8_len_concat(pre + text@, post);
            lemma_utf8_len_concat(pre, text@);
            lemma_utf8_len_concat(pre, post);
        }
        let len_after = len_utf16_cu(&self.rope);
        let inserted = len_after - len_before;
        let inserted_chars = text.unicode_len();
        let new_end_char = idx_char + inserted_chars;
        let new_end_byte = char_to_byte(&self.rope, new_end_char);
        let new_end_position = position_in(&self.rope, new_end_char);
        self.pending_edit = Some(
            TextEdit {
                start_byte,
                old_end_byte: start_byte,
                new_end_byte,
                start_position,
                old_end_position: start_position,
                new_end_position,
            },
        );
        (inserted, HistoryChange::InsertText { idx, text: text.to_owned(), len: inserted, selection })
    }

    /// Removes the chars covering UTF-16 positions `range`; returns how many UTF-16 code units
    /// were removed and the undo record.
    pub fn remove(&mut self, range_utf16: core::ops::Range<usize>) -> (r: (usize, HistoryChange))
        requires
            range_utf16.start <= range_utf16.end <= utf16_len(rope_text(old(self).rope)),
        ensures
            ({
                let s = rope_text(old(self).rope);
                let a = char_of_utf16(s, range_utf16.start as int);
                let b = char_of_utf16(s, range_utf16.end as int);
                let s2 = rope_text(final(self).rope);
                &&& a <= b
                &&& s2 == s.subrange(0, a) + s.subrange(b, s.len() as int)
                &&& r.0 == utf16_len(s.subrange(a, b))
                &&& final(self).selection == old(self).selection
                &&& final(self).pending_edit == Some(
                    TextEdit {
                        start_byte: byte_offset(s, a) as usize,
                        old_end_byte: byte_offset(s, b) as usize,
                        new_end_byte: byte_offset(s, a) as usize,
                        start_position: text_position(s, a),
                        old_end_position: text_position(s, b),
                        new_end_position: text_position(s, a),
                    },
                )
                &&& r.1 matches HistoryChange::Remove { idx: hi, text: ht, len, selection }
                    && hi == range_utf16.end - r.0 && ht@ == s.subrange(a, b) && len == r.0
                    && selection == old(self).selection
            }),
    {
        let ghost s = rope_text(self.rope);
        let start = utf16_cu_to_char(&self.rope, range_utf16.start);
        let end = utf16_cu_to_char(&self.rope, range_utf16.end);
        proof {
            lemma_char_of_utf16_monotone(
                s,
                range_utf16.start as int,
                range_utf16.end as int,
                start as int,
                end as int,
            );
        }
        let text = slice_to_string(&self.rope, start, end);
        let selection = self.selection;
        let start_byte = char_to_byte(&self.rope, start);
        let old_end_byte = char_to_byte(&self.rope, end);
        let start_position = position_in(&self.rope, start);
        let old_end_position = position_in(&self.rope, end);
        let len_before = len_utf16_cu(&self.rope);
        remove_range(&mut self.rope, start, end);
        proof {
            let pre = s.subrange(0, start as int);
            let mid = s.subrange(start as int, end as int);
            let post = s.subrange(end as int, s.len() as int);
            assert(s =~= pre + mid + post);
            lemma_utf16_len_concat(pre + mid, post);
            lemma_utf16_len_concat(pre, mid);
            lemma_utf16_len_concat(pre, post);
            assert(s.subrange(0, end as int) =~= pre + mid);
            lemma_utf16_len_concat(pre, mid);
        }
        let len_after = len_utf16_cu(&self.rope);
        let removed = len_before - len_after;
        self.pending_edit = Some(
            TextEdit {
                start_byte,
                old_end_byte,
                new_end_byte: start_byte,
                start_position,
                old_end_position,
                new_end_position: start_position,
            },
        );
        (removed, HistoryChange::Remove { idx: range_utf16.end - removed, text, len: removed, selection })
    }

    /// The whole text.
    pub fn text(&self) -> (r: String)
        ensures
            r@ == rope_text(self.rope),
    {
        rope_to_string(&self.rope)
    }

    /// The line of char `char_idx`.
    pub fn char_to_line(&self, char_idx: usize) -> (r: usize)
        requires
            char_idx <= rope_text(self.rope).len(),
        ensures
            r == breaks_upto(rope_text(self.rope), char_idx as int),
    {
        char_to_line(&self.rope, char_idx)
    }

    /// The char where line `line_idx` starts.
    pub fn line_to_char(&self, line_idx: usize) -> (r: usize)
        requires
            line_idx <= line_count(rope_text(self.rope)),
        ensures
            r == line_start(rope_text(self.rope), line_idx as int),
    {
        line_to_char(&self.rope, line_idx)
    }

    /// The char holding UTF-16 code unit `utf16_cu_idx`.
    pub fn utf16_cu_to_char(&self, utf16_cu_idx: usize) -> (r: usize)
        requires
            utf16_cu_idx <= utf16_len(rope_text(self.rope)),
        ensures
            r == char_of_utf16(rope_text(self.rope), utf16_cu_idx as int),
    {
        utf16_cu_to_char(&self.rope, utf16_cu_idx)
    }

    /// The UTF-16 offset of char `idx`.
    pub fn char_to_utf16_cu(&self, idx: usize) -> (r: usize)
        requires
            idx <= rope_text(self.rope).len(),
        ensures
            r == utf16_offset(rope_text(self.rope), idx as int),
    {
        char_to_utf16_cu(&self.rope, idx)
    }

    /// Line `line_idx`, when there is one.
    pub fn line(&self, line_idx: usize) -> (r: Option<Line>)
        ensures
            r is Some <==> line_idx < line_count(rope_text(self.rope)),
            r matches Some(line) ==> {
                let s = rope_text(self.rope);
                &&& line.text@ == s.subrange(line_start(s, line_idx as int), line_start(s, line_idx + 1))
                &&& line.utf16_len == utf16_len(line.text@)
            },
    {
        match get_line(&self.rope, line_idx) {
            Some(text) => {
                let utf16_len = utf16_count(text.as_str());
                Some(Line { text, utf16_len })
            },
            None => None,
        }
    }

    /// The number of lines.
    pub fn len_lines(&self) -> (r: usize)
        ensures
            r == line_count(rope_text(self.rope)),
    {
        len_lines(&self.rope)
    }

    /// The number of chars.
    pub fn len_chars(&self) -> (r: usize)
        ensures
            r == rope_text(self.rope).len(),
    {
        len_chars(&self.rope)
    }

    /// The UTF-16 length of the text.
    pub fn len_utf16_cu(&self) -> (r: usize)
        ensures
            r == utf16_len(rope_text(self.rope)),
    {
        len_utf16_cu(&self.rope)
    }

    /// The UTF-8 length of the text.
    pub fn len_bytes(&self) -> (r: usize)
        ensures
            r == utf8_len(rope_text(self.rope)),
    {
        len_bytes(&self.rope)
    }

    /// Whether a range is selected.
    pub fn has_any_selection(&self) -> (r: bool)
        ensures
            r == (self.selection is Range),
    {
        match self.selection {
            TextSelection::Cursor(_) => false,
            TextSelection::Range { .. } => true,
        }
    }

    /// The selected range as it was made, if a range is selected.
    pub fn get_selection(&self) -> (r: Option<(usize, usize)>)
        ensures
            r == match self.selection {
                TextSelection::Cursor(_) => None,
                TextSelection::Range { from, to } => Some((from, to)),
            },
    {
        match self.selection {
            TextSelection::Cursor(_) => None,
            TextSelection::Range { from, to } => Some((from, to)),
        }
    }

    /// Replaces the whole text.
    pub fn set(&mut self, text: &str)
        ensures
            rope_text(final(self).rope) == text@,
            final(self).selection == old(self).selection,
            final(self).pending_edit == old(self).pending_edit,
    {
        let n = len_chars(&self.rope);
        remove_range(&mut self.rope, 0, n);
        proof {
            assert(rope_text(self.rope) =~= Seq::<char>::empty());
        }
        insert_str(&mut self.rope, 0, text);
        proof {
            assert(rope_text(self.rope) =~= text@);
        }
    }

    /// Collapses the selection to a caret at its end (where a range was extended to).
    pub fn clear_selection(&mut self)
        ensures
            final(self).selection == TextSelection::Cursor(match old(self).selection {
                TextSelection::Cursor(pos) => pos,
                TextSelection::Range { to, .. } => to,
            }),
            rope_text(final(self).rope) == rope_text(old(self).rope),
            final(self).pending_edit == old(self).pending_edit,
    {
        let end = match self.selection {
            TextSelection::Cursor(pos) => pos,
            TextSelection::Range { to, .. } => to,
        };
        self.selection = TextSelection::Cursor(end);
    }

    /// Selects the range `from..to`.
    pub fn set_selection(&mut self, range: (usize, usize))
        ensures
            final(self).selection == (TextSelection::Range { from: range.0, to: range.1 }),
            rope_text(final(self).rope) == rope_text(old(self).rope),
            final(self).pending_edit == old(self).pending_edit,
    {
        self.selection = TextSelection::Range { from: range.0, to: range.1 };
    }

    /// The selected range, left to right, if a range is selected.
    pub fn get_selection_range(&self) -> (r: Option<(usize, usize)>)
        ensures
            r == match self.selection {
                TextSelection::Cursor(_) => None,
                TextSelection::Range { from, to } => if from < to {
                    Some((from, to))
                } else {
                    Some((to, from))
                },
            },
    {
        let (start, end) = match self.selection {
            TextSelection::Cursor(_) => {
                return None;
            },
            TextSelection::Range { from, to } => (from, to),
        };
        let (start, end) = if start < end {
            (start, end)
        } else {
            (end, start)
        };
        Some((start, end))
    }

    /// The chars between the two ends of the selection, read as char positions; nothing when
    /// no range is selected or it reaches past the text.
    pub fn get_selected_text(&self) -> (r: Option<String>)
        ensures
            ({
                let s = rope_text(self.rope);
                match self.selection {
                    TextSelection::Cursor(_) => r is None,
                    TextSelection::Range { from, to } => {
                        let (start, end) = if from < to {
                            (from, to)
                        } else {
                            (to, from)
                        };
                        &&& r is Some <==> end <= s.len()
                        &&& r matches Some(t) ==> t@ == s.subrange(start as int, end as int)
                    },
                }
            }),
    {
        let (start, end) = match self.get_selection_range() {
            Some(range) => range,
            None => {
                return None;
            },
        };
        get_slice(&self.rope, start, end)
    }

    /// The indentation width, in spaces.
    pub fn get_indentation(&self) -> (r: u8)
        ensures
            r == 4,
    {
        4
    }
}

/// Removing what an insertion at a char boundary added gives the text back: the inserted
/// text spans UTF-16 positions `idx .. idx + utf16_len(text)` of the new text.
pub proof fn law_remove_undoes_insert(s: Seq<char>, text: Seq<char>, idx: int)
    requires
        0 <= idx <= utf16_len(s),
        idx == utf16_offset(s, char_of_utf16(s, idx)),
        exists|c: int| is_char_of_utf16(s, idx, c),
    ensures
        ({
            let c = char_of_utf16(s, idx);
            let s2 = s.subrange(0, c) + text + s.subrange(c, s.len() as int);
            let a = char_of_utf16(s2, idx);
            let b = char_of_utf16(s2, idx + utf16_len(text));
            &&& a == c
            &&& b == c + text.len()
            &&& s2.subrange(0, a) + s2.subrange(b, s2.len() as int) == s
        }),
{
    let c = char_of_utf16(s, idx);
    let pre = s.subrange(0, c);
    let post = s.subrange(c, s.len() as int);
    let s2 = pre + text;
    let s3 = s2 + post;
    let n = text.len() as int;
    assert(0 <= c <= s.len());
    assert(s3.subrange(0, c) =~= pre);
    assert(s3.subrange(0, c + n) =~= pre + text);
    lemma_utf16_len_concat(pre, text);
    // the insertion point and the end of the inserted text are char boundaries of the new text
    assert(is_char_of_utf16(s3, idx, c)) by {
        if c < s3.len() {
            assert(s3.subrange(0, c + 1) =~= s3.subrange(0, c).push(s3[c]));
            if n == 0 {
                assert(s3[c] == s[c]);
                assert(s.subrange(0, c + 1) =~= s.subrange(0, c).push(s[c]));
            }
            assert(s3.subrange(0, c + 1).drop_last() =~= s3.subrange(0, c));
            lemma_len_pos_utf16(s3[c]);
        }
    }
    assert(is_char_of_utf16(s3, idx + utf16_len(text), c + n)) by {
        if c + n < s3.len() {
            assert(s3.subrange(0, c + n + 1).drop_last() =~= s3.subrange(0, c + n));
            lemma_len_pos_utf16(s3[c + n]);
        }
    }
    lemma_char_of_utf16_unique(s3, idx, c, char_of_utf16(s3, idx));
    lemma_char_of_utf16_unique(s3, idx + utf16_len(text), c + n, char_of_utf16(s3, idx + utf16_len(text)));
    assert(s3.subrange(0, c) + s3.subrange(c + n, s3.len() as int) =~= s);
}

/// Every char takes at least one UTF-16 code unit.
proof fn lemma_len_pos_utf16(ch: char)
    ensures
        utf16_width(ch) >= 1,
{
}

} // verus!
