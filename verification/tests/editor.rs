use freya::editor::{EditorBuffer, HistoryChange, TextEdit, TextPoint, TextSelection};
use ropey::Rope;

fn point(row: usize, column: usize) -> TextPoint {
    TextPoint { row, column }
}

#[test]
fn insert_char_reports_the_edit_and_history() {
    let mut b = EditorBuffer::new(Rope::from_str("ab\ncd"));
    let (len, change) = b.insert_char('x', 4);
    assert_eq!(len, 1);
    assert_eq!(b.text(), "ab\ncxd");
    assert_eq!(
        b.pending_edit,
        Some(TextEdit {
            start_byte: 4,
            old_end_byte: 4,
            new_end_byte: 5,
            start_position: point(1, 1),
            old_end_position: point(1, 1),
            new_end_position: point(1, 2),
        })
    );
    match change {
        HistoryChange::InsertChar { idx, ch, len, selection } => {
            assert_eq!((idx, ch, len), (4, 'x', 1));
            assert_eq!(selection, TextSelection::Cursor(0));
        }
        _ => panic!("expected an inserted char"),
    }
}

#[test]
fn insert_counts_utf16_units() {
    let mut b = EditorBuffer::new(Rope::from_str("a"));
    let (len, change) = b.insert("\u{1F600}\u{e9}", 1);
    assert_eq!(len, 3);
    assert_eq!(b.text(), "a\u{1F600}\u{e9}");
    assert_eq!(b.len_chars(), 3);
    assert_eq!(b.len_utf16_cu(), 4);
    assert_eq!(b.pending_edit.unwrap().new_end_byte, 7);
    match change {
        HistoryChange::InsertText { idx, text, len, .. } => {
            assert_eq!((idx, text.as_str(), len), (1, "\u{1F600}\u{e9}", 3));
        }
        _ => panic!("expected inserted text"),
    }
}

#[test]
fn remove_undoes_insert() {
    let mut b = EditorBuffer::new(Rope::from_str("hello world"));
    let (len, _) = b.insert("big ", 6);
    assert_eq!(b.text(), "hello big world");
    let (removed, change) = b.remove(6..6 + len);
    assert_eq!(removed, 4);
    assert_eq!(b.text(), "hello world");
    match change {
        HistoryChange::Remove { idx, text, len, .. } => {
            assert_eq!((idx, text.as_str(), len), (6, "big ", 4));
        }
        _ => panic!("expected a removal"),
    }
    let edit = b.pending_edit.unwrap();
    assert_eq!((edit.start_byte, edit.old_end_byte, edit.new_end_byte), (6, 10, 6));
}

#[test]
fn lines_and_positions() {
    let b = EditorBuffer::new(Rope::from_str("ab\n\u{1F600}c\n"));
    assert_eq!(b.len_lines(), 3);
    assert_eq!(b.char_to_line(4), 1);
    assert_eq!(b.line_to_char(1), 3);
    assert_eq!(b.line_to_char(2), 6);
    assert_eq!(b.utf16_cu_to_char(5), 4);
    assert_eq!(b.char_to_utf16_cu(5), 6);
    let line = b.line(1).unwrap();
    assert_eq!(line.text, "\u{1F600}c\n");
    assert_eq!(line.utf16_len, 4);
    assert!(b.line(3).is_none());
    assert_eq!(b.get_indentation(), 4);
}

#[test]
fn selections() {
    let mut b = EditorBuffer::new(Rope::from_str("hello"));
    assert!(!b.has_any_selection());
    assert_eq!(b.get_selection(), None);
    assert_eq!(b.get_selection_range(), None);
    assert_eq!(b.get_selected_text(), None);
    b.set_selection((4, 1));
    assert!(b.has_any_selection());
    assert_eq!(b.get_selection(), Some((4, 1)));
    assert_eq!(b.get_selection_range(), Some((1, 4)));
    assert_eq!(b.get_selected_text(), Some("ell".to_string()));
    b.set_selection((2, 9));
    assert_eq!(b.get_selected_text(), None);
    b.clear_selection();
    assert_eq!(b.get_selection(), None);
    b.set_selection((2, 9));
    b.set("bye");
    assert_eq!(b.text(), "bye");
    assert_eq!(b.get_selection(), Some((2, 9)));
    b.clear_selection();
    assert_eq!(b.selection, TextSelection::Cursor(9));
}
