use std::time::Instant;
use yonro::commands::Edit;
use yonro::edit::EditOperation;
use yonro::prelude::{Location, Size};
use yonro::view::View;

fn sized_view() -> View {
    let mut view = View::default();
    view.set_size(Size { height: 24, width: 80 });
    view
}

fn view_with_text(text: &str) -> View {
    let mut view = sized_view();
    for ch in text.chars() {
        if ch == '\n' {
            view.handle_edit_command(Edit::InsertNewLine);
        } else {
            view.handle_edit_command(Edit::Insert(ch));
        }
    }
    view.clear_history();
    view.set_text_location(Location { line_idx: 0, grapheme_idx: 0 });
    view
}

fn type_grouped(view: &mut View, text: &str) {
    for ch in text.chars() {
        view.handle_edit_command(Edit::Insert(ch));
        let at = view.text_location();
        view.set_last_insert(Some(Instant::now()), Some(at));
    }
}

#[test]
fn undo_single_insert() {
    let mut view = sized_view();
    view.handle_edit_command(Edit::Insert('a'));
    assert_eq!(view.grapheme_count(0), 1);
    view.undo();
    assert_eq!(view.grapheme_count(0), 0);
}

#[test]
fn redo_single_insert() {
    let mut view = sized_view();
    view.handle_edit_command(Edit::Insert('a'));
    view.undo();
    assert_eq!(view.grapheme_count(0), 0);
    view.redo();
    assert_eq!(view.grapheme_count(0), 1);
}

#[test]
fn undo_multiple_inserts() {
    let mut view = sized_view();
    for ch in "hello".chars() {
        view.handle_edit_command(Edit::Insert(ch));
    }
    assert_eq!(view.grapheme_count(0), 5);
    for _ in 0..5 {
        view.undo();
    }
    assert_eq!(view.grapheme_count(0), 0);
}

#[test]
fn undo_then_redo_restores_text() {
    let mut view = sized_view();
    for ch in "hi".chars() {
        view.handle_edit_command(Edit::Insert(ch));
    }
    view.undo();
    view.undo();
    view.redo();
    view.redo();
    assert_eq!(view.grapheme_count(0), 2);
}

#[test]
fn undo_newline_merges_lines() {
    let mut view = sized_view();
    for ch in "hello".chars() {
        view.handle_edit_command(Edit::Insert(ch));
    }
    view.handle_edit_command(Edit::InsertNewLine);
    assert_eq!(view.height(), 2);
    view.undo();
    assert_eq!(view.height(), 1);
    assert_eq!(view.grapheme_count(0), 5);
}

#[test]
fn redo_newline_splits_lines() {
    let mut view = sized_view();
    for ch in "hello".chars() {
        view.handle_edit_command(Edit::Insert(ch));
    }
    view.handle_edit_command(Edit::InsertNewLine);
    view.undo();
    assert_eq!(view.height(), 1);
    view.redo();
    assert_eq!(view.height(), 2);
}

#[test]
fn newline_in_middle_of_line_undo() {
    let mut view = sized_view();
    for ch in "hello".chars() {
        view.handle_edit_command(Edit::Insert(ch));
    }
    view.set_text_location(Location { line_idx: 0, grapheme_idx: 2 });
    view.handle_edit_command(Edit::InsertNewLine);
    assert_eq!(view.height(), 2);
    assert_eq!(view.grapheme_count(0), 2);
    assert_eq!(view.grapheme_count(1), 3);
    view.undo();
    assert_eq!(view.height(), 1);
    assert_eq!(view.grapheme_count(0), 5);
}

#[test]
fn undo_delete_restores_char() {
    let mut view = view_with_text("hi");
    view.handle_edit_command(Edit::Delete);
    assert_eq!(view.grapheme_count(0), 1);
    view.undo();
    assert_eq!(view.grapheme_count(0), 2);
}

#[test]
fn undo_backspace_restores_char() {
    let mut view = view_with_text("hi");
    view.set_text_location(Location { line_idx: 0, grapheme_idx: 2 });
    view.handle_edit_command(Edit::DeleteBackward);
    assert_eq!(view.grapheme_count(0), 1);
    view.undo();
    assert_eq!(view.grapheme_count(0), 2);
}

#[test]
fn undo_backspace_at_line_start_restores_newline() {
    let mut view = view_with_text("hello\nworld");
    view.set_text_location(Location { line_idx: 1, grapheme_idx: 0 });
    assert_eq!(view.height(), 2);
    view.handle_edit_command(Edit::DeleteBackward);
    assert_eq!(view.height(), 1);
    view.undo();
    assert_eq!(view.height(), 2);
    assert_eq!(view.grapheme_count(0), 5);
    assert_eq!(view.grapheme_count(1), 5);
}

#[test]
fn undo_delete_at_line_end_restores_newline() {
    let mut view = view_with_text("hello\nworld");
    view.set_text_location(Location { line_idx: 0, grapheme_idx: 5 });
    assert_eq!(view.height(), 2);
    view.handle_edit_command(Edit::Delete);
    assert_eq!(view.height(), 1);
    view.undo();
    assert_eq!(view.height(), 2);
}

#[test]
fn cursor_position_restored_after_undo_insert() {
    let mut view = sized_view();
    view.handle_edit_command(Edit::Insert('a'));
    assert_eq!(view.text_location().grapheme_idx, 1);
    view.undo();
    assert_eq!(view.text_location().grapheme_idx, 0);
}

#[test]
fn cursor_position_restored_after_redo_insert() {
    let mut view = sized_view();
    view.handle_edit_command(Edit::Insert('a'));
    view.undo();
    view.redo();
    assert_eq!(view.text_location().grapheme_idx, 1);
}

#[test]
fn cursor_on_correct_line_after_undo_newline() {
    let mut view = sized_view();
    for ch in "hello".chars() {
        view.handle_edit_command(Edit::Insert(ch));
    }
    view.handle_edit_command(Edit::InsertNewLine);
    assert_eq!(view.text_location().line_idx, 1);
    view.undo();
    assert_eq!(view.text_location().line_idx, 0);
}

#[test]
fn new_edit_clears_redo_stack() {
    let mut view = sized_view();
    view.handle_edit_command(Edit::Insert('a'));
    view.undo();
    assert!(view.redo_stack_len() != 0);
    view.handle_edit_command(Edit::Insert('b'));
    assert!(view.redo_stack_len() == 0);
}

#[test]
fn undo_on_empty_stack_does_nothing() {
    let mut view = sized_view();
    view.undo();
    assert_eq!(view.height(), 0);
}

#[test]
fn redo_on_empty_stack_does_nothing() {
    let mut view = sized_view();
    view.redo();
    assert_eq!(view.height(), 0);
}

#[test]
fn backspace_at_document_start_does_nothing() {
    let mut view = view_with_text("hi");
    view.set_text_location(Location { line_idx: 0, grapheme_idx: 0 });
    view.handle_edit_command(Edit::DeleteBackward);
    assert_eq!(view.grapheme_count(0), 2);
    assert!(view.undo_stack_len() == 0);
}

#[test]
fn delete_at_document_end_does_nothing() {
    let mut view = view_with_text("hi");
    let last_line = view.height().saturating_sub(1);
    let end_grapheme = view.grapheme_count(last_line);
    view.set_text_location(Location { line_idx: last_line, grapheme_idx: end_grapheme });
    view.handle_edit_command(Edit::Delete);
    assert_eq!(view.grapheme_count(0), 2);
    assert!(view.undo_stack_len() == 0);
}

#[test]
fn undo_insert_unicode_char() {
    let mut view = sized_view();
    view.handle_edit_command(Edit::Insert('ü'));
    assert_eq!(view.grapheme_count(0), 1);
    view.undo();
    assert_eq!(view.grapheme_count(0), 0);
}

#[test]
fn rapid_inserts_form_a_group() {
    let mut view = sized_view();
    type_grouped(&mut view, "hello");
    assert_eq!(view.undo_stack_len(), 1);
    assert!(matches!(view.last_undo_operation(), Some(EditOperation::InsertGroup { .. })));
}

#[test]
fn undo_group_removes_all_chars_at_once() {
    let mut view = sized_view();
    type_grouped(&mut view, "hello");
    assert_eq!(view.grapheme_count(0), 5);
    view.undo();
    assert_eq!(view.grapheme_count(0), 0);
    assert!(view.undo_stack_len() == 0);
}

#[test]
fn redo_group_reinserts_all_chars() {
    let mut view = sized_view();
    type_grouped(&mut view, "hello");
    view.undo();
    assert_eq!(view.grapheme_count(0), 0);
    view.redo();
    assert_eq!(view.grapheme_count(0), 5);
}

#[test]
fn multiple_undos_and_redos_stay_consistent() {
    let mut view = sized_view();
    type_grouped(&mut view, "abc");
    assert_eq!(view.grapheme_count(0), 3);
    view.undo();
    assert_eq!(view.grapheme_count(0), 0);
    view.redo();
    assert_eq!(view.grapheme_count(0), 3);
}

#[test]
fn delete_between_inserts_breaks_group() {
    let mut view = sized_view();
    type_grouped(&mut view, "hel");
    view.handle_edit_command(Edit::DeleteBackward);
    type_grouped(&mut view, "lo");
    assert_eq!(view.undo_stack_len(), 3);
}

#[test]
fn cursor_at_group_start_after_undo() {
    let mut view = sized_view();
    view.set_text_location(Location { line_idx: 0, grapheme_idx: 0 });
    type_grouped(&mut view, "abc");
    view.undo();
    assert_eq!(view.text_location().grapheme_idx, 0);
}
