use yonro::commands::{Edit, Move};
use yonro::fileinfo::FileType;
use yonro::prelude::{Location, Position, Size};
use yonro::annotatedstring::AnnotatedString;
use yonro::annotation::{Annotation, AnnotationType};
use yonro::view::{SaveError, View};

fn texts(rows: Vec<AnnotatedString>) -> Vec<String> {
    rows.into_iter().map(|r| r.string).collect()
}

fn loaded(name: &str, text: &str, height: usize, width: usize) -> View {
    let mut view = View::default();
    view.load(name, text);
    view.set_size(Size { height, width });
    view
}

fn at(line_idx: usize, grapheme_idx: usize) -> Location {
    Location { line_idx, grapheme_idx }
}

#[test]
fn load_splits_lines_and_drops_line_endings() {
    let view = loaded("notes.md", "ab\r\ncd\n\nx", 24, 80);
    assert_eq!(view.height(), 4);
    assert_eq!(view.line_text(0).as_deref(), Some("ab"));
    assert_eq!(view.line_text(1).as_deref(), Some("cd"));
    assert_eq!(view.line_text(2).as_deref(), Some(""));
    assert_eq!(view.line_text(3).as_deref(), Some("x"));
    assert_eq!(view.line_text(4), None);
    let status = view.get_status();
    assert_eq!(status.file_name, "notes.md");
    assert_eq!(status.file_type, FileType::MarkDown);
    assert_eq!(status.total_lines, 4);
    assert!(!status.is_modified);
    assert!(view.is_file_loaded());
}

#[test]
fn written_contents_read_back_to_the_same_lines() {
    let view = loaded("a.txt", "one\ntwo", 24, 80);
    let written = view.file_contents();
    assert_eq!(written, "one\ntwo\n");
    let reread = loaded("a.txt", &written, 24, 80);
    assert_eq!(reread.height(), 2);
    assert_eq!(reread.line_text(0).as_deref(), Some("one"));
    assert_eq!(reread.line_text(1).as_deref(), Some("two"));
}

#[test]
fn reading_and_writing_back_keeps_a_file_ending_in_a_line_break() {
    let view = loaded("a.txt", "hello\n\nworld\n", 24, 80);
    assert_eq!(view.file_contents(), "hello\n\nworld\n");
}

#[test]
fn saving_without_a_file_fails() {
    let mut view = View::default();
    assert_eq!(view.save(), Err(SaveError::NoFilePath));
    assert_eq!(view.file_path(), None);
    view.save_as("out.rs");
    assert_eq!(view.file_path().as_deref(), Some("out.rs"));
    assert_eq!(view.get_status().file_type, FileType::Rust);
    assert_eq!(view.save(), Ok(()));
}

#[test]
fn editing_marks_modified_and_saving_clears_it() {
    let mut view = loaded("a.txt", "hi", 24, 80);
    view.handle_edit_command(Edit::Insert('!'));
    assert!(view.get_status().is_modified);
    assert_eq!(view.save(), Ok(()));
    assert!(!view.get_status().is_modified);
}

#[test]
fn caret_moves_within_the_text() {
    let mut view = loaded("a.txt", "hello\nworld", 24, 80);
    view.handle_move_command(Move::Right);
    assert_eq!(view.text_location(), at(0, 1));
    view.handle_move_command(Move::EndOfLine);
    assert_eq!(view.text_location(), at(0, 5));
    view.handle_move_command(Move::Right);
    assert_eq!(view.text_location(), at(1, 0));
    view.handle_move_command(Move::Down);
    assert_eq!(view.text_location(), at(2, 0));
    view.handle_move_command(Move::Down);
    assert_eq!(view.text_location(), at(2, 0));
    view.handle_move_command(Move::Left);
    assert_eq!(view.text_location(), at(1, 5));
    view.handle_move_command(Move::StartOfLine);
    assert_eq!(view.text_location(), at(1, 0));
    view.handle_move_command(Move::PageUp);
    assert_eq!(view.text_location(), at(0, 0));
    view.handle_move_command(Move::Left);
    assert_eq!(view.text_location(), at(0, 0));
    view.handle_move_command(Move::PageDown);
    assert_eq!(view.text_location(), at(2, 0));
}

#[test]
fn moving_up_keeps_the_caret_inside_a_shorter_line() {
    let mut view = loaded("a.txt", "ab\nlonger", 24, 80);
    view.set_text_location(at(1, 6));
    view.handle_move_command(Move::Up);
    assert_eq!(view.text_location(), at(0, 2));
}

#[test]
fn scrolling_follows_the_caret() {
    let mut view = loaded("a.txt", "a\nb\nc\nd\ne", 2, 3);
    for _ in 0..3 {
        view.handle_move_command(Move::Down);
    }
    assert_eq!(view.text_location(), at(3, 0));
    assert_eq!(view.scroll_offset(), Position { row: 2, col: 0 });
    assert_eq!(view.caret_position(), Position { row: 1, col: 0 });
    view.handle_move_command(Move::PageUp);
    assert_eq!(view.text_location(), at(2, 0));
    assert_eq!(view.scroll_offset(), Position { row: 2, col: 0 });
    view.handle_move_command(Move::Up);
    assert_eq!(view.scroll_offset(), Position { row: 1, col: 0 });
}

#[test]
fn horizontal_scrolling_follows_the_caret() {
    let mut view = loaded("a.txt", "hello\nworld", 3, 3);
    view.handle_move_command(Move::EndOfLine);
    assert_eq!(view.scroll_offset(), Position { row: 0, col: 3 });
    assert_eq!(view.caret_position(), Position { row: 0, col: 2 });
}

#[test]
fn search_moves_through_matches_and_wraps() {
    let mut view = loaded("a.txt", "foo bar foo\nbaz foo", 24, 80);
    view.set_text_location(at(1, 2));
    view.enter_search();
    assert_eq!(view.search_start(), Some(at(1, 2)));
    view.search("foo");
    assert_eq!(view.text_location(), at(1, 4));
    view.search_next();
    assert_eq!(view.text_location(), at(0, 0));
    view.search_next();
    assert_eq!(view.text_location(), at(0, 8));
    view.search_prev();
    assert_eq!(view.text_location(), at(0, 0));
    view.search_prev();
    assert_eq!(view.text_location(), at(1, 4));
}

#[test]
fn dismissing_a_search_puts_the_caret_back() {
    let mut view = loaded("a.txt", "foo bar foo\nbaz foo", 24, 80);
    view.set_text_location(at(1, 2));
    view.enter_search();
    view.search("bar");
    assert_eq!(view.text_location(), at(0, 4));
    view.dismiss_search();
    assert_eq!(view.text_location(), at(1, 2));
    assert_eq!(view.search_start(), None);
    assert_eq!(view.search_status(), (false, false));
}

#[test]
fn exiting_a_search_keeps_the_caret_on_the_match() {
    let mut view = loaded("a.txt", "foo bar", 24, 80);
    view.enter_search();
    view.search("bar");
    view.exit_search();
    assert_eq!(view.text_location(), at(0, 4));
    assert_eq!(view.search_status(), (false, false));
}

#[test]
fn a_search_without_a_match_leaves_the_caret() {
    let mut view = loaded("a.txt", "foo bar", 24, 80);
    view.set_text_location(at(0, 2));
    view.enter_search();
    assert_eq!(view.search_status(), (true, false));
    view.search("zzz");
    assert_eq!(view.search_status(), (true, true));
    assert_eq!(view.text_location(), at(0, 2));
    view.search("");
    assert_eq!(view.text_location(), at(0, 2));
}

#[test]
fn a_found_match_is_centred() {
    let text = "x\nx\nx\nx\nx\nx\nx\nx\nx\nfind";
    let mut view = loaded("a.txt", text, 4, 10);
    view.enter_search();
    view.search("find");
    assert_eq!(view.text_location(), at(9, 0));
    assert_eq!(view.scroll_offset(), Position { row: 7, col: 0 });
}

#[test]
fn welcome_message_is_centred_after_a_tilde() {
    assert_eq!(View::build_welcome_message(0, "yonro", "0.1.0"), "");
    assert_eq!(View::build_welcome_message(10, "yonro", "0.1.0"), "~");
    assert_eq!(
        View::build_welcome_message(40, "yonro", "0.1.0"),
        format!("~{}yonro editor -- version 0.1.0{}", " ".repeat(5), " ".repeat(5))
    );
    assert_eq!(
        View::build_welcome_message(41, "yonro", "0.1.0"),
        format!("~{}yonro editor -- version 0.1.0{}", " ".repeat(5), " ".repeat(6))
    );
    assert_eq!(View::build_welcome_message(30, "yonro", "0.1.0"), "~yonro editor -- version 0.1.0");
}

#[test]
fn an_empty_document_draws_the_welcome_message() {
    let mut view = View::default();
    view.set_size(Size { height: 3, width: 40 });
    let rows = texts(view.draw(0, "yonro", "0.1.0"));
    assert_eq!(rows.len(), 3);
    assert_eq!(rows[0], "~");
    assert_eq!(rows[1], View::build_welcome_message(40, "yonro", "0.1.0"));
    assert_eq!(rows[2], "~");
}

#[test]
fn a_document_draws_its_visible_part() {
    let mut view = loaded("a.txt", "hello\nworld", 3, 3);
    assert_eq!(texts(view.draw(0, "yonro", "0.1.0")), vec!["hel", "wor", "~"]);
    view.handle_move_command(Move::EndOfLine);
    assert_eq!(texts(view.draw(5, "yonro", "0.1.0")), vec!["lo", "ld", "~"]);
}

#[test]
fn status_reports_the_caret_line() {
    let mut view = loaded("dir/story.txt", "a\nb\nc", 24, 80);
    view.handle_move_command(Move::Down);
    let status = view.get_status();
    assert_eq!(status.file_name, "story.txt");
    assert_eq!(status.current_line_idx, 1);
    assert_eq!(status.position_indicator_to_string(), "2/3");
    assert_eq!(status.line_count_to_string(), "3 lines");
    assert_eq!(status.file_type_to_string(), "Text");
    assert_eq!(View::default().get_status().file_name, "[No Name]");
}

#[test]
fn undo_and_redo_move_changes_between_histories() {
    let mut view = View::default();
    view.set_size(Size { height: 24, width: 80 });
    view.handle_edit_command(Edit::Insert('a'));
    view.set_last_insert(None, None);
    view.handle_edit_command(Edit::Insert('b'));
    assert_eq!((view.undo_stack_len(), view.redo_stack_len()), (2, 0));
    view.undo();
    assert_eq!((view.undo_stack_len(), view.redo_stack_len()), (1, 1));
    assert_eq!(view.line_text(0).as_deref(), Some("a"));
    view.redo();
    assert_eq!((view.undo_stack_len(), view.redo_stack_len()), (2, 0));
    assert_eq!(view.line_text(0).as_deref(), Some("ab"));
    view.redo();
    assert_eq!((view.undo_stack_len(), view.redo_stack_len()), (2, 0));
}

#[test]
fn an_edit_that_changes_nothing_keeps_the_redo_history() {
    let mut view = View::default();
    view.set_size(Size { height: 24, width: 80 });
    view.handle_edit_command(Edit::Insert('a'));
    view.undo();
    assert_eq!(view.redo_stack_len(), 1);
    view.set_text_location(at(0, 0));
    view.handle_edit_command(Edit::DeleteBackward);
    assert_eq!(view.redo_stack_len(), 1);
    view.handle_edit_command(Edit::InsertNewLine);
    assert_eq!(view.redo_stack_len(), 0);
}

#[test]
fn undo_puts_the_caret_where_the_change_was_made() {
    let mut view = loaded("a.txt", "hello", 24, 80);
    view.set_text_location(at(0, 2));
    view.handle_edit_command(Edit::Delete);
    assert_eq!(view.line_text(0).as_deref(), Some("helo"));
    view.set_text_location(at(0, 4));
    view.undo();
    assert_eq!(view.line_text(0).as_deref(), Some("hello"));
    assert_eq!(view.text_location(), at(0, 2));
}

#[test]
fn undo_safety_checks_follow_the_history() {
    let mut view = View::default();
    view.set_size(Size { height: 24, width: 80 });
    assert!(view.undo_is_safe());
    assert!(view.redo_is_safe());
    view.handle_edit_command(Edit::Insert('a'));
    assert!(view.undo_is_safe());
    view.load("a.txt", "");
    view.set_text_location(at(0, 0));
    assert!(view.undo_is_safe());
    view.undo();
    assert!(view.redo_is_safe());
}

#[test]
fn undo_is_unsafe_when_the_caret_would_leave_the_text() {
    let mut view = loaded("a.txt", "1\n2\n3\n4\n5", 24, 80);
    view.set_text_location(at(4, 0));
    view.handle_edit_command(Edit::Insert('x'));
    assert!(view.undo_is_safe());
    view.load("b.txt", "");
    assert!(!view.undo_is_safe());
    view.load("a.txt", "1\n2\n3\n4\nx5");
    view.undo();
    assert_eq!(view.line_text(4).as_deref(), Some("5"));
    view.load("b.txt", "");
    assert!(!view.redo_is_safe());
}

#[test]
fn typing_past_the_text_adds_a_line() {
    let mut view = View::default();
    view.set_size(Size { height: 24, width: 80 });
    view.handle_edit_command(Edit::Insert('x'));
    assert_eq!(view.height(), 1);
    view.handle_edit_command(Edit::InsertNewLine);
    assert_eq!(view.height(), 2);
    assert_eq!(view.text_location(), at(1, 0));
    view.handle_move_command(Move::Down);
    view.handle_edit_command(Edit::Insert('y'));
    assert_eq!(view.height(), 3);
    assert_eq!(view.line_text(2).as_deref(), Some("y"));
}

#[test]
fn redraw_flag_follows_changes() {
    let mut view = View::default();
    assert!(!view.needs_redraw());
    view.set_size(Size { height: 24, width: 80 });
    view.handle_edit_command(Edit::Insert('x'));
    assert!(view.needs_redraw());
    view.mark_redraw(false);
    assert!(!view.needs_redraw());
}

#[test]
fn undoing_typing_after_the_text_leaves_an_empty_line() {
    let mut view = View::default();
    view.set_size(Size { height: 24, width: 80 });
    view.handle_edit_command(Edit::Insert('a'));
    view.undo();
    assert_eq!(view.height(), 1);
    assert_eq!(view.line_text(0).as_deref(), Some(""));
}

#[test]
fn undoing_a_backspace_after_the_text_adds_a_line() {
    let mut view = loaded("a.txt", "a", 24, 80);
    view.set_text_location(at(1, 0));
    view.handle_edit_command(Edit::DeleteBackward);
    assert_eq!(view.height(), 1);
    assert_eq!(view.undo_stack_len(), 1);
    view.undo();
    assert_eq!(view.height(), 2);
    assert_eq!(view.line_text(1).as_deref(), Some(""));
}

#[test]
fn a_line_ending_in_a_carriage_return_is_read_back_without_it() {
    let mut view = loaded("a.txt", "", 24, 80);
    view.handle_edit_command(Edit::Insert('a'));
    view.handle_edit_command(Edit::Insert('\r'));
    let written = view.file_contents();
    assert_eq!(written, "a\r\n");
    let reread = loaded("a.txt", &written, 24, 80);
    assert_eq!(reread.line_text(0).as_deref(), Some("a"));
}

#[test]
fn quick_typing_forms_one_undo_group() {
    let mut view = View::default();
    view.set_size(Size { height: 24, width: 80 });
    for ch in "abc".chars() {
        view.handle_edit_command(Edit::Insert(ch));
    }
    assert_eq!(view.undo_stack_len(), 1);
    view.undo();
    assert_eq!(view.grapheme_count(0), 0);
}

#[test]
fn slow_typing_starts_a_new_group() {
    let mut view = View::default();
    view.set_size(Size { height: 24, width: 80 });
    let t0 = std::time::Instant::now();
    view.insert_char_at_time('a', t0, None);
    view.insert_char_at_time('b', t0, Some(10));
    assert_eq!(view.undo_stack_len(), 1);
    view.insert_char_at_time('c', t0, Some(800));
    assert_eq!(view.undo_stack_len(), 2);
    view.handle_edit_command(Edit::Delete);
    view.insert_char_at_time('d', t0, Some(10));
    assert_eq!(view.undo_stack_len(), 3);
}

#[test]
fn wide_characters_take_two_columns() {
    let mut view = View::default();
    view.set_size(Size { height: 3, width: 10 });
    view.handle_edit_command(Edit::Insert('\u{4e2d}'));
    assert_eq!(view.text_location(), at(0, 1));
    assert_eq!(view.caret_position(), Position { row: 0, col: 2 });
    view.handle_edit_command(Edit::Insert('a'));
    assert_eq!(view.caret_position(), Position { row: 0, col: 3 });
}

#[test]
fn a_wide_character_cut_by_the_edge_shows_as_an_ellipsis() {
    let view = loaded("a.txt", "a\u{4e2d}b", 3, 2);
    assert_eq!(texts(view.draw(0, "yonro", "0.1.0")), vec!["a\u{22ef}", "~", "~"]);
    let view = loaded("a.txt", "a\u{4e2d}b", 3, 4);
    assert_eq!(texts(view.draw(0, "yonro", "0.1.0")), vec!["a\u{4e2d}b", "~", "~"]);
}

#[test]
fn scrolling_counts_columns() {
    let mut view = loaded("a.txt", "\u{4e2d}\u{4e2d}\u{4e2d}", 2, 3);
    view.handle_move_command(Move::EndOfLine);
    assert_eq!(view.scroll_offset(), Position { row: 0, col: 4 });
    assert_eq!(view.caret_position(), Position { row: 0, col: 2 });
    assert_eq!(texts(view.draw(0, "yonro", "0.1.0"))[0], "\u{4e2d}");
}

fn marks(t: AnnotationType, spans: &[(usize, usize)]) -> Vec<Annotation> {
    spans.iter().map(|&(start_byte_idx, end_byte_idx)| Annotation { annotation_type: t, start_byte_idx, end_byte_idx }).collect()
}

#[test]
fn drawn_rows_carry_the_syntax_highlighting() {
    let view = loaded("a.md", "## T\nx *y*", 3, 10);
    let rows = view.draw(0, "yonro", "0.1.0");
    assert_eq!(rows[0].string, "## T");
    assert_eq!(rows[0].annotations, marks(AnnotationType::Heading, &[(0, 1), (1, 2), (2, 3), (3, 4)]));
    assert_eq!(rows[1].string, "x *y*");
    assert_eq!(rows[1].annotations, marks(AnnotationType::Emphasis, &[(2, 3), (3, 4), (4, 5)]));
    assert!(rows[2].annotations.is_empty());
    let view = loaded("a.rs", "## T", 3, 10);
    assert!(view.draw(0, "yonro", "0.1.0")[0].annotations.is_empty());
    let view = loaded("a.txt", "see 42", 3, 10);
    assert_eq!(view.draw(0, "yonro", "0.1.0")[0].annotations, marks(AnnotationType::Number, &[(4, 5), (5, 6)]));
}

#[test]
fn drawn_rows_mark_search_matches() {
    let mut view = loaded("a.txt", "foo bar foo", 3, 20);
    view.enter_search();
    view.search("foo");
    let rows = view.draw(0, "yonro", "0.1.0");
    let mut expected = marks(AnnotationType::SelectedMatch, &[(0, 1), (1, 2), (2, 3)]);
    expected.extend(marks(AnnotationType::Match, &[(8, 9), (9, 10), (10, 11)]));
    assert_eq!(rows[0].annotations, expected);
    view.exit_search();
    assert!(view.draw(0, "yonro", "0.1.0")[0].annotations.is_empty());
}

#[test]
fn a_code_block_opened_above_the_view_still_marks_the_rows() {
    let mut view = loaded("a.md", "```\na\nb\nc", 2, 10);
    view.handle_move_command(Move::PageDown);
    view.handle_move_command(Move::PageDown);
    view.handle_move_command(Move::PageDown);
    assert_eq!(view.scroll_offset().row, 2);
    let rows = view.draw(0, "yonro", "0.1.0");
    assert_eq!(rows[0].string, "b");
    assert_eq!(rows[0].annotations, marks(AnnotationType::CodeBlock, &[(0, 1)]));
    assert!(view.can_draw(0));
}

#[test]
fn a_text_line_that_cuts_a_character_cannot_be_drawn() {
    let view = loaded("a.txt", "x\u{3000}me@ex.com", 3, 20);
    assert!(!view.can_draw(0));
    let view = loaded("a.md", "x\u{3000}me@ex.com", 3, 20);
    assert!(view.can_draw(0));
}

#[test]
fn dismissing_after_many_search_steps_puts_the_caret_back() {
    let mut view = loaded("a.txt", "foo bar foo\nbaz foo", 24, 80);
    view.set_text_location(at(1, 1));
    view.enter_search();
    view.search("foo");
    view.search_next();
    view.search_prev();
    view.search("ba");
    view.search_next();
    view.dismiss_search();
    assert_eq!(view.text_location(), at(1, 1));
    assert_eq!(view.scroll_offset(), Position { row: 0, col: 0 });
}

#[test]
fn a_group_typed_into_an_empty_document_undoes_to_an_empty_line() {
    let mut view = View::default();
    view.set_size(Size { height: 24, width: 80 });
    for ch in "abc".chars() {
        view.handle_edit_command(Edit::Insert(ch));
    }
    view.undo();
    assert_eq!(view.height(), 1);
    assert_eq!(view.line_text(0).as_deref(), Some(""));
    assert_eq!(view.text_location(), at(0, 0));
    view.redo();
    assert_eq!(view.line_text(0).as_deref(), Some("abc"));
    assert_eq!(view.text_location(), at(0, 3));
}

#[test]
fn characters_that_cannot_be_shown_get_a_stand_in() {
    let view = loaded("a.rs", "a\tb\u{1}c\u{301}d\u{3000}e", 3, 20);
    assert_eq!(texts(view.draw(0, "yonro", "0.1.0"))[0], "a b\u{25af}c\u{b7}d\u{2423}e");
    let mut view = loaded("a.rs", "\u{3000}x", 3, 20);
    view.handle_move_command(Move::Right);
    assert_eq!(view.caret_position(), Position { row: 0, col: 1 });
}
