use yonro::documentstatus::DocumentStatus;
use yonro::fileinfo::{FileInfo, FileType};
use yonro::message::Message;
use yonro::messagebar::MessageBar;
use yonro::prelude::Size;

const HELP: &str = "HELP: Ctrl-S = save | Ctrl-Q = quit";

fn status(total_lines: usize, current_line_idx: usize, is_modified: bool) -> DocumentStatus {
    DocumentStatus {
        file_name: String::from("a.txt"),
        file_type: FileType::Text,
        total_lines,
        current_line_idx,
        is_modified,
    }
}

#[test]
fn modified_indicator_shows_only_changes() {
    assert_eq!(status(1, 0, true).modified_indicator_to_string(), "(modified)");
    assert_eq!(status(1, 0, false).modified_indicator_to_string(), "");
}

#[test]
fn line_count_is_written_in_decimal() {
    assert_eq!(status(0, 0, false).line_count_to_string(), "0 lines");
    assert_eq!(status(1207, 0, false).line_count_to_string(), "1207 lines");
}

#[test]
fn position_counts_lines_from_one() {
    assert_eq!(status(12, 0, false).position_indicator_to_string(), "1/12");
    assert_eq!(status(12, 9, false).position_indicator_to_string(), "10/12");
    assert_eq!(
        status(0, usize::MAX, false).position_indicator_to_string(),
        format!("{}/0", usize::MAX)
    );
}

#[test]
fn file_types_have_names() {
    assert_eq!(FileType::Rust.to_text(), "Rust");
    assert_eq!(FileType::Text.to_text(), "Text");
    assert_eq!(FileType::MarkDown.to_text(), "Markdown");
    let mut s = status(0, 0, false);
    s.file_type = FileType::MarkDown;
    assert_eq!(s.file_type_to_string(), "Markdown");
    assert_eq!(FileType::default(), FileType::Text);
}

#[test]
fn default_status_is_empty() {
    let s = DocumentStatus::default();
    assert_eq!(s, DocumentStatus {
        file_name: String::new(),
        file_type: FileType::Text,
        total_lines: 0,
        current_line_idx: 0,
        is_modified: false,
    });
}

#[test]
fn file_type_follows_the_extension() {
    assert_eq!(FileInfo::from_path("src/main.rs").get_file_type(), FileType::Rust);
    assert_eq!(FileInfo::from_path("README.MD").get_file_type(), FileType::MarkDown);
    assert_eq!(FileInfo::from_path("notes.txt").get_file_type(), FileType::Text);
    assert_eq!(FileInfo::from_path(".rs").get_file_type(), FileType::Text);
    assert_eq!(FileInfo::from_path("dir.md/file").get_file_type(), FileType::Text);
    assert_eq!(FileInfo::from_path("Makefile").get_file_type(), FileType::Text);
}

#[test]
fn display_name_is_the_last_path_component() {
    assert_eq!(FileInfo::from_path("a/b/c.txt").display_name(), "c.txt");
    assert_eq!(FileInfo::from_path("c.txt").display_name(), "c.txt");
    assert_eq!(FileInfo::from_path("dir/").display_name(), "[No Name]");
    assert_eq!(FileInfo::new().display_name(), "[No Name]");
    assert!(FileInfo::from_path("x").has_path());
    assert!(!FileInfo::new().has_path());
}

#[test]
fn messages_default_to_empty_and_help() {
    let mut m = Message::default();
    assert_eq!(m, Message { msg: String::new() });
    m.default_message();
    assert_eq!(m.msg, HELP);
}

#[test]
fn message_bar_stands_above_the_margin() {
    let mut bar = MessageBar::new(1, Size { height: 10, width: 80 });
    assert!(bar.needs_redraw());
    assert_eq!(bar.render(Some(80)), Some((8, String::from(HELP))));
    assert!(!bar.needs_redraw());
    assert_eq!(bar.render(Some(80)), None);
}

#[test]
fn message_bar_is_hidden_on_a_short_screen() {
    let mut bar = MessageBar::new(1, Size { height: 1, width: 80 });
    assert_eq!(bar.render(Some(80)), None);
    bar.resize(Size { height: 2, width: 80 });
    assert_eq!(bar.render(Some(80)), Some((0, String::from(HELP))));
}

#[test]
fn message_bar_blanks_a_message_wider_than_the_terminal() {
    let mut bar = MessageBar::new(0, Size { height: 4, width: 10 });
    assert_eq!(bar.render(Some(10)), Some((3, String::new())));
    bar.resize(Size { height: 4, width: 35 });
    assert_eq!(bar.render(Some(35)), Some((3, String::from(HELP))));
}

#[test]
fn message_bar_waits_for_the_terminal_size() {
    let mut bar = MessageBar::new(0, Size { height: 4, width: 80 });
    assert_eq!(bar.render(None), None);
    assert!(bar.needs_redraw());
    assert_eq!(bar.render(Some(80)), Some((3, String::from(HELP))));
}
