use yonro::annotatedstring::{AnnotatedString, AnnotatedStringIterator};
use yonro::annotation::{Annotation, AnnotationType};
use yonro::line::Line;
use yonro::mdsyntaxhighlighter::MarkDownSyntaxHighlighter;
use yonro::textsyntaxhighlighter::TextSyntaxHighlighter;

fn ann(annotation_type: AnnotationType, start_byte_idx: usize, end_byte_idx: usize) -> Annotation {
    Annotation { annotation_type, start_byte_idx, end_byte_idx }
}

fn markdown(lines: &[&str]) -> Vec<Vec<Annotation>> {
    let mut h = MarkDownSyntaxHighlighter::default();
    for (idx, text) in lines.iter().enumerate() {
        h.highlight(idx, &Line::from_text(text));
    }
    (0..lines.len()).map(|idx| h.get_annotations(idx).unwrap().clone()).collect()
}

fn plain(text: &str) -> Vec<Annotation> {
    let mut h = TextSyntaxHighlighter::default();
    let line = Line::from_text(text);
    assert!(TextSyntaxHighlighter::can_highlight(&line));
    h.highlight(0, &line);
    assert!(h.get_annotations(1).is_none());
    h.get_annotations(0).unwrap().clone()
}

#[test]
fn code_blocks_run_between_fences() {
    let got = markdown(&["```rust", "let x = *y*;", "  ```", "after"]);
    assert_eq!(got[0], vec![ann(AnnotationType::CodeBlock, 0, 7)]);
    assert_eq!(got[1], vec![ann(AnnotationType::CodeBlock, 0, 12)]);
    assert_eq!(got[2], vec![ann(AnnotationType::CodeBlock, 0, 5)]);
    assert_eq!(got[3], vec![]);
}

#[test]
fn headings_need_a_space_after_the_hashes() {
    let got = markdown(&["## Title", "#NoSpace", "   # Indented"]);
    assert_eq!(got[0], vec![ann(AnnotationType::Heading, 0, 8)]);
    assert_eq!(got[1], vec![]);
    assert_eq!(got[2], vec![ann(AnnotationType::Heading, 0, 13)]);
}

#[test]
fn list_items_start_with_a_marker_and_a_space() {
    let got = markdown(&["  - item", "* star", "+ plus", "-nospace"]);
    assert_eq!(got[0], vec![ann(AnnotationType::ListItem, 0, 8)]);
    assert_eq!(got[1], vec![ann(AnnotationType::ListItem, 0, 6)]);
    assert_eq!(got[2], vec![ann(AnnotationType::ListItem, 0, 6)]);
    assert_eq!(got[3], vec![]);
}

#[test]
fn inline_marks_are_found_in_order() {
    let got = markdown(&["use `code` here", "a *b* and [t](u)", "\u{fc} _x_", "[a] (b)"]);
    assert_eq!(got[0], vec![ann(AnnotationType::InlineCode, 4, 10)]);
    assert_eq!(
        got[1],
        vec![ann(AnnotationType::Emphasis, 2, 5), ann(AnnotationType::Link, 10, 16)]
    );
    assert_eq!(got[2], vec![ann(AnnotationType::Emphasis, 3, 6)]);
    assert_eq!(got[3], vec![]);
}

#[test]
fn urls_emails_and_numbers_are_marked() {
    assert_eq!(
        plain("see https://x.io now 42"),
        vec![ann(AnnotationType::Link, 4, 16), ann(AnnotationType::Number, 21, 23)]
    );
    assert_eq!(
        plain("mail me@ex.com 7x"),
        vec![ann(AnnotationType::Link, 5, 14), ann(AnnotationType::Number, 15, 16)]
    );
    assert_eq!(plain("a@b"), vec![]);
    assert_eq!(plain("http://a.b"), vec![ann(AnnotationType::Link, 0, 10)]);
    assert_eq!(plain("\u{fc}\u{fc} 12"), vec![ann(AnnotationType::Number, 5, 7)]);
}

#[test]
fn email_search_must_not_cut_a_character() {
    assert!(!TextSyntaxHighlighter::can_highlight(&Line::from_text("x\u{3000}me@ex.com")));
    assert!(TextSyntaxHighlighter::can_highlight(&Line::from_text("x me@ex.com")));
    assert!(TextSyntaxHighlighter::can_highlight(&Line::from_text("no at sign")));
}

#[test]
fn iterator_walks_annotated_and_plain_stretches() {
    let s = AnnotatedString {
        string: String::from("hello world"),
        annotations: vec![ann(AnnotationType::Keyword, 0, 5)],
    };
    let mut it = AnnotatedStringIterator { annotated_string: &s, current_idx: 0 };
    let first = it.next().unwrap();
    assert_eq!((first.string, first.annotation_type), ("hello", Some(AnnotationType::Keyword)));
    let second = it.next().unwrap();
    assert_eq!((second.string, second.annotation_type), (" world", None));
    assert!(it.next().is_none());
    assert_eq!(it.current_idx, 11);
}

#[test]
fn iterator_prefers_the_last_covering_annotation() {
    let s = AnnotatedString {
        string: String::from("abcdef"),
        annotations: vec![ann(AnnotationType::Number, 0, 6), ann(AnnotationType::Match, 2, 4)],
    };
    let mut it = AnnotatedStringIterator { annotated_string: &s, current_idx: 3 };
    let part = it.next().unwrap();
    assert_eq!((part.string, part.annotation_type), ("d", Some(AnnotationType::Match)));
    let part = it.next().unwrap();
    assert_eq!((part.string, part.annotation_type), ("ef", Some(AnnotationType::Number)));
}

#[test]
fn iterator_keeps_characters_whole() {
    let s = AnnotatedString {
        string: String::from("a\u{fc}b"),
        annotations: vec![ann(AnnotationType::Match, 0, 2)],
    };
    let mut it = AnnotatedStringIterator { annotated_string: &s, current_idx: 0 };
    let part = it.next().unwrap();
    assert_eq!((part.string, part.annotation_type), ("a\u{fc}", Some(AnnotationType::Match)));
    let part = it.next().unwrap();
    assert_eq!((part.string, part.annotation_type), ("b", None));
}

#[test]
fn every_annotation_lies_within_its_line() {
    let lines = [
        "see https://x.io now 42 or me@ex.com",
        "\u{fc}\u{fc} *a* `b` [c](d)",
        "```",
        "## h",
        "unclosed ` and * and [x](y",
        "",
    ];
    let md = markdown(&lines);
    for (idx, text) in lines.iter().enumerate() {
        for a in md[idx].iter().chain(plain(text).iter()) {
            assert!(a.start_byte_idx <= a.end_byte_idx && a.end_byte_idx <= text.len(), "{text}");
        }
    }
}

#[test]
fn iterator_parts_join_into_the_whole_string() {
    let s = AnnotatedString {
        string: String::from("a\u{4e2d}bc d"),
        annotations: vec![ann(AnnotationType::Match, 2, 5), ann(AnnotationType::Number, 6, 30)],
    };
    let mut it = AnnotatedStringIterator { annotated_string: &s, current_idx: 0 };
    let mut joined = String::new();
    let mut count = 0;
    while let Some(part) = it.next() {
        assert!(!part.string.is_empty());
        joined.push_str(part.string);
        count += 1;
    }
    assert_eq!(joined, s.string);
    assert!(count <= s.string.len());
    assert!(it.next().is_none());
}
