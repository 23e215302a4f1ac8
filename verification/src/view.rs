use vstd::prelude::*;
use vstd::view::View as ModelView;
use std::time::{Duration, Instant};
use crate::prelude::{Location, Position, Size, LineIdx, RowIdx, ColIdx, sat_add, sat_sub};
use crate::line::{Line, matches_at, is_first_match_from, is_last_match_before, line_search_forward, line_search_backward};
use crate::buffer::{Buffer, width_at, count_at, insert_char_at, delete_at, insert_newline_at, delete_changes,
    text_lines, file_text, buffer_search_forward, buffer_search_backward, search_forward_from_step,
    search_backward_from_step, forward_line, backward_line};
use crate::edit::{EditOperation, EditOp, undo_effect, redo_effect, delete_run, insert_run, group_end, delete_run_changes, insert_run_changes, undo_touches, redo_touches};
use crate::commands::{Edit, Move, SearchDirection};
use crate::fileinfo::{FileType, display_name, file_type_of};
use crate::documentstatus::DocumentStatus;
use crate::annotation::Annotation;
use crate::annotatedstring::AnnotatedString;
use crate::mdsyntaxhighlighter::{MarkDownSyntaxHighlighter, markdown_line};
use crate::textsyntaxhighlighter::{TextSyntaxHighlighter, text_line, email_cut_ok};
use crate::screen::{line_marks, line_marks_of, shown_part, shown_chars, shown_annotations, shown_row};

verus! {

/// `std::time::Instant`, a reading of the monotonic clock.
#[verifier::external_type_specification]
#[verifier::external_body]
pub struct ExInstant(Instant);

/// Reads the monotonic clock (`Instant::now`).  Nothing is stated of the
/// reading: it depends on when the call is made.
#[verifier::external_body]
fn instant_now() -> Instant {
    Instant::now()
}

/// The time from `earlier` to `later` (`Instant::duration_since`).  Nothing
/// is stated of the result: the readings are opaque.
#[verifier::external_body]
fn duration_since(later: Instant, earlier: Instant) -> Duration {
    later.duration_since(earlier)
}

/// The whole milliseconds of `d` (`Duration::as_millis`).  Nothing is stated
/// of the result: the duration is opaque.
#[verifier::external_body]
fn whole_millis(d: Duration) -> u128 {
    d.as_millis()
}

/// How long a gap between keystrokes, in milliseconds, starts a new undo group.
pub const GROUP_TIMEOUT_MS: u128 = 800;

/// Why a document could not be saved.
#[derive(Copy, Clone, Debug, PartialEq, Eq, Structural)]
pub enum SaveError {
    /// The document has no file to be saved to.
    NoFilePath,
}

/// What a search remembers: where the caret and the scroll were when it
/// started, and what is searched for.
#[derive(Debug)]
pub struct SearchInfo {
    pub prev_location: Location,
    pub prev_scroll_offset: Position,
    pub query: Option<Line>,
}

/// The mathematical form of a [`SearchInfo`].
pub struct SearchState {
    pub prev_location: Location,
    pub prev_scroll_offset: Position,
    pub query: Option<Seq<char>>,
}

impl ModelView for SearchInfo {
    type V = SearchState;

    open spec fn view(&self) -> SearchState {
        SearchState {
            prev_location: self.prev_location,
            prev_scroll_offset: self.prev_scroll_offset,
            query: match self.query {
                Some(q) => Some(q@),
                None => None,
            },
        }
    }
}

/// The mathematical form of a [`View`]: everything its behaviour depends on.
pub struct ViewState {
    /// The lines of the document.
    pub lines: Seq<Seq<char>>,
    /// Whether the document changed since it was loaded or saved.
    pub modified: bool,
    /// The path of the document's file, if any.
    pub path: Option<Seq<char>>,
    /// The kind of document.
    pub file_type: FileType,
    /// Whether the view must be drawn again.
    pub needs_redraw: bool,
    /// The size of the view on screen.
    pub size: Size,
    /// Where the caret is in the text.
    pub caret: Location,
    /// The text position shown at the view's top-left corner.
    pub scroll: Position,
    /// The search in progress, if any.
    pub search: Option<SearchState>,
    /// The undo stack, most recent last.
    pub undo: Seq<EditOp>,
    /// The redo stack, most recent last.
    pub redo: Seq<EditOp>,
    /// When the last character was typed, if it is remembered.
    pub last_insert_time: Option<Instant>,
    /// Where typing must continue for the next character to join the current
    /// undo group.
    pub last_insert_location: Option<Location>,
}

/// The caret with its grapheme index brought back to the end of its line if
/// it is past it.
pub open spec fn snap_grapheme(lines: Seq<Seq<char>>, loc: Location) -> Location {
    let n = count_at(lines, loc.line_idx as int);
    Location {
        line_idx: loc.line_idx,
        grapheme_idx: if loc.grapheme_idx <= n { loc.grapheme_idx } else { n as usize },
    }
}

/// The caret moved up `step` lines (stopping at the first).
pub open spec fn move_up_by(lines: Seq<Seq<char>>, loc: Location, step: int) -> Location {
    snap_grapheme(lines, Location { line_idx: sat_sub(loc.line_idx as int, step) as usize, grapheme_idx: loc.grapheme_idx })
}

/// The caret moved down `step` lines (stopping just after the last).
pub open spec fn move_down_by(lines: Seq<Seq<char>>, loc: Location, step: int) -> Location {
    let l = snap_grapheme(lines, Location { line_idx: sat_add(loc.line_idx as int, step) as usize, grapheme_idx: loc.grapheme_idx });
    Location {
        line_idx: if l.line_idx <= lines.len() { l.line_idx } else { lines.len() as usize },
        grapheme_idx: l.grapheme_idx,
    }
}

/// The caret moved one grapheme right, or to the start of the next line at
/// the end of a line.
pub open spec fn move_right_of(lines: Seq<Seq<char>>, loc: Location) -> Location {
    if loc.grapheme_idx < count_at(lines, loc.line_idx as int) {
        Location { line_idx: loc.line_idx, grapheme_idx: (loc.grapheme_idx + 1) as usize }
    } else {
        move_down_by(lines, Location { line_idx: loc.line_idx, grapheme_idx: 0 }, 1)
    }
}

/// The caret moved one grapheme left, or to the end of the previous line at
/// the start of a line.
pub open spec fn move_left_of(lines: Seq<Seq<char>>, loc: Location) -> Location {
    if loc.grapheme_idx > 0 {
        Location { line_idx: loc.line_idx, grapheme_idx: (loc.grapheme_idx - 1) as usize }
    } else if loc.line_idx > 0 {
        let up = move_up_by(lines, loc, 1);
        Location { line_idx: up.line_idx, grapheme_idx: count_at(lines, up.line_idx as int) as usize }
    } else {
        loc
    }
}

/// Where the caret goes for the movement `m` in a view `height` rows high.
pub open spec fn moved(lines: Seq<Seq<char>>, loc: Location, height: usize, m: Move) -> Location {
    match m {
        Move::Up => move_up_by(lines, loc, 1),
        Move::Down => move_down_by(lines, loc, 1),
        Move::Left => move_left_of(lines, loc),
        Move::Right => move_right_of(lines, loc),
        Move::PageUp => move_up_by(lines, loc, sat_sub(height as int, 1)),
        Move::PageDown => move_down_by(lines, loc, sat_sub(height as int, 1)),
        Move::StartOfLine => Location { line_idx: loc.line_idx, grapheme_idx: 0 },
        Move::EndOfLine => Location { line_idx: loc.line_idx, grapheme_idx: count_at(lines, loc.line_idx as int) as usize },
    }
}

/// The screen position of the caret in the whole text: its line, and the
/// width of the graphemes before it on that line.
pub open spec fn caret_position(lines: Seq<Seq<char>>, loc: Location) -> Position {
    Position { row: loc.line_idx, col: width_at(lines, loc.line_idx as int, loc.grapheme_idx as int) }
}

/// Whether scrolling along one axis to show `to` moves the offset.
pub open spec fn scroll_moves(offset: int, extent: int, to: int) -> bool {
    to < offset || to >= sat_add(offset, extent)
}

/// The offset along one axis after scrolling as little as needed to show
/// `to` in a window `extent` long starting at `offset`.
pub open spec fn scroll_axis(offset: int, extent: int, to: int) -> int {
    if to < offset {
        to
    } else if to >= sat_add(offset, extent) {
        sat_add(sat_sub(to, extent), 1)
    } else {
        offset
    }
}

/// The scroll offset after scrolling as little as needed to show `pos`.
pub open spec fn scrolled(scroll: Position, size: Size, pos: Position) -> Position {
    Position {
        row: scroll_axis(scroll.row as int, size.height as int, pos.row as int) as usize,
        col: scroll_axis(scroll.col as int, size.width as int, pos.col as int) as usize,
    }
}

/// Whether scrolling to show `pos` moves the scroll offset.
pub open spec fn scroll_redraws(scroll: Position, size: Size, pos: Position) -> bool {
    scroll_moves(scroll.row as int, size.height as int, pos.row as int) || scroll_moves(scroll.col as int, size.width as int, pos.col as int)
}

/// The state after scrolling so that the caret is shown.
pub open spec fn scroll_caret_into_view(s: ViewState) -> ViewState {
    let pos = caret_position(s.lines, s.caret);
    ViewState {
        scroll: scrolled(s.scroll, s.size, pos),
        needs_redraw: s.needs_redraw || scroll_redraws(s.scroll, s.size, pos),
        ..s
    }
}

/// The caret is on a line of the text or on one of the two lines after it.
pub open spec fn caret_in_text(lines: Seq<Seq<char>>, loc: Location) -> bool {
    loc.line_idx <= lines.len() + 1
}

/// The state after the movement `m`, scrolled so that the caret is shown.
pub open spec fn after_move(s: ViewState, m: Move) -> ViewState {
    scroll_caret_into_view(ViewState { caret: moved(s.lines, s.caret, s.size.height, m), ..s })
}

/// The undo stack after typing `c` at `loc`: a new single insertion, or, when
/// the keystroke joins the previous one and that was an insertion, the
/// previous insertion grown into or extended as a group.
pub open spec fn typed_undo(undo: Seq<EditOp>, loc: Location, c: char, join: bool) -> Seq<EditOp> {
    if join && undo.len() > 0 {
        match undo.last() {
            EditOp::InsertGroup { start, chars } => undo.drop_last().push(EditOp::InsertGroup { start, chars: chars.push(c) }),
            EditOp::InsertChar { at, text } => undo.drop_last().push(EditOp::InsertGroup { start: at, chars: seq![text, c] }),
            _ => undo.push(EditOp::InsertChar { at: loc, text: c }),
        }
    } else {
        undo.push(EditOp::InsertChar { at: loc, text: c })
    }
}

/// The state after typing `c` at the caret at time `now`; `join` tells
/// whether the keystroke joins the previous one in the undo history.  The
/// caret moves right (scrolling) when the line grew, and is remembered as
/// where typing must continue to join this keystroke.
pub open spec fn after_insert(s: ViewState, c: char, join: bool, now: Instant) -> ViewState {
    let lines1 = insert_char_at(s.lines, c, s.caret);
    let s1 = ViewState {
        lines: lines1,
        modified: s.modified || s.caret.line_idx <= s.lines.len(),
        undo: typed_undo(s.undo, s.caret, c, join),
        redo: Seq::empty(),
        last_insert_time: Some(now),
        ..s
    };
    let s2 = if count_at(lines1, s.caret.line_idx as int) > count_at(s.lines, s.caret.line_idx as int) {
        after_move(s1, Move::Right)
    } else {
        s1
    };
    ViewState { needs_redraw: true, last_insert_location: Some(s2.caret), ..s2 }
}

/// Whether a keystroke `elapsed_ms` milliseconds after the previous one joins
/// it in the undo history: it must come soon enough and where typing was
/// expected to continue.
pub open spec fn joins_group(s: ViewState, elapsed_ms: Option<u128>) -> bool {
    &&& elapsed_ms matches Some(e)
    &&& e < GROUP_TIMEOUT_MS
    &&& s.last_insert_location == Some(s.caret)
}

/// The state after breaking the line at the caret; the caret moves to the
/// start of the new line.
pub open spec fn after_newline(s: ViewState) -> ViewState {
    let s1 = ViewState {
        lines: insert_newline_at(s.lines, s.caret),
        modified: s.modified || s.caret.line_idx <= s.lines.len(),
        undo: s.undo.push(EditOp::InsertNewLine {
            at: s.caret,
            grapheme_count_at_split: count_at(s.lines, s.caret.line_idx as int) as usize,
        }),
        redo: Seq::empty(),
        last_insert_time: None,
        last_insert_location: None,
        ..s
    };
    ViewState { needs_redraw: true, ..after_move(s1, Move::Right) }
}

/// The state after deleting at the caret: the grapheme there, or at the end
/// of a line that has a next line, the line break.  Nothing is recorded when
/// nothing is deleted.
pub open spec fn after_delete(s: ViewState) -> ViewState {
    let at = s.caret;
    let n = count_at(s.lines, at.line_idx as int);
    let s0 = ViewState { last_insert_time: None, last_insert_location: None, needs_redraw: true, ..s };
    if at.grapheme_idx >= n {
        if sat_add(at.line_idx as int, 1) < s.lines.len() {
            ViewState {
                lines: delete_at(s.lines, at),
                modified: true,
                undo: s.undo.push(EditOp::DeleteNewLine { line_idx: at.line_idx, split_at_grapheme: n as usize }),
                redo: Seq::empty(),
                ..s0
            }
        } else {
            s0
        }
    } else {
        ViewState {
            lines: delete_at(s.lines, at),
            modified: true,
            undo: s.undo.push(EditOp::DeleteChar { at, text: s.lines[at.line_idx as int][at.grapheme_idx as int] }),
            redo: Seq::empty(),
            ..s0
        }
    }
}

/// The state after deleting before the caret: at the start of a line, the
/// line break before it (recorded even when there is none to delete); else
/// the grapheme before the caret, which moves onto it.  At the start of the
/// text nothing happens but forgetting the last keystroke.
pub open spec fn after_delete_backward(s: ViewState) -> ViewState {
    let s0 = ViewState { last_insert_time: None, last_insert_location: None, ..s };
    if s.caret.line_idx == 0 && s.caret.grapheme_idx == 0 {
        s0
    } else if s.caret.grapheme_idx == 0 {
        let prev = (s.caret.line_idx - 1) as usize;
        let s1 = ViewState {
            undo: s.undo.push(EditOp::DeleteNewLine {
                line_idx: prev,
                split_at_grapheme: count_at(s.lines, prev as int) as usize,
            }),
            redo: Seq::empty(),
            ..s0
        };
        let s2 = after_move(s1, Move::Left);
        ViewState {
            lines: delete_at(s2.lines, s2.caret),
            modified: s2.modified || delete_changes(s2.lines, s2.caret),
            needs_redraw: true,
            ..s2
        }
    } else {
        let s2 = after_move(s0, Move::Left);
        let at = s2.caret;
        if at.line_idx < s.lines.len() && at.grapheme_idx < s.lines[at.line_idx as int].len() {
            ViewState {
                lines: delete_at(s2.lines, at),
                modified: true,
                undo: s2.undo.push(EditOp::DeleteChar { at, text: s.lines[at.line_idx as int][at.grapheme_idx as int] }),
                redo: Seq::empty(),
                needs_redraw: true,
                ..s2
            }
        } else {
            ViewState { needs_redraw: true, ..s2 }
        }
    }
}

/// The state after the edit command `e` when it breaks a line or deletes;
/// typing a character reads the clock and is described by [`after_insert`]
/// (here it leaves `s` as it is).
pub open spec fn after_edit(s: ViewState, e: Edit) -> ViewState {
    match e {
        Edit::Insert(c) => s,
        Edit::InsertNewLine => after_newline(s),
        Edit::Delete => after_delete(s),
        Edit::DeleteBackward => after_delete_backward(s),
    }
}

/// Undoing keeps the caret on a line of the text or one of the two after it.
pub open spec fn undo_keeps_caret_in_text(s: ViewState) -> bool {
    s.undo.len() > 0 ==> caret_in_text(undo_effect(s.lines, s.undo.last()).0, undo_effect(s.lines, s.undo.last()).1)
}

/// Redoing keeps the caret on a line of the text or one of the two after it.
pub open spec fn redo_keeps_caret_in_text(s: ViewState) -> bool {
    s.redo.len() > 0 ==> caret_in_text(redo_effect(s.lines, s.redo.last()).0, redo_effect(s.lines, s.redo.last()).1)
}

/// The state after undo: the last change is taken back and moves to the redo
/// stack, and the caret goes where the change was made; with nothing to undo
/// nothing changes.
pub open spec fn after_undo(s: ViewState) -> ViewState {
    if s.undo.len() == 0 {
        s
    } else {
        let op = s.undo.last();
        let (lines1, caret1) = undo_effect(s.lines, op);
        let s1 = ViewState {
            lines: lines1,
            caret: caret1,
            modified: s.modified || undo_touches(s.lines, op),
            undo: s.undo.drop_last(),
            redo: s.redo.push(op),
            ..s
        };
        ViewState { needs_redraw: true, ..scroll_caret_into_view(s1) }
    }
}

/// The state after redo: the last undone change is made again and moves back
/// to the undo stack; with nothing to redo nothing changes.
pub open spec fn after_redo(s: ViewState) -> ViewState {
    if s.redo.len() == 0 {
        s
    } else {
        let op = s.redo.last();
        let (lines1, caret1) = redo_effect(s.lines, op);
        let s1 = ViewState {
            lines: lines1,
            caret: caret1,
            modified: s.modified || redo_touches(s.lines, op),
            redo: s.redo.drop_last(),
            undo: s.undo.push(op),
            ..s
        };
        ViewState { needs_redraw: true, ..scroll_caret_into_view(s1) }
    }
}

/// The state after centering the view on the caret.
pub open spec fn centered(s: ViewState) -> ViewState {
    let pos = caret_position(s.lines, s.caret);
    ViewState {
        scroll: Position {
            row: sat_sub(pos.row as int, (s.size.height as int + 1) / 2) as usize,
            col: sat_sub(pos.col as int, (s.size.width as int + 1) / 2) as usize,
        },
        needs_redraw: true,
        ..s
    }
}

/// The query of the search in progress; the empty text when there is none.
pub open spec fn search_query(s: ViewState) -> Seq<char> {
    match s.search {
        Some(info) => match info.query {
            Some(q) => q,
            None => Seq::empty(),
        },
        None => Seq::empty(),
    }
}

/// A search is in progress and has a query.
pub open spec fn has_query(s: ViewState) -> bool {
    s.search matches Some(info) && info.query is Some
}

/// The state after searching for the query from `from` in `direction`: the
/// caret goes to the match found, if any, and the view centres on it.
pub open spec fn after_search_from(s: ViewState, from: Location, direction: SearchDirection) -> ViewState {
    let found = match direction {
        SearchDirection::Forward => buffer_search_forward(s.lines, search_query(s), from),
        SearchDirection::Backward => buffer_search_backward(s.lines, search_query(s), from),
    };
    match found {
        Some(loc) => centered(ViewState { caret: loc, ..s }),
        None => ViewState { needs_redraw: true, ..s },
    }
}

/// The state after starting a search, which remembers the caret and the
/// scroll.
pub open spec fn after_enter_search(s: ViewState) -> ViewState {
    ViewState { search: Some(SearchState { prev_location: s.caret, prev_scroll_offset: s.scroll, query: None }), ..s }
}

/// The state with the query of the search in progress set to `query`.
pub open spec fn with_query(s: ViewState, query: Seq<char>) -> ViewState {
    ViewState {
        search: match s.search {
            Some(info) => Some(SearchState { query: Some(query), ..info }),
            None => None,
        },
        ..s
    }
}

/// The state after dismissing the search: the caret and the scroll go back
/// where they were when it started (then scroll to show the caret).
pub open spec fn after_dismiss_search(s: ViewState) -> ViewState {
    match s.search {
        Some(info) => ViewState {
            search: None,
            needs_redraw: true,
            ..scroll_caret_into_view(ViewState { caret: info.prev_location, scroll: info.prev_scroll_offset, ..s })
        },
        None => ViewState { search: None, needs_redraw: true, ..s },
    }
}

/// `n` spaces.
pub open spec fn spaces(n: nat) -> Seq<char> {
    Seq::new(n, |i: int| ' ')
}

/// The text of the welcome message for the program `name` at `version`.
pub open spec fn welcome_text(name: Seq<char>, version: Seq<char>) -> Seq<char> {
    name + seq![' ', 'e', 'd', 'i', 't', 'o', 'r', ' ', '-', '-', ' ', 'v', 'e', 'r', 's', 'i', 'o', 'n', ' '] + version
}

/// The welcome line for a view `width` columns wide: empty for no width; a
/// `~` alone when the message (counted in bytes) does not fit after it; else a
/// `~` and the message centred in the remaining columns (counted in
/// characters, the extra space going to the right).
pub open spec fn welcome_line(width: nat, msg: Seq<char>) -> Seq<char> {
    if width == 0 {
        Seq::empty()
    } else if width - 1 < crate::text::byte_len(msg) {
        seq!['~']
    } else {
        let pad = (width - 1 - msg.len()) as nat;
        seq!['~'] + spaces(pad / 2) + msg + spaces((pad - pad / 2) as nat)
    }
}

/// The row of the screen that a view `height` rows high marks with the
/// welcome message: the third of the height, rounded up.
pub open spec fn welcome_row(height: nat) -> nat {
    if height % 3 == 0 { height / 3 } else { height / 3 + 1 }
}

/// Whether a code block is open before line `i` of a Markdown document.
pub open spec fn md_open_before(lines: Seq<Seq<char>>, i: int) -> bool
    decreases i,
{
    if i <= 0 {
        false
    } else {
        markdown_line(md_open_before(lines, i - 1), lines[i - 1]).1
    }
}

/// The syntax annotations of line `i` of a document of type `t`: Markdown and
/// plain text are highlighted, Rust is not.
pub open spec fn syntax_annotations(lines: Seq<Seq<char>>, t: FileType, i: int) -> Seq<Annotation> {
    match t {
        FileType::MarkDown => markdown_line(md_open_before(lines, i), lines[i]).0,
        FileType::Text => text_line(lines[i]),
        FileType::Rust => Seq::empty(),
    }
}

/// The grapheme of line `li` where the selected search match starts: the
/// caret, while a search has a query and the caret is on that line.
pub open spec fn selected_grapheme(s: ViewState, li: int) -> Option<int> {
    if has_query(s) && s.caret.line_idx == li { Some(s.caret.grapheme_idx as int) } else { None }
}

/// Every line that drawing from `origin_row` highlights (the lines up to the
/// last one shown) can be highlighted, as the plain-text highlighter asks.
pub open spec fn drawable(s: ViewState, origin_row: int) -> bool {
    let bound = sat_add(sat_add(origin_row, s.size.height as int), s.scroll.row as int);
    s.file_type == FileType::Text ==> forall|i: int| 0 <= i < bound && i < s.lines.len() ==> #[trigger] email_cut_ok(s.lines[i])
}

/// What row `current_row` of the screen shows, for a view of state `s` drawn
/// from row `origin_row` down and the welcome message `msg`, with its
/// annotations: the visible part of the line scrolled to that row, each
/// grapheme marked by the selected search match, any search match, or the
/// syntax of its line; else, in an empty document, the welcome line on the
/// welcome row; else a `~`.
pub open spec fn drawn_row(s: ViewState, origin_row: int, current_row: int, msg: Seq<char>) -> (Seq<char>, Seq<Annotation>) {
    let line_idx = sat_add(current_row - origin_row, s.scroll.row as int);
    let left = s.scroll.col as int;
    let right = sat_add(left, s.size.width as int);
    if line_idx < s.lines.len() {
        let l = s.lines[line_idx];
        let marks = line_marks(l, syntax_annotations(s.lines, s.file_type, line_idx), search_query(s), selected_grapheme(s, line_idx));
        let p = shown_part(l, marks, 0, left, right);
        (shown_chars(p), shown_annotations(p))
    } else if current_row == welcome_row(s.size.height as nat) && s.lines.len() == 0 {
        (welcome_line(s.size.width as nat, msg), Seq::empty())
    } else {
        (seq!['~'], Seq::empty())
    }
}

/// A text has at most as many characters as its encoding has bytes.
proof fn lemma_char_count_le_byte_len(cs: Seq<char>)
    ensures
        cs.len() <= crate::text::byte_len(cs),
    decreases cs.len(),
{
    if cs.len() > 0 {
        crate::text::lemma_byte_len_take_next(cs, cs.len() - 1);
        crate::text::lemma_char_byte_len_range(cs[cs.len() - 1]);
        lemma_char_count_le_byte_len(cs.take(cs.len() - 1));
        assert(cs.take(cs.len() as int) =~= cs);
        assert(cs.take(cs.len() - 1).take(cs.len() - 1) =~= cs.take(cs.len() - 1));
    }
}

/// Viewing the operations of a stack after a push.
proof fn lemma_view_push(v: Seq<EditOperation>, x: EditOperation)
    ensures
        v.push(x).map_values(|o: EditOperation| o@) == v.map_values(|o: EditOperation| o@).push(x@),
{
    assert(v.push(x).map_values(|o: EditOperation| o@) =~= v.map_values(|o: EditOperation| o@).push(x@));
}

/// `s` is the state of a new view: an empty document with no file, of type
/// text, unchanged; no size; caret and scroll at the origin; no search, no
/// history, no redraw pending.
pub open spec fn is_fresh(s: ViewState) -> bool {
    &&& s.lines == Seq::<Seq<char>>::empty()
    &&& !s.modified
    &&& s.path is None
    &&& s.file_type == FileType::Text
    &&& !s.needs_redraw
    &&& s.size == (Size { height: 0, width: 0 })
    &&& s.caret == (Location { line_idx: 0, grapheme_idx: 0 })
    &&& s.scroll == (Position { row: 0, col: 0 })
    &&& s.search is None
    &&& s.undo == Seq::<EditOp>::empty()
    &&& s.redo == Seq::<EditOp>::empty()
    &&& s.last_insert_time is None
    &&& s.last_insert_location is None
}

/// The editing area: a document, the caret in it, the part of it that is
/// shown, a search in progress, and the undo and redo history.
pub struct View {
    buffer: Buffer,
    needs_redraw: bool,
    size: Size,
    text_location: Location,
    scroll_offset: Position,
    search_info: Option<SearchInfo>,
    undo_stack: Vec<EditOperation>,
    redo_stack: Vec<EditOperation>,
    last_insert_time: Option<Instant>,
    last_insert_location: Option<Location>,
}

impl View {
    /// The mathematical form of the view.
    pub closed spec fn state(&self) -> ViewState {
        ViewState {
            lines: self.buffer.text(),
            modified: self.buffer.dirty(),
            path: self.buffer.path(),
            file_type: self.buffer.file_type(),
            needs_redraw: self.needs_redraw,
            size: self.size,
            caret: self.text_location,
            scroll: self.scroll_offset,
            search: match self.search_info {
                Some(i) => Some(i@),
                None => None,
            },
            undo: self.undo_stack@.map_values(|o: EditOperation| o@),
            redo: self.redo_stack@.map_values(|o: EditOperation| o@),
            last_insert_time: self.last_insert_time,
            last_insert_location: self.last_insert_location,
        }
    }

    /// An empty view of an empty document with no file.
    pub fn new() -> (res: View)
        ensures
            is_fresh(res.state()),
    {
        let res = View {
            buffer: Buffer::new(),
            needs_redraw: false,
            size: Size { height: 0, width: 0 },
            text_location: Location { line_idx: 0, grapheme_idx: 0 },
            scroll_offset: Position { row: 0, col: 0 },
            search_info: None,
            undo_stack: Vec::new(),
            redo_stack: Vec::new(),
            last_insert_time: None,
            last_insert_location: None,
        };
        proof {
            assert(res.state().undo =~= Seq::<EditOp>::empty());
            assert(res.state().redo =~= Seq::<EditOp>::empty());
        }
        res
    }

    /// Sets whether the view must be drawn again.
    pub fn mark_redraw(&mut self, value: bool)
        ensures
            final(self).state() == (ViewState { needs_redraw: value, ..old(self).state() }),
    {
        self.needs_redraw = value;
    }

    /// Whether the view must be drawn again.
    pub fn needs_redraw(&self) -> (res: bool)
        ensures
            res == self.state().needs_redraw,
    {
        self.needs_redraw
    }

    /// Whether the document is stored in a file.
    pub fn is_file_loaded(&self) -> (res: bool)
        ensures
            res == self.state().path is Some,
    {
        self.buffer.is_file_loaded()
    }

    /// The number of lines of the document.
    pub fn height(&self) -> (res: usize)
        ensures
            res == self.state().lines.len(),
    {
        self.buffer.height()
    }

    /// The number of graphemes on line `line_idx`; zero when there is no such
    /// line.
    pub fn grapheme_count(&self, line_idx: LineIdx) -> (res: usize)
        ensures
            res == count_at(self.state().lines, line_idx as int),
    {
        self.buffer.grapheme_count(line_idx)
    }

    /// Where the caret is in the text.
    pub fn text_location(&self) -> (res: Location)
        ensures
            res == self.state().caret,
    {
        self.text_location
    }

    /// The text position shown at the view's top-left corner.
    pub fn scroll_offset(&self) -> (res: Position)
        ensures
            res == self.state().scroll,
    {
        self.scroll_offset
    }

    /// Puts the caret at `loc`, with no movement checks and no scrolling.
    pub fn set_text_location(&mut self, loc: Location)
        ensures
            final(self).state() == (ViewState { caret: loc, ..old(self).state() }),
    {
        self.text_location = loc;
    }

    /// The number of changes that can be undone.
    pub fn undo_stack_len(&self) -> (res: usize)
        ensures
            res == self.state().undo.len(),
    {
        self.undo_stack.len()
    }

    /// The number of changes that can be redone.
    pub fn redo_stack_len(&self) -> (res: usize)
        ensures
            res == self.state().redo.len(),
    {
        self.redo_stack.len()
    }

    /// The change that an undo would take back, if any.
    pub fn last_undo_operation(&self) -> (res: Option<&EditOperation>)
        ensures
            match res {
                Some(op) => self.state().undo.len() > 0 && op@ == self.state().undo.last(),
                None => self.state().undo.len() == 0,
            },
    {
        let n = self.undo_stack.len();
        if n == 0 {
            None
        } else {
            Some(&self.undo_stack[n - 1])
        }
    }

    /// Forgets all undo and redo history.
    pub fn clear_history(&mut self)
        ensures
            final(self).state() == (ViewState { undo: Seq::empty(), redo: Seq::empty(), ..old(self).state() }),
    {
        self.undo_stack.clear();
        self.redo_stack.clear();
        proof {
            assert(self.state().undo =~= Seq::<EditOp>::empty());
            assert(self.state().redo =~= Seq::<EditOp>::empty());
        }
    }

    /// Sets when the last character was typed and where typing must continue
    /// for the next character to join its undo group.
    pub fn set_last_insert(&mut self, time: Option<Instant>, location: Option<Location>)
        ensures
            final(self).state() == (ViewState {
                last_insert_time: time,
                last_insert_location: location,
                ..old(self).state()
            }),
    {
        self.last_insert_time = time;
        self.last_insert_location = location;
    }

    /// The text of line `line_idx`, if there is such a line.
    pub fn line_text(&self, line_idx: LineIdx) -> (res: Option<String>)
        ensures
            match res {
                Some(t) => line_idx < self.state().lines.len() && t@ == self.state().lines[line_idx as int],
                None => line_idx >= self.state().lines.len(),
            },
    {
        self.buffer.line_text(line_idx)
    }

    /// What the status bar shows about the document and the caret.
    pub fn get_status(&self) -> (res: DocumentStatus)
        ensures
            res.file_name@ == display_name(self.state().path),
            res.total_lines == self.state().lines.len(),
            res.current_line_idx == self.state().caret.line_idx,
            res.is_modified == self.state().modified,
            res.file_type == self.state().file_type,
    {
        let file_info = self.buffer.get_file_info();
        DocumentStatus {
            file_name: file_info.display_name(),
            total_lines: self.buffer.height(),
            current_line_idx: self.text_location.line_idx,
            is_modified: self.buffer.is_dirty(),
            file_type: file_info.get_file_type(),
        }
    }

    // Caret movement.

    fn snap_to_valid_grapheme(&mut self)
        ensures
            final(self).state() == (ViewState { caret: snap_grapheme(old(self).state().lines, old(self).state().caret), ..old(self).state() }),
    {
        let n = self.buffer.grapheme_count(self.text_location.line_idx);
        if self.text_location.grapheme_idx > n {
            self.text_location.grapheme_idx = n;
        }
    }

    fn snap_to_valid_line(&mut self)
        ensures
            final(self).state() == (ViewState {
                caret: Location {
                    line_idx: if old(self).state().caret.line_idx <= old(self).state().lines.len() {
                        old(self).state().caret.line_idx
                    } else {
                        old(self).state().lines.len() as usize
                    },
                    grapheme_idx: old(self).state().caret.grapheme_idx,
                },
                ..old(self).state()
            }),
    {
        let h = self.buffer.height();
        if self.text_location.line_idx > h {
            self.text_location.line_idx = h;
        }
    }

    fn move_up(&mut self, step: usize)
        ensures
            final(self).state() == (ViewState { caret: move_up_by(old(self).state().lines, old(self).state().caret, step as int), ..old(self).state() }),
    {
        self.text_location.line_idx = self.text_location.line_idx.saturating_sub(step);
        self.snap_to_valid_grapheme();
    }

    fn move_down(&mut self, step: usize)
        ensures
            final(self).state() == (ViewState { caret: move_down_by(old(self).state().lines, old(self).state().caret, step as int), ..old(self).state() }),
    {
        self.text_location.line_idx = self.text_location.line_idx.saturating_add(step);
        self.snap_to_valid_grapheme();
        self.snap_to_valid_line();
    }

    fn move_right(&mut self)
        ensures
            final(self).state() == (ViewState { caret: move_right_of(old(self).state().lines, old(self).state().caret), ..old(self).state() }),
    {
        let grapheme_count = self.buffer.grapheme_count(self.text_location.line_idx);
        if self.text_location.grapheme_idx < grapheme_count {
            self.text_location.grapheme_idx = self.text_location.grapheme_idx + 1;
        } else {
            self.move_to_start_of_line();
            self.move_down(1);
        }
    }

    fn move_left(&mut self)
        ensures
            final(self).state() == (ViewState { caret: move_left_of(old(self).state().lines, old(self).state().caret), ..old(self).state() }),
    {
        if self.text_location.grapheme_idx > 0 {
            self.text_location.grapheme_idx = self.text_location.grapheme_idx - 1;
        } else if self.text_location.line_idx > 0 {
            self.move_up(1);
            self.move_to_end_of_line();
        }
    }

    fn move_to_start_of_line(&mut self)
        ensures
            final(self).state() == (ViewState {
                caret: Location { line_idx: old(self).state().caret.line_idx, grapheme_idx: 0 },
                ..old(self).state()
            }),
    {
        self.text_location.grapheme_idx = 0;
    }

    fn move_to_end_of_line(&mut self)
        ensures
            final(self).state() == (ViewState {
                caret: Location {
                    line_idx: old(self).state().caret.line_idx,
                    grapheme_idx: count_at(old(self).state().lines, old(self).state().caret.line_idx as int) as usize,
                },
                ..old(self).state()
            }),
    {
        self.text_location.grapheme_idx = self.buffer.grapheme_count(self.text_location.line_idx);
    }

    /// Moves the caret as `command` asks (stopping at the edges of the text)
    /// and scrolls as little as needed to show it.
    pub fn handle_move_command(&mut self, command: Move)
        requires
            caret_in_text(old(self).state().lines, old(self).state().caret),
        ensures
            final(self).state() == after_move(old(self).state(), command),
            caret_in_text(final(self).state().lines, final(self).state().caret),
    {
        let height = self.size.height;
        match command {
            Move::Up => self.move_up(1),
            Move::Down => self.move_down(1),
            Move::Left => self.move_left(),
            Move::Right => self.move_right(),
            Move::PageUp => self.move_up(height.saturating_sub(1)),
            Move::PageDown => self.move_down(height.saturating_sub(1)),
            Move::StartOfLine => self.move_to_start_of_line(),
            Move::EndOfLine => self.move_to_end_of_line(),
        }
        self.scroll_text_location_into_view();
    }

    // Scrolling.

    fn scroll_vertically(&mut self, to: RowIdx)
        ensures
            final(self).state() == (ViewState {
                scroll: Position {
                    row: scroll_axis(old(self).state().scroll.row as int, old(self).state().size.height as int, to as int) as usize,
                    col: old(self).state().scroll.col,
                },
                needs_redraw: old(self).state().needs_redraw || scroll_moves(old(self).state().scroll.row as int, old(self).state().size.height as int, to as int),
                ..old(self).state()
            }),
    {
        let height = self.size.height;
        let offset_changed = if to < self.scroll_offset.row {
            self.scroll_offset.row = to;
            true
        } else if to >= self.scroll_offset.row.saturating_add(height) {
            self.scroll_offset.row = to.saturating_sub(height).saturating_add(1);
            true
        } else {
            false
        };
        if offset_changed {
            self.mark_redraw(true);
        }
    }

    fn scroll_horizontally(&mut self, to: ColIdx)
        ensures
            final(self).state() == (ViewState {
                scroll: Position {
                    row: old(self).state().scroll.row,
                    col: scroll_axis(old(self).state().scroll.col as int, old(self).state().size.width as int, to as int) as usize,
                },
                needs_redraw: old(self).state().needs_redraw || scroll_moves(old(self).state().scroll.col as int, old(self).state().size.width as int, to as int),
                ..old(self).state()
            }),
    {
        let width = self.size.width;
        let offset_changed = if to < self.scroll_offset.col {
            self.scroll_offset.col = to;
            true
        } else if to >= self.scroll_offset.col.saturating_add(width) {
            self.scroll_offset.col = to.saturating_sub(width).saturating_add(1);
            true
        } else {
            false
        };
        if offset_changed {
            self.mark_redraw(true);
        }
    }

    fn center_text_location(&mut self)
        requires
            caret_in_text(old(self).state().lines, old(self).state().caret),
        ensures
            final(self).state() == centered(old(self).state()),
    {
        let height = self.size.height;
        let width = self.size.width;
        let pos = self.text_location_to_position();
        let vertical_mid = height / 2 + height % 2;
        let horizontal_mid = width / 2 + width % 2;
        self.scroll_offset.row = pos.row.saturating_sub(vertical_mid);
        self.scroll_offset.col = pos.col.saturating_sub(horizontal_mid);
        self.mark_redraw(true);
    }

    fn scroll_text_location_into_view(&mut self)
        requires
            caret_in_text(old(self).state().lines, old(self).state().caret),
        ensures
            final(self).state() == scroll_caret_into_view(old(self).state()),
    {
        let pos = self.text_location_to_position();
        self.scroll_vertically(pos.row);
        self.scroll_horizontally(pos.col);
    }

    /// Where the caret is on screen, relative to the view's top-left corner
    /// (each coordinate clamped at zero).
    pub fn caret_position(&self) -> (res: Position)
        requires
            caret_in_text(self.state().lines, self.state().caret),
        ensures
            res.row == sat_sub(caret_position(self.state().lines, self.state().caret).row as int, self.state().scroll.row as int),
            res.col == sat_sub(caret_position(self.state().lines, self.state().caret).col as int, self.state().scroll.col as int),
    {
        self.text_location_to_position().saturating_sub(self.scroll_offset)
    }

    fn text_location_to_position(&self) -> (res: Position)
        requires
            caret_in_text(self.state().lines, self.state().caret),
        ensures
            res == caret_position(self.state().lines, self.state().caret),
    {
        let row = self.text_location.line_idx;
        let col = self.buffer.width_until(row, self.text_location.grapheme_idx);
        Position { col, row }
    }

    /// Resizes the view and scrolls as little as needed to show the caret.
    pub fn set_size(&mut self, size: Size)
        requires
            caret_in_text(old(self).state().lines, old(self).state().caret),
        ensures
            final(self).state() == scroll_caret_into_view(ViewState { size, ..old(self).state() }),
    {
        self.size = size;
        self.scroll_text_location_into_view();
    }

    /// The welcome line shown in an empty document for the program `name` at
    /// `version`, in a view `width` columns wide.
    pub fn build_welcome_message(width: usize, name: &str, version: &str) -> (res: String)
        ensures
            res@ == welcome_line(width as nat, welcome_text(name@, version@)),
    {
        proof {
            reveal_strlit(" editor -- version ");
            reveal_strlit("~");
        }
        if width == 0 {
            return String::new();
        }
        let mut msg = String::new();
        crate::text::push_str(&mut msg, name);
        crate::text::push_str(&mut msg, " editor -- version ");
        crate::text::push_str(&mut msg, version);
        proof {
            assert(msg@ =~= welcome_text(name@, version@));
        }
        let len = msg.as_str().as_bytes().len();
        let remaining_width = width - 1;
        if remaining_width < len {
            return "~".to_string();
        }
        let msg_str = msg.as_str();
        let cs = crate::text::str_chars(msg_str);
        proof {
            crate::text::lemma_str_len(msg_str);
            lemma_char_count_le_byte_len(cs@);
        }
        let pad = remaining_width - cs.len();
        let left = pad / 2;
        let right = pad - left;
        let mut res = "~".to_string();
        let mut i: usize = 0;
        while i < left
            invariant
                i <= left,
                res@ == seq!['~'] + spaces(i as nat),
            decreases left - i,
        {
            crate::text::push_char(&mut res, ' ');
            proof {
                assert(seq!['~'] + spaces((i + 1) as nat) =~= (seq!['~'] + spaces(i as nat)).push(' '));
            }
            i = i + 1;
        }
        crate::text::push_str(&mut res, msg.as_str());
        let ghost mid = res@;
        let mut j: usize = 0;
        while j < right
            invariant
                j <= right,
                res@ == mid + spaces(j as nat),
            decreases right - j,
        {
            crate::text::push_char(&mut res, ' ');
            proof {
                assert(mid + spaces((j + 1) as nat) =~= (mid + spaces(j as nat)).push(' '));
            }
            j = j + 1;
        }
        proof {
            assert(res@ =~= welcome_line(width as nat, welcome_text(name@, version@)));
        }
        res
    }

    /// Whether every line that drawing from `origin_row` highlights can be
    /// highlighted, as [`View::draw`] asks.
    pub fn can_draw(&self, origin_row: RowIdx) -> (res: bool)
        ensures
            res == drawable(self.state(), origin_row as int),
    {
        let ft = self.buffer.get_file_type();
        match ft {
            FileType::Text => {},
            _ => return true,
        }
        let bound = origin_row.saturating_add(self.size.height).saturating_add(self.scroll_offset.row);
        let n = self.buffer.height();
        let mut i: usize = 0;
        while i < n && i < bound
            invariant
                i <= n == self.state().lines.len(),
                bound == sat_add(sat_add(origin_row as int, self.state().size.height as int), self.state().scroll.row as int),
                self.state().file_type == FileType::Text,
                forall|j: int| 0 <= j < i ==> #[trigger] email_cut_ok(self.state().lines[j]),
            decreases n - i,
        {
            if !TextSyntaxHighlighter::can_highlight(self.buffer.line(i)) {
                proof {
                    assert(!email_cut_ok(self.state().lines[i as int]));
                    assert(self.state().file_type == FileType::Text);
                    assert(0 <= i < bound && i < self.state().lines.len());
                    assert(!drawable(self.state(), origin_row as int));
                }
                return false;
            }
            i = i + 1;
        }
        true
    }

    /// The rows the view shows on screen from row `origin_row` down, one per
    /// row of its height (fewer where the screen's rows run out), with their
    /// highlighting, for the program `name` at `version`.
    pub fn draw(&self, origin_row: RowIdx, name: &str, version: &str) -> (res: Vec<AnnotatedString>)
        requires
            drawable(self.state(), origin_row as int),
        ensures
            res.len() == sat_add(origin_row as int, self.state().size.height as int) - origin_row,
            forall|i: int| 0 <= i < res.len() ==> {
                let d = drawn_row(self.state(), origin_row as int, origin_row + i, welcome_text(name@, version@));
                &&& (#[trigger] res[i]).string@ == d.0
                &&& res[i].annotations@ == d.1
            },
    {
        let height = self.size.height;
        let width = self.size.width;
        let end_y = origin_row.saturating_add(height);
        let top_third = if height % 3 == 0 { height / 3 } else { height / 3 + 1 };
        let scroll_top = self.scroll_offset.row;
        let left = self.scroll_offset.col;
        let right = left.saturating_add(width);
        let file_type = self.buffer.get_file_type();
        let n = self.buffer.height();
        let bound = end_y.saturating_add(scroll_top);
        let ghost lines = self.state().lines;
        let mut md = MarkDownSyntaxHighlighter::new();
        let mut tx = TextSyntaxHighlighter::new();
        let mut i: usize = 0;
        while i < n && i < bound
            invariant
                i <= n == lines.len(),
                i <= bound,
                lines == self.state().lines,
                file_type == self.state().file_type,
                bound == sat_add(sat_add(origin_row as int, height as int), scroll_top as int),
                height == self.state().size.height,
                scroll_top == self.state().scroll.row,
                drawable(self.state(), origin_row as int),
                md.lines().len() == (if file_type == FileType::MarkDown { i as int } else { 0 }),
                tx.lines().len() == (if file_type == FileType::Text { i as int } else { 0 }),
                file_type == FileType::MarkDown ==> md.in_block() == md_open_before(lines, i as int),
                file_type == FileType::MarkDown ==> forall|j: int| 0 <= j < i ==> #[trigger] md.lines()[j] == syntax_annotations(lines, file_type, j),
                file_type == FileType::Text ==> forall|j: int| 0 <= j < i ==> #[trigger] tx.lines()[j] == syntax_annotations(lines, file_type, j),
            decreases n - i,
        {
            let line = self.buffer.line(i);
            match file_type {
                FileType::MarkDown => {
                    md.highlight(i, line);
                },
                FileType::Text => {
                    tx.highlight(i, line);
                },
                FileType::Rust => {},
            }
            i = i + 1;
        }
        let (_, searching_query) = self.search_status();
        let empty_query = Line::new();
        let no_annotations: Vec<Annotation> = Vec::new();
        let mut rows: Vec<AnnotatedString> = Vec::new();
        let mut current_row = origin_row;
        while current_row < end_y
            invariant
                origin_row <= current_row <= end_y,
                end_y == sat_add(origin_row as int, self.state().size.height as int),
                height == self.state().size.height,
                width == self.state().size.width,
                top_third == welcome_row(height as nat),
                scroll_top == self.state().scroll.row,
                left == self.state().scroll.col,
                right == sat_add(left as int, width as int),
                lines == self.state().lines,
                n == lines.len(),
                file_type == self.state().file_type,
                bound == sat_add(end_y as int, scroll_top as int),
                searching_query == has_query(self.state()),
                empty_query@ == Seq::<char>::empty(),
                no_annotations@ == Seq::<Annotation>::empty(),
                md.lines().len() == (if file_type == FileType::MarkDown { if n < bound { n as int } else { bound as int } } else { 0 }),
                tx.lines().len() == (if file_type == FileType::Text { if n < bound { n as int } else { bound as int } } else { 0 }),
                file_type == FileType::MarkDown ==> forall|j: int| 0 <= j < md.lines().len() ==> #[trigger] md.lines()[j] == syntax_annotations(lines, file_type, j),
                file_type == FileType::Text ==> forall|j: int| 0 <= j < tx.lines().len() ==> #[trigger] tx.lines()[j] == syntax_annotations(lines, file_type, j),
                rows.len() == current_row - origin_row,
                forall|k: int| 0 <= k < rows.len() ==> {
                    let d = drawn_row(self.state(), origin_row as int, origin_row + k, welcome_text(name@, version@));
                    &&& (#[trigger] rows[k]).string@ == d.0
                    &&& rows[k].annotations@ == d.1
                },
            decreases end_y - current_row,
        {
            let line_idx = (current_row - origin_row).saturating_add(scroll_top);
            let row = if line_idx < n {
                assert(line_idx < bound);
                let line = self.buffer.line(line_idx);
                let syntax: &Vec<Annotation> = match file_type {
                    FileType::MarkDown => match md.get_annotations(line_idx) {
                        Some(v) => v,
                        None => &no_annotations,
                    },
                    FileType::Text => match tx.get_annotations(line_idx) {
                        Some(v) => v,
                        None => &no_annotations,
                    },
                    FileType::Rust => &no_annotations,
                };
                let marks = if searching_query {
                    let query = match self.get_search_query() {
                        Some(q) => q,
                        None => &empty_query,
                    };
                    let selected = if self.text_location.line_idx == line_idx { Some(self.text_location.grapheme_idx) } else { None };
                    line_marks_of(line, syntax, query, selected)
                } else {
                    line_marks_of(line, syntax, &empty_query, None)
                };
                shown_row(line.chars(), &marks, left, right)
            } else if current_row == top_third && self.buffer.is_empty() {
                AnnotatedString { string: Self::build_welcome_message(width, name, version), annotations: Vec::new() }
            } else {
                proof {
                    reveal_strlit("~");
                }
                AnnotatedString { string: "~".to_string(), annotations: Vec::new() }
            };
            proof {
                assert(rows@.push(row)[rows.len() as int] == row);
            }
            rows.push(row);
            current_row = current_row + 1;
        }
        rows
    }

    // Editing.

    /// Carries out the edit command `command` at the caret.  Typing a
    /// character reads the clock: it joins the previous keystroke in the undo
    /// history only when that came less than [`GROUP_TIMEOUT_MS`] before and
    /// where typing was expected to continue.
    pub fn handle_edit_command(&mut self, command: Edit)
        requires
            caret_in_text(old(self).state().lines, old(self).state().caret),
        ensures
            caret_in_text(final(self).state().lines, final(self).state().caret),
            match command {
                Edit::Insert(c) => exists|now: Instant, join: bool| {
                    &&& final(self).state() == after_insert(old(self).state(), c, join, now)
                    &&& join ==> old(self).state().last_insert_time is Some
                        && old(self).state().last_insert_location == Some(old(self).state().caret)
                },
                _ => final(self).state() == after_edit(old(self).state(), command),
            },
    {
        match command {
            Edit::Insert(character) => self.insert_char(character),
            Edit::Delete => self.delete(),
            Edit::DeleteBackward => self.delete_backward(),
            Edit::InsertNewLine => self.insert_newline(),
        }
    }

    fn insert_char(&mut self, character: char)
        requires
            caret_in_text(old(self).state().lines, old(self).state().caret),
        ensures
            caret_in_text(final(self).state().lines, final(self).state().caret),
            exists|now: Instant, join: bool| {
                &&& final(self).state() == after_insert(old(self).state(), character, join, now)
                &&& join ==> old(self).state().last_insert_time is Some
                    && old(self).state().last_insert_location == Some(old(self).state().caret)
            },
    {
        let now = instant_now();
        let elapsed = match self.last_insert_time {
            Some(t) => Some(whole_millis(duration_since(now, t))),
            None => None,
        };
        self.insert_char_at_time(character, now, elapsed);
    }

    /// Types `character` at the caret at time `now`, `elapsed_ms` milliseconds
    /// after the previous keystroke (`None` when there was none to measure
    /// from).  The keystroke joins the previous one in the undo history when
    /// [`joins_group`] holds.
    pub fn insert_char_at_time(&mut self, character: char, now: Instant, elapsed_ms: Option<u128>)
        requires
            caret_in_text(old(self).state().lines, old(self).state().caret),
        ensures
            caret_in_text(final(self).state().lines, final(self).state().caret),
            final(self).state() == after_insert(old(self).state(), character, joins_group(old(self).state(), elapsed_ms), now),
    {
        let ghost s = self.state();
        let loc = self.text_location;
        let old_len = self.buffer.grapheme_count(loc.line_idx);
        self.buffer.insert_char(character, loc);
        self.redo_stack.clear();
        let should_group = match elapsed_ms {
            Some(e) => e < GROUP_TIMEOUT_MS,
            None => false,
        } && match self.last_insert_location {
            Some(l) => l.line_idx == loc.line_idx && l.grapheme_idx == loc.grapheme_idx,
            None => false,
        };
        let ghost undo0 = self.undo_stack@;
        let mut pushed = false;
        if should_group {
            let top = self.undo_stack.pop();
            match top {
                Some(EditOperation::InsertGroup { start, chars }) => {
                    let mut chars = chars;
                    chars.push(character);
                    self.undo_stack.push(EditOperation::InsertGroup { start, chars });
                    pushed = true;
                },
                Some(EditOperation::InsertChar { at, text }) => {
                    let mut chars: Vec<char> = Vec::new();
                    chars.push(text);
                    chars.push(character);
                    self.undo_stack.push(EditOperation::InsertGroup { start: at, chars });
                    proof {
                        assert(chars@ =~= seq![text, character]);
                    }
                    pushed = true;
                },
                Some(other) => {
                    self.undo_stack.push(other);
                    proof {
                        assert(self.undo_stack@ =~= undo0);
                    }
                },
                None => {},
            }
        }
        if !pushed {
            self.undo_stack.push(EditOperation::InsertChar { at: loc, text: character });
        }
        self.last_insert_time = Some(now);
        proof {
            assert(self.state().undo =~= typed_undo(s.undo, loc, character, joins_group(s, elapsed_ms)));
            assert(self.state().redo =~= Seq::<EditOp>::empty());
        }
        let new_len = self.buffer.grapheme_count(loc.line_idx);
        if new_len.saturating_sub(old_len) > 0 {
            self.handle_move_command(Move::Right);
        }
        self.last_insert_location = Some(self.text_location);
        self.mark_redraw(true);
    }

    fn insert_newline(&mut self)
        requires
            caret_in_text(old(self).state().lines, old(self).state().caret),
        ensures
            caret_in_text(final(self).state().lines, final(self).state().caret),
            final(self).state() == after_newline(old(self).state()),
    {
        let ghost s = self.state();
        self.last_insert_time = None;
        self.last_insert_location = None;
        let grapheme_count_at_split = self.buffer.grapheme_count(self.text_location.line_idx);
        self.undo_stack.push(EditOperation::InsertNewLine { at: self.text_location, grapheme_count_at_split });
        self.redo_stack.clear();
        self.buffer.insert_newline(self.text_location);
        proof {
            assert(self.state().undo =~= s.undo.push(EditOp::InsertNewLine {
                at: s.caret,
                grapheme_count_at_split: count_at(s.lines, s.caret.line_idx as int) as usize,
            }));
            assert(self.state().redo =~= Seq::<EditOp>::empty());
        }
        self.handle_move_command(Move::Right);
        self.mark_redraw(true);
    }

    fn delete_backward(&mut self)
        requires
            caret_in_text(old(self).state().lines, old(self).state().caret),
        ensures
            caret_in_text(final(self).state().lines, final(self).state().caret),
            final(self).state() == after_delete_backward(old(self).state()),
    {
        let ghost s = self.state();
        self.last_insert_time = None;
        self.last_insert_location = None;
        if self.text_location.line_idx == 0 && self.text_location.grapheme_idx == 0 {
            return;
        }
        if self.text_location.grapheme_idx == 0 {
            let prev_line_idx = self.text_location.line_idx.saturating_sub(1);
            let split_at = self.buffer.grapheme_count(prev_line_idx);
            self.undo_stack.push(EditOperation::DeleteNewLine { line_idx: prev_line_idx, split_at_grapheme: split_at });
            self.redo_stack.clear();
            proof {
                assert(self.state().undo =~= s.undo.push(EditOp::DeleteNewLine {
                    line_idx: prev_line_idx,
                    split_at_grapheme: split_at,
                }));
                assert(self.state().redo =~= Seq::<EditOp>::empty());
            }
            self.handle_move_command(Move::Left);
            self.buffer.delete(self.text_location);
        } else {
            self.handle_move_command(Move::Left);
            let ghost s2 = self.state();
            match self.buffer.get_char_at(self.text_location) {
                Some(ch) => {
                    let ghost u0 = self.undo_stack@;
                    self.undo_stack.push(EditOperation::DeleteChar { at: self.text_location, text: ch });
                    proof {
                        lemma_view_push(u0, EditOperation::DeleteChar { at: s2.caret, text: ch });
                    }
                    self.redo_stack.clear();
                    self.buffer.delete(self.text_location);
                    proof {
                        assert(self.state().undo =~= s2.undo.push(EditOp::DeleteChar { at: s2.caret, text: ch }));
                        assert(self.state().redo =~= Seq::<EditOp>::empty());
                    }
                },
                None => {},
            }
        }
        self.mark_redraw(true);
    }

    fn delete(&mut self)
        requires
            caret_in_text(old(self).state().lines, old(self).state().caret),
        ensures
            caret_in_text(final(self).state().lines, final(self).state().caret),
            final(self).state() == after_delete(old(self).state()),
    {
        let ghost s = self.state();
        self.last_insert_time = None;
        self.last_insert_location = None;
        let at = self.text_location;
        let grapheme_count = self.buffer.grapheme_count(at.line_idx);
        if at.grapheme_idx >= grapheme_count {
            if at.line_idx.saturating_add(1) < self.buffer.height() {
                self.undo_stack.push(EditOperation::DeleteNewLine { line_idx: at.line_idx, split_at_grapheme: grapheme_count });
                self.redo_stack.clear();
                self.buffer.delete(at);
                proof {
                    assert(self.state().undo =~= s.undo.push(EditOp::DeleteNewLine {
                        line_idx: at.line_idx,
                        split_at_grapheme: grapheme_count,
                    }));
                    assert(self.state().redo =~= Seq::<EditOp>::empty());
                }
            }
        } else {
            match self.buffer.get_char_at(at) {
                Some(ch) => {
                    let ghost u0 = self.undo_stack@;
                    self.undo_stack.push(EditOperation::DeleteChar { at, text: ch });
                    proof {
                        lemma_view_push(u0, EditOperation::DeleteChar { at, text: ch });
                    }
                    self.redo_stack.clear();
                    self.buffer.delete(at);
                    proof {
                        assert(self.state().undo =~= s.undo.push(EditOp::DeleteChar { at, text: ch }));
                        assert(self.state().redo =~= Seq::<EditOp>::empty());
                    }
                },
                None => {},
            }
        }
        self.mark_redraw(true);
    }

    // Undo and redo.

    /// Takes back the last change, if there is one, moving it to the redo
    /// stack, and scrolls to show the caret.
    pub fn undo(&mut self)
        requires
            undo_keeps_caret_in_text(old(self).state()),
        ensures
            final(self).state() == after_undo(old(self).state()),
    {
        let ghost s = self.state();
        let ghost u = self.undo_stack@;
        match self.undo_stack.pop() {
            Some(op) => {
                proof {
                    assert(u.drop_last().map_values(|o: EditOperation| o@) =~= s.undo.drop_last());
                    assert(op@ == s.undo.last());
                }
                self.apply_undo(&op);
                let ghost r = self.redo_stack@;
                self.redo_stack.push(op);
                proof {
                    lemma_view_push(r, op);
                }
                self.scroll_text_location_into_view();
                self.mark_redraw(true);
            },
            None => {},
        }
    }

    /// Makes the last undone change again, if there is one, moving it back to
    /// the undo stack, and scrolls to show the caret.
    pub fn redo(&mut self)
        requires
            redo_keeps_caret_in_text(old(self).state()),
        ensures
            final(self).state() == after_redo(old(self).state()),
    {
        let ghost s = self.state();
        let ghost r = self.redo_stack@;
        match self.redo_stack.pop() {
            Some(op) => {
                proof {
                    assert(r.drop_last().map_values(|o: EditOperation| o@) =~= s.redo.drop_last());
                    assert(op@ == s.redo.last());
                }
                self.apply_redo(&op);
                let ghost u = self.undo_stack@;
                self.undo_stack.push(op);
                proof {
                    lemma_view_push(u, op);
                }
                self.scroll_text_location_into_view();
                self.mark_redraw(true);
            },
            None => {},
        }
    }

    /// Whether undoing now leaves the caret on a line of the text or one of
    /// the two after it, as [`View::undo`] asks.
    pub fn undo_is_safe(&self) -> (res: bool)
        ensures
            res == undo_keeps_caret_in_text(self.state()),
    {
        let n = self.undo_stack.len();
        if n == 0 {
            return true;
        }
        let len = self.buffer.height() as u128;
        let op = &self.undo_stack[n - 1];
        proof {
            assert(op@ == self.state().undo.last());
        }
        match op {
            EditOperation::InsertChar { at, .. } => {
                (at.line_idx as u128) <= (self.buffer.height_after_delete(*at) as u128) + 1
            },
            EditOperation::DeleteChar { at, .. } => {
                let after = if (at.line_idx as u128) == len { len + 1 } else { len };
                (at.line_idx as u128) <= after + 1
            },
            EditOperation::InsertNewLine { at, grapheme_count_at_split } => {
                let split = Location { line_idx: at.line_idx, grapheme_idx: *grapheme_count_at_split };
                (at.line_idx as u128) <= (self.buffer.height_after_delete(split) as u128) + 1
            },
            EditOperation::DeleteNewLine { line_idx, .. } => {
                let after = if (*line_idx as u128) <= len { len + 1 } else { len };
                (line_idx.saturating_add(1) as u128) <= after + 1
            },
            EditOperation::InsertGroup { start, chars } => {
                proof {
                    crate::edit::lemma_delete_run_keeps_line(self.state().lines, *start, group_end(*start, chars@.len()) - start.grapheme_idx);
                }
                (start.line_idx as u128) <= len + 1
            },
        }
    }

    /// Whether redoing now leaves the caret on a line of the text or one of
    /// the two after it, as [`View::redo`] asks.
    pub fn redo_is_safe(&self) -> (res: bool)
        ensures
            res == redo_keeps_caret_in_text(self.state()),
    {
        let n = self.redo_stack.len();
        if n == 0 {
            return true;
        }
        let len = self.buffer.height() as u128;
        let op = &self.redo_stack[n - 1];
        proof {
            assert(op@ == self.state().redo.last());
        }
        match op {
            EditOperation::InsertChar { at, .. } => {
                let after = if (at.line_idx as u128) == len { len + 1 } else { len };
                (at.line_idx as u128) <= after + 1
            },
            EditOperation::DeleteChar { at, .. } => {
                (at.line_idx as u128) <= (self.buffer.height_after_delete(*at) as u128) + 1
            },
            EditOperation::InsertNewLine { at, .. } => {
                let after = if (at.line_idx as u128) <= len { len + 1 } else { len };
                (at.line_idx.saturating_add(1) as u128) <= after + 1
            },
            EditOperation::DeleteNewLine { line_idx, split_at_grapheme } => {
                let at = Location { line_idx: *line_idx, grapheme_idx: *split_at_grapheme };
                (*line_idx as u128) <= (self.buffer.height_after_delete(at) as u128) + 1
            },
            EditOperation::InsertGroup { start, chars } => {
                proof {
                    crate::edit::lemma_insert_run_keeps_line(self.state().lines, chars@, *start);
                }
                (start.line_idx as u128) <= len + 1
            },
        }
    }

    fn apply_undo(&mut self, op: &EditOperation)
        ensures
            final(self).state() == (ViewState {
                lines: undo_effect(old(self).state().lines, op@).0,
                caret: undo_effect(old(self).state().lines, op@).1,
                modified: old(self).state().modified || undo_touches(old(self).state().lines, op@),
                ..old(self).state()
            }),
    {
        match op {
            EditOperation::InsertChar { at, .. } => {
                self.buffer.delete(*at);
                self.text_location = *at;
            },
            EditOperation::DeleteChar { at, text } => {
                self.buffer.insert_char(*text, *at);
                self.text_location = *at;
            },
            EditOperation::InsertNewLine { at, grapheme_count_at_split } => {
                self.buffer.delete(Location { line_idx: at.line_idx, grapheme_idx: *grapheme_count_at_split });
                self.text_location = *at;
            },
            EditOperation::DeleteNewLine { line_idx, split_at_grapheme } => {
                self.buffer.insert_newline(Location { line_idx: *line_idx, grapheme_idx: *split_at_grapheme });
                self.text_location = Location { line_idx: line_idx.saturating_add(1), grapheme_idx: 0 };
            },
            EditOperation::InsertGroup { start, chars } => {
                let ghost lines0 = self.state().lines;
                let ghost dirty0 = self.state().modified;
                let end_grapheme = start.grapheme_idx.saturating_add(chars.len());
                let ghost total = end_grapheme - start.grapheme_idx;
                let mut grapheme_idx = end_grapheme;
                while grapheme_idx > start.grapheme_idx
                    invariant
                        start.grapheme_idx <= grapheme_idx <= end_grapheme,
                        total == end_grapheme - start.grapheme_idx,
                        end_grapheme == group_end(*start, chars@.len()),
                        delete_run(lines0, *start, total) == delete_run(self.state().lines, *start, grapheme_idx - start.grapheme_idx),
                        (dirty0 || delete_run_changes(lines0, *start, total)) == (self.state().modified || delete_run_changes(self.state().lines, *start, grapheme_idx - start.grapheme_idx)),
                        self.state().caret == old(self).state().caret,
                        self.state() == (ViewState {
                            lines: self.state().lines,
                            modified: self.state().modified,
                            ..old(self).state()
                        }),
                    decreases grapheme_idx,
                {
                    grapheme_idx = grapheme_idx - 1;
                    self.buffer.delete(Location { line_idx: start.line_idx, grapheme_idx });
                }
                self.text_location = *start;
            },
        }
    }

    fn apply_redo(&mut self, op: &EditOperation)
        ensures
            final(self).state() == (ViewState {
                lines: redo_effect(old(self).state().lines, op@).0,
                caret: redo_effect(old(self).state().lines, op@).1,
                modified: old(self).state().modified || redo_touches(old(self).state().lines, op@),
                ..old(self).state()
            }),
    {
        match op {
            EditOperation::InsertChar { at, text } => {
                self.buffer.insert_char(*text, *at);
                self.text_location = Location { line_idx: at.line_idx, grapheme_idx: at.grapheme_idx.saturating_add(1) };
            },
            EditOperation::DeleteChar { at, .. } => {
                self.buffer.delete(*at);
                self.text_location = *at;
            },
            EditOperation::InsertNewLine { at, .. } => {
                self.buffer.insert_newline(*at);
                self.text_location = Location { line_idx: at.line_idx.saturating_add(1), grapheme_idx: 0 };
            },
            EditOperation::DeleteNewLine { line_idx, split_at_grapheme } => {
                self.buffer.delete(Location { line_idx: *line_idx, grapheme_idx: *split_at_grapheme });
                self.text_location = Location { line_idx: *line_idx, grapheme_idx: *split_at_grapheme };
            },
            EditOperation::InsertGroup { start, chars } => {
                let ghost lines0 = self.state().lines;
                let ghost dirty0 = self.state().modified;
                let mut current = *start;
                let mut i: usize = 0;
                proof {
                    assert(chars@.skip(0) =~= chars@);
                }
                while i < chars.len()
                    invariant
                        i <= chars@.len(),
                        insert_run(lines0, chars@, *start) == insert_run(self.state().lines, chars@.skip(i as int), current),
                        (dirty0 || insert_run_changes(lines0, chars@, *start)) == (self.state().modified || insert_run_changes(self.state().lines, chars@.skip(i as int), current)),
                        self.state() == (ViewState {
                            lines: self.state().lines,
                            modified: self.state().modified,
                            ..old(self).state()
                        }),
                    decreases chars@.len() - i,
                {
                    let ch = chars[i];
                    proof {
                        assert(chars@.skip(i as int)[0] == ch);
                        assert(chars@.skip(i as int).drop_first() =~= chars@.skip(i + 1));
                    }
                    self.buffer.insert_char(ch, current);
                    current.grapheme_idx = current.grapheme_idx.saturating_add(1);
                    i = i + 1;
                }
                proof {
                    assert(chars@.skip(chars@.len() as int) =~= Seq::<char>::empty());
                }
                self.text_location = current;
            },
        }
    }

    // Search.

    /// Starts a search, remembering where the caret and the scroll are.
    pub fn enter_search(&mut self)
        ensures
            final(self).state() == after_enter_search(old(self).state()),
    {
        self.search_info = Some(SearchInfo {
            prev_location: self.text_location,
            prev_scroll_offset: self.scroll_offset,
            query: None,
        });
    }

    /// Where the caret was when the search in progress started, if one is in
    /// progress.
    pub fn search_start(&self) -> (res: Option<Location>)
        ensures
            match self.state().search {
                Some(info) => res == Some(info.prev_location),
                None => res is None,
            },
    {
        match &self.search_info {
            Some(info) => Some(info.prev_location),
            None => None,
        }
    }

    /// Whether a search is in progress, and whether it has a query.
    pub fn search_status(&self) -> (res: (bool, bool))
        ensures
            res.0 == self.state().search is Some,
            res.1 == has_query(self.state()),
    {
        match &self.search_info {
            Some(info) => (true, info.query.is_some()),
            None => (false, false),
        }
    }

    /// Ends the search, leaving the caret where the search put it.
    pub fn exit_search(&mut self)
        ensures
            final(self).state() == (ViewState { search: None, needs_redraw: true, ..old(self).state() }),
    {
        self.search_info = None;
        self.mark_redraw(true);
    }

    /// Ends the search and puts the caret and the scroll back where they were
    /// when it started (then scrolls to show the caret).
    pub fn dismiss_search(&mut self)
        requires
            old(self).state().search matches Some(info) ==> caret_in_text(old(self).state().lines, info.prev_location),
        ensures
            final(self).state() == after_dismiss_search(old(self).state()),
    {
        match &self.search_info {
            Some(search_info) => {
                self.text_location = search_info.prev_location;
                self.scroll_offset = search_info.prev_scroll_offset;
                self.scroll_text_location_into_view();
            },
            None => {},
        }
        self.exit_search();
    }

    /// Searches forward for `query` from the caret, wrapping around, and
    /// centres the view on the match found.
    pub fn search(&mut self, query: &str)
        requires
            old(self).state().search is Some,
        ensures
            final(self).state() == after_search_step(old(self).state(), SearchStep::Query(query@)),
    {
        match &mut self.search_info {
            Some(search_info) => {
                search_info.query = Some(Line::from_text(query));
            },
            None => {},
        }
        self.search_in_direction(self.text_location, SearchDirection::Forward);
    }

    fn get_search_query(&self) -> (res: Option<&Line>)
        requires
            has_query(self.state()),
        ensures
            res matches Some(q) && q@ == search_query(self.state()),
    {
        match &self.search_info {
            Some(info) => match &info.query {
                Some(q) => Some(q),
                None => None,
            },
            None => None,
        }
    }

    fn search_in_direction(&mut self, from: Location, direction: SearchDirection)
        requires
            has_query(old(self).state()),
        ensures
            final(self).state() == after_search_from(old(self).state(), from, direction),
    {
        let found = match self.get_search_query() {
            Some(query) => if query.is_empty() {
                None
            } else {
                match direction {
                    SearchDirection::Forward => self.buffer.search_forward(query, from),
                    SearchDirection::Backward => self.buffer.search_backward(query, from),
                }
            },
            None => None,
        };
        match found {
            Some(location) => {
                self.text_location = location;
                self.center_text_location();
            },
            None => {},
        }
        self.mark_redraw(true);
    }

    /// Searches forward for the query from one grapheme after the caret (from
    /// the caret itself for an empty query), wrapping around.
    pub fn search_next(&mut self)
        requires
            has_query(old(self).state()),
        ensures
            final(self).state() == after_search_step(old(self).state(), SearchStep::Next),
    {
        let step_right = match self.get_search_query() {
            Some(query) => {
                let count = query.grapheme_count();
                if count < 1 { count } else { 1 }
            },
            None => 1,
        };
        let location = Location {
            line_idx: self.text_location.line_idx,
            grapheme_idx: self.text_location.grapheme_idx.saturating_add(step_right),
        };
        self.search_in_direction(location, SearchDirection::Forward);
    }

    /// Searches backward for the query from the caret, wrapping around.
    pub fn search_prev(&mut self)
        requires
            has_query(old(self).state()),
        ensures
            final(self).state() == after_search_step(old(self).state(), SearchStep::Prev),
    {
        self.search_in_direction(self.text_location, SearchDirection::Backward);
    }

    // Files.

    /// Replaces the document by the one stored at `file_name`, whose contents
    /// are `contents`.
    pub fn load(&mut self, file_name: &str, contents: &str)
        ensures
            final(self).state() == (ViewState {
                lines: text_lines(contents@),
                modified: false,
                path: Some(file_name@),
                file_type: file_type_of(file_name@),
                needs_redraw: true,
                ..old(self).state()
            }),
    {
        self.buffer = Buffer::from_text(file_name, contents);
        self.mark_redraw(true);
    }

    /// The contents that saving writes: each line followed by `\n`.
    pub fn file_contents(&self) -> (res: String)
        ensures
            res@ == file_text(self.state().lines),
    {
        self.buffer.file_contents()
    }

    /// The path of the document's file, if it has one.
    pub fn file_path(&self) -> (res: Option<String>)
        ensures
            match res {
                Some(p) => self.state().path == Some(p@),
                None => self.state().path is None,
            },
    {
        self.buffer.file_path()
    }

    /// Records that the document was written to its file; fails, changing
    /// nothing, when the document has no file.
    pub fn save(&mut self) -> (res: Result<(), SaveError>)
        ensures
            match res {
                Ok(()) => old(self).state().path is Some
                    && final(self).state() == (ViewState { modified: false, needs_redraw: true, ..old(self).state() }),
                Err(e) => old(self).state().path is None && e == SaveError::NoFilePath
                    && final(self).state() == old(self).state(),
            },
    {
        if !self.buffer.is_file_loaded() {
            return Err(SaveError::NoFilePath);
        }
        self.buffer.mark_saved();
        self.mark_redraw(true);
        Ok(())
    }

    /// Records that the document was written to the file `file_name`, which
    /// becomes its file.
    pub fn save_as(&mut self, file_name: &str)
        ensures
            final(self).state() == (ViewState {
                modified: false,
                path: Some(file_name@),
                file_type: file_type_of(file_name@),
                needs_redraw: true,
                ..old(self).state()
            }),
    {
        self.buffer.mark_saved_as(file_name);
        self.mark_redraw(true);
    }
}

impl Default for View {
    /// An empty view of an empty document with no file, as [`View::new`].
    fn default() -> (res: View)
        ensures
            is_fresh(res.state()),
    {
        View::new()
    }
}

/// The caret is on a line of the text, or just after the last line, and not
/// past the end of its line.
pub open spec fn caret_valid(lines: Seq<Seq<char>>, loc: Location) -> bool {
    &&& loc.line_idx <= lines.len()
    &&& loc.grapheme_idx <= count_at(lines, loc.line_idx as int)
}

/// Every line count and line length fits in a `usize`, as for any text held
/// in memory.
pub open spec fn text_fits(lines: Seq<Seq<char>>) -> bool {
    &&& lines.len() <= usize::MAX
    &&& forall|i: int| 0 <= i < lines.len() ==> #[trigger] lines[i].len() <= usize::MAX
}

/// Law: every caret movement keeps a valid caret valid.
pub proof fn lemma_move_keeps_caret_valid(lines: Seq<Seq<char>>, loc: Location, height: usize, m: Move)
    requires
        caret_valid(lines, loc),
    ensures
        caret_valid(lines, moved(lines, loc, height, m)),
{
}

/// Law: after scrolling to show the caret in a view of non-zero size, the
/// caret's screen position lies inside the view.
pub proof fn lemma_scroll_shows_caret(s: ViewState)
    requires
        s.size.height > 0,
        s.size.width > 0,
    ensures
        ({
            let t = scroll_caret_into_view(s);
            let p = caret_position(s.lines, s.caret);
            &&& t.scroll.row <= p.row < t.scroll.row + s.size.height
            &&& t.scroll.col <= p.col < t.scroll.col + s.size.width
        }),
{
}

/// Law: typing a character, not joined to the previous keystroke, and undoing
/// it gives back the text and the caret.
pub proof fn lemma_undo_insert(s: ViewState, c: char, now: Instant)
    requires
        s.caret.line_idx != s.lines.len(),
        s.caret.line_idx < s.lines.len() ==> s.caret.grapheme_idx <= s.lines[s.caret.line_idx as int].len(),
    ensures
        after_undo(after_insert(s, c, false, now)).lines == s.lines,
        after_undo(after_insert(s, c, false, now)).caret == s.caret,
{
    let op = EditOp::InsertChar { at: s.caret, text: c };
    let t = after_insert(s, c, false, now);
    assert(t.undo.last() == op);
    if s.caret.line_idx < s.lines.len() {
        crate::edit::lemma_undo_after_redo(s.lines, op);
    } else {
        assert(t.lines == s.lines);
    }
}

/// Law: breaking a line and undoing it gives back the text and the caret.
pub proof fn lemma_undo_newline(s: ViewState)
    requires
        text_fits(s.lines),
        s.caret.line_idx != s.lines.len(),
    ensures
        after_undo(after_newline(s)).lines == s.lines,
        after_undo(after_newline(s)).caret == s.caret,
{
    let op = EditOp::InsertNewLine {
        at: s.caret,
        grapheme_count_at_split: count_at(s.lines, s.caret.line_idx as int) as usize,
    };
    assert(after_newline(s).undo.last() == op);
    if s.caret.line_idx < s.lines.len() {
        assert(s.lines[s.caret.line_idx as int].len() <= usize::MAX);
        crate::edit::lemma_undo_after_redo(s.lines, op);
    }
}

/// Law: a delete that changes the text is taken back exactly by undo, which
/// puts the caret back where it was when a grapheme (`c`) was deleted.
pub proof fn lemma_undo_delete(s: ViewState, c: char)
    requires
        text_fits(s.lines),
        after_delete(s).undo.len() > s.undo.len(),
        s.caret.grapheme_idx < count_at(s.lines, s.caret.line_idx as int)
            ==> s.lines[s.caret.line_idx as int][s.caret.grapheme_idx as int] == c,
    ensures
        after_undo(after_delete(s)).lines == s.lines,
        s.caret.grapheme_idx < count_at(s.lines, s.caret.line_idx as int) ==> after_undo(after_delete(s)).caret == s.caret,
{
    let at = s.caret;
    let li = at.line_idx as int;
    let t = after_delete(s);
    if at.grapheme_idx < count_at(s.lines, li) {
        assert(0 <= li < s.lines.len());
        assert(at.grapheme_idx < s.lines[li].len());
        let op = EditOp::DeleteChar { at, text: c };
        assert(t.undo == s.undo.push(op));
        crate::edit::lemma_undo_after_redo(s.lines, op);
    } else {
        assert(s.lines[li].len() <= usize::MAX);
        let op = EditOp::DeleteNewLine { line_idx: at.line_idx, split_at_grapheme: s.lines[li].len() as usize };
        assert(t.undo == s.undo.push(op));
        assert(redo_effect(s.lines, op).0 == t.lines);
        crate::edit::lemma_undo_after_redo(s.lines, op);
    }
}

/// Law: a backspace that records a change (deleting `c` when the caret is not
/// at the start of a line) is taken back exactly by undo, unless it joined
/// the start of the line just after the text, or of the one after that.
pub proof fn lemma_undo_backspace(s: ViewState, c: char)
    requires
        text_fits(s.lines),
        after_delete_backward(s).undo.len() > s.undo.len(),
        s.caret.grapheme_idx == 0 ==> s.caret.line_idx < s.lines.len() || s.caret.line_idx > s.lines.len() + 1,
        s.caret.line_idx < s.lines.len() && 0 < s.caret.grapheme_idx <= s.lines[s.caret.line_idx as int].len()
            ==> s.lines[s.caret.line_idx as int][s.caret.grapheme_idx - 1] == c,
    ensures
        after_undo(after_delete_backward(s)).lines == s.lines,
{
    let li = s.caret.line_idx as int;
    let t = after_delete_backward(s);
    if s.caret.grapheme_idx == 0 {
        let prev = li - 1;
        let n = count_at(s.lines, prev);
        if li < s.lines.len() {
            assert(s.lines[prev].len() <= usize::MAX);
        }
        let at = Location { line_idx: prev as usize, grapheme_idx: n as usize };
        assert(move_up_by(s.lines, s.caret, 1).line_idx == prev);
        assert(moved(s.lines, s.caret, s.size.height, Move::Left) == at);
        let op = EditOp::DeleteNewLine { line_idx: prev as usize, split_at_grapheme: n as usize };
        assert(t.undo == s.undo.push(op));
        assert(redo_effect(s.lines, op).0 == t.lines);
        if li < s.lines.len() {
            crate::edit::lemma_undo_after_redo(s.lines, op);
        }
    } else {
        let at = Location { line_idx: s.caret.line_idx, grapheme_idx: (s.caret.grapheme_idx - 1) as usize };
        assert(moved(s.lines, s.caret, s.size.height, Move::Left) == at);
        let s0 = ViewState { last_insert_time: None, last_insert_location: None, ..s };
        let s2 = after_move(s0, Move::Left);
        assert(s2.caret == at && s2.undo == s.undo && s2.lines == s.lines);
        assert(li < s.lines.len() && at.grapheme_idx < s.lines[li].len());
        let op = EditOp::DeleteChar { at, text: c };
        assert(t.undo == s.undo.push(op));
        crate::edit::lemma_undo_after_redo(s.lines, op);
    }
}

/// Law: undoing the last change when it is present in the text and then
/// redoing it gives back the text and both histories.
pub proof fn lemma_redo_after_undo_view(s: ViewState)
    requires
        s.undo.len() > 0,
        crate::edit::undo_applies(s.lines, s.undo.last()),
    ensures
        after_redo(after_undo(s)).lines == s.lines,
        after_redo(after_undo(s)).undo == s.undo,
        after_redo(after_undo(s)).redo == s.redo,
{
    crate::edit::lemma_redo_after_undo(s.lines, s.undo.last());
    assert(after_undo(s).redo.last() == s.undo.last());
    assert(after_undo(s).redo.drop_last() =~= s.redo);
    assert(s.undo.drop_last().push(s.undo.last()) =~= s.undo);
}

/// Law: undo takes the last change off the undo history and puts it on the
/// redo history, and redo does the reverse; each does nothing when its
/// history is empty.
pub proof fn lemma_history_moves(s: ViewState)
    ensures
        s.undo.len() > 0 ==> after_undo(s).undo == s.undo.drop_last() && after_undo(s).redo == s.redo.push(s.undo.last()),
        s.undo.len() == 0 ==> after_undo(s) == s,
        s.redo.len() > 0 ==> after_redo(s).redo == s.redo.drop_last() && after_redo(s).undo == s.undo.push(s.redo.last()),
        s.redo.len() == 0 ==> after_redo(s) == s,
{
}

/// Law: every edit that records a change, and every typed character, clears
/// the redo history.
pub proof fn lemma_edits_clear_redo(s: ViewState, e: Edit, c: char, join: bool, now: Instant)
    ensures
        after_insert(s, c, join, now).redo.len() == 0,
        after_edit(s, e).undo.len() != s.undo.len() ==> after_edit(s, e).redo.len() == 0,
{
}

/// An occurrence of `query` at or after `from` makes a first one from
/// `from`.
proof fn lemma_first_match_exists(l: Seq<char>, query: Seq<char>, from: int, i: int)
    requires
        from <= i,
        matches_at(l, query, i),
    ensures
        exists|j: int| is_first_match_from(l, query, from, j),
    decreases i - from,
{
    if exists|j: int| from <= j < i && matches_at(l, query, j) {
        let j = choose|j: int| from <= j < i && matches_at(l, query, j);
        lemma_first_match_exists(l, query, from, j);
    } else {
        assert(is_first_match_from(l, query, from, i));
    }
}

/// Some occurrence of `query` ending at or before `end` makes a last one.
proof fn lemma_last_match_exists(l: Seq<char>, query: Seq<char>, end: int, i: int)
    requires
        i + query.len() <= end,
        matches_at(l, query, i),
    ensures
        exists|j: int| is_last_match_before(l, query, end, j),
    decreases end - i,
{
    if exists|j: int| i < j && j + query.len() <= end && matches_at(l, query, j) {
        let j = choose|j: int| i < j && j + query.len() <= end && matches_at(l, query, j);
        lemma_last_match_exists(l, query, end, j);
    } else {
        assert(is_last_match_before(l, query, end, i));
    }
}

/// What a forward search from step `k` finds is an occurrence of the query.
proof fn lemma_forward_step_matches(lines: Seq<Seq<char>>, query: Seq<char>, from: Location, k: int)
    requires
        text_fits(lines),
    ensures
        search_forward_from_step(lines, query, from, k) matches Some(loc) ==> {
            &&& loc.line_idx < lines.len()
            &&& matches_at(lines[loc.line_idx as int], query, loc.grapheme_idx as int)
        },
    decreases lines.len() + 1 - k,
{
    if !(k > lines.len() || k < 0 || lines.len() == 0) {
        let n = lines.len() as int;
        let li = forward_line(n, from.line_idx as int, k);
        vstd::arithmetic::div_mod::lemma_mod_pos_bound(from.line_idx as int + k, n);
        let l = lines[li];
        let start = if k == 0 { from.grapheme_idx as int } else { 0 };
        if start < l.len() && exists|i: int| start <= i && matches_at(l, query, i) {
            let i = choose|i: int| start <= i && matches_at(l, query, i);
            lemma_first_match_exists(l, query, start, i);
            let g = choose|g: int| is_first_match_from(l, query, start, g);
            assert(line_search_forward(l, query, start) == Some(g));
            assert(l.len() <= usize::MAX);
        } else {
            lemma_forward_step_matches(lines, query, from, k + 1);
        }
    }
}

/// What a backward search from step `k` finds is an occurrence of the query.
proof fn lemma_backward_step_matches(lines: Seq<Seq<char>>, query: Seq<char>, from: Location, k: int)
    requires
        text_fits(lines),
    ensures
        search_backward_from_step(lines, query, from, k) matches Some(loc) ==> {
            &&& loc.line_idx < lines.len()
            &&& matches_at(lines[loc.line_idx as int], query, loc.grapheme_idx as int)
        },
    decreases lines.len() + 1 - k,
{
    if !(k > lines.len() || k < 0 || lines.len() == 0) {
        let n = lines.len() as int;
        let skip = if from.line_idx + 1 <= n { n - from.line_idx - 1 } else { 0 };
        vstd::arithmetic::div_mod::lemma_mod_pos_bound(skip + k, n);
        let li = backward_line(n, from.line_idx as int, k);
        let l = lines[li];
        let start = if k == 0 { from.grapheme_idx as int } else { l.len() as int };
        let end = if start > l.len() { l.len() as int } else { start };
        if start > 0 && exists|i: int| i + query.len() <= end && matches_at(l, query, i) {
            let i = choose|i: int| i + query.len() <= end && matches_at(l, query, i);
            lemma_last_match_exists(l, query, end, i);
            let g = choose|g: int| is_last_match_before(l, query, end, g);
            assert(line_search_backward(l, query, start) == Some(g));
            assert(l.len() <= usize::MAX);
        } else {
            lemma_backward_step_matches(lines, query, from, k + 1);
        }
    }
}

/// Law: a search that finds something puts the caret on an occurrence of the
/// query in the text; one that finds nothing leaves the caret and the scroll
/// where they were.
pub proof fn lemma_search_lands_on_match(s: ViewState, from: Location, direction: SearchDirection)
    requires
        text_fits(s.lines),
    ensures
        ({
            let found = match direction {
                SearchDirection::Forward => buffer_search_forward(s.lines, search_query(s), from),
                SearchDirection::Backward => buffer_search_backward(s.lines, search_query(s), from),
            };
            let t = after_search_from(s, from, direction);
            &&& found matches Some(loc) ==> {
                &&& t.caret == loc
                &&& loc.line_idx < s.lines.len()
                &&& matches_at(s.lines[loc.line_idx as int], search_query(s), loc.grapheme_idx as int)
            }
            &&& found is None ==> t.caret == s.caret && t.scroll == s.scroll && t.lines == s.lines
        }),
{
    lemma_forward_step_matches(s.lines, search_query(s), from, 0);
    lemma_backward_step_matches(s.lines, search_query(s), from, 0);
}

/// Law: a search that finds a match shows it inside a view at least two rows
/// high and two columns wide.
pub proof fn lemma_found_match_is_shown(s: ViewState, from: Location, direction: SearchDirection)
    requires
        s.size.height >= 2,
        s.size.width >= 2,
    ensures
        ({
            let found = match direction {
                SearchDirection::Forward => buffer_search_forward(s.lines, search_query(s), from),
                SearchDirection::Backward => buffer_search_backward(s.lines, search_query(s), from),
            };
            let t = after_search_from(s, from, direction);
            let p = caret_position(t.lines, t.caret);
            found is Some ==> {
                &&& t.scroll.row <= p.row < t.scroll.row + t.size.height
                &&& t.scroll.col <= p.col < t.scroll.col + t.size.width
            }
        }),
{
}

/// The state after typing `chars` one after another at time `now`, each
/// keystroke after the first joining the previous one in the undo history.
pub open spec fn typed_group(s: ViewState, chars: Seq<char>, now: Instant) -> ViewState
    decreases chars.len(),
{
    if chars.len() == 0 {
        s
    } else {
        after_insert(typed_group(s, chars.drop_last(), now), chars.last(), chars.len() > 1, now)
    }
}

/// The change recorded for typing `chars` from `at` as one group: a single
/// insertion for one character.
pub open spec fn group_op(at: Location, chars: Seq<char>) -> EditOp {
    if chars.len() == 1 {
        EditOp::InsertChar { at, text: chars[0] }
    } else {
        EditOp::InsertGroup { start: at, chars }
    }
}

/// Typing a group of `k` characters on a line puts them at the caret, moves
/// the caret after them, and records one change.
proof fn lemma_typed_group_step(s: ViewState, chars: Seq<char>, now: Instant, k: int)
    requires
        s.caret.line_idx < s.lines.len(),
        s.caret.grapheme_idx <= s.lines[s.caret.line_idx as int].len(),
        s.caret.grapheme_idx + chars.len() <= usize::MAX,
        1 <= k <= chars.len(),
    ensures
        ({
            let t = typed_group(s, chars.take(k), now);
            let li = s.caret.line_idx as int;
            let g = s.caret.grapheme_idx as int;
            let l = s.lines[li];
            &&& t.lines == s.lines.update(li, l.take(g) + chars.take(k) + l.skip(g))
            &&& t.caret == Location { line_idx: s.caret.line_idx, grapheme_idx: (g + k) as usize }
            &&& t.undo == s.undo.push(group_op(s.caret, chars.take(k)))
        }),
    decreases k,
{
    let li = s.caret.line_idx as int;
    let g = s.caret.grapheme_idx as int;
    let l = s.lines[li];
    let c = chars[k - 1];
    assert(chars.take(k).drop_last() =~= chars.take(k - 1));
    assert(chars.take(k).last() == c);
    let prev = typed_group(s, chars.take(k - 1), now);
    if k == 1 {
        assert(chars.take(0) =~= Seq::<char>::empty());
        assert(prev == s);
        assert(l.take(g) + chars.take(1) + l.skip(g) =~= crate::line::line_insert(l, c, g));
    } else {
        lemma_typed_group_step(s, chars, now, k - 1);
        let l1 = l.take(g) + chars.take(k - 1) + l.skip(g);
        assert(prev.lines[li] == l1);
        assert(crate::line::line_insert(l1, c, g + k - 1) =~= l.take(g) + chars.take(k) + l.skip(g));
        assert(prev.undo.last() == group_op(s.caret, chars.take(k - 1)));
        if k == 2 {
            assert(chars.take(1)[0] == chars[0]);
            assert(seq![chars[0], c] =~= chars.take(2));
        } else {
            assert(chars.take(k - 1).push(c) =~= chars.take(k));
        }
        assert(prev.undo.drop_last() =~= s.undo);
    }
}

/// Law: typing characters on a line of the text as one group and undoing once
/// takes all of them back and puts the caret where the typing started; redoing
/// then types them all again, the caret after them.
pub proof fn lemma_undo_typed_group(s: ViewState, chars: Seq<char>, now: Instant)
    requires
        s.caret.line_idx < s.lines.len(),
        s.caret.grapheme_idx <= s.lines[s.caret.line_idx as int].len(),
        s.caret.grapheme_idx + chars.len() <= usize::MAX,
        chars.len() > 0,
    ensures
        typed_group(s, chars, now).undo.len() == s.undo.len() + 1,
        after_undo(typed_group(s, chars, now)).lines == s.lines,
        after_undo(typed_group(s, chars, now)).caret == s.caret,
        after_redo(after_undo(typed_group(s, chars, now))).lines == typed_group(s, chars, now).lines,
        after_redo(after_undo(typed_group(s, chars, now))).caret == typed_group(s, chars, now).caret,
{
    let n = chars.len() as int;
    lemma_typed_group_step(s, chars, now, n);
    assert(chars.take(n) =~= chars);
    let op = group_op(s.caret, chars);
    let li = s.caret.line_idx as int;
    let g = s.caret.grapheme_idx as int;
    let l = s.lines[li];
    if n == 1 {
        assert(l.take(g) + chars + l.skip(g) =~= crate::line::line_insert(l, chars[0], g));
    } else {
        crate::edit::lemma_insert_run(s.lines, chars, s.caret);
    }
    crate::edit::lemma_undo_after_redo(s.lines, op);
    assert(after_undo(typed_group(s, chars, now)).redo.last() == op);
}

/// Law: after a keystroke, the next one joins it in the undo history exactly
/// when it comes less than [`GROUP_TIMEOUT_MS`] later (typing continues where
/// the caret was left).
pub proof fn lemma_quick_keystrokes_join(s: ViewState, c: char, join: bool, now: Instant, elapsed_ms: u128)
    ensures
        joins_group(after_insert(s, c, join, now), Some(elapsed_ms)) <==> elapsed_ms < GROUP_TIMEOUT_MS,
{
}

/// One step of a search in progress: a new query searched from the caret, a
/// search for the next match, or one for the previous match.
pub enum SearchStep {
    Query(Seq<char>),
    Next,
    Prev,
}

/// The state after the search step `step`, as [`View::search`],
/// [`View::search_next`] and [`View::search_prev`] make it.
pub open spec fn after_search_step(s: ViewState, step: SearchStep) -> ViewState {
    match step {
        SearchStep::Query(q) => after_search_from(with_query(s, q), s.caret, SearchDirection::Forward),
        SearchStep::Next => after_search_from(
            s,
            Location {
                line_idx: s.caret.line_idx,
                grapheme_idx: sat_add(s.caret.grapheme_idx as int, if search_query(s).len() >= 1 { 1 } else { 0 }) as usize,
            },
            SearchDirection::Forward,
        ),
        SearchStep::Prev => after_search_from(s, s.caret, SearchDirection::Backward),
    }
}

/// The state after the search steps `steps`, in order.
pub open spec fn after_search_steps(s: ViewState, steps: Seq<SearchStep>) -> ViewState
    decreases steps.len(),
{
    if steps.len() == 0 {
        s
    } else {
        after_search_step(after_search_steps(s, steps.drop_last()), steps.last())
    }
}

/// Search steps keep the text, the size, and where the caret and the scroll
/// were when the search started.
proof fn lemma_search_steps_keep(s: ViewState, steps: Seq<SearchStep>)
    requires
        s.search is Some,
    ensures
        ({
            let t = after_search_steps(s, steps);
            &&& t.lines == s.lines
            &&& t.size == s.size
            &&& t.search matches Some(info) && info.prev_location == s.search->0.prev_location
                && info.prev_scroll_offset == s.search->0.prev_scroll_offset
        }),
    decreases steps.len(),
{
    if steps.len() > 0 {
        lemma_search_steps_keep(s, steps.drop_last());
    }
}

/// Law: starting a search, taking any search steps, and dismissing the search
/// gives back the text and the caret, and the scroll that shows it.
pub proof fn lemma_dismiss_after_search_steps(s: ViewState, steps: Seq<SearchStep>)
    ensures
        ({
            let t = after_dismiss_search(after_search_steps(after_enter_search(s), steps));
            &&& t.lines == s.lines
            &&& t.caret == s.caret
            &&& t.scroll == scroll_caret_into_view(s).scroll
            &&& t.search is None
        }),
{
    lemma_search_steps_keep(after_enter_search(s), steps);
}

/// Law: right after typing a character (not joined to the previous
/// keystroke), undoing and then redoing gives back the text and both
/// histories.
pub proof fn lemma_redo_undone_insert(s: ViewState, c: char, now: Instant)
    requires
        s.caret.line_idx == s.lines.len() ==> s.caret.grapheme_idx == 0,
        s.caret.line_idx < s.lines.len() ==> s.caret.grapheme_idx <= s.lines[s.caret.line_idx as int].len(),
    ensures
        ({
            let t = after_insert(s, c, false, now);
            &&& after_redo(after_undo(t)).lines == t.lines
            &&& after_redo(after_undo(t)).undo == t.undo
            &&& after_redo(after_undo(t)).redo == t.redo
        }),
{
    let t = after_insert(s, c, false, now);
    let op = EditOp::InsertChar { at: s.caret, text: c };
    assert(t.undo.last() == op);
    assert(t.undo.drop_last().push(op) =~= t.undo);
    if s.caret.line_idx < s.lines.len() {
        let li = s.caret.line_idx as int;
        assert(t.lines[li] == crate::line::line_insert(s.lines[li], c, s.caret.grapheme_idx as int));
        assert(t.lines[li][s.caret.grapheme_idx as int] == c);
        lemma_redo_after_undo_view(t);
    } else if s.caret.line_idx == s.lines.len() {
        assert(t.lines[s.lines.len() as int] == seq![c]);
        lemma_redo_after_undo_view(t);
    } else {
        assert(after_undo(t).redo.last() == op);
        assert(after_undo(t).redo.drop_last() =~= t.redo);
    }
}

/// Law: right after breaking a line, undoing and then redoing gives back the
/// text and both histories.
pub proof fn lemma_redo_undone_newline(s: ViewState)
    requires
        text_fits(s.lines),
        s.caret.line_idx != s.lines.len(),
    ensures
        ({
            let t = after_newline(s);
            &&& after_redo(after_undo(t)).lines == t.lines
            &&& after_redo(after_undo(t)).undo == t.undo
            &&& after_redo(after_undo(t)).redo == t.redo
        }),
{
    let t = after_newline(s);
    let li = s.caret.line_idx as int;
    let op = EditOp::InsertNewLine { at: s.caret, grapheme_count_at_split: count_at(s.lines, li) as usize };
    assert(t.undo.last() == op);
    if li < s.lines.len() {
        let l = s.lines[li];
        assert(l.len() <= usize::MAX);
        let p = crate::line::split_point(l, s.caret.grapheme_idx as int);
        assert(t.lines[li] == l.take(p));
        assert(t.lines[li + 1] == l.skip(p));
        assert(l.take(p) + l.skip(p) =~= l);
        lemma_redo_after_undo_view(t);
    } else {
        assert(after_undo(t).redo.last() == op);
        assert(after_undo(t).redo.drop_last() =~= t.redo);
        assert(t.undo.drop_last().push(op) =~= t.undo);
    }
}

/// Law: right after a delete that changes the text, undoing and then redoing
/// gives back the text and both histories.
pub proof fn lemma_redo_undone_delete(s: ViewState, c: char)
    requires
        text_fits(s.lines),
        after_delete(s).undo.len() > s.undo.len(),
        s.caret.grapheme_idx < count_at(s.lines, s.caret.line_idx as int)
            ==> s.lines[s.caret.line_idx as int][s.caret.grapheme_idx as int] == c,
    ensures
        ({
            let t = after_delete(s);
            &&& after_redo(after_undo(t)).lines == t.lines
            &&& after_redo(after_undo(t)).undo == t.undo
            &&& after_redo(after_undo(t)).redo == t.redo
        }),
{
    let t = after_delete(s);
    let li = s.caret.line_idx as int;
    if s.caret.grapheme_idx < count_at(s.lines, li) {
        assert(t.undo == s.undo.push(EditOp::DeleteChar { at: s.caret, text: c }));
    } else {
        assert(s.lines[li].len() <= usize::MAX);
        let op = EditOp::DeleteNewLine { line_idx: s.caret.line_idx, split_at_grapheme: s.lines[li].len() as usize };
        assert(t.undo == s.undo.push(op));
        assert(t.lines[li] == s.lines[li] + s.lines[li + 1]);
    }
    lemma_redo_after_undo_view(t);
}

/// Law: right after a backspace that records a change (with the caret not at
/// the start of the line just after the text, or of the one after that),
/// undoing and then redoing gives back the text and both histories.
pub proof fn lemma_redo_undone_backspace(s: ViewState, c: char)
    requires
        text_fits(s.lines),
        after_delete_backward(s).undo.len() > s.undo.len(),
        s.caret.grapheme_idx == 0 ==> s.caret.line_idx < s.lines.len() || s.caret.line_idx > s.lines.len() + 1,
        s.caret.line_idx < s.lines.len() && 0 < s.caret.grapheme_idx <= s.lines[s.caret.line_idx as int].len()
            ==> s.lines[s.caret.line_idx as int][s.caret.grapheme_idx - 1] == c,
    ensures
        ({
            let t = after_delete_backward(s);
            &&& after_redo(after_undo(t)).lines == t.lines
            &&& after_redo(after_undo(t)).undo == t.undo
            &&& after_redo(after_undo(t)).redo == t.redo
        }),
{
    let li = s.caret.line_idx as int;
    let t = after_delete_backward(s);
    if s.caret.grapheme_idx == 0 {
        let prev = li - 1;
        let n = count_at(s.lines, prev);
        if li < s.lines.len() {
            assert(s.lines[prev].len() <= usize::MAX);
        }
        let at = Location { line_idx: prev as usize, grapheme_idx: n as usize };
        assert(move_up_by(s.lines, s.caret, 1).line_idx == prev);
        assert(moved(s.lines, s.caret, s.size.height, Move::Left) == at);
        let op = EditOp::DeleteNewLine { line_idx: prev as usize, split_at_grapheme: n as usize };
        assert(t.undo == s.undo.push(op));
        assert(redo_effect(s.lines, op).0 == t.lines);
        if li < s.lines.len() {
            assert(t.lines[prev] == s.lines[prev] + s.lines[li]);
            lemma_redo_after_undo_view(t);
        } else {
            assert(after_undo(t).redo.last() == op);
            assert(after_undo(t).redo.drop_last() =~= t.redo);
            assert(t.undo.drop_last().push(op) =~= t.undo);
        }
    } else {
        let at = Location { line_idx: s.caret.line_idx, grapheme_idx: (s.caret.grapheme_idx - 1) as usize };
        assert(moved(s.lines, s.caret, s.size.height, Move::Left) == at);
        let s0 = ViewState { last_insert_time: None, last_insert_location: None, ..s };
        let s2 = after_move(s0, Move::Left);
        assert(s2.caret == at && s2.undo == s.undo && s2.lines == s.lines);
        assert(li < s.lines.len() && at.grapheme_idx < s.lines[li].len());
        let op = EditOp::DeleteChar { at, text: c };
        assert(t.undo == s.undo.push(op));
        lemma_redo_after_undo_view(t);
    }
}

/// Typing a group of `k` characters at the start of the line just after the
/// text makes them a new last line, moves the caret after them, and records
/// one change.
proof fn lemma_typed_group_step_new_line(s: ViewState, chars: Seq<char>, now: Instant, k: int)
    requires
        s.lines.len() < usize::MAX,
        s.caret == (Location { line_idx: s.lines.len() as usize, grapheme_idx: 0 }),
        chars.len() <= usize::MAX,
        1 <= k <= chars.len(),
    ensures
        ({
            let t = typed_group(s, chars.take(k), now);
            &&& t.lines == s.lines.push(chars.take(k))
            &&& t.caret == Location { line_idx: s.caret.line_idx, grapheme_idx: k as usize }
            &&& t.undo == s.undo.push(group_op(s.caret, chars.take(k)))
        }),
    decreases k,
{
    let n = s.lines.len() as int;
    let c = chars[k - 1];
    assert(chars.take(k).drop_last() =~= chars.take(k - 1));
    assert(chars.take(k).last() == c);
    let prev = typed_group(s, chars.take(k - 1), now);
    if k == 1 {
        assert(chars.take(0) =~= Seq::<char>::empty());
        assert(prev == s);
        assert(chars.take(1) =~= seq![c]);
    } else {
        lemma_typed_group_step_new_line(s, chars, now, k - 1);
        assert(prev.lines[n] == chars.take(k - 1));
        assert(crate::line::line_insert(chars.take(k - 1), c, k - 1) =~= chars.take(k));
        assert(prev.lines.update(n, chars.take(k)) =~= s.lines.push(chars.take(k)));
        assert(prev.undo.last() == group_op(s.caret, chars.take(k - 1)));
        if k == 2 {
            assert(chars.take(1)[0] == chars[0]);
            assert(seq![chars[0], c] =~= chars.take(2));
        } else {
            assert(chars.take(k - 1).push(c) =~= chars.take(k));
        }
        assert(prev.undo.drop_last() =~= s.undo);
    }
}

/// Law: typing characters as one group at the start of the line just after
/// the text (as in an empty document) and undoing once takes all of them back,
/// leaving that line empty, and puts the caret where the typing started;
/// redoing then types them all again, the caret after them.
pub proof fn lemma_undo_typed_group_new_line(s: ViewState, chars: Seq<char>, now: Instant)
    requires
        s.lines.len() < usize::MAX,
        s.caret == (Location { line_idx: s.lines.len() as usize, grapheme_idx: 0 }),
        chars.len() <= usize::MAX,
        chars.len() > 0,
    ensures
        typed_group(s, chars, now).undo.len() == s.undo.len() + 1,
        after_undo(typed_group(s, chars, now)).lines == s.lines.push(Seq::<char>::empty()),
        after_undo(typed_group(s, chars, now)).caret == s.caret,
        after_redo(after_undo(typed_group(s, chars, now))).lines == typed_group(s, chars, now).lines,
        after_redo(after_undo(typed_group(s, chars, now))).caret == typed_group(s, chars, now).caret,
{
    let n = chars.len() as int;
    let len = s.lines.len() as int;
    lemma_typed_group_step_new_line(s, chars, now, n);
    assert(chars.take(n) =~= chars);
    let t = typed_group(s, chars, now);
    let op = group_op(s.caret, chars);
    let emptied = s.lines.push(Seq::<char>::empty());
    if n == 1 {
        assert(crate::line::line_delete(chars, 0) =~= Seq::<char>::empty());
        assert(t.lines.update(len, Seq::<char>::empty()) =~= emptied);
        assert(crate::line::line_insert(Seq::<char>::empty(), chars[0], 0) =~= chars);
        assert(emptied.update(len, chars) =~= t.lines);
    } else {
        crate::edit::lemma_delete_run(t.lines, s.caret, n);
        assert(chars.take(0) + chars.skip(n) =~= Seq::<char>::empty());
        assert(t.lines.update(len, Seq::<char>::empty()) =~= emptied);
        crate::edit::lemma_insert_run(emptied, chars, s.caret);
        assert(Seq::<char>::empty().take(0) + chars + Seq::<char>::empty().skip(0) =~= chars);
        assert(emptied.update(len, chars) =~= t.lines);
    }
    assert(after_undo(t).redo.last() == op);
}

/// Law: redoing an undone line break puts the caret where the line break left
/// it: at the start of the new line.
pub proof fn lemma_redo_newline_caret(s: ViewState)
    requires
        text_fits(s.lines),
        s.lines.len() < usize::MAX,
        s.caret.line_idx <= s.lines.len(),
    ensures
        after_newline(s).caret == (Location { line_idx: (s.caret.line_idx + 1) as usize, grapheme_idx: 0 }),
        after_redo(after_undo(after_newline(s))).caret == after_newline(s).caret,
{
    let t = after_newline(s);
    let li = s.caret.line_idx as int;
    let op = EditOp::InsertNewLine { at: s.caret, grapheme_count_at_split: count_at(s.lines, li) as usize };
    assert(t.undo.last() == op);
    assert(after_undo(t).redo.last() == op);
    if li < s.lines.len() {
        let l = s.lines[li];
        let p = crate::line::split_point(l, s.caret.grapheme_idx as int);
        assert(insert_newline_at(s.lines, s.caret)[li] == l.take(p));
    }
}

} // verus!
