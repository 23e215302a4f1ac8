use vstd::prelude::*;
use crate::prelude::{Location, sat_add};
use crate::buffer::{insert_char_at, delete_at, insert_newline_at, delete_changes};
use crate::line::split_point;

verus! {

/// One undoable change to the text, as recorded on the undo and redo stacks.
#[derive(Debug)]
pub enum EditOperation {
    /// `text` was typed at `at`.
    InsertChar { at: Location, text: char },
    /// The grapheme `text` at `at` was deleted.
    DeleteChar { at: Location, text: char },
    /// The line was broken at `at`; it had `grapheme_count_at_split`
    /// graphemes before.
    InsertNewLine { at: Location, grapheme_count_at_split: usize },
    /// The line break after line `line_idx`, which had `split_at_grapheme`
    /// graphemes, was deleted.
    DeleteNewLine { line_idx: usize, split_at_grapheme: usize },
    /// `chars` were typed one after another starting at `start`.
    InsertGroup { start: Location, chars: Vec<char> },
}

/// The mathematical form of an [`EditOperation`].
pub enum EditOp {
    InsertChar { at: Location, text: char },
    DeleteChar { at: Location, text: char },
    InsertNewLine { at: Location, grapheme_count_at_split: usize },
    DeleteNewLine { line_idx: usize, split_at_grapheme: usize },
    InsertGroup { start: Location, chars: Seq<char> },
}

impl View for EditOperation {
    type V = EditOp;

    open spec fn view(&self) -> EditOp {
        match self {
            EditOperation::InsertChar { at, text } => EditOp::InsertChar { at: *at, text: *text },
            EditOperation::DeleteChar { at, text } => EditOp::DeleteChar { at: *at, text: *text },
            EditOperation::InsertNewLine { at, grapheme_count_at_split } => EditOp::InsertNewLine {
                at: *at,
                grapheme_count_at_split: *grapheme_count_at_split,
            },
            EditOperation::DeleteNewLine { line_idx, split_at_grapheme } => EditOp::DeleteNewLine {
                line_idx: *line_idx,
                split_at_grapheme: *split_at_grapheme,
            },
            EditOperation::InsertGroup { start, chars } => EditOp::InsertGroup {
                start: *start,
                chars: chars@,
            },
        }
    }
}

/// The grapheme just after the last one of a group of `n` graphemes typed from
/// `start` (clamped at `usize::MAX`).
pub open spec fn group_end(start: Location, n: nat) -> int {
    sat_add(start.grapheme_idx as int, n as int)
}

/// The text after deleting, on the line of `at`, the graphemes at
/// `at.grapheme_idx + k - 1` down to `at.grapheme_idx`, last one first.
pub open spec fn delete_run(lines: Seq<Seq<char>>, at: Location, k: int) -> Seq<Seq<char>>
    decreases k,
{
    if k <= 0 {
        lines
    } else {
        delete_run(
            delete_at(lines, Location { line_idx: at.line_idx, grapheme_idx: (at.grapheme_idx + k - 1) as usize }),
            at,
            k - 1,
        )
    }
}

/// The text and caret after typing `chars` one after another from `at`.
pub open spec fn insert_run(lines: Seq<Seq<char>>, chars: Seq<char>, at: Location) -> (Seq<Seq<char>>, Location)
    decreases chars.len(),
{
    if chars.len() == 0 {
        (lines, at)
    } else {
        insert_run(
            insert_char_at(lines, chars[0], at),
            chars.drop_first(),
            Location { line_idx: at.line_idx, grapheme_idx: sat_add(at.grapheme_idx as int, 1) as usize },
        )
    }
}

/// The text and caret after undoing `op` on `lines`.
pub open spec fn undo_effect(lines: Seq<Seq<char>>, op: EditOp) -> (Seq<Seq<char>>, Location) {
    match op {
        EditOp::InsertChar { at, text } => (delete_at(lines, at), at),
        EditOp::DeleteChar { at, text } => (insert_char_at(lines, text, at), at),
        EditOp::InsertNewLine { at, grapheme_count_at_split } => (
            delete_at(lines, Location { line_idx: at.line_idx, grapheme_idx: grapheme_count_at_split }),
            at,
        ),
        EditOp::DeleteNewLine { line_idx, split_at_grapheme } => (
            insert_newline_at(lines, Location { line_idx, grapheme_idx: split_at_grapheme }),
            Location { line_idx: sat_add(line_idx as int, 1) as usize, grapheme_idx: 0 },
        ),
        EditOp::InsertGroup { start, chars } => (
            delete_run(lines, start, group_end(start, chars.len()) - start.grapheme_idx),
            start,
        ),
    }
}

/// The text and caret after redoing `op` on `lines`.
pub open spec fn redo_effect(lines: Seq<Seq<char>>, op: EditOp) -> (Seq<Seq<char>>, Location) {
    match op {
        EditOp::InsertChar { at, text } => (
            insert_char_at(lines, text, at),
            Location { line_idx: at.line_idx, grapheme_idx: sat_add(at.grapheme_idx as int, 1) as usize },
        ),
        EditOp::DeleteChar { at, text } => (delete_at(lines, at), at),
        EditOp::InsertNewLine { at, grapheme_count_at_split } => (
            insert_newline_at(lines, at),
            Location { line_idx: sat_add(at.line_idx as int, 1) as usize, grapheme_idx: 0 },
        ),
        EditOp::DeleteNewLine { line_idx, split_at_grapheme } => {
            let at = Location { line_idx, grapheme_idx: split_at_grapheme };
            (delete_at(lines, at), at)
        },
        EditOp::InsertGroup { start, chars } => insert_run(lines, chars, start),
    }
}

/// Whether deleting the run of [`delete_run`] changes the text at some step.
pub open spec fn delete_run_changes(lines: Seq<Seq<char>>, at: Location, k: int) -> bool
    decreases k,
{
    if k <= 0 {
        false
    } else {
        let d = Location { line_idx: at.line_idx, grapheme_idx: (at.grapheme_idx + k - 1) as usize };
        delete_changes(lines, d) || delete_run_changes(delete_at(lines, d), at, k - 1)
    }
}

/// Whether typing the run of [`insert_run`] changes the text at some step.
pub open spec fn insert_run_changes(lines: Seq<Seq<char>>, chars: Seq<char>, at: Location) -> bool
    decreases chars.len(),
{
    if chars.len() == 0 {
        false
    } else {
        at.line_idx <= lines.len() || insert_run_changes(
            insert_char_at(lines, chars[0], at),
            chars.drop_first(),
            Location { line_idx: at.line_idx, grapheme_idx: sat_add(at.grapheme_idx as int, 1) as usize },
        )
    }
}

/// Whether undoing `op` on `lines` touches the text, which marks the document
/// modified.
pub open spec fn undo_touches(lines: Seq<Seq<char>>, op: EditOp) -> bool {
    match op {
        EditOp::InsertChar { at, .. } => delete_changes(lines, at),
        EditOp::DeleteChar { at, .. } => at.line_idx <= lines.len(),
        EditOp::InsertNewLine { at, grapheme_count_at_split } => delete_changes(
            lines,
            Location { line_idx: at.line_idx, grapheme_idx: grapheme_count_at_split },
        ),
        EditOp::DeleteNewLine { line_idx, .. } => line_idx <= lines.len(),
        EditOp::InsertGroup { start, chars } => delete_run_changes(
            lines,
            start,
            group_end(start, chars.len()) - start.grapheme_idx,
        ),
    }
}

/// Whether redoing `op` on `lines` touches the text, which marks the document
/// modified.
pub open spec fn redo_touches(lines: Seq<Seq<char>>, op: EditOp) -> bool {
    match op {
        EditOp::InsertChar { at, .. } => at.line_idx <= lines.len(),
        EditOp::DeleteChar { at, .. } => delete_changes(lines, at),
        EditOp::InsertNewLine { at, .. } => at.line_idx <= lines.len(),
        EditOp::DeleteNewLine { line_idx, split_at_grapheme } => delete_changes(
            lines,
            Location { line_idx, grapheme_idx: split_at_grapheme },
        ),
        EditOp::InsertGroup { start, chars } => insert_run_changes(lines, chars, start),
    }
}

/// `op` describes a change that can be made to `lines` and then taken back
/// exactly: its place lies inside the text (a character that is deleted is
/// the one there; a joined line has a next line; a group fits in a line index).
pub open spec fn redo_applies(lines: Seq<Seq<char>>, op: EditOp) -> bool {
    match op {
        EditOp::InsertChar { at, text } => {
            &&& at.line_idx < lines.len()
            &&& at.grapheme_idx <= lines[at.line_idx as int].len()
        },
        EditOp::DeleteChar { at, text } => {
            &&& at.line_idx < lines.len()
            &&& at.grapheme_idx < lines[at.line_idx as int].len()
            &&& lines[at.line_idx as int][at.grapheme_idx as int] == text
        },
        EditOp::InsertNewLine { at, grapheme_count_at_split } => {
            &&& at.line_idx < lines.len()
            &&& split_point(lines[at.line_idx as int], at.grapheme_idx as int) <= grapheme_count_at_split
        },
        EditOp::DeleteNewLine { line_idx, split_at_grapheme } => {
            &&& line_idx + 1 < lines.len()
            &&& split_at_grapheme == lines[line_idx as int].len()
        },
        EditOp::InsertGroup { start, chars } => {
            &&& start.line_idx < lines.len()
            &&& start.grapheme_idx <= lines[start.line_idx as int].len()
            &&& start.grapheme_idx + chars.len() <= usize::MAX
        },
    }
}

/// `op` describes a change that is present in `lines` and can be taken back
/// and then made again exactly.
pub open spec fn undo_applies(lines: Seq<Seq<char>>, op: EditOp) -> bool {
    match op {
        EditOp::InsertChar { at, text } => {
            &&& at.line_idx < lines.len()
            &&& at.grapheme_idx < lines[at.line_idx as int].len()
            &&& lines[at.line_idx as int][at.grapheme_idx as int] == text
        },
        EditOp::DeleteChar { at, text } => {
            &&& at.line_idx < lines.len()
            &&& at.grapheme_idx <= lines[at.line_idx as int].len()
        },
        EditOp::InsertNewLine { at, grapheme_count_at_split } => {
            let li = at.line_idx as int;
            &&& li + 1 < lines.len()
            &&& lines[li].len() <= grapheme_count_at_split
            &&& split_point(lines[li] + lines[li + 1], at.grapheme_idx as int) == lines[li].len()
        },
        EditOp::DeleteNewLine { line_idx, split_at_grapheme } => {
            &&& line_idx < lines.len()
            &&& split_at_grapheme <= lines[line_idx as int].len()
        },
        EditOp::InsertGroup { start, chars } => {
            let l = lines[start.line_idx as int];
            &&& start.line_idx < lines.len()
            &&& start.grapheme_idx + chars.len() <= l.len()
            &&& start.grapheme_idx + chars.len() <= usize::MAX
            &&& l.subrange(start.grapheme_idx as int, start.grapheme_idx + chars.len()) == chars
        },
    }
}

/// Typing `chars` from a place inside a line puts them there, one after another,
/// and leaves the caret after them.
pub proof fn lemma_insert_run(lines: Seq<Seq<char>>, chars: Seq<char>, at: Location)
    requires
        at.line_idx < lines.len(),
        at.grapheme_idx <= lines[at.line_idx as int].len(),
        at.grapheme_idx + chars.len() <= usize::MAX,
    ensures
        ({
            let l = lines[at.line_idx as int];
            let g = at.grapheme_idx as int;
            insert_run(lines, chars, at) == (
                lines.update(at.line_idx as int, l.take(g) + chars + l.skip(g)),
                Location { line_idx: at.line_idx, grapheme_idx: (g + chars.len()) as usize },
            )
        }),
    decreases chars.len(),
{
    let li = at.line_idx as int;
    let l = lines[li];
    let g = at.grapheme_idx as int;
    if chars.len() == 0 {
        assert(l.take(g) + chars + l.skip(g) =~= l);
        assert(lines.update(li, l) =~= lines);
    } else {
        let c = chars[0];
        let lines1 = insert_char_at(lines, c, at);
        let l1 = l.take(g) + seq![c] + l.skip(g);
        assert(crate::line::line_insert(l, c, g) =~= l1);
        assert(lines1 =~= lines.update(li, l1));
        let at1 = Location { line_idx: at.line_idx, grapheme_idx: (g + 1) as usize };
        lemma_insert_run(lines1, chars.drop_first(), at1);
        assert(lines1[li] == l1);
        assert(l1.take(g + 1) + chars.drop_first() + l1.skip(g + 1) =~= l.take(g) + chars + l.skip(g));
        assert(lines1.update(li, l.take(g) + chars + l.skip(g)) =~= lines.update(li, l.take(g) + chars + l.skip(g)));
    }
}

/// Deleting `k` graphemes from a place inside a line, last one first, removes
/// them from that line.
pub proof fn lemma_delete_run(lines: Seq<Seq<char>>, at: Location, k: int)
    requires
        at.line_idx < lines.len(),
        0 <= k,
        at.grapheme_idx + k <= lines[at.line_idx as int].len(),
        at.grapheme_idx + k <= usize::MAX,
    ensures
        ({
            let l = lines[at.line_idx as int];
            let g = at.grapheme_idx as int;
            delete_run(lines, at, k) == lines.update(at.line_idx as int, l.take(g) + l.skip(g + k))
        }),
    decreases k,
{
    let li = at.line_idx as int;
    let l = lines[li];
    let g = at.grapheme_idx as int;
    if k == 0 {
        assert(l.take(g) + l.skip(g) =~= l);
        assert(lines.update(li, l) =~= lines);
    } else {
        let d = Location { line_idx: at.line_idx, grapheme_idx: (g + k - 1) as usize };
        let lines1 = delete_at(lines, d);
        let l1 = l.remove(g + k - 1);
        assert(lines1 =~= lines.update(li, l1));
        lemma_delete_run(lines1, at, k - 1);
        assert(lines1[li] == l1);
        assert(l1.take(g) + l1.skip(g + k - 1) =~= l.take(g) + l.skip(g + k));
        assert(lines1.update(li, l.take(g) + l.skip(g + k)) =~= lines.update(li, l.take(g) + l.skip(g + k)));
    }
}

/// Deleting a run of graphemes on a line of the text keeps that line; on a
/// line past the text it changes nothing.
pub(crate) proof fn lemma_delete_run_keeps_line(lines: Seq<Seq<char>>, at: Location, k: int)
    ensures
        at.line_idx < lines.len() ==> at.line_idx < delete_run(lines, at, k).len(),
        at.line_idx >= lines.len() ==> delete_run(lines, at, k) == lines,
    decreases k,
{
    if k > 0 {
        let d = Location { line_idx: at.line_idx, grapheme_idx: (at.grapheme_idx + k - 1) as usize };
        lemma_delete_run_keeps_line(delete_at(lines, d), at, k - 1);
    }
}

/// Typing a run of characters leaves the caret on the line it started on and
/// never removes a line; past the line after the text it changes nothing.
pub(crate) proof fn lemma_insert_run_keeps_line(lines: Seq<Seq<char>>, chars: Seq<char>, at: Location)
    ensures
        insert_run(lines, chars, at).1.line_idx == at.line_idx,
        insert_run(lines, chars, at).0.len() >= lines.len(),
        at.line_idx > lines.len() ==> insert_run(lines, chars, at).0 == lines,
    decreases chars.len(),
{
    if chars.len() > 0 {
        let at1 = Location { line_idx: at.line_idx, grapheme_idx: sat_add(at.grapheme_idx as int, 1) as usize };
        lemma_insert_run_keeps_line(insert_char_at(lines, chars[0], at), chars.drop_first(), at1);
    }
}

/// Law: making a change and then undoing it gives back the text.
pub proof fn lemma_undo_after_redo(lines: Seq<Seq<char>>, op: EditOp)
    requires
        redo_applies(lines, op),
    ensures
        undo_effect(redo_effect(lines, op).0, op).0 == lines,
{
    match op {
        EditOp::InsertChar { at, text } => {
            let li = at.line_idx as int;
            let l = lines[li];
            let l1 = crate::line::line_insert(l, text, at.grapheme_idx as int);
            assert(crate::line::line_delete(l1, at.grapheme_idx as int) =~= l);
            assert(lines.update(li, l1).update(li, l) =~= lines);
        },
        EditOp::DeleteChar { at, text } => {
            let li = at.line_idx as int;
            let l = lines[li];
            let l1 = l.remove(at.grapheme_idx as int);
            assert(crate::line::line_insert(l1, text, at.grapheme_idx as int) =~= l);
            assert(lines.update(li, l1).update(li, l) =~= lines);
        },
        EditOp::InsertNewLine { at, grapheme_count_at_split } => {
            let li = at.line_idx as int;
            let l = lines[li];
            let g = split_point(l, at.grapheme_idx as int);
            let lines1 = lines.update(li, l.take(g)).insert(li + 1, l.skip(g));
            assert(lines1[li] == l.take(g));
            assert(lines1[li + 1] == l.skip(g));
            assert(l.take(g) + l.skip(g) =~= l);
            assert(lines1.update(li, l).remove(li + 1) =~= lines);
        },
        EditOp::DeleteNewLine { line_idx, split_at_grapheme } => {
            let li = line_idx as int;
            let l = lines[li];
            let m = l + lines[li + 1];
            let lines1 = lines.update(li, m).remove(li + 1);
            assert(lines1[li] == m);
            assert(m.take(l.len() as int) =~= l);
            assert(m.skip(l.len() as int) =~= lines[li + 1]);
            assert(lines1.update(li, l).insert(li + 1, lines[li + 1]) =~= lines);
        },
        EditOp::InsertGroup { start, chars } => {
            lemma_insert_run(lines, chars, start);
            let li = start.line_idx as int;
            let l = lines[li];
            let g = start.grapheme_idx as int;
            let l1 = l.take(g) + chars + l.skip(g);
            let lines1 = lines.update(li, l1);
            assert(lines1[li] == l1);
            lemma_delete_run(lines1, start, chars.len() as int);
            assert(l1.take(g) + l1.skip(g + chars.len()) =~= l);
            assert(lines1.update(li, l) =~= lines);
        },
    }
}

/// Law: undoing a change that is present and then making it again gives back
/// the text.
pub proof fn lemma_redo_after_undo(lines: Seq<Seq<char>>, op: EditOp)
    requires
        undo_applies(lines, op),
    ensures
        redo_effect(undo_effect(lines, op).0, op).0 == lines,
{
    match op {
        EditOp::InsertChar { at, text } => {
            let li = at.line_idx as int;
            let l = lines[li];
            let l1 = l.remove(at.grapheme_idx as int);
            assert(crate::line::line_insert(l1, text, at.grapheme_idx as int) =~= l);
            assert(lines.update(li, l1).update(li, l) =~= lines);
        },
        EditOp::DeleteChar { at, text } => {
            let li = at.line_idx as int;
            let l = lines[li];
            let l1 = crate::line::line_insert(l, text, at.grapheme_idx as int);
            assert(crate::line::line_delete(l1, at.grapheme_idx as int) =~= l);
            assert(lines.update(li, l1).update(li, l) =~= lines);
        },
        EditOp::InsertNewLine { at, grapheme_count_at_split } => {
            let li = at.line_idx as int;
            let l = lines[li];
            let m = l + lines[li + 1];
            let lines1 = lines.update(li, m).remove(li + 1);
            assert(lines1[li] == m);
            assert(split_point(m, at.grapheme_idx as int) == l.len());
            assert(m.take(l.len() as int) =~= l);
            assert(m.skip(l.len() as int) =~= lines[li + 1]);
            assert(lines1.update(li, l).insert(li + 1, lines[li + 1]) =~= lines);
        },
        EditOp::DeleteNewLine { line_idx, split_at_grapheme } => {
            let li = line_idx as int;
            let l = lines[li];
            let g = split_at_grapheme as int;
            let lines1 = lines.update(li, l.take(g)).insert(li + 1, l.skip(g));
            assert(lines1[li] == l.take(g));
            assert(lines1[li + 1] == l.skip(g));
            assert(l.take(g) + l.skip(g) =~= l);
            assert(lines1.update(li, l).remove(li + 1) =~= lines);
        },
        EditOp::InsertGroup { start, chars } => {
            let li = start.line_idx as int;
            let l = lines[li];
            let g = start.grapheme_idx as int;
            let n = chars.len() as int;
            lemma_delete_run(lines, start, n);
            let l1 = l.take(g) + l.skip(g + n);
            let lines1 = lines.update(li, l1);
            assert(lines1[li] == l1);
            lemma_insert_run(lines1, chars, start);
            assert(l1.take(g) + chars + l1.skip(g) =~= l);
            assert(lines1.update(li, l) =~= lines);
        },
    }
}

/// Law: typing one more character where a group of typed characters ended is
/// the same as redoing the group extended by that character.
pub proof fn lemma_group_extend(lines: Seq<Seq<char>>, start: Location, chars: Seq<char>, c: char)
    ensures
        ({
            let (lines1, at1) = redo_effect(lines, EditOp::InsertGroup { start, chars });
            redo_effect(lines, EditOp::InsertGroup { start, chars: chars.push(c) }) == (
                insert_char_at(lines1, c, at1),
                Location { line_idx: at1.line_idx, grapheme_idx: sat_add(at1.grapheme_idx as int, 1) as usize },
            )
        }),
    decreases chars.len(),
{
    if chars.len() == 0 {
        assert(chars.push(c).drop_first() =~= Seq::<char>::empty());
        assert(chars.push(c)[0] == c);
        assert(insert_run(lines, chars, start) == (lines, start));
        let at1 = Location { line_idx: start.line_idx, grapheme_idx: sat_add(start.grapheme_idx as int, 1) as usize };
        assert(insert_run(lines, chars.push(c), start) == insert_run(insert_char_at(lines, c, start), chars.push(c).drop_first(), at1));
    } else {
        let at1 = Location { line_idx: start.line_idx, grapheme_idx: sat_add(start.grapheme_idx as int, 1) as usize };
        assert(chars.push(c).drop_first() =~= chars.drop_first().push(c));
        assert(chars.push(c)[0] == chars[0]);
        assert(insert_run(lines, chars.push(c), start) == insert_run(insert_char_at(lines, chars[0], start), chars.drop_first().push(c), at1));
        assert(insert_run(lines, chars, start) == insert_run(insert_char_at(lines, chars[0], start), chars.drop_first(), at1));
        lemma_group_extend(insert_char_at(lines, chars[0], start), at1, chars.drop_first(), c);
    }
}

} // verus!
