use vstd::prelude::*;
use crate::prelude::{GraphemeIdx, LineIdx, Location};
use crate::text::{push_char, clamp_usize, line_width};
use crate::line::{Line, line_insert, line_delete, split_point, line_search_forward, line_search_backward, matches_at};
use crate::fileinfo::{FileInfo, FileType, file_type_of};

verus! {

/// The number of graphemes on line `i` of `lines`; zero when there is no such
/// line.
pub open spec fn count_at(lines: Seq<Seq<char>>, i: int) -> nat {
    if 0 <= i < lines.len() {
        lines[i].len()
    } else {
        0
    }
}

/// The text after inserting `c` at `at`: on the line after the last one this
/// starts a new line; past that nothing changes.
pub open spec fn insert_char_at(lines: Seq<Seq<char>>, c: char, at: Location) -> Seq<Seq<char>> {
    let li = at.line_idx as int;
    if li == lines.len() {
        lines.push(seq![c])
    } else if li < lines.len() {
        lines.update(li, line_insert(lines[li], c, at.grapheme_idx as int))
    } else {
        lines
    }
}

/// The screen width of the first `g` graphemes of line `i` of `lines` (of the
/// whole line when `g` is past its end), clamped at `usize::MAX`; zero when
/// there is no such line.
pub open spec fn width_at(lines: Seq<Seq<char>>, i: int, g: int) -> usize {
    if 0 <= i < lines.len() {
        let l = lines[i];
        clamp_usize(line_width(l.take(if g < l.len() { g } else { l.len() as int })))
    } else {
        0
    }
}

/// Whether deleting at `at` changes the text: there is a grapheme at `at`, or
/// `at` is at or past the end of a line that has a next line.
pub open spec fn delete_changes(lines: Seq<Seq<char>>, at: Location) -> bool {
    let li = at.line_idx as int;
    &&& li < lines.len()
    &&& (at.grapheme_idx < lines[li].len() || li + 1 < lines.len())
}

/// The text after deleting at `at`: the grapheme at `at`, or, at or past the
/// end of a line, the line break that joins the next line onto it.
pub open spec fn delete_at(lines: Seq<Seq<char>>, at: Location) -> Seq<Seq<char>> {
    let li = at.line_idx as int;
    let g = at.grapheme_idx as int;
    if li < lines.len() {
        if g >= lines[li].len() && li + 1 < lines.len() {
            lines.update(li, lines[li] + lines[li + 1]).remove(li + 1)
        } else if g < lines[li].len() {
            lines.update(li, line_delete(lines[li], g))
        } else {
            lines
        }
    } else {
        lines
    }
}

/// The text after breaking the line at `at`; on the line after the last one
/// this adds an empty line, past that nothing changes.
pub open spec fn insert_newline_at(lines: Seq<Seq<char>>, at: Location) -> Seq<Seq<char>> {
    let li = at.line_idx as int;
    if li == lines.len() {
        lines.push(Seq::<char>::empty())
    } else if li < lines.len() {
        let l = lines[li];
        let p = split_point(l, at.grapheme_idx as int);
        lines.update(li, l.take(p)).insert(li + 1, l.skip(p))
    } else {
        lines
    }
}

/// Removes one `\r` at the end of `l`, if there is one.
pub open spec fn strip_cr(l: Seq<char>) -> Seq<char> {
    if l.len() > 0 && l.last() == '\r' {
        l.drop_last()
    } else {
        l
    }
}

/// The lines completed so far and the line being read, after reading `s`.
pub open spec fn read_lines(s: Seq<char>) -> (Seq<Seq<char>>, Seq<char>)
    decreases s.len(),
{
    if s.len() == 0 {
        (Seq::empty(), Seq::empty())
    } else {
        let (done, cur) = read_lines(s.drop_last());
        if s.last() == '\n' {
            (done.push(strip_cr(cur)), Seq::empty())
        } else {
            (done, cur.push(s.last()))
        }
    }
}

/// The lines of a text: split at each `\n`, each line without its final
/// `\r\n` or `\n`, and no empty line after a final line break.
pub open spec fn text_lines(s: Seq<char>) -> Seq<Seq<char>> {
    let (done, cur) = read_lines(s);
    if cur.len() == 0 {
        done
    } else {
        done.push(cur)
    }
}

/// The contents of a file holding `lines`: each line followed by `\n`.
pub open spec fn file_text(lines: Seq<Seq<char>>) -> Seq<char>
    decreases lines.len(),
{
    if lines.len() == 0 {
        Seq::empty()
    } else {
        file_text(lines.drop_last()) + lines.last().push('\n')
    }
}

/// Reading on past text that ends a line with characters that hold no line
/// break adds them to the line being read.
proof fn lemma_read_on(a: Seq<char>, t: Seq<char>)
    requires
        read_lines(a).1 == Seq::<char>::empty(),
        forall|i: int| 0 <= i < t.len() ==> t[i] != '\n',
    ensures
        read_lines(a + t) == (read_lines(a).0, t),
    decreases t.len(),
{
    if t.len() == 0 {
        assert(a + t =~= a);
    } else {
        assert((a + t).drop_last() =~= a + t.drop_last());
        lemma_read_on(a, t.drop_last());
        assert(t.drop_last().push(t.last()) =~= t);
    }
}

/// A line that can be written to a file and read back: it holds no line break
/// and does not end in `\r`.
pub open spec fn writable_line(l: Seq<char>) -> bool {
    &&& forall|i: int| 0 <= i < l.len() ==> l[i] != '\n'
    &&& strip_cr(l) == l
}

/// Reading the contents written for `lines` ends on a completed line.
proof fn lemma_read_written(lines: Seq<Seq<char>>)
    requires
        forall|i: int| 0 <= i < lines.len() ==> writable_line(#[trigger] lines[i]),
    ensures
        read_lines(file_text(lines)) == (lines, Seq::<char>::empty()),
    decreases lines.len(),
{
    if lines.len() > 0 {
        let init = lines.drop_last();
        let l = lines.last();
        assert forall|i: int| 0 <= i < init.len() implies writable_line(#[trigger] init[i]) by {
            assert(init[i] == lines[i]);
        }
        lemma_read_written(init);
        assert(writable_line(lines[lines.len() - 1]));
        lemma_read_on(file_text(init), l);
        let t = file_text(init) + l.push('\n');
        assert(t.drop_last() =~= file_text(init) + l);
        assert(t.last() == '\n');
        assert(init.push(l) =~= lines);
    } else {
        assert(file_text(lines) == Seq::<char>::empty());
    }
}

/// Law: reading back the contents written for lines that hold no line break
/// and do not end in `\r` gives back those lines.
pub proof fn lemma_read_back_written(lines: Seq<Seq<char>>)
    requires
        forall|i: int| 0 <= i < lines.len() ==> writable_line(#[trigger] lines[i]),
    ensures
        text_lines(file_text(lines)) == lines,
{
    lemma_read_written(lines);
}

/// The lines read so far, written back, followed by the line being read, give
/// back the text read, when it holds no `\r`.
proof fn lemma_written_read(s: Seq<char>)
    requires
        forall|i: int| 0 <= i < s.len() ==> s[i] != '\r',
    ensures
        file_text(read_lines(s).0) + read_lines(s).1 == s,
        forall|i: int| 0 <= i < read_lines(s).1.len() ==> read_lines(s).1[i] != '\r',
    decreases s.len(),
{
    if s.len() > 0 {
        let s1 = s.drop_last();
        lemma_written_read(s1);
        let (done, cur) = read_lines(s1);
        assert(s1.push(s.last()) =~= s);
        if s.last() == '\n' {
            assert(strip_cr(cur) == cur);
            assert(done.push(cur).drop_last() =~= done);
            assert(file_text(done.push(cur)) == file_text(done) + cur.push('\n'));
            assert(file_text(done) + cur.push('\n') + Seq::<char>::empty() =~= s);
        } else {
            assert(file_text(done) + cur.push(s.last()) =~= s);
        }
    } else {
        assert(file_text(Seq::<Seq<char>>::empty()) + Seq::<char>::empty() =~= s);
    }
}

/// Law: writing back the lines read from a text that holds no `\r` and is
/// empty or ends in a line break gives back that text.
pub proof fn lemma_write_back_read(s: Seq<char>)
    requires
        forall|i: int| 0 <= i < s.len() ==> s[i] != '\r',
        s.len() > 0 ==> s.last() == '\n',
    ensures
        file_text(text_lines(s)) == s,
{
    lemma_written_read(s);
    if s.len() > 0 {
        assert(s.drop_last().push(s.last()) =~= s);
    }
    assert(read_lines(s).1.len() == 0);
    assert(file_text(read_lines(s).0) + read_lines(s).1 =~= file_text(read_lines(s).0));
}

/// The line visited at step `k` of a forward search from line `from_line`
/// through `n` lines, wrapping around after the last line.
pub open spec fn forward_line(n: int, from_line: int, k: int) -> int {
    (from_line + k) % n
}

/// The line visited at step `k` of a backward search from line `from_line`
/// through `n` lines, wrapping around before the first line.
pub open spec fn backward_line(n: int, from_line: int, k: int) -> int {
    let skip = if from_line + 1 <= n { n - from_line - 1 } else { 0 };
    n - 1 - (skip + k) % n
}

/// The result of a forward search from step `k` on.
pub open spec fn search_forward_from_step(lines: Seq<Seq<char>>, query: Seq<char>, from: Location, k: int) -> Option<Location>
    decreases lines.len() + 1 - k,
{
    if k > lines.len() || k < 0 || lines.len() == 0 {
        None
    } else {
        let li = forward_line(lines.len() as int, from.line_idx as int, k);
        let start = if k == 0 { from.grapheme_idx as int } else { 0 };
        match line_search_forward(lines[li], query, start) {
            Some(g) => Some(Location { line_idx: li as usize, grapheme_idx: g as usize }),
            None => search_forward_from_step(lines, query, from, k + 1),
        }
    }
}

/// The result of a backward search from step `k` on.
pub open spec fn search_backward_from_step(lines: Seq<Seq<char>>, query: Seq<char>, from: Location, k: int) -> Option<Location>
    decreases lines.len() + 1 - k,
{
    if k > lines.len() || k < 0 || lines.len() == 0 {
        None
    } else {
        let li = backward_line(lines.len() as int, from.line_idx as int, k);
        let start = if k == 0 { from.grapheme_idx as int } else { lines[li].len() as int };
        match line_search_backward(lines[li], query, start) {
            Some(g) => Some(Location { line_idx: li as usize, grapheme_idx: g as usize }),
            None => search_backward_from_step(lines, query, from, k + 1),
        }
    }
}

/// Where a forward search for `query` from `from` lands: the first occurrence
/// at or after `from` on its line, else on the following lines, wrapping
/// around to the top and back to the start of the line of `from`.  An empty
/// query finds nothing.
pub open spec fn buffer_search_forward(lines: Seq<Seq<char>>, query: Seq<char>, from: Location) -> Option<Location> {
    if query.len() == 0 {
        None
    } else {
        search_forward_from_step(lines, query, from, 0)
    }
}

/// Where a backward search for `query` from `from` lands: the last occurrence
/// ending at or before `from` on its line, else on the preceding lines,
/// wrapping around to the bottom and back to the end of the line of `from`.
/// An empty query finds nothing.
pub open spec fn buffer_search_backward(lines: Seq<Seq<char>>, query: Seq<char>, from: Location) -> Option<Location> {
    if query.len() == 0 {
        None
    } else {
        search_backward_from_step(lines, query, from, 0)
    }
}

/// A forward search from step `k` finds something when the line it visits at
/// a later step `t` (at most one full turn) has an occurrence from where that
/// step looks.
proof fn lemma_forward_reaches(lines: Seq<Seq<char>>, query: Seq<char>, from: Location, k: int, t: int)
    requires
        lines.len() > 0,
        0 <= k <= t <= lines.len(),
        line_search_forward(
            lines[forward_line(lines.len() as int, from.line_idx as int, t)],
            query,
            if t == 0 { from.grapheme_idx as int } else { 0 },
        ) is Some,
    ensures
        search_forward_from_step(lines, query, from, k) is Some,
    decreases t - k,
{
    if k < t {
        lemma_forward_reaches(lines, query, from, k + 1, t);
    }
}

/// A backward search from step `k` finds something when the line it visits
/// at a later step `t` (at most one full turn) has an occurrence before where
/// that step looks.
proof fn lemma_backward_reaches(lines: Seq<Seq<char>>, query: Seq<char>, from: Location, k: int, t: int)
    requires
        lines.len() > 0,
        0 <= k <= t <= lines.len(),
        line_search_backward(
            lines[backward_line(lines.len() as int, from.line_idx as int, t)],
            query,
            if t == 0 { from.grapheme_idx as int } else { lines[backward_line(lines.len() as int, from.line_idx as int, t)].len() as int },
        ) is Some,
    ensures
        search_backward_from_step(lines, query, from, k) is Some,
    decreases t - k,
{
    if k < t {
        lemma_backward_reaches(lines, query, from, k + 1, t);
    }
}

/// Law: a forward search wraps around the whole text, back to the start of
/// the line it began on, so a non-empty query that occurs anywhere in the
/// text is found from every location.
pub proof fn lemma_search_forward_wraps(lines: Seq<Seq<char>>, query: Seq<char>, from: Location, li: int, i: int)
    requires
        query.len() > 0,
        0 <= li < lines.len(),
        matches_at(lines[li], query, i),
    ensures
        buffer_search_forward(lines, query, from) is Some,
{
    let n = lines.len() as int;
    let f = from.line_idx as int;
    let d = (li - f) % n;
    vstd::arithmetic::div_mod::lemma_mod_bound(li - f, n);
    vstd::arithmetic::div_mod::lemma_add_mod_noop_right(f, li - f, n);
    vstd::arithmetic::div_mod::lemma_small_mod(li as nat, n as nat);
    assert((f + d) % n == li);
    let t = if d == 0 { n } else { d };
    if d == 0 {
        vstd::arithmetic::div_mod::lemma_mod_add_multiples_vanish(f, n);
        assert((f + n) % n == (f + 0) % n);
    }
    assert(forward_line(n, f, t) == li);
    assert(exists|j: int| 0 <= j && matches_at(lines[li], query, j));
    lemma_forward_reaches(lines, query, from, 0, t);
}

/// Law: a backward search wraps around the whole text, back to the end of
/// the line it began on, so a non-empty query that occurs anywhere in the
/// text is found from every location.
pub proof fn lemma_search_backward_wraps(lines: Seq<Seq<char>>, query: Seq<char>, from: Location, li: int, i: int)
    requires
        query.len() > 0,
        0 <= li < lines.len(),
        matches_at(lines[li], query, i),
    ensures
        buffer_search_backward(lines, query, from) is Some,
{
    let n = lines.len() as int;
    let f = from.line_idx as int;
    let skip = if f + 1 <= n { n - f - 1 } else { 0 };
    let r = n - 1 - li;
    let d = (r - skip) % n;
    vstd::arithmetic::div_mod::lemma_mod_bound(r - skip, n);
    vstd::arithmetic::div_mod::lemma_add_mod_noop_right(skip, r - skip, n);
    vstd::arithmetic::div_mod::lemma_small_mod(r as nat, n as nat);
    assert((skip + d) % n == r);
    let t = if d == 0 { n } else { d };
    if d == 0 {
        vstd::arithmetic::div_mod::lemma_mod_add_multiples_vanish(skip, n);
        assert((skip + n) % n == (skip + 0) % n);
    }
    assert(backward_line(n, f, t) == li);
    assert(i + query.len() <= lines[li].len() && matches_at(lines[li], query, i));
    lemma_backward_reaches(lines, query, from, 0, t);
}

/// `(a + b) % n`, computed without overflow.
fn wrap_add(a: usize, b: usize, n: usize) -> (res: usize)
    requires
        a < n,
        b <= n,
    ensures
        res == (a + b) % (n as int),
        res < n,
{
    if b >= n - a {
        proof {
            vstd::arithmetic::div_mod::lemma_mod_add_multiples_vanish((a + b - n) as int, n as int);
            vstd::arithmetic::div_mod::lemma_small_mod((a + b - n) as nat, n as nat);
            assert((n + (a + b - n)) == a + b);
        }
        b - (n - a)
    } else {
        proof {
            vstd::arithmetic::div_mod::lemma_small_mod((a + b) as nat, n as nat);
        }
        a + b
    }
}

/// The text of a document as lines, with where it is stored and whether it
/// changed since it was loaded or saved.
#[derive(Debug)]
pub struct Buffer {
    lines: Vec<Line>,
    file_info: FileInfo,
    dirty: bool,
}

impl Buffer {
    /// The lines of the document.
    pub closed spec fn text(&self) -> Seq<Seq<char>> {
        Seq::new(self.lines@.len(), |i: int| self.lines@[i]@)
    }

    /// Whether the document changed since it was loaded or saved.
    pub closed spec fn dirty(&self) -> bool {
        self.dirty
    }

    /// The path of the document's file, if it has one.
    pub closed spec fn path(&self) -> Option<Seq<char>> {
        match self.file_info.path {
            Some(p) => Some(p@),
            None => None,
        }
    }

    /// The file type of the document.
    pub closed spec fn file_type(&self) -> FileType {
        self.file_info.file_type
    }

    /// An empty document with no file.
    pub fn new() -> (res: Buffer)
        ensures
            res.text() == Seq::<Seq<char>>::empty(),
            !res.dirty(),
            res.path() is None,
            res.file_type() == FileType::Text,
    {
        let res = Buffer { lines: Vec::new(), file_info: FileInfo::new(), dirty: false };
        proof {
            assert(res.text() =~= Seq::<Seq<char>>::empty());
        }
        res
    }

    /// The document stored at `file_name` whose contents are `contents`.
    pub fn from_text(file_name: &str, contents: &str) -> (res: Buffer)
        ensures
            res.text() == text_lines(contents@),
            !res.dirty(),
            res.path() == Some(file_name@),
            res.file_type() == file_type_of(file_name@),
    {
        let cs = crate::text::str_chars(contents);
        let mut lines: Vec<Line> = Vec::new();
        let mut cur: Vec<char> = Vec::new();
        let mut i: usize = 0;
        while i < cs.len()
            invariant
                i <= cs@.len(),
                cs@ == contents@,
                read_lines(cs@.take(i as int)) == (Seq::new(lines@.len(), |j: int| lines@[j]@), cur@),
            decreases cs@.len() - i,
        {
            let c = cs[i];
            proof {
                assert(cs@.take(i + 1).drop_last() =~= cs@.take(i as int));
            }
            if c == '\n' {
                let done_line = cur;
                let mut stripped = done_line;
                if stripped.len() > 0 && stripped[stripped.len() - 1] == '\r' {
                    stripped.pop();
                    proof {
                        assert(stripped@ =~= strip_cr(done_line@));
                    }
                }
                let ghost before = lines@;
                lines.push(Line::from_chars(stripped));
                cur = Vec::new();
                proof {
                    assert(Seq::new(lines@.len(), |j: int| lines@[j]@) =~= Seq::new(before.len(), |j: int| before[j]@).push(strip_cr(done_line@)));
                }
            } else {
                cur.push(c);
            }
            i = i + 1;
        }
        proof {
            assert(cs@.take(cs@.len() as int) =~= cs@);
        }
        if cur.len() > 0 {
            let ghost before = lines@;
            let ghost last = cur@;
            lines.push(Line::from_chars(cur));
            proof {
                assert(Seq::new(lines@.len(), |j: int| lines@[j]@) =~= Seq::new(before.len(), |j: int| before[j]@).push(last));
            }
        }
        Buffer { lines, file_info: FileInfo::from_path(file_name), dirty: false }
    }

    /// The number of lines.
    pub fn height(&self) -> (res: usize)
        ensures
            res == self.text().len(),
    {
        self.lines.len()
    }

    /// Whether the document has no line.
    pub fn is_empty(&self) -> (res: bool)
        ensures
            res == (self.text().len() == 0),
    {
        self.lines.len() == 0
    }

    /// Whether the document changed since it was loaded or saved.
    pub fn is_dirty(&self) -> (res: bool)
        ensures
            res == self.dirty(),
    {
        self.dirty
    }

    /// Whether the document is stored in a file.
    pub fn is_file_loaded(&self) -> (res: bool)
        ensures
            res == self.path() is Some,
    {
        self.file_info.has_path()
    }

    /// Where the document is stored and what kind it is.
    pub fn get_file_info(&self) -> (res: &FileInfo)
        ensures
            res.file_type == self.file_type(),
            self.path() == (match res.path {
                Some(p) => Some(p@),
                None => None,
            }),
    {
        &self.file_info
    }

    /// The number of graphemes on line `line_idx`; zero when there is no such
    /// line.
    pub fn grapheme_count(&self, line_idx: LineIdx) -> (res: usize)
        ensures
            res == count_at(self.text(), line_idx as int),
    {
        if line_idx < self.lines.len() {
            self.lines[line_idx].grapheme_count()
        } else {
            0
        }
    }

    /// The grapheme at `at`, if there is one.
    pub fn get_char_at(&self, at: Location) -> (res: Option<char>)
        ensures
            res == (if at.line_idx < self.text().len() && at.grapheme_idx < self.text()[at.line_idx as int].len() {
                Some(self.text()[at.line_idx as int][at.grapheme_idx as int])
            } else {
                None::<char>
            }),
    {
        if at.line_idx < self.lines.len() {
            self.lines[at.line_idx].get_char(at.grapheme_idx)
        } else {
            None
        }
    }

    /// The screen width of the first `grapheme_idx` graphemes of line
    /// `line_idx` (clamped at `usize::MAX`); zero when there is no such line.
    pub fn width_until(&self, line_idx: LineIdx, grapheme_idx: GraphemeIdx) -> (res: usize)
        ensures
            res == width_at(self.text(), line_idx as int, grapheme_idx as int),
    {
        if line_idx < self.lines.len() {
            self.lines[line_idx].width_until(grapheme_idx)
        } else {
            0
        }
    }

    /// Inserts `c` at `at`.
    pub fn insert_char(&mut self, c: char, at: Location)
        ensures
            final(self).text() == insert_char_at(old(self).text(), c, at),
            final(self).dirty() == (old(self).dirty() || at.line_idx <= old(self).text().len()),
            final(self).path() == old(self).path(),
            final(self).file_type() == old(self).file_type(),
    {
        let ghost old_text = self.text();
        if at.line_idx == self.lines.len() {
            let mut cs: Vec<char> = Vec::new();
            cs.push(c);
            self.lines.push(Line::from_chars(cs));
            self.dirty = true;
            proof {
                assert(self.text() =~= insert_char_at(old_text, c, at));
            }
        } else if at.line_idx < self.lines.len() {
            let mut line = Line::new();
            self.lines.set_and_swap(at.line_idx, &mut line);
            line.insert_char(c, at.grapheme_idx);
            self.lines.set(at.line_idx, line);
            self.dirty = true;
            proof {
                assert(self.text() =~= insert_char_at(old_text, c, at));
            }
        }
    }

    /// Deletes at `at`: the grapheme there, or, at or past the end of a line,
    /// the line break after it.
    pub fn delete(&mut self, at: Location)
        ensures
            final(self).text() == delete_at(old(self).text(), at),
            final(self).dirty() == (old(self).dirty() || delete_changes(old(self).text(), at)),
            final(self).path() == old(self).path(),
            final(self).file_type() == old(self).file_type(),
    {
        let ghost old_text = self.text();
        if at.line_idx < self.lines.len() {
            let count = self.lines[at.line_idx].grapheme_count();
            if at.grapheme_idx >= count && at.line_idx + 1 < self.lines.len() {
                let next = self.lines.remove(at.line_idx + 1);
                let mut line = Line::new();
                self.lines.set_and_swap(at.line_idx, &mut line);
                line.append(&next);
                self.lines.set(at.line_idx, line);
                self.dirty = true;
                proof {
                    assert(self.text() =~= delete_at(old_text, at));
                }
            } else if at.grapheme_idx < count {
                let mut line = Line::new();
                self.lines.set_and_swap(at.line_idx, &mut line);
                line.delete(at.grapheme_idx);
                self.lines.set(at.line_idx, line);
                self.dirty = true;
                proof {
                    assert(self.text() =~= delete_at(old_text, at));
                }
            }
        }
    }

    /// Breaks the line at `at`.
    pub fn insert_newline(&mut self, at: Location)
        ensures
            final(self).text() == insert_newline_at(old(self).text(), at),
            final(self).dirty() == (old(self).dirty() || at.line_idx <= old(self).text().len()),
            final(self).path() == old(self).path(),
            final(self).file_type() == old(self).file_type(),
    {
        let ghost old_text = self.text();
        if at.line_idx == self.lines.len() {
            self.lines.push(Line::new());
            self.dirty = true;
            proof {
                assert(self.text() =~= insert_newline_at(old_text, at));
            }
        } else if at.line_idx < self.lines.len() {
            let mut line = Line::new();
            self.lines.set_and_swap(at.line_idx, &mut line);
            let rest = line.split(at.grapheme_idx);
            self.lines.set(at.line_idx, line);
            self.lines.insert(at.line_idx + 1, rest);
            self.dirty = true;
            proof {
                assert(self.text() =~= insert_newline_at(old_text, at));
            }
        }
    }

    /// The contents that saving writes: each line followed by `\n`.
    pub fn file_contents(&self) -> (res: String)
        ensures
            res@ == file_text(self.text()),
    {
        let mut res = String::new();
        let mut i: usize = 0;
        while i < self.lines.len()
            invariant
                i <= self.text().len(),
                res@ == file_text(self.text().take(i as int)),
            decreases self.text().len() - i,
        {
            let t = self.lines[i].to_text();
            crate::text::push_str(&mut res, t.as_str());
            crate::text::push_char(&mut res, '\n');
            proof {
                let tk = self.text().take(i + 1);
                assert(tk.drop_last() =~= self.text().take(i as int));
                assert(res@ =~= file_text(tk));
            }
            i = i + 1;
        }
        proof {
            assert(self.text().take(self.text().len() as int) =~= self.text());
        }
        res
    }

    /// The path of the document's file, if it has one.
    pub fn file_path(&self) -> (res: Option<String>)
        ensures
            match res {
                Some(p) => self.path() == Some(p@),
                None => self.path() is None,
            },
    {
        match &self.file_info.path {
            Some(p) => Some(p.clone()),
            None => None,
        }
    }

    /// Records that the document was written to its file.
    pub fn mark_saved(&mut self)
        ensures
            final(self).text() == old(self).text(),
            !final(self).dirty(),
            final(self).path() == old(self).path(),
            final(self).file_type() == old(self).file_type(),
    {
        self.dirty = false;
    }

    /// Records that the document was written to the file `file_name`, which is
    /// now its file.
    pub fn mark_saved_as(&mut self, file_name: &str)
        ensures
            final(self).text() == old(self).text(),
            !final(self).dirty(),
            final(self).path() == Some(file_name@),
            final(self).file_type() == file_type_of(file_name@),
    {
        self.file_info = FileInfo::from_path(file_name);
        self.dirty = false;
    }

    /// Searches forward for `query` from `from`, wrapping around.
    pub fn search_forward(&self, query: &Line, from: Location) -> (res: Option<Location>)
        ensures
            res == buffer_search_forward(self.text(), query@, from),
            res matches Some(l) ==> l.line_idx < self.text().len(),
    {
        if query.is_empty() {
            return None;
        }
        let n = self.lines.len();
        if n == 0 {
            return None;
        }
        let mut k: usize = 0;
        loop
            invariant
                n == self.text().len(),
                n > 0,
                query@.len() > 0,
                k <= n,
                search_forward_from_step(self.text(), query@, from, 0) == search_forward_from_step(self.text(), query@, from, k as int),
            decreases n - k,
        {
            let li = wrap_add(from.line_idx % n, k, n);
            proof {
                vstd::arithmetic::div_mod::lemma_add_mod_noop(from.line_idx as int, k as int, n as int);
                vstd::arithmetic::div_mod::lemma_mod_twice(k as int, n as int);
                vstd::arithmetic::div_mod::lemma_mod_twice(from.line_idx as int, n as int);
                vstd::arithmetic::div_mod::lemma_add_mod_noop((from.line_idx % n) as int, k as int, n as int);
            }
            let start = if k == 0 { from.grapheme_idx } else { 0 };
            let r = self.lines[li].search_forward(query, start);
            if let Some(g) = r {
                return Some(Location { line_idx: li, grapheme_idx: g });
            }
            proof {
                assert(self.text()[li as int] == self.lines@[li as int]@);
                assert(search_forward_from_step(self.text(), query@, from, k as int) == search_forward_from_step(self.text(), query@, from, k + 1));
            }
            if k == n {
                proof {
                    assert(search_forward_from_step(self.text(), query@, from, k + 1) is None);
                }
                return None;
            }
            k = k + 1;
        }
    }

    /// Searches backward for `query` from `from`, wrapping around.
    pub fn search_backward(&self, query: &Line, from: Location) -> (res: Option<Location>)
        ensures
            res == buffer_search_backward(self.text(), query@, from),
            res matches Some(l) ==> l.line_idx < self.text().len(),
    {
        if query.is_empty() {
            return None;
        }
        let n = self.lines.len();
        if n == 0 {
            return None;
        }
        let skip = n.saturating_sub(from.line_idx).saturating_sub(1);
        let mut k: usize = 0;
        loop
            invariant
                n == self.text().len(),
                n > 0,
                query@.len() > 0,
                k <= n,
                skip == (if from.line_idx + 1 <= n { n - from.line_idx - 1 } else { 0 }),
                search_backward_from_step(self.text(), query@, from, 0) == search_backward_from_step(self.text(), query@, from, k as int),
            decreases n - k,
        {
            let li = n - 1 - wrap_add(skip, k, n);
            proof {
                assert(skip < n);
            }
            let start = if k == 0 { from.grapheme_idx } else { self.lines[li].grapheme_count() };
            let r = self.lines[li].search_backward(query, start);
            if let Some(g) = r {
                return Some(Location { line_idx: li, grapheme_idx: g });
            }
            proof {
                assert(self.text()[li as int] == self.lines@[li as int]@);
                assert(search_backward_from_step(self.text(), query@, from, k as int) == search_backward_from_step(self.text(), query@, from, k + 1));
            }
            if k == n {
                proof {
                    assert(search_backward_from_step(self.text(), query@, from, k + 1) is None);
                }
                return None;
            }
            k = k + 1;
        }
    }

    /// The number of lines after deleting at `at`.
    pub fn height_after_delete(&self, at: Location) -> (res: usize)
        ensures
            res == delete_at(self.text(), at).len(),
    {
        let n = self.lines.len();
        if at.line_idx < n && at.grapheme_idx >= self.lines[at.line_idx].grapheme_count() && at.line_idx + 1 < n {
            n - 1
        } else {
            n
        }
    }

    /// Line `line_idx`.
    pub fn line(&self, line_idx: LineIdx) -> (res: &Line)
        requires
            line_idx < self.text().len(),
        ensures
            res@ == self.text()[line_idx as int],
    {
        &self.lines[line_idx]
    }

    /// The file type of the document, as an executable value.
    pub fn get_file_type(&self) -> (res: FileType)
        ensures
            res == self.file_type(),
    {
        self.file_info.get_file_type()
    }

    /// The text of line `line_idx`, if there is such a line.
    pub fn line_text(&self, line_idx: LineIdx) -> (res: Option<String>)
        ensures
            match res {
                Some(t) => line_idx < self.text().len() && t@ == self.text()[line_idx as int],
                None => line_idx >= self.text().len(),
            },
    {
        if line_idx < self.lines.len() {
            Some(self.lines[line_idx].to_text())
        } else {
            None
        }
    }
}

} // verus!
