use vstd::prelude::*;
use vstd::string::*;
use crate::prelude::LineIdx;
use crate::annotation::{Annotation, AnnotationType, mark, lies_within, span_mark, opt_seq,
    lemma_span_mark_within};
use crate::line::Line;
use vstd::view::View as ModelView;
use crate::text::{str_chars, is_whitespace, is_white_space, skip_white_space, trim_start,
    skip_char, starts_with, find_byte, find_byte_pair, byte_len, lemma_find_byte_range,
    lemma_find_byte_pair_range};

verus! {

broadcast use vstd::string::group_string_axioms;

/// The index of the first character of `cs` that is not white space.
pub fn leading_white_space(cs: &Vec<char>) -> (res: usize)
    ensures
        res == skip_white_space(cs@, 0),
        res <= cs@.len(),
{
    let mut i: usize = 0;
    while i < cs.len() && is_whitespace(cs[i])
        invariant
            i <= cs@.len(),
            skip_white_space(cs@, 0) == skip_white_space(cs@, i as int),
        decreases cs@.len() - i,
    {
        i = i + 1;
    }
    i
}

/// Whether the characters of `cs` from `i` on start with `a`, `b`.
fn starts_with_two_at(cs: &Vec<char>, i: usize, a: char, b: char) -> (res: bool)
    requires
        i <= cs@.len(),
    ensures
        res == starts_with(cs@.skip(i as int), seq![a, b]),
{
    let r = cs.len() >= 2 && i <= cs.len() - 2 && cs[i] == a && cs[i + 1] == b;
    proof {
        if r {
            assert(cs@.skip(i as int).take(2) =~= seq![a, b]);
        } else if 2 <= cs@.skip(i as int).len() {
            if cs@.skip(i as int).take(2) == seq![a, b] {
                assert(cs@.skip(i as int).take(2)[0] == a);
                assert(cs@.skip(i as int).take(2)[1] == b);
            }
        }
    }
    r
}

/// Whether `line`, without its leading white space, opens or closes a fenced
/// code block.
pub open spec fn is_fence(cs: Seq<char>) -> bool {
    starts_with(trim_start(cs), seq!['`', '`', '`'])
}

/// Whether `line`, without its leading white space, is one or more `#`
/// followed by a space.
pub open spec fn is_heading(cs: Seq<char>) -> bool {
    let t = trim_start(cs);
    let level = skip_char(t, '#', 0);
    level > 0 && level < t.len() && t[level] == ' '
}

/// Whether `line`, without its leading white space, starts with `- `, `* `
/// or `+ `.
pub open spec fn is_list_item(cs: Seq<char>) -> bool {
    let t = trim_start(cs);
    ||| starts_with(t, seq!['-', ' '])
    ||| starts_with(t, seq!['*', ' '])
    ||| starts_with(t, seq!['+', ' '])
}

/// The first pair of backticks in `b`: from the first one to just after the
/// next one.
pub open spec fn inline_code_span(b: Seq<u8>) -> Option<(int, int)> {
    match find_byte(b, 96u8, 0) {
        Some(start) => match find_byte(b, 96u8, start + 1) {
            Some(end) => Some((start, end + 1)),
            None => None,
        },
        None => None,
    }
}

/// The first emphasis in `b` from byte `i` on: the first `*` or `_` that is
/// followed later by the same byte, up to just after that byte.
pub open spec fn emphasis_span(b: Seq<u8>, i: int) -> Option<(int, int)>
    decreases b.len() - i,
{
    if i < 0 || i >= b.len() {
        None
    } else if (b[i] == 42u8 || b[i] == 95u8) && find_byte(b, b[i], i + 1) is Some {
        Some((i, find_byte(b, b[i], i + 1)->0 + 1))
    } else {
        emphasis_span(b, i + 1)
    }
}

/// The first link in `b`: from the first `[`, through the first `](` after it,
/// up to just after the first `)` after that.
pub open spec fn link_span(b: Seq<u8>) -> Option<(int, int)> {
    match find_byte(b, 91u8, 0) {
        Some(start) => match find_byte_pair(b, 93u8, 40u8, start) {
            Some(mid) => match find_byte(b, 41u8, mid + 2) {
                Some(end) => Some((start, end + 1)),
                None => None,
            },
            None => None,
        },
        None => None,
    }
}

/// The annotations of the line `cs` and whether a code block is open after it,
/// given whether one was open before: a fence or a line inside a block is
/// code; else a heading; else a list item; else the first inline code span,
/// emphasis and link, in that order.
pub open spec fn markdown_line(in_code_block: bool, cs: Seq<char>) -> (Seq<Annotation>, bool) {
    let len = byte_len(cs) as int;
    let b = vstd::utf8::encode_utf8(cs);
    if is_fence(cs) {
        (seq![mark(AnnotationType::CodeBlock, 0, len)], !in_code_block)
    } else if in_code_block {
        (seq![mark(AnnotationType::CodeBlock, 0, len)], in_code_block)
    } else if is_heading(cs) {
        (seq![mark(AnnotationType::Heading, 0, len)], in_code_block)
    } else if is_list_item(cs) {
        (seq![mark(AnnotationType::ListItem, 0, len)], in_code_block)
    } else {
        (
            opt_seq(span_mark(AnnotationType::InlineCode, inline_code_span(b)))
                + opt_seq(span_mark(AnnotationType::Emphasis, emphasis_span(b, 0)))
                + opt_seq(span_mark(AnnotationType::Link, link_span(b))),
            in_code_block,
        )
    }
}

/// Computes [`find_byte`].
fn find_byte_exec(b: &[u8], x: u8, i: usize) -> (res: Option<usize>)
    ensures
        match res {
            Some(k) => find_byte(b@, x, i as int) == Some(k as int) && k < b.len(),
            None => find_byte(b@, x, i as int) is None,
        },
{
    let mut k = i;
    while k < b.len()
        invariant
            i <= k,
            find_byte(b@, x, i as int) == find_byte(b@, x, k as int),
        decreases b@.len() - k,
    {
        if b[k] == x {
            return Some(k);
        }
        k = k + 1;
    }
    None
}

/// Computes [`find_byte_pair`].
fn find_byte_pair_exec(b: &[u8], x: u8, y: u8, i: usize) -> (res: Option<usize>)
    ensures
        match res {
            Some(k) => find_byte_pair(b@, x, y, i as int) == Some(k as int) && k + 1 < b.len(),
            None => find_byte_pair(b@, x, y, i as int) is None,
        },
{
    let mut k = i;
    while k < b.len() && k + 1 < b.len()
        invariant
            i <= k,
            find_byte_pair(b@, x, y, i as int) == find_byte_pair(b@, x, y, k as int),
        decreases b@.len() - k,
    {
        if b[k] == x && b[k + 1] == y {
            return Some(k);
        }
        k = k + 1;
    }
    None
}

/// Highlights Markdown: code blocks, headings, list items, inline code,
/// emphasis and links.
pub struct MarkDownSyntaxHighlighter {
    highlights: Vec<Vec<Annotation>>,
    in_code_block: bool,
}

impl Default for MarkDownSyntaxHighlighter {
    /// A highlighter that has seen no line.
    fn default() -> (res: Self)
        ensures
            res.lines() == Seq::<Seq<Annotation>>::empty(),
            !res.in_block(),
    {
        Self::new()
    }
}

impl MarkDownSyntaxHighlighter {
    /// The annotations computed so far, one sequence per line.
    pub closed spec fn lines(&self) -> Seq<Seq<Annotation>> {
        self.highlights@.map_values(|v: Vec<Annotation>| v@)
    }

    /// Whether a code block is open after the lines highlighted so far.
    pub closed spec fn in_block(&self) -> bool {
        self.in_code_block
    }

    /// A highlighter that has seen no line.
    pub fn new() -> (res: Self)
        ensures
            res.lines() == Seq::<Seq<Annotation>>::empty(),
            !res.in_block(),
    {
        let res = MarkDownSyntaxHighlighter { highlights: Vec::new(), in_code_block: false };
        proof {
            assert(res.lines() =~= Seq::<Seq<Annotation>>::empty());
        }
        res
    }

    fn annotate_code_block(&mut self, line: &str) -> (res: Option<Annotation>)
        ensures
            res == (if is_fence(line@) || old(self).in_block() {
                Some(mark(AnnotationType::CodeBlock, 0, byte_len(line@) as int))
            } else {
                None::<Annotation>
            }),
            final(self).in_block() == (old(self).in_block() != is_fence(line@)),
            final(self).lines() == old(self).lines(),
    {
        let cs = str_chars(line);
        let k = leading_white_space(&cs);
        let fence = cs.len() >= 3 && k <= cs.len() - 3 && cs[k] == '`' && cs[k + 1] == '`' && cs[k + 2] == '`';
        proof {
            let t = cs@.skip(k as int);
            if fence {
                assert(t.take(3) =~= seq!['`', '`', '`']);
            } else if 3 <= t.len() && t.take(3) == seq!['`', '`', '`'] {
                assert(t.take(3)[0] == '`' && t.take(3)[1] == '`' && t.take(3)[2] == '`');
            }
        }
        if fence {
            self.in_code_block = !self.in_code_block;
            return Some(Annotation { annotation_type: AnnotationType::CodeBlock, start_byte_idx: 0, end_byte_idx: line.len() });
        }
        if self.in_code_block {
            return Some(Annotation { annotation_type: AnnotationType::CodeBlock, start_byte_idx: 0, end_byte_idx: line.len() });
        }
        None
    }

    fn annotate_heading(line: &str) -> (res: Option<Annotation>)
        ensures
            res == (if is_heading(line@) {
                Some(mark(AnnotationType::Heading, 0, byte_len(line@) as int))
            } else {
                None::<Annotation>
            }),
    {
        let cs = str_chars(line);
        let k = leading_white_space(&cs);
        let mut level: usize = k;
        proof {
            assert(skip_char(cs@.skip(k as int), '#', 0) + k == skip_char(cs@, '#', k as int)) by {
                lemma_skip_char_shift(cs@, '#', k as int, 0);
            }
        }
        while level < cs.len() && cs[level] == '#'
            invariant
                k <= level <= cs@.len(),
                skip_char(cs@, '#', k as int) == skip_char(cs@, '#', level as int),
            decreases cs@.len() - level,
        {
            level = level + 1;
        }
        if level > k && level < cs.len() && cs[level] == ' ' {
            return Some(Annotation { annotation_type: AnnotationType::Heading, start_byte_idx: 0, end_byte_idx: line.len() });
        }
        None
    }

    fn annotate_inline_code(string: &str) -> (res: Option<Annotation>)
        ensures
            res == span_mark(AnnotationType::InlineCode, inline_code_span(string.spec_bytes())),
    {
        let b = string.as_bytes();
        match find_byte_exec(b, 96u8, 0) {
            Some(start) => match find_byte_exec(b, 96u8, start + 1) {
                Some(end) => Some(Annotation { annotation_type: AnnotationType::InlineCode, start_byte_idx: start, end_byte_idx: end + 1 }),
                None => None,
            },
            None => None,
        }
    }

    fn annotate_bold_italic(string: &str) -> (res: Option<Annotation>)
        ensures
            res == span_mark(AnnotationType::Emphasis, emphasis_span(string.spec_bytes(), 0)),
    {
        let bytes = string.as_bytes();
        let mut i: usize = 0;
        while i < bytes.len()
            invariant
                bytes@ == string.spec_bytes(),
                emphasis_span(bytes@, 0) == emphasis_span(bytes@, i as int),
            decreases bytes@.len() - i,
        {
            if bytes[i] == 42u8 || bytes[i] == 95u8 {
                let marker = bytes[i];
                let mut j = i + 1;
                while j < bytes.len()
                    invariant
                        i < j,
                        i < bytes@.len(),
                        marker == bytes@[i as int],
                        marker == 42u8 || marker == 95u8,
                        bytes@ == string.spec_bytes(),
                        emphasis_span(bytes@, 0) == emphasis_span(bytes@, i as int),
                        find_byte(bytes@, marker, i + 1) == find_byte(bytes@, marker, j as int),
                    decreases bytes@.len() - j,
                {
                    if bytes[j] == marker {
                        proof {
                            assert(find_byte(bytes@, marker, j as int) == Some(j as int));
                            assert(emphasis_span(bytes@, i as int) == Some((i as int, j + 1)));
                        }
                        return Some(Annotation { annotation_type: AnnotationType::Emphasis, start_byte_idx: i, end_byte_idx: j + 1 });
                    }
                    j = j + 1;
                }
            }
            i = i + 1;
        }
        None
    }

    fn annotate_link(string: &str) -> (res: Option<Annotation>)
        ensures
            res == span_mark(AnnotationType::Link, link_span(string.spec_bytes())),
    {
        let b = string.as_bytes();
        match find_byte_exec(b, 91u8, 0) {
            Some(start) => match find_byte_pair_exec(b, 93u8, 40u8, start) {
                Some(mid) => match find_byte_exec(b, 41u8, mid + 2) {
                    Some(end) => Some(Annotation { annotation_type: AnnotationType::Link, start_byte_idx: start, end_byte_idx: end + 1 }),
                    None => None,
                },
                None => None,
            },
            None => None,
        }
    }

    fn annotate_list(line: &str) -> (res: Option<Annotation>)
        ensures
            res == (if is_list_item(line@) {
                Some(mark(AnnotationType::ListItem, 0, byte_len(line@) as int))
            } else {
                None::<Annotation>
            }),
    {
        let cs = str_chars(line);
        let k = leading_white_space(&cs);
        if starts_with_two_at(&cs, k, '-', ' ') || starts_with_two_at(&cs, k, '*', ' ') || starts_with_two_at(&cs, k, '+', ' ') {
            return Some(Annotation { annotation_type: AnnotationType::ListItem, start_byte_idx: 0, end_byte_idx: line.len() });
        }
        None
    }

    /// Computes and keeps the annotations of the next line, `line`, which is
    /// line `idx`.
    pub fn highlight(&mut self, idx: LineIdx, line: &Line)
        requires
            idx == old(self).lines().len(),
        ensures
            final(self).lines() == old(self).lines().push(markdown_line(old(self).in_block(), line@).0),
            final(self).in_block() == markdown_line(old(self).in_block(), line@).1,
    {
        let text = line.to_text();
        let line_str: &str = text.as_str();
        let mut result: Vec<Annotation> = Vec::new();
        let code = self.annotate_code_block(line_str);
        if let Some(a) = code {
            result.push(a);
        } else {
            let heading = Self::annotate_heading(line_str);
            if let Some(a) = heading {
                result.push(a);
            } else {
                let list = Self::annotate_list(line_str);
                if let Some(a) = list {
                    result.push(a);
                } else {
                    let x = Self::annotate_inline_code(line_str);
                    let y = Self::annotate_bold_italic(line_str);
                    let z = Self::annotate_link(line_str);
                    if let Some(a) = x {
                        result.push(a);
                    }
                    if let Some(a) = y {
                        result.push(a);
                    }
                    if let Some(a) = z {
                        result.push(a);
                    }
                    proof {
                        assert(result@ =~= opt_seq(x) + opt_seq(y) + opt_seq(z));
                    }
                }
            }
        }
        proof {
            assert(result@ == markdown_line(old(self).in_block(), line@).0);
        }
        let ghost h = self.highlights@;
        self.highlights.push(result);
        proof {
            assert(self.lines() =~= h.map_values(|v: Vec<Annotation>| v@).push(result@));
        }
    }

    /// The annotations of line `idx`, if it was highlighted.
    pub fn get_annotations(&self, idx: LineIdx) -> (res: Option<&Vec<Annotation>>)
        ensures
            match res {
                Some(v) => idx < self.lines().len() && v@ == self.lines()[idx as int],
                None => idx >= self.lines().len(),
            },
    {
        if idx < self.highlights.len() {
            Some(&self.highlights[idx])
        } else {
            None
        }
    }
}

/// Counting a run of `c` from `i + k` in `cs` equals counting it from `i` in
/// `cs` without its first `k` characters, shifted by `k`.
pub proof fn lemma_skip_char_shift(cs: Seq<char>, c: char, k: int, i: int)
    requires
        0 <= k <= cs.len(),
        0 <= i,
    ensures
        skip_char(cs.skip(k), c, i) + k == skip_char(cs, c, i + k),
    decreases cs.len() - k - i,
{
    if 0 <= i < cs.skip(k).len() && cs.skip(k)[i] == c {
        lemma_skip_char_shift(cs, c, k, i + 1);
    }
}

/// Where [`emphasis_span`] finds an emphasis: starting at or after `i`, not
/// empty, inside `b`.
proof fn lemma_emphasis_span_range(b: Seq<u8>, i: int)
    ensures
        emphasis_span(b, i) matches Some((x, y)) ==> i <= x < y <= b.len(),
    decreases b.len() - i,
{
    if 0 <= i < b.len() {
        lemma_find_byte_range(b, b[i], i + 1);
        if !((b[i] == 42u8 || b[i] == 95u8) && find_byte(b, b[i], i + 1) is Some) {
            lemma_emphasis_span_range(b, i + 1);
        }
    }
}

/// Law: every annotation of a line of Markdown lies within the line, whether
/// or not a code block is open.
pub proof fn lemma_markdown_annotations_within(in_code_block: bool, cs: Seq<char>)
    requires
        byte_len(cs) <= usize::MAX,
    ensures
        forall|k: int| 0 <= k < markdown_line(in_code_block, cs).0.len()
            ==> lies_within(#[trigger] markdown_line(in_code_block, cs).0[k], byte_len(cs) as int),
{
    let b = vstd::utf8::encode_utf8(cs);
    let len = byte_len(cs) as int;
    lemma_find_byte_range(b, 96u8, 0);
    match find_byte(b, 96u8, 0) {
        Some(start) => lemma_find_byte_range(b, 96u8, start + 1),
        None => {},
    }
    lemma_span_mark_within(AnnotationType::InlineCode, inline_code_span(b), len);
    lemma_emphasis_span_range(b, 0);
    lemma_span_mark_within(AnnotationType::Emphasis, emphasis_span(b, 0), len);
    lemma_find_byte_range(b, 91u8, 0);
    match find_byte(b, 91u8, 0) {
        Some(start) => {
            lemma_find_byte_pair_range(b, 93u8, 40u8, start);
            match find_byte_pair(b, 93u8, 40u8, start) {
                Some(mid) => lemma_find_byte_range(b, 41u8, mid + 2),
                None => {},
            }
        },
        None => {},
    }
    lemma_span_mark_within(AnnotationType::Link, link_span(b), len);
    let anns = markdown_line(in_code_block, cs).0;
    let x = opt_seq(span_mark(AnnotationType::InlineCode, inline_code_span(b)));
    let y = opt_seq(span_mark(AnnotationType::Emphasis, emphasis_span(b, 0)));
    let z = opt_seq(span_mark(AnnotationType::Link, link_span(b)));
    assert forall|k: int| 0 <= k < anns.len() implies lies_within(#[trigger] anns[k], len) by {
        if is_fence(cs) || in_code_block || is_heading(cs) || is_list_item(cs) {
        } else if k < x.len() {
            assert(anns[k] == x[k]);
        } else if k < x.len() + y.len() {
            assert(anns[k] == y[k - x.len()]);
        } else {
            assert(anns[k] == z[k - x.len() - y.len()]);
        }
    }
}

/// What [`find_byte`] finds: the first byte `x` at or after `i`.
proof fn lemma_find_byte_first(b: Seq<u8>, x: u8, i: int)
    requires
        0 <= i,
    ensures
        find_byte(b, x, i) matches Some(k) ==> i <= k < b.len() && b[k] == x
            && forall|m: int| i <= m < k ==> b[m] != x,
        find_byte(b, x, i) is None ==> forall|m: int| i <= m < b.len() ==> b[m] != x,
    decreases b.len() - i,
{
    if i < b.len() && b[i] != x {
        lemma_find_byte_first(b, x, i + 1);
    }
}

/// Byte `i` of `b` is a `*` or `_` that the same byte follows later.
pub open spec fn closed_marker(b: Seq<u8>, i: int) -> bool {
    &&& 0 <= i < b.len()
    &&& (b[i] == 42u8 || b[i] == 95u8)
    &&& exists|j: int| i < j < b.len() && b[j] == b[i]
}

/// The emphasis found from byte `i` on starts at the first closed marker at
/// or after `i` and ends just after its first twin; there is none when no
/// marker from `i` on is closed.
proof fn lemma_emphasis_span_first_closed(b: Seq<u8>, i: int)
    requires
        0 <= i,
    ensures
        emphasis_span(b, i) matches Some((x, y)) ==> {
            &&& i <= x && closed_marker(b, x)
            &&& forall|m: int| i <= m < x ==> !closed_marker(b, m)
            &&& x < y - 1 < b.len() && b[y - 1] == b[x]
            &&& forall|m: int| x < m < y - 1 ==> b[m] != b[x]
        },
        emphasis_span(b, i) is None ==> forall|m: int| i <= m ==> !closed_marker(b, m),
    decreases b.len() - i,
{
    if i < b.len() {
        lemma_find_byte_first(b, b[i], i + 1);
        if (b[i] == 42u8 || b[i] == 95u8) && find_byte(b, b[i], i + 1) is Some {
            let j = find_byte(b, b[i], i + 1)->0;
            assert(closed_marker(b, i));
        } else {
            if closed_marker(b, i) {
                let j = choose|j: int| i < j < b.len() && b[j] == b[i];
                assert(b[j] == b[i]);
            }
            lemma_emphasis_span_first_closed(b, i + 1);
        }
    }
}

/// Law: on a Markdown line outside a code block that is no fence, heading or
/// list item, an emphasis is marked exactly when some `*` or `_` is followed
/// later by the same byte; it starts at the first such marker (an earlier
/// marker with no twin does not stop the search) and ends just after the
/// first twin after it.
pub proof fn lemma_markdown_emphasis(cs: Seq<char>)
    requires
        byte_len(cs) <= usize::MAX,
        !is_fence(cs),
        !is_heading(cs),
        !is_list_item(cs),
    ensures
        ({
            let b = vstd::utf8::encode_utf8(cs);
            let anns = markdown_line(false, cs).0;
            &&& (exists|i: int| closed_marker(b, i)) <==> (exists|k: int| 0 <= k < anns.len() && #[trigger] anns[k].annotation_type == AnnotationType::Emphasis)
            &&& forall|k: int| 0 <= k < anns.len() && #[trigger] anns[k].annotation_type == AnnotationType::Emphasis ==> {
                let x = anns[k].start_byte_idx as int;
                let y = anns[k].end_byte_idx as int;
                &&& closed_marker(b, x)
                &&& forall|m: int| 0 <= m < x ==> !closed_marker(b, m)
                &&& x < y - 1 < b.len() && b[y - 1] == b[x]
                &&& forall|m: int| x < m < y - 1 ==> b[m] != b[x]
            }
        }),
{
    let b = vstd::utf8::encode_utf8(cs);
    let anns = markdown_line(false, cs).0;
    lemma_emphasis_span_first_closed(b, 0);
    let x = opt_seq(span_mark(AnnotationType::InlineCode, inline_code_span(b)));
    let y = opt_seq(span_mark(AnnotationType::Emphasis, emphasis_span(b, 0)));
    let z = opt_seq(span_mark(AnnotationType::Link, link_span(b)));
    assert(anns == x + y + z);
    assert forall|k: int| 0 <= k < anns.len() && #[trigger] anns[k].annotation_type == AnnotationType::Emphasis
        implies k == x.len() && y.len() == 1 && anns[k] == y[0] by {
        if k < x.len() {
            assert(anns[k] == x[k]);
        } else if k < x.len() + y.len() {
            assert(anns[k] == y[k - x.len()]);
        } else {
            assert(anns[k] == z[k - x.len() - y.len()]);
        }
    }
    if exists|i: int| closed_marker(b, i) {
        let i = choose|i: int| closed_marker(b, i);
        assert(emphasis_span(b, 0) is Some);
        let k = x.len() as int;
        assert(anns[k] == y[0]);
        assert(anns[k].annotation_type == AnnotationType::Emphasis);
    }
}

} // verus!
