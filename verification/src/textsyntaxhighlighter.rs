use vstd::prelude::*;
use crate::prelude::LineIdx;
use crate::annotation::{Annotation, AnnotationType, lies_within, span_mark, opt_seq,
    lemma_span_mark_within};
use crate::line::Line;
use crate::text::{str_chars, is_whitespace, is_white_space, is_digit, byte_len, byte_offset,
    find_chars, find_white_space, rfind_white_space, contains_between, char_byte_len, utf8_len,
    lemma_str_len, lemma_find_chars_range, lemma_find_white_space_range, lemma_rfind_white_space_range};
use vstd::view::View as ModelView;

verus! {

broadcast use vstd::string::group_string_axioms;

/// The number of bytes before character `k` of `cs`.
pub open spec fn byte_pos(cs: Seq<char>, k: int) -> int {
    byte_len(cs.take(k)) as int
}

/// `http://`
pub open spec fn http() -> Seq<char> {
    seq!['h', 't', 't', 'p', ':', '/', '/']
}

/// `https://`
pub open spec fn https() -> Seq<char> {
    seq!['h', 't', 't', 'p', 's', ':', '/', '/']
}

/// The index of the first digit at or after `i`, if any.
pub open spec fn find_digit(cs: Seq<char>, i: int) -> Option<int>
    decreases cs.len() - i,
{
    if i < 0 || i >= cs.len() {
        None
    } else if is_digit(cs[i]) {
        Some(i)
    } else {
        find_digit(cs, i + 1)
    }
}

/// The index of the first character at or after `i` that is not a digit, if
/// any.
pub open spec fn find_non_digit(cs: Seq<char>, i: int) -> Option<int>
    decreases cs.len() - i,
{
    if i < 0 || i >= cs.len() {
        None
    } else if !is_digit(cs[i]) {
        Some(i)
    } else {
        find_non_digit(cs, i + 1)
    }
}

/// The byte span of the first URL in `cs`: from the first `http://` (or, when
/// there is none, the first `https://`) up to the next white space or the end.
pub open spec fn url_span(cs: Seq<char>) -> Option<(int, int)> {
    let start = match find_chars(cs, http(), 0) {
        Some(i) => Some(i),
        None => find_chars(cs, https(), 0),
    };
    match start {
        Some(i) => Some((
            byte_pos(cs, i),
            match find_white_space(cs, i) {
                Some(e) => byte_pos(cs, e),
                None => byte_len(cs) as int,
            },
        )),
        None => None,
    }
}

/// The byte span of the first run of ASCII digits in `cs`.
pub open spec fn number_span(cs: Seq<char>) -> Option<(int, int)> {
    match find_digit(cs, 0) {
        Some(i) => Some((
            byte_pos(cs, i),
            match find_non_digit(cs, i) {
                Some(j) => byte_pos(cs, j),
                None => byte_len(cs) as int,
            },
        )),
        None => None,
    }
}

/// The characters of the word around the first `@` in `cs`: from after the
/// last white space before it (or the start) to the next white space from it
/// (or the end).
pub open spec fn email_chars(cs: Seq<char>, at: int) -> (int, int) {
    (
        match rfind_white_space(cs, at) {
            Some(w) => w + 1,
            None => 0,
        },
        match find_white_space(cs, at) {
            Some(e) => e,
            None => cs.len() as int,
        },
    )
}

/// Finding an email address in `cs` does not cut a character: the last white
/// space before the first `@`, if any, is a one-byte character.
pub open spec fn email_cut_ok(cs: Seq<char>) -> bool {
    match find_chars(cs, seq!['@'], 0) {
        Some(at) => match rfind_white_space(cs, at) {
            Some(w) => char_byte_len(cs[w]) == 1,
            None => true,
        },
        None => true,
    }
}

/// The byte span of the word around the first `@` in `cs`, when that word
/// holds a `.`.
pub open spec fn email_span(cs: Seq<char>) -> Option<(int, int)> {
    match find_chars(cs, seq!['@'], 0) {
        Some(at) => {
            let (s, e) = email_chars(cs, at);
            if contains_between(cs, '.', s, e) {
                Some((byte_pos(cs, s), byte_pos(cs, e)))
            } else {
                None
            }
        },
        None => None,
    }
}

/// The annotations of a line of plain text: the first URL, the first email
/// address and the first number, in that order.
pub open spec fn text_line(cs: Seq<char>) -> Seq<Annotation> {
    opt_seq(span_mark(AnnotationType::Link, url_span(cs)))
        + opt_seq(span_mark(AnnotationType::Link, email_span(cs)))
        + opt_seq(span_mark(AnnotationType::Number, number_span(cs)))
}

fn find_chars_exec(cs: &Vec<char>, pat: &Vec<char>) -> (res: Option<usize>)
    ensures
        match res {
            Some(k) => find_chars(cs@, pat@, 0) == Some(k as int) && k + pat@.len() <= cs@.len(),
            None => find_chars(cs@, pat@, 0) is None,
        },
{
    if pat.len() > cs.len() {
        return None;
    }
    let mut i: usize = 0;
    while i <= cs.len() - pat.len()
        invariant
            pat@.len() <= cs@.len(),
            find_chars(cs@, pat@, 0) == find_chars(cs@, pat@, i as int),
        decreases cs@.len() - i,
    {
        let mut k: usize = 0;
        let mut same = true;
        while k < pat.len()
            invariant
                i + pat@.len() <= cs@.len(),
                pat.len() <= cs.len(),
                i <= cs.len() - pat.len(),
                k <= pat@.len(),
                same == forall|m: int| 0 <= m < k ==> cs@[i + m] == pat@[m],
            decreases pat@.len() - k,
        {
            if cs[i + k] != pat[k] {
                same = false;
            }
            k = k + 1;
        }
        proof {
            if same {
                assert(cs@.subrange(i as int, i + pat@.len()) =~= pat@);
            } else {
                let m = choose|m: int| 0 <= m < k && cs@[i + m] != pat@[m];
                assert(cs@.subrange(i as int, i + pat@.len())[m] != pat@[m]);
            }
        }
        if same {
            return Some(i);
        }
        if i == cs.len() - pat.len() {
            proof {
                assert(find_chars(cs@, pat@, i + 1) is None);
            }
            return None;
        }
        i = i + 1;
    }
    None
}

fn find_ws_exec(cs: &Vec<char>, i: usize) -> (res: Option<usize>)
    ensures
        match res {
            Some(k) => find_white_space(cs@, i as int) == Some(k as int) && k < cs@.len(),
            None => find_white_space(cs@, i as int) is None,
        },
{
    let mut k = i;
    while k < cs.len()
        invariant
            i <= k,
            find_white_space(cs@, i as int) == find_white_space(cs@, k as int),
        decreases cs@.len() - k,
    {
        if is_whitespace(cs[k]) {
            return Some(k);
        }
        k = k + 1;
    }
    None
}

fn rfind_ws_exec(cs: &Vec<char>, i: usize) -> (res: Option<usize>)
    requires
        i <= cs@.len(),
    ensures
        match res {
            Some(k) => rfind_white_space(cs@, i as int) == Some(k as int) && k < i,
            None => rfind_white_space(cs@, i as int) is None,
        },
{
    let mut k = i;
    while k > 0
        invariant
            k <= i <= cs@.len(),
            rfind_white_space(cs@, i as int) == rfind_white_space(cs@, k as int),
        decreases k,
    {
        if is_whitespace(cs[k - 1]) {
            return Some(k - 1);
        }
        k = k - 1;
    }
    None
}

fn contains_exec(cs: &Vec<char>, c: char, i: usize, j: usize) -> (res: bool)
    requires
        j <= cs@.len(),
    ensures
        res == contains_between(cs@, c, i as int, j as int),
{
    let mut k = i;
    while k < j
        invariant
            i <= k,
            j <= cs@.len(),
            forall|m: int| i <= m < k ==> cs@[m] != c,
        decreases j - k,
    {
        if cs[k] == c {
            return true;
        }
        k = k + 1;
    }
    false
}

/// Highlights plain text: URLs, email addresses and numbers.
pub struct TextSyntaxHighlighter {
    highlights: Vec<Vec<Annotation>>,
}

impl Default for TextSyntaxHighlighter {
    /// A highlighter that has seen no line.
    fn default() -> (res: Self)
        ensures
            res.lines() == Seq::<Seq<Annotation>>::empty(),
    {
        Self::new()
    }
}

impl TextSyntaxHighlighter {
    /// The annotations computed so far, one sequence per line.
    pub closed spec fn lines(&self) -> Seq<Seq<Annotation>> {
        self.highlights@.map_values(|v: Vec<Annotation>| v@)
    }

    /// A highlighter that has seen no line.
    pub fn new() -> (res: Self)
        ensures
            res.lines() == Seq::<Seq<Annotation>>::empty(),
    {
        let res = TextSyntaxHighlighter { highlights: Vec::new() };
        proof {
            assert(res.lines() =~= Seq::<Seq<Annotation>>::empty());
        }
        res
    }

    fn annotate_url(string: &str) -> (res: Option<Annotation>)
        ensures
            res == span_mark(AnnotationType::Link, url_span(string@)),
    {
        let total = string.as_bytes().len();
        let cs = str_chars(string);
        proof {
            lemma_str_len(string);
            reveal_strlit("http://");
            reveal_strlit("https://");
        }
        let p1 = str_chars("http://");
        let p2 = str_chars("https://");
        proof {
            assert(p1@ =~= http());
            assert(p2@ =~= https());
        }
        let found = match find_chars_exec(&cs, &p1) {
            Some(i) => Some(i),
            None => find_chars_exec(&cs, &p2),
        };
        match found {
            Some(start) => {
                let end = match find_ws_exec(&cs, start) {
                    Some(e) => byte_offset(&cs, e),
                    None => total,
                };
                Some(Annotation { annotation_type: AnnotationType::Link, start_byte_idx: byte_offset(&cs, start), end_byte_idx: end })
            },
            None => None,
        }
    }

    fn annotate_number(string: &str) -> (res: Option<Annotation>)
        ensures
            res == span_mark(AnnotationType::Number, number_span(string@)),
    {
        let total = string.as_bytes().len();
        let cs = str_chars(string);
        proof {
            lemma_str_len(string);
        }
        let mut i: usize = 0;
        while i < cs.len() && !('0' <= cs[i] && cs[i] <= '9')
            invariant
                i <= cs@.len(),
                find_digit(cs@, 0) == find_digit(cs@, i as int),
            decreases cs@.len() - i,
        {
            i = i + 1;
        }
        if i == cs.len() {
            return None;
        }
        let mut j: usize = i;
        while j < cs.len() && '0' <= cs[j] && cs[j] <= '9'
            invariant
                i <= j <= cs@.len(),
                find_non_digit(cs@, i as int) == find_non_digit(cs@, j as int),
            decreases cs@.len() - j,
        {
            j = j + 1;
        }
        let end = if j < cs.len() { byte_offset(&cs, j) } else { total };
        Some(Annotation { annotation_type: AnnotationType::Number, start_byte_idx: byte_offset(&cs, i), end_byte_idx: end })
    }

    fn annotate_email(string: &str) -> (res: Option<Annotation>)
        requires
            email_cut_ok(string@),
        ensures
            res == span_mark(AnnotationType::Link, email_span(string@)),
    {
        let total = string.as_bytes().len();
        let cs = str_chars(string);
        proof {
            lemma_str_len(string);
        }
        let mut at_pat: Vec<char> = Vec::new();
        at_pat.push('@');
        proof {
            assert(at_pat@ =~= seq!['@']);
        }
        match find_chars_exec(&cs, &at_pat) {
            Some(at) => {
                let start = match rfind_ws_exec(&cs, at) {
                    Some(w) => {
                        proof {
                            crate::text::lemma_byte_len_take_next(cs@, w as int);
                            crate::text::lemma_byte_len_monotonic(cs@, w + 1, cs@.len() as int);
                            assert(cs@.take(cs@.len() as int) =~= cs@);
                        }
                        w + 1
                    },
                    None => 0,
                };
                let end = match find_ws_exec(&cs, at) {
                    Some(e) => e,
                    None => cs.len(),
                };
                if contains_exec(&cs, '.', start, end) {
                    let start_byte = byte_offset(&cs, start);
                    let end_byte = if end < cs.len() { byte_offset(&cs, end) } else { total };
                    proof {
                        if end == cs@.len() {
                            assert(cs@.take(cs@.len() as int) =~= cs@);
                        }
                    }
                    return Some(Annotation { annotation_type: AnnotationType::Link, start_byte_idx: start_byte, end_byte_idx: end_byte });
                }
                None
            },
            None => None,
        }
    }

    /// Whether `line` can be highlighted: finding an email address in it does
    /// not cut a character, as [`TextSyntaxHighlighter::highlight`] asks.
    pub fn can_highlight(line: &Line) -> (res: bool)
        ensures
            res == email_cut_ok(line@),
    {
        let cs = line.chars();
        let mut at_pat: Vec<char> = Vec::new();
        at_pat.push('@');
        proof {
            assert(at_pat@ =~= seq!['@']);
        }
        match find_chars_exec(cs, &at_pat) {
            Some(at) => match rfind_ws_exec(cs, at) {
                Some(w) => crate::text::utf8_len(cs[w]) == 1,
                None => true,
            },
            None => true,
        }
    }

    /// Computes and keeps the annotations of the next line, `line`, which is
    /// line `idx`.
    pub fn highlight(&mut self, idx: LineIdx, line: &Line)
        requires
            idx == old(self).lines().len(),
            email_cut_ok(line@),
        ensures
            final(self).lines() == old(self).lines().push(text_line(line@)),
    {
        let text = line.to_text();
        let line_str: &str = text.as_str();
        let mut result: Vec<Annotation> = Vec::new();
        let x = Self::annotate_url(line_str);
        let y = Self::annotate_email(line_str);
        let z = Self::annotate_number(line_str);
        if let Some(a) = x {
            result.push(a);
        }
        if let Some(a) = y {
            result.push(a);
        }
        if let Some(a) = z {
            result.push(a);
        }
        proof {
            assert(result@ =~= opt_seq(x) + opt_seq(y) + opt_seq(z));
        }
        let ghost h = self.highlights@;
        self.highlights.push(result);
        proof {
            assert(self.lines() =~= h.map_values(|v: Vec<Annotation>| v@).push(result@));
        }
    }

    /// The annotations of line `idx`, if it was highlighted.
    pub fn get_annotations(&self, idx: LineIdx) -> (res: Option<&Vec<Annotation>>)
        ensures
            match res {
                Some(v) => idx < self.lines().len() && v@ == self.lines()[idx as int],
                None => idx >= self.lines().len(),
            },
    {
        if idx < self.highlights.len() {
            Some(&self.highlights[idx])
        } else {
            None
        }
    }
}

/// Where [`find_digit`] finds a digit: at or after where it starts, inside
/// `cs`.
proof fn lemma_find_digit_range(cs: Seq<char>, i: int)
    ensures
        find_digit(cs, i) matches Some(k) ==> i <= k < cs.len(),
    decreases cs.len() - i,
{
    if 0 <= i < cs.len() && !is_digit(cs[i]) {
        lemma_find_digit_range(cs, i + 1);
    }
}

/// Where [`find_non_digit`] finds a character: at or after where it starts,
/// inside `cs`.
proof fn lemma_find_non_digit_range(cs: Seq<char>, i: int)
    ensures
        find_non_digit(cs, i) matches Some(k) ==> i <= k < cs.len(),
    decreases cs.len() - i,
{
    if 0 <= i < cs.len() && is_digit(cs[i]) {
        lemma_find_non_digit_range(cs, i + 1);
    }
}

/// Byte positions grow with the character position, up to the byte length.
proof fn lemma_byte_pos_order(cs: Seq<char>, i: int, j: int)
    requires
        0 <= i <= j <= cs.len(),
    ensures
        0 <= byte_pos(cs, i) <= byte_pos(cs, j) <= byte_len(cs),
{
    crate::text::lemma_byte_len_monotonic(cs, i, j);
    crate::text::lemma_byte_len_monotonic(cs, j, cs.len() as int);
    assert(cs.take(cs.len() as int) =~= cs);
}

/// Law: every annotation of a line of plain text lies within the line.
pub proof fn lemma_text_annotations_within(cs: Seq<char>)
    requires
        byte_len(cs) <= usize::MAX,
    ensures
        forall|k: int| 0 <= k < text_line(cs).len() ==> lies_within(#[trigger] text_line(cs)[k], byte_len(cs) as int),
{
    let len = byte_len(cs) as int;
    lemma_find_chars_range(cs, http(), 0);
    lemma_find_chars_range(cs, https(), 0);
    match url_span(cs) {
        Some(_) => {
            let i = match find_chars(cs, http(), 0) {
                Some(i) => i,
                None => find_chars(cs, https(), 0)->0,
            };
            lemma_find_white_space_range(cs, i);
            let e = match find_white_space(cs, i) {
                Some(e) => e,
                None => cs.len() as int,
            };
            lemma_byte_pos_order(cs, i, e);
        },
        None => {},
    }
    lemma_span_mark_within(AnnotationType::Link, url_span(cs), len);
    lemma_find_chars_range(cs, seq!['@'], 0);
    match find_chars(cs, seq!['@'], 0) {
        Some(at) => {
            lemma_rfind_white_space_range(cs, at);
            lemma_find_white_space_range(cs, at);
            let (s, e) = email_chars(cs, at);
            lemma_byte_pos_order(cs, s, e);
        },
        None => {},
    }
    lemma_span_mark_within(AnnotationType::Link, email_span(cs), len);
    lemma_find_digit_range(cs, 0);
    match find_digit(cs, 0) {
        Some(i) => {
            lemma_find_non_digit_range(cs, i);
            let j = match find_non_digit(cs, i) {
                Some(j) => j,
                None => cs.len() as int,
            };
            lemma_byte_pos_order(cs, i, j);
        },
        None => {},
    }
    lemma_span_mark_within(AnnotationType::Number, number_span(cs), len);
    let a = opt_seq(span_mark(AnnotationType::Link, url_span(cs)));
    let b = opt_seq(span_mark(AnnotationType::Link, email_span(cs)));
    let c = opt_seq(span_mark(AnnotationType::Number, number_span(cs)));
    assert forall|k: int| 0 <= k < text_line(cs).len() implies lies_within(#[trigger] text_line(cs)[k], len) by {
        if k < a.len() {
            assert(text_line(cs)[k] == a[k]);
        } else if k < a.len() + b.len() {
            assert(text_line(cs)[k] == b[k - a.len()]);
        } else {
            assert(text_line(cs)[k] == c[k - a.len() - b.len()]);
        }
    }
}

/// Where [`find_chars`] finds a pattern, the pattern is there.
proof fn lemma_find_chars_found(cs: Seq<char>, pat: Seq<char>, i: int)
    ensures
        find_chars(cs, pat, i) matches Some(k) ==> cs.subrange(k, k + pat.len()) == pat,
    decreases cs.len() + 1 - i,
{
    if 0 <= i && i + pat.len() <= cs.len() && cs.subrange(i, i + pat.len()) != pat {
        lemma_find_chars_found(cs, pat, i + 1);
    }
}

/// What [`rfind_white_space`] finds: the last white space before `i`.
proof fn lemma_rfind_white_space_last(cs: Seq<char>, i: int)
    requires
        0 <= i <= cs.len(),
    ensures
        rfind_white_space(cs, i) matches Some(w) ==> 0 <= w < i && is_white_space(cs[w])
            && forall|m: int| w < m < i ==> !is_white_space(cs[m]),
        rfind_white_space(cs, i) is None ==> forall|m: int| 0 <= m < i ==> !is_white_space(cs[m]),
    decreases i,
{
    if 0 < i && !is_white_space(cs[i - 1]) {
        lemma_rfind_white_space_last(cs, i - 1);
    }
}

/// What [`find_white_space`] finds: the first white space at or after `i`.
proof fn lemma_find_white_space_first(cs: Seq<char>, i: int)
    requires
        0 <= i <= cs.len(),
    ensures
        find_white_space(cs, i) matches Some(e) ==> i <= e < cs.len() && is_white_space(cs[e])
            && forall|m: int| i <= m < e ==> !is_white_space(cs[m]),
        find_white_space(cs, i) is None ==> forall|m: int| i <= m < cs.len() ==> !is_white_space(cs[m]),
    decreases cs.len() - i,
{
    if i < cs.len() && !is_white_space(cs[i]) {
        lemma_find_white_space_first(cs, i + 1);
    }
}

/// `s..e` is the word of `cs` around character `at`: no white space in it,
/// white space or the line's edge on each side.
pub open spec fn word_around(cs: Seq<char>, at: int, s: int, e: int) -> bool {
    &&& 0 <= s <= at < e <= cs.len()
    &&& forall|m: int| s <= m < e ==> !is_white_space(#[trigger] cs[m])
    &&& s == 0 || is_white_space(cs[s - 1])
    &&& e == cs.len() || is_white_space(cs[e])
}

/// Law: the email address that a line of plain text marks is the word around
/// its first `@` (no white space in it, white space or the line's edge on
/// each side), when that word holds a `.`; no other span is marked as one.
pub proof fn lemma_email_is_word_around_at(cs: Seq<char>)
    ensures
        email_span(cs) matches Some((x, y)) ==> find_chars(cs, seq!['@'], 0) is Some && exists|s: int, e: int| {
            &&& #[trigger] word_around(cs, find_chars(cs, seq!['@'], 0)->0, s, e)
            &&& contains_between(cs, '.', s, e)
            &&& x == byte_pos(cs, s) && y == byte_pos(cs, e)
        },
        forall|s: int, e: int| #![trigger word_around(cs, find_chars(cs, seq!['@'], 0)->0, s, e)]
            find_chars(cs, seq!['@'], 0) is Some && word_around(cs, find_chars(cs, seq!['@'], 0)->0, s, e)
            && contains_between(cs, '.', s, e)
            ==> email_span(cs) == Some((byte_pos(cs, s), byte_pos(cs, e))),
{
    lemma_find_chars_range(cs, seq!['@'], 0);
    lemma_find_chars_found(cs, seq!['@'], 0);
    match find_chars(cs, seq!['@'], 0) {
        Some(at) => {
            assert(cs.subrange(at, at + 1) == seq!['@']);
            assert(cs[at] == cs.subrange(at, at + 1)[0]);
            assert(!is_white_space(cs[at]));
            lemma_rfind_white_space_last(cs, at);
            lemma_find_white_space_first(cs, at);
            let (s0, e0) = email_chars(cs, at);
            assert(word_around(cs, at, s0, e0));
            assert forall|s: int, e: int| word_around(cs, at, s, e) implies s == s0 && e == e0 by {
                match rfind_white_space(cs, at) {
                    Some(w) => {
                        if s <= w {
                            assert(!is_white_space(cs[w]));
                        }
                        if s - 1 > w {
                            assert(!is_white_space(cs[s - 1]));
                        }
                    },
                    None => {
                        if s > 0 {
                            assert(!is_white_space(cs[s - 1]));
                        }
                    },
                }
                match find_white_space(cs, at) {
                    Some(f) => {
                        if e > f {
                            assert(!is_white_space(cs[f]));
                        }
                        if e < f {
                            assert(!is_white_space(cs[e]));
                        }
                    },
                    None => {
                        if e < cs.len() {
                            assert(!is_white_space(cs[e]));
                        }
                    },
                }
            }
        },
        None => {},
    }
}

} // verus!
