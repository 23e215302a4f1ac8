use vstd::prelude::*;
use crate::prelude::GraphemeIdx;
use crate::text::{chars_to_string, str_chars, clamp_usize, line_width, width_of_prefix};

verus! {

/// One line of text, held as its sequence of graphemes, one `char` each (so a
/// character and a combining mark after it are two graphemes here).
#[derive(Debug)]
pub struct Line {
    chars: Vec<char>,
}

impl View for Line {
    type V = Seq<char>;

    closed spec fn view(&self) -> Seq<char> {
        self.chars@
    }
}

/// The line `l` with `c` inserted before grapheme `at`, or appended when `at`
/// is at or past the end.
pub open spec fn line_insert(l: Seq<char>, c: char, at: int) -> Seq<char> {
    if 0 <= at < l.len() {
        l.insert(at, c)
    } else {
        l.push(c)
    }
}

/// The line `l` without grapheme `at`; unchanged when there is none.
pub open spec fn line_delete(l: Seq<char>, at: int) -> Seq<char> {
    if 0 <= at < l.len() {
        l.remove(at)
    } else {
        l
    }
}

/// Where a line is split when asked to split at `at`: `at`, or the end of the
/// line when `at` is past it.
pub open spec fn split_point(l: Seq<char>, at: int) -> int {
    if at <= l.len() {
        at
    } else {
        l.len() as int
    }
}

/// Whether `query` occurs in `l` starting at grapheme `i`.
pub open spec fn matches_at(l: Seq<char>, query: Seq<char>, i: int) -> bool {
    &&& 0 <= i
    &&& i + query.len() <= l.len()
    &&& l.subrange(i, i + query.len()) == query
}

/// `i` is the first start at or after `from` where `query` occurs in `l`.
pub open spec fn is_first_match_from(l: Seq<char>, query: Seq<char>, from: int, i: int) -> bool {
    &&& from <= i
    &&& matches_at(l, query, i)
    &&& forall|j: int| from <= j < i ==> !matches_at(l, query, j)
}

/// `i` is the last start where `query` occurs in `l` ending at or before `end`.
pub open spec fn is_last_match_before(l: Seq<char>, query: Seq<char>, end: int, i: int) -> bool {
    &&& i + query.len() <= end
    &&& matches_at(l, query, i)
    &&& forall|j: int| i < j && j + query.len() <= end ==> !matches_at(l, query, j)
}

/// The first occurrence of `query` in `l` that starts at or after `from`,
/// if `from` is before the end of the line.
pub open spec fn line_search_forward(l: Seq<char>, query: Seq<char>, from: int) -> Option<int> {
    if from >= l.len() {
        None
    } else if exists|i: int| from <= i && matches_at(l, query, i) {
        Some(choose|i: int| is_first_match_from(l, query, from, i))
    } else {
        None
    }
}

/// The last occurrence of `query` in `l` that ends at or before `from`, if
/// `from` is after the start of the line.
pub open spec fn line_search_backward(l: Seq<char>, query: Seq<char>, from: int) -> Option<int> {
    let end = if from > l.len() { l.len() as int } else { from };
    if from <= 0 {
        None
    } else if exists|i: int| i + query.len() <= end && matches_at(l, query, i) {
        Some(choose|i: int| is_last_match_before(l, query, end, i))
    } else {
        None
    }
}

impl Line {
    /// An empty line.
    pub fn new() -> (res: Line)
        ensures
            res@ == Seq::<char>::empty(),
    {
        Line { chars: Vec::new() }
    }

    /// A line holding the characters of `s`.
    pub fn from_text(s: &str) -> (res: Line)
        ensures
            res@ == s@,
    {
        Line { chars: str_chars(s) }
    }

    /// A line holding the characters `cs`.
    pub fn from_chars(cs: Vec<char>) -> (res: Line)
        ensures
            res@ == cs@,
    {
        Line { chars: cs }
    }

    /// The characters of the line.
    pub fn chars(&self) -> (res: &Vec<char>)
        ensures
            res@ == self@,
    {
        &self.chars
    }

    /// The text of the line as a string.
    pub fn to_text(&self) -> (res: String)
        ensures
            res@ == self@,
    {
        chars_to_string(self.chars.as_slice())
    }

    /// The number of graphemes in the line.
    pub fn grapheme_count(&self) -> (res: usize)
        ensures
            res == self@.len(),
    {
        self.chars.len()
    }

    /// Whether the line holds no grapheme.
    pub fn is_empty(&self) -> (res: bool)
        ensures
            res == (self@.len() == 0),
    {
        self.chars.len() == 0
    }

    /// The grapheme at `at`, if there is one.
    pub fn get_char(&self, at: GraphemeIdx) -> (res: Option<char>)
        ensures
            res == (if at < self@.len() { Some(self@[at as int]) } else { None::<char> }),
    {
        if at < self.chars.len() {
            Some(self.chars[at])
        } else {
            None
        }
    }

    /// The screen width of the first `at` graphemes (of all of them when `at`
    /// is past the end), clamped at `usize::MAX`.
    pub fn width_until(&self, at: GraphemeIdx) -> (res: usize)
        ensures
            res == clamp_usize(line_width(self@.take(if at < self@.len() { at as int } else { self@.len() as int }))),
    {
        let k = if at < self.chars.len() { at } else { self.chars.len() };
        width_of_prefix(&self.chars, k)
    }

    /// Inserts `c` before grapheme `at`, or appends it when `at` is at or past
    /// the end.
    pub fn insert_char(&mut self, c: char, at: GraphemeIdx)
        ensures
            final(self)@ == line_insert(old(self)@, c, at as int),
    {
        if at < self.chars.len() {
            self.chars.insert(at, c);
        } else {
            self.chars.push(c);
        }
    }

    /// Removes grapheme `at`, if there is one.
    pub fn delete(&mut self, at: GraphemeIdx)
        ensures
            final(self)@ == line_delete(old(self)@, at as int),
    {
        if at < self.chars.len() {
            self.chars.remove(at);
        }
    }

    /// Appends the graphemes of `other`.
    pub fn append(&mut self, other: &Line)
        ensures
            final(self)@ == old(self)@ + other@,
    {
        let mut i: usize = 0;
        let ghost start = self@;
        while i < other.chars.len()
            invariant
                i <= other@.len(),
                self@ == start + other@.take(i as int),
            decreases other@.len() - i,
        {
            self.chars.push(other.chars[i]);
            proof {
                assert(start + other@.take(i + 1) =~= (start + other@.take(i as int)).push(
                    other@[i as int],
                ));
            }
            i = i + 1;
        }
        proof {
            assert(other@.take(other@.len() as int) =~= other@);
        }
    }

    /// Cuts the line at `at` (or at its end when `at` is past it), keeping the
    /// front and returning the rest.
    pub fn split(&mut self, at: GraphemeIdx) -> (rest: Line)
        ensures
            final(self)@ == old(self)@.take(split_point(old(self)@, at as int)),
            rest@ == old(self)@.skip(split_point(old(self)@, at as int)),
    {
        if at > self.chars.len() {
            proof {
                assert(self@.take(self@.len() as int) =~= self@);
                assert(self@.skip(self@.len() as int) =~= Seq::<char>::empty());
            }
            return Line::new();
        }
        let rest = self.chars.split_off(at);
        Line { chars: rest }
    }

    /// Whether `query` occurs at grapheme `i`.
    pub(crate) fn matches_at(&self, query: &Line, i: usize) -> (res: bool)
        ensures
            res == matches_at(self@, query@, i as int),
    {
        if query.chars.len() > self.chars.len() || i > self.chars.len() - query.chars.len() {
            return false;
        }
        let mut k: usize = 0;
        while k < query.chars.len()
            invariant
                k <= query@.len(),
                i + query@.len() <= self@.len(),
                query.chars.len() <= self.chars.len(),
                i <= self.chars.len() - query.chars.len(),
                forall|m: int| 0 <= m < k ==> self@[i + m] == query@[m],
            decreases query@.len() - k,
        {
            if self.chars[i + k] != query.chars[k] {
                proof {
                    assert(self@.subrange(i as int, i + query@.len())[k as int] != query@[k as int]);
                }
                return false;
            }
            k = k + 1;
        }
        proof {
            assert(self@.subrange(i as int, i + query@.len()) =~= query@);
        }
        true
    }

    /// The first occurrence of `query` starting at or after grapheme `from`.
    pub fn search_forward(&self, query: &Line, from: GraphemeIdx) -> (res: Option<GraphemeIdx>)
        ensures
            res matches Some(i) ==> line_search_forward(self@, query@, from as int) == Some(i as int),
            res is None ==> line_search_forward(self@, query@, from as int) is None,
    {
        if from >= self.chars.len() {
            return None;
        }
        let mut i = from;
        while i < self.chars.len()
            invariant
                from <= i <= self@.len(),
                forall|j: int| from <= j < i ==> !matches_at(self@, query@, j),
            decreases self@.len() - i,
        {
            if self.matches_at(query, i) {
                proof {
                    assert(is_first_match_from(self@, query@, from as int, i as int));
                    let c = choose|k: int| is_first_match_from(self@, query@, from as int, k);
                    assert(is_first_match_from(self@, query@, from as int, c));
                    if c < i {
                        assert(!matches_at(self@, query@, c));
                    } else if c > i {
                        assert(!matches_at(self@, query@, i as int));
                    }
                }
                return Some(i);
            }
            i = i + 1;
        }
        proof {
            assert forall|j: int| from <= j && matches_at(self@, query@, j) implies false by {
                if query@.len() == 0 {
                    assert(self@.subrange(from as int, from as int) =~= query@);
                    assert(matches_at(self@, query@, from as int));
                }
            }
        }
        None
    }

    /// The last occurrence of `query` that ends at or before grapheme `from`.
    pub fn search_backward(&self, query: &Line, from: GraphemeIdx) -> (res: Option<GraphemeIdx>)
        ensures
            res matches Some(i) ==> line_search_backward(self@, query@, from as int) == Some(i as int),
            res is None ==> line_search_backward(self@, query@, from as int) is None,
    {
        if from == 0 {
            return None;
        }
        let end = if from > self.chars.len() { self.chars.len() } else { from };
        if query.chars.len() > end {
            return None;
        }
        let mut i: usize = end - query.chars.len();
        loop
            invariant
                i + query@.len() <= end,
                end <= self@.len(),
                end == (if from > self@.len() { self@.len() as int } else { from as int }),
                from > 0,
                forall|j: int| i < j && j + query@.len() <= end ==> !matches_at(self@, query@, j),
            ensures
                forall|j: int| j + query@.len() <= end ==> !matches_at(self@, query@, j),
            decreases i,
        {
            if self.matches_at(query, i) {
                proof {
                    assert(is_last_match_before(self@, query@, end as int, i as int));
                    let c = choose|k: int| is_last_match_before(self@, query@, end as int, k);
                    assert(is_last_match_before(self@, query@, end as int, c));
                    if c < i {
                        assert(!matches_at(self@, query@, i as int));
                    } else if c > i {
                        assert(!matches_at(self@, query@, c));
                    }
                }
                return Some(i);
            }
            if i == 0 {
                break;
            }
            i = i - 1;
        }
        None
    }
}

} // verus!
