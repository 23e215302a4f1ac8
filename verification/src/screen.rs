use vstd::prelude::*;
use crate::annotation::{Annotation, AnnotationType};
use crate::annotatedstring::{AnnotatedString, last_covering};
use crate::line::{Line, matches_at};
use crate::text::{byte_len, grapheme_width, grapheme_width_of, push_char, utf8_len, lemma_byte_len_take_next,
    shown_char, stand_in_of};

verus! {

broadcast use vstd::string::group_string_axioms;

/// The type of the last of the annotations `syntax` of line `l` that covers
/// the first byte of grapheme `k`, if any.
pub open spec fn syntax_mark(l: Seq<char>, syntax: Seq<Annotation>, k: int) -> Option<AnnotationType> {
    match last_covering(syntax, byte_len(l.take(k)) as int, syntax.len() as int) {
        Some(j) => Some(syntax[j].annotation_type),
        None => None,
    }
}

/// Grapheme `k` of `l` lies in some occurrence of `query`.
pub open spec fn in_some_match(l: Seq<char>, query: Seq<char>, k: int) -> bool {
    exists|i: int| i <= k < i + query.len() && matches_at(l, query, i)
}

/// How grapheme `k` of line `l` is marked: inside the occurrence of a
/// non-empty `query` that starts at the selected grapheme, as the selected
/// match; else inside any occurrence, as a match; else by the last syntax
/// annotation covering it.
pub open spec fn grapheme_mark(l: Seq<char>, syntax: Seq<Annotation>, query: Seq<char>, selected: Option<int>, k: int) -> Option<AnnotationType> {
    if query.len() > 0 && (selected matches Some(g) && g <= k < g + query.len() && matches_at(l, query, g)) {
        Some(AnnotationType::SelectedMatch)
    } else if query.len() > 0 && in_some_match(l, query, k) {
        Some(AnnotationType::Match)
    } else {
        syntax_mark(l, syntax, k)
    }
}

/// The marks of all graphemes of `l`.
pub open spec fn line_marks(l: Seq<char>, syntax: Seq<Annotation>, query: Seq<char>, selected: Option<int>) -> Seq<Option<AnnotationType>> {
    Seq::new(l.len(), |k: int| grapheme_mark(l, syntax, query, selected, k))
}

/// What shows of the graphemes `l` with their marks `marks`, the first
/// starting at column `pos`, in the columns `left` up to `right` (excluded):
/// each grapheme whose columns all lie there (by its stand-in, if it has one),
/// and a `⋯` for each grapheme cut by an edge, each with the mark of its
/// grapheme.
pub open spec fn shown_part(l: Seq<char>, marks: Seq<Option<AnnotationType>>, pos: int, left: int, right: int) -> Seq<(char, Option<AnnotationType>)>
    decreases l.len(),
{
    if l.len() == 0 || pos >= right {
        Seq::empty()
    } else {
        let end = pos + grapheme_width(l[0]);
        let rest = shown_part(l.drop_first(), marks.drop_first(), end, left, right);
        if end > left {
            seq![(if end > right || pos < left { '\u{22ef}' } else { shown_char(l[0]) }, marks[0])] + rest
        } else {
            rest
        }
    }
}

/// The characters of a shown row.
pub open spec fn shown_chars(p: Seq<(char, Option<AnnotationType>)>) -> Seq<char> {
    p.map_values(|x: (char, Option<AnnotationType>)| x.0)
}

/// The annotations of a shown row: one over the bytes of each marked
/// character, in order.
pub open spec fn shown_annotations(p: Seq<(char, Option<AnnotationType>)>) -> Seq<Annotation>
    decreases p.len(),
{
    if p.len() == 0 {
        Seq::empty()
    } else {
        let prev = shown_annotations(p.drop_last());
        match p.last().1 {
            Some(t) => prev.push(Annotation {
                annotation_type: t,
                start_byte_idx: byte_len(shown_chars(p.drop_last())) as usize,
                end_byte_idx: byte_len(shown_chars(p)) as usize,
            }),
            None => prev,
        }
    }
}

/// Computes [`syntax_mark`] for every grapheme of `cs`.
fn syntax_marks(cs: &Vec<char>, syntax: &Vec<Annotation>) -> (res: Vec<Option<AnnotationType>>)
    ensures
        res@.len() == cs@.len(),
        forall|k: int| 0 <= k < cs@.len() ==> #[trigger] res@[k] == syntax_mark(cs@, syntax@, k),
{
    let mut res: Vec<Option<AnnotationType>> = Vec::new();
    let mut b: u128 = 0;
    let mut k: usize = 0;
    while k < cs.len()
        invariant
            k <= cs@.len(),
            b == byte_len(cs@.take(k as int)),
            b <= 4 * k,
            res@.len() == k,
            forall|m: int| 0 <= m < k ==> #[trigger] res@[m] == syntax_mark(cs@, syntax@, m),
        decreases cs@.len() - k,
    {
        let mut j = syntax.len();
        let mut found: Option<AnnotationType> = None;
        while j > 0
            invariant_except_break
                found is None,
            invariant
                j <= syntax@.len(),
                b == byte_len(cs@.take(k as int)),
                last_covering(syntax@, b as int, syntax@.len() as int) == last_covering(syntax@, b as int, j as int),
            ensures
                found == (match last_covering(syntax@, b as int, syntax@.len() as int) {
                    Some(f) => Some(syntax@[f].annotation_type),
                    None => None::<AnnotationType>,
                }),
            decreases j,
        {
            let a = syntax[j - 1];
            if (a.start_byte_idx as u128) <= b && b < (a.end_byte_idx as u128) {
                found = Some(a.annotation_type);
                break;
            }
            j = j - 1;
        }
        res.push(found);
        proof {
            lemma_byte_len_take_next(cs@, k as int);
            crate::text::lemma_char_byte_len_range(cs@[k as int]);
        }
        b = b + utf8_len(cs[k]) as u128;
        k = k + 1;
    }
    res
}

/// Computes [`line_marks`] for line `l`.
pub fn line_marks_of(l: &Line, syntax: &Vec<Annotation>, query: &Line, selected: Option<usize>) -> (res: Vec<Option<AnnotationType>>)
    ensures
        res@ == line_marks(l@, syntax@, query@, match selected { Some(g) => Some(g as int), None => None }),
{
    let cs = l.chars();
    let n = cs.len();
    let q = query.chars().len();
    let sm = syntax_marks(cs, syntax);
    let ghost sel: Option<int> = match selected { Some(g) => Some(g as int), None => None };
    let mut covered: Vec<bool> = Vec::new();
    let mut k: usize = 0;
    while k < n
        invariant
            k <= n == cs@.len(),
            covered@.len() == k,
            forall|m: int| 0 <= m < k ==> !#[trigger] covered@[m],
        decreases n - k,
    {
        covered.push(false);
        k = k + 1;
    }
    let mut i: usize = 0;
    if q > 0 {
        while i < n
            invariant
                i <= n == cs@.len(),
                q == query@.len(),
                q > 0,
                covered@.len() == n,
                forall|m: int| 0 <= m < n ==> #[trigger] covered@[m]
                    == exists|j: int| 0 <= j < i && j <= m < j + q && matches_at(l@, query@, j),
            decreases n - i,
        {
            if l.matches_at(query, i) {
                let mut m = i;
                while m < n && m - i < q
                    invariant
                        i <= m <= n,
                        m - i <= q,
                        covered@.len() == n,
                        matches_at(l@, query@, i as int),
                        forall|x: int| 0 <= x < n ==> #[trigger] covered@[x]
                            == ((exists|j: int| 0 <= j < i && j <= x < j + q && matches_at(l@, query@, j))
                                || (i <= x < m)),
                    decreases n - m,
                {
                    covered.set(m, true);
                    m = m + 1;
                }
                proof {
                    assert forall|x: int| 0 <= x < n implies #[trigger] covered@[x]
                        == exists|j: int| 0 <= j < i + 1 && j <= x < j + q && matches_at(l@, query@, j) by {
                        if exists|j: int| 0 <= j < i + 1 && j <= x < j + q && matches_at(l@, query@, j) {
                            let j = choose|j: int| 0 <= j < i + 1 && j <= x < j + q && matches_at(l@, query@, j);
                            if j == i {
                                assert(i <= x < m);
                            }
                        } else {
                            if i <= x < m {
                                assert(0 <= i < i + 1 && i <= x < i + q && matches_at(l@, query@, i as int));
                            }
                        }
                    }
                }
            } else {
                proof {
                    assert forall|x: int| 0 <= x < n implies #[trigger] covered@[x]
                        == exists|j: int| 0 <= j < i + 1 && j <= x < j + q && matches_at(l@, query@, j) by {
                        if exists|j: int| 0 <= j < i + 1 && j <= x < j + q && matches_at(l@, query@, j) {
                            let j = choose|j: int| 0 <= j < i + 1 && j <= x < j + q && matches_at(l@, query@, j);
                            assert(j != i);
                        }
                    }
                }
            }
            i = i + 1;
        }
    }
    proof {
        if q > 0 {
            assert forall|m: int| 0 <= m < n implies (#[trigger] covered@[m] <==> in_some_match(l@, query@, m)) by {
                if in_some_match(l@, query@, m) {
                    let j = choose|j: int| j <= m < j + q && matches_at(l@, query@, j);
                    assert(0 <= j < n);
                }
            }
        }
    }
    let sel_ok = match selected {
        Some(g) => q > 0 && l.matches_at(query, g),
        None => false,
    };
    let mut res: Vec<Option<AnnotationType>> = Vec::new();
    let mut k: usize = 0;
    while k < n
        invariant
            k <= n == cs@.len(),
            cs@ == l@,
            q == query@.len(),
            covered@.len() == n,
            sm@.len() == n,
            forall|m: int| 0 <= m < n ==> #[trigger] sm@[m] == syntax_mark(cs@, syntax@, m),
            q > 0 ==> forall|m: int| 0 <= m < n ==> (#[trigger] covered@[m] <==> in_some_match(l@, query@, m)),
            q == 0 ==> forall|m: int| 0 <= m < n ==> !#[trigger] covered@[m],
            sel_ok == (q > 0 && (sel matches Some(g) && matches_at(l@, query@, g))),
            sel == (match selected { Some(g) => Some(g as int), None => None::<int> }),
            res@.len() == k,
            forall|m: int| 0 <= m < k ==> #[trigger] res@[m] == grapheme_mark(l@, syntax@, query@, sel, m),
        decreases n - k,
    {
        let in_selected = match selected {
            Some(g) => sel_ok && g <= k && k - g < q,
            None => false,
        };
        let c = covered[k];
        let mark = if in_selected {
            Some(AnnotationType::SelectedMatch)
        } else if c {
            Some(AnnotationType::Match)
        } else {
            sm[k]
        };
        proof {
            let gk = grapheme_mark(l@, syntax@, query@, sel, k as int);
            assert(c == (q > 0 && in_some_match(l@, query@, k as int)));
            assert(in_selected == (query@.len() > 0 && (sel matches Some(g) && g <= k < g + query@.len() && matches_at(l@, query@, g))));
            assert(mark == gk);
        }
        res.push(mark);
        k = k + 1;
    }
    proof {
        assert(res@ =~= line_marks(l@, syntax@, query@, sel));
    }
    res
}

/// What shows of `cs` with its marks in the columns `left` up to `right`
/// (excluded), as an annotated string.
pub fn shown_row(cs: &Vec<char>, marks: &Vec<Option<AnnotationType>>, left: usize, right: usize) -> (res: AnnotatedString)
    requires
        marks@.len() == cs@.len(),
    ensures
        res.string@ == shown_chars(shown_part(cs@, marks@, 0, left as int, right as int)),
        res.annotations@ == shown_annotations(shown_part(cs@, marks@, 0, left as int, right as int)),
{
    let mut string = String::new();
    let mut annotations: Vec<Annotation> = Vec::new();
    let ghost mut done: Seq<(char, Option<AnnotationType>)> = Seq::empty();
    let mut pos: u128 = 0;
    let mut i: usize = 0;
    proof {
        assert(cs@.skip(0) =~= cs@);
        assert(marks@.skip(0) =~= marks@);
        assert(done + shown_part(cs@, marks@, 0, left as int, right as int) =~= shown_part(cs@, marks@, 0, left as int, right as int));
    }
    while i < cs.len() && pos < right as u128
        invariant
            i <= cs@.len() == marks@.len(),
            string@ == shown_chars(done),
            annotations@ == shown_annotations(done),
            done + shown_part(cs@.skip(i as int), marks@.skip(i as int), pos as int, left as int, right as int)
                == shown_part(cs@, marks@, 0, left as int, right as int),
            pos <= 2 * i,
        decreases cs@.len() - i,
    {
        let c = cs[i];
        let end = pos + grapheme_width_of(c) as u128;
        let ghost rest = shown_part(cs@.skip(i + 1), marks@.skip(i + 1), end as int, left as int, right as int);
        proof {
            assert(cs@.skip(i as int).drop_first() =~= cs@.skip(i + 1));
            assert(marks@.skip(i as int).drop_first() =~= marks@.skip(i + 1));
            assert(cs@.skip(i as int)[0] == c);
            assert(marks@.skip(i as int)[0] == marks@[i as int]);
        }
        if end > left as u128 {
            let shown = if end > right as u128 || pos < left as u128 {
                '\u{22ef}'
            } else {
                match stand_in_of(c) {
                    Some(r) => r,
                    None => c,
                }
            };
            let mark = marks[i];
            let s0 = string.as_str();
            let before_len = s0.as_bytes().len();
            proof {
                crate::text::lemma_str_len(s0);
            }
            let ghost before = done;
            push_char(&mut string, shown);
            let s1 = string.as_str();
            let after_len = s1.as_bytes().len();
            proof {
                crate::text::lemma_str_len(s1);
                done = done.push((shown, mark));
                assert(done.drop_last() =~= before);
                assert(shown_chars(done) =~= shown_chars(before).push(shown));
                assert(done.last() == (shown, mark));
                assert(before + (seq![(shown, mark)] + rest) =~= done + rest);
            }
            match mark {
                Some(t) => {
                    proof {
                        assert(before_len == byte_len(shown_chars(before)));
                    }
                    annotations.push(Annotation { annotation_type: t, start_byte_idx: before_len, end_byte_idx: after_len });
                },
                None => {},
            }
        }
        pos = end;
        i = i + 1;
    }
    proof {
        assert(shown_part(cs@.skip(i as int), marks@.skip(i as int), pos as int, left as int, right as int) =~= Seq::<(char, Option<AnnotationType>)>::empty());
        assert(done + Seq::<(char, Option<AnnotationType>)>::empty() =~= done);
    }
    AnnotatedString { string, annotations }
}

} // verus!
