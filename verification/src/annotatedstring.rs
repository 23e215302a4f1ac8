use vstd::prelude::*;
use vstd::string::*;
use vstd::utf8::*;
use crate::prelude::ByteIdx;
use crate::annotation::{Annotation, AnnotationType};

verus! {

broadcast use vstd::string::group_string_axioms, vstd::utf8::encode_utf8_valid_utf8,
    vstd::utf8::is_char_boundary_start_end_of_seq;

/// A string with annotations on some of its byte ranges.
#[derive(Debug)]
pub struct AnnotatedString {
    pub string: String,
    pub annotations: Vec<Annotation>,
}

/// A stretch of an annotated string and the annotation that covers it, if
/// any.
#[derive(Debug)]
pub struct AnnotatedStringPart<'a> {
    pub string: &'a str,
    pub annotation_type: Option<AnnotationType>,
}

/// Walks an annotated string in stretches, from byte `current_idx` on.
pub struct AnnotatedStringIterator<'a> {
    pub annotated_string: &'a AnnotatedString,
    pub current_idx: ByteIdx,
}

/// The greatest character boundary of `b` at or below `i`.
pub open spec fn floor_boundary(b: Seq<u8>, i: int) -> int
    decreases i,
{
    if i <= 0 || is_char_boundary(b, i) {
        i
    } else {
        floor_boundary(b, i - 1)
    }
}

/// The least character boundary of `b` at or above `i` (the length when `i`
/// is past the last one).
pub open spec fn ceil_boundary(b: Seq<u8>, i: int) -> int
    decreases b.len() - i,
{
    if i >= b.len() || is_char_boundary(b, i) {
        i
    } else {
        ceil_boundary(b, i + 1)
    }
}

/// Whether annotation `a` covers byte `i`.
pub open spec fn covers(a: Annotation, i: int) -> bool {
    a.start_byte_idx <= i < a.end_byte_idx
}

/// The index of the last of the first `k` annotations that covers byte `i`,
/// if any.
pub open spec fn last_covering(anns: Seq<Annotation>, i: int, k: int) -> Option<int>
    decreases k,
{
    if k <= 0 {
        None
    } else if covers(anns[k - 1], i) {
        Some(k - 1)
    } else {
        last_covering(anns, i, k - 1)
    }
}

/// The least start after byte `i` among the first `k` annotations, or `bound`
/// when there is none below it.
pub open spec fn next_start(anns: Seq<Annotation>, i: int, k: int, bound: int) -> int
    decreases k,
{
    if k <= 0 {
        bound
    } else {
        let e = next_start(anns, i, k - 1, bound);
        if anns[k - 1].start_byte_idx > i && anns[k - 1].start_byte_idx < e {
            anns[k - 1].start_byte_idx as int
        } else {
            e
        }
    }
}

/// The next stretch of the bytes `b` from byte `cur`: its byte range and
/// annotation type.  It starts at the character boundary at or before `cur`;
/// when the last annotation covering that point exists it ends where that
/// annotation ends (or the string ends), else where the next annotation
/// starts (or the string ends), moved forward to a character boundary.
pub open spec fn next_part(b: Seq<u8>, anns: Seq<Annotation>, cur: int) -> Option<(int, int, Option<AnnotationType>)> {
    if cur >= b.len() {
        None
    } else {
        let c = floor_boundary(b, cur);
        match last_covering(anns, c, anns.len() as int) {
            Some(k) => {
                let e = if anns[k].end_byte_idx < b.len() { anns[k].end_byte_idx as int } else { b.len() as int };
                Some((c, ceil_boundary(b, e), Some(anns[k].annotation_type)))
            },
            None => Some((c, ceil_boundary(b, next_start(anns, c, anns.len() as int, b.len() as int)), None)),
        }
    }
}

/// The next start after `i` lies after `i` and no later than `bound`.
proof fn lemma_next_start_above(anns: Seq<Annotation>, i: int, k: int, bound: int)
    requires
        bound > i,
    ensures
        next_start(anns, i, k, bound) > i,
        next_start(anns, i, k, bound) <= bound,
    decreases k,
{
    if k > 0 {
        lemma_next_start_above(anns, i, k - 1, bound);
    }
}

/// The last covering annotation found is one of the first `k` and covers `i`.
proof fn lemma_last_covering_covers(anns: Seq<Annotation>, i: int, k: int)
    requires
        k <= anns.len(),
    ensures
        last_covering(anns, i, k) matches Some(f) ==> 0 <= f < k && covers(anns[f], i),
    decreases k,
{
    if k > 0 && !covers(anns[k - 1], i) {
        lemma_last_covering_covers(anns, i, k - 1);
    }
}

/// The ceiling boundary of `i` is at or after `i`.
proof fn lemma_ceil_boundary_above(b: Seq<u8>, i: int)
    ensures
        ceil_boundary(b, i) >= i,
    decreases b.len() - i,
{
    if !(i >= b.len() || is_char_boundary(b, i)) {
        lemma_ceil_boundary_above(b, i + 1);
    }
}

/// A prefix of valid UTF-8 ending on a boundary is valid UTF-8 with the same
/// boundaries.
proof fn lemma_boundary_in_prefix(b: Seq<u8>, end: int, i: int)
    requires
        valid_utf8(b),
        0 <= i <= end <= b.len(),
        is_char_boundary(b, end),
        is_char_boundary(b, i),
    ensures
        valid_utf8(b.subrange(0, end)),
        is_char_boundary(b.subrange(0, end), i),
{
    valid_utf8_split(b, end);
    let h = b.subrange(0, end);
    if i < end {
        is_char_boundary_iff_not_is_continuation_byte(b, i);
        is_char_boundary_iff_not_is_continuation_byte(h, i);
    } else {
        is_char_boundary_start_end_of_seq(h);
    }
}

/// No character boundary lies after the floor boundary of `i` and at or
/// before `i`.
proof fn lemma_floor_boundary_greatest(b: Seq<u8>, i: int)
    ensures
        floor_boundary(b, i) <= i,
        forall|j: int| floor_boundary(b, i) < j <= i ==> !is_char_boundary(b, j),
    decreases i,
{
    if !(i <= 0 || is_char_boundary(b, i)) {
        lemma_floor_boundary_greatest(b, i - 1);
    }
}

/// The ceiling boundary of `i` is a character boundary at or after `i`, or
/// the end of `b`.
proof fn lemma_ceil_boundary_is_boundary(b: Seq<u8>, i: int)
    requires
        i <= b.len(),
    ensures
        i <= ceil_boundary(b, i) <= b.len(),
        ceil_boundary(b, i) == b.len() || is_char_boundary(b, ceil_boundary(b, i)),
    decreases b.len() - i,
{
    if !(i >= b.len() || is_char_boundary(b, i)) {
        lemma_ceil_boundary_is_boundary(b, i + 1);
    }
}

/// Law: before the end of the string, the next stretch starts at or before
/// the current position (at it, when that is a character boundary) and ends
/// after it, on a character boundary or at the end of the string; so walking
/// an annotated string always moves forward and reaches its end.
pub proof fn lemma_next_part_advances(b: Seq<u8>, anns: Seq<Annotation>, cur: int)
    requires
        0 <= cur < b.len(),
    ensures
        next_part(b, anns, cur) matches Some((x, y, t)) && x <= cur < y <= b.len(),
        next_part(b, anns, cur) matches Some((x, y, t)) && (y == b.len() || is_char_boundary(b, y)),
        next_part(b, anns, cur) matches Some((x, y, t)) && (cur == 0 || is_char_boundary(b, cur) ==> x == cur),
{
    let c = floor_boundary(b, cur);
    lemma_floor_boundary_greatest(b, cur);
    lemma_last_covering_covers(anns, c, anns.len() as int);
    let e = match last_covering(anns, c, anns.len() as int) {
        Some(k) => if anns[k].end_byte_idx < b.len() { anns[k].end_byte_idx as int } else { b.len() as int },
        None => {
            lemma_next_start_above(anns, c, anns.len() as int, b.len() as int);
            next_start(anns, c, anns.len() as int, b.len() as int)
        },
    };
    assert(c < e <= b.len());
    lemma_ceil_boundary_is_boundary(b, e);
}

/// The byte ranges of the stretches that walking the bytes `b` with the
/// annotations `anns` gives from byte `cur` on.
pub open spec fn walk(b: Seq<u8>, anns: Seq<Annotation>, cur: int) -> Seq<(int, int)>
    decreases b.len() - cur,
{
    if 0 <= cur < b.len() {
        match next_part(b, anns, cur) {
            Some((x, y, t)) => if cur < y <= b.len() { seq![(x, y)] + walk(b, anns, y) } else { Seq::empty() },
            None => Seq::empty(),
        }
    } else {
        Seq::empty()
    }
}

/// The bytes of the ranges `rs` of `b`, one after another.
pub open spec fn joined(b: Seq<u8>, rs: Seq<(int, int)>) -> Seq<u8>
    decreases rs.len(),
{
    if rs.len() == 0 {
        Seq::empty()
    } else {
        b.subrange(rs[0].0, rs[0].1) + joined(b, rs.drop_first())
    }
}

/// Law: walking an annotated string from its start, or from any character
/// boundary, gives stretches that join back into the rest of the string.
pub proof fn lemma_walk_joins(b: Seq<u8>, anns: Seq<Annotation>, cur: int)
    requires
        0 <= cur <= b.len(),
        cur == 0 || cur == b.len() || is_char_boundary(b, cur),
    ensures
        joined(b, walk(b, anns, cur)) == b.subrange(cur, b.len() as int),
    decreases b.len() - cur,
{
    if cur < b.len() {
        lemma_next_part_advances(b, anns, cur);
        let (x, y, t) = next_part(b, anns, cur)->0;
        lemma_walk_joins(b, anns, y);
        let rest = walk(b, anns, y);
        assert((seq![(x, y)] + rest).drop_first() =~= rest);
        assert((seq![(x, y)] + rest)[0] == (x, y));
        assert(b.subrange(cur, y) + b.subrange(y, b.len() as int) =~= b.subrange(cur, b.len() as int));
    } else {
        assert(b.subrange(cur, b.len() as int) =~= Seq::<u8>::empty());
    }
}

/// No annotation covers byte `i` when none of the first `k` is the last to
/// cover it.
proof fn lemma_last_covering_none(anns: Seq<Annotation>, i: int, k: int)
    requires
        k <= anns.len(),
        last_covering(anns, i, k) is None,
    ensures
        forall|j: int| 0 <= j < k ==> !covers(anns[j], i),
    decreases k,
{
    if k > 0 {
        lemma_last_covering_none(anns, i, k - 1);
    }
}

/// The next start after `i` among the first `k` annotations is `bound` or one
/// of their starts, and no start after `i` among them lies below it.
proof fn lemma_next_start_least(anns: Seq<Annotation>, i: int, k: int, bound: int)
    requires
        0 <= k <= anns.len(),
    ensures
        ({
            let e = next_start(anns, i, k, bound);
            &&& e == bound || exists|j: int| 0 <= j < k && anns[j].start_byte_idx == e && e > i
            &&& forall|j: int| 0 <= j < k && anns[j].start_byte_idx > i ==> anns[j].start_byte_idx >= e
        }),
    decreases k,
{
    if k > 0 {
        lemma_next_start_least(anns, i, k - 1, bound);
    }
}

/// No character boundary lies at or after `i` and before its ceiling boundary.
proof fn lemma_ceil_boundary_least(b: Seq<u8>, i: int)
    ensures
        forall|m: int| i <= m < ceil_boundary(b, i) ==> !is_char_boundary(b, m),
    decreases b.len() - i,
{
    if !(i >= b.len() || is_char_boundary(b, i)) {
        lemma_ceil_boundary_least(b, i + 1);
    }
}

/// Law: a stretch walked without an annotation holds no character that an
/// annotation covers, and ends at the end of the string or where (rounded up
/// to a character boundary) the nearest later annotation starts.
pub proof fn lemma_plain_part_avoids_annotations(b: Seq<u8>, anns: Seq<Annotation>, cur: int)
    requires
        0 <= cur < b.len(),
    ensures
        next_part(b, anns, cur) matches Some((x, y, t)) ==> (t is None ==> {
            &&& forall|k: int| 0 <= k < anns.len() ==> !covers(#[trigger] anns[k], x)
            &&& forall|k: int, m: int| 0 <= k < anns.len() && x <= m < y && is_char_boundary(b, m)
                ==> !#[trigger] covers(anns[k], m)
            &&& y == b.len() || exists|k: int| 0 <= k < anns.len() && x < (#[trigger] anns[k]).start_byte_idx <= y
        }),
{
    let c = floor_boundary(b, cur);
    lemma_floor_boundary_greatest(b, cur);
    if last_covering(anns, c, anns.len() as int) is None {
        lemma_last_covering_none(anns, c, anns.len() as int);
        let e = next_start(anns, c, anns.len() as int, b.len() as int);
        lemma_next_start_least(anns, c, anns.len() as int, b.len() as int);
        lemma_next_start_above(anns, c, anns.len() as int, b.len() as int);
        lemma_ceil_boundary_is_boundary(b, e);
        lemma_ceil_boundary_least(b, e);
        let y = ceil_boundary(b, e);
        assert forall|k: int, m: int| 0 <= k < anns.len() && c <= m < y && is_char_boundary(b, m)
            implies !#[trigger] covers(anns[k], m) by {
            assert(m < e);
            if covers(anns[k], m) {
                if anns[k].start_byte_idx <= c {
                    assert(covers(anns[k], c));
                }
            }
        }
    }
}

impl<'a> AnnotatedStringIterator<'a> {
    /// The next stretch of the string, with the annotation covering it, and
    /// moves past it; `None` once the end is reached.
    pub fn next(&mut self) -> (res: Option<AnnotatedStringPart<'a>>)
        ensures
            final(self).annotated_string == old(self).annotated_string,
            match res {
                Some(part) => {
                    let n = next_part(
                        encode_utf8(old(self).annotated_string.string@),
                        old(self).annotated_string.annotations@,
                        old(self).current_idx as int,
                    );
                    &&& n matches Some((x, y, t))
                    &&& part.string.spec_bytes() == encode_utf8(old(self).annotated_string.string@).subrange(x, y)
                    &&& part.annotation_type == t
                    &&& final(self).current_idx == y
                },
                None => {
                    &&& next_part(
                        encode_utf8(old(self).annotated_string.string@),
                        old(self).annotated_string.annotations@,
                        old(self).current_idx as int,
                    ) is None
                    &&& final(self).current_idx == old(self).current_idx
                },
            },
    {
        let s: &'a str = self.annotated_string.string.as_str();
        let ghost b = s.spec_bytes();
        let len = s.as_bytes().len();
        if self.current_idx >= len {
            return None;
        }
        let mut cur = self.current_idx;
        while cur > 0 && !s.is_char_boundary(cur)
            invariant
                b == s.spec_bytes(),
                cur <= old(self).current_idx,
                floor_boundary(b, old(self).current_idx as int) == floor_boundary(b, cur as int),
            decreases cur,
        {
            cur = cur - 1;
        }
        let anns = &self.annotated_string.annotations;
        let mut k = anns.len();
        let mut found: Option<usize> = None;
        while k > 0
            invariant_except_break
                found is None,
            invariant
                k <= anns@.len(),
                last_covering(anns@, cur as int, anns@.len() as int) == last_covering(anns@, cur as int, k as int),
            ensures
                match found {
                    Some(f) => last_covering(anns@, cur as int, anns@.len() as int) == Some(f as int) && f < anns@.len(),
                    None => last_covering(anns@, cur as int, anns@.len() as int) is None,
                },
            decreases k,
        {
            let a = anns[k - 1];
            if a.start_byte_idx <= cur && a.end_byte_idx > cur {
                found = Some(k - 1);
                break;
            }
            k = k - 1;
        }
        let start_idx = cur;
        let (mut end_idx, annotation_type) = match found {
            Some(f) => {
                let a = anns[f];
                (if a.end_byte_idx < len { a.end_byte_idx } else { len }, Some(a.annotation_type))
            },
            None => {
                let mut e = len;
                let mut j: usize = 0;
                while j < anns.len()
                    invariant
                        j <= anns@.len(),
                        e == next_start(anns@, cur as int, j as int, len as int),
                        e <= len,
                    decreases anns@.len() - j,
                {
                    let a = anns[j];
                    if a.start_byte_idx > cur && a.start_byte_idx < e {
                        e = a.start_byte_idx;
                    }
                    j = j + 1;
                }
                (e, None)
            },
        };
        let ghost e0 = end_idx as int;
        while end_idx < len && !s.is_char_boundary(end_idx)
            invariant
                end_idx <= len,
                len == b.len(),
                b == s.spec_bytes(),
                ceil_boundary(b, e0) == ceil_boundary(b, end_idx as int),
            decreases len - end_idx,
        {
            end_idx = end_idx + 1;
        }
        self.current_idx = end_idx;
        proof {
            if cur == 0 {
                assert(is_char_boundary(b, 0));
            }
            if end_idx == len {
                assert(is_char_boundary(b, len as int));
            }
            match found {
                Some(f) => {
                    lemma_last_covering_covers(anns@, cur as int, anns@.len() as int);
                },
                None => {
                    lemma_next_start_above(anns@, cur as int, anns@.len() as int, len as int);
                },
            }
            lemma_ceil_boundary_above(b, e0);
            lemma_boundary_in_prefix(b, end_idx as int, start_idx as int);
        }
        let (head, _) = s.split_at(end_idx);
        let (_, part) = head.split_at(start_idx);
        proof {
            assert(part.spec_bytes() =~= b.subrange(start_idx as int, end_idx as int));
        }
        Some(AnnotatedStringPart { string: part, annotation_type })
    }
}

} // verus!
