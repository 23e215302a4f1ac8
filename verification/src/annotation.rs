use vstd::prelude::*;
use crate::prelude::ByteIdx;

verus! {

/// What a stretch of text is marked as, which decides how it is shown.
#[derive(Copy, Clone, Debug, PartialEq, Eq, Structural)]
pub enum AnnotationType {
    Char,
    LifetimeSpecifier,
    Match,
    SelectedMatch,
    Number,
    String,
    Comment,
    Keyword,
    Type,
    KnownValue,
    Heading,
    Emphasis,
    InlineCode,
    CodeBlock,
    Link,
    ListItem,
    Identifier,
}

/// A mark on the bytes `start_byte_idx..end_byte_idx` of a line.
#[derive(Copy, Clone, Debug, PartialEq, Eq, Structural)]
pub struct Annotation {
    pub annotation_type: AnnotationType,
    pub start_byte_idx: ByteIdx,
    pub end_byte_idx: ByteIdx,
}

/// The annotation of type `t` over `start..end`.
pub open spec fn mark(t: AnnotationType, start: int, end: int) -> Annotation {
    Annotation { annotation_type: t, start_byte_idx: start as usize, end_byte_idx: end as usize }
}

/// `a` marks bytes of a line `len` bytes long: it starts no later than it
/// ends, and ends no later than the line.
pub open spec fn lies_within(a: Annotation, len: int) -> bool {
    a.start_byte_idx <= a.end_byte_idx <= len
}

/// The annotation of type `t` over `span`, if there is a span.
pub open spec fn span_mark(t: AnnotationType, span: Option<(int, int)>) -> Option<Annotation> {
    match span {
        Some((x, y)) => Some(mark(t, x, y)),
        None => None,
    }
}

/// The annotation held by `o`, as a sequence of zero or one.
pub open spec fn opt_seq(o: Option<Annotation>) -> Seq<Annotation> {
    match o {
        Some(a) => seq![a],
        None => Seq::empty(),
    }
}

/// An annotation over a span inside a line lies within the line.
pub proof fn lemma_span_mark_within(t: AnnotationType, span: Option<(int, int)>, len: int)
    requires
        len <= usize::MAX,
        span matches Some((x, y)) ==> 0 <= x <= y <= len,
    ensures
        span_mark(t, span) matches Some(a) ==> lies_within(a, len),
{
}

} // verus!
