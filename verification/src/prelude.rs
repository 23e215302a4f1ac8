use vstd::prelude::*;

verus! {

/// Index of a byte in a UTF-8 string.
pub type ByteIdx = usize;

/// Index of a grapheme (here: one `char`) in a line.
pub type GraphemeIdx = usize;

/// Index of a line in the buffer.
pub type LineIdx = usize;

/// Index of a column on screen.
pub type ColIdx = usize;

/// Index of a row on screen.
pub type RowIdx = usize;

/// A place in the text: a line and a grapheme in that line.
#[derive(Copy, Clone, Debug, PartialEq, Eq, Structural, Default)]
pub struct Location {
    pub grapheme_idx: GraphemeIdx,
    pub line_idx: LineIdx,
}

/// A place on screen: a row and a column.
#[derive(Copy, Clone, Debug, PartialEq, Eq, Structural, Default)]
pub struct Position {
    pub col: ColIdx,
    pub row: RowIdx,
}

/// The extent of an area on screen.
#[derive(Copy, Clone, Debug, PartialEq, Eq, Structural, Default)]
pub struct Size {
    pub height: usize,
    pub width: usize,
}

/// A rectangle on screen: its top-left position and its size.
#[derive(Copy, Clone, Debug, PartialEq, Eq, Structural, Default)]
pub struct Rect {
    pub position: Position,
    pub size: Size,
}

/// `a - b` in the integers, clamped at zero.
pub open spec fn sat_sub(a: int, b: int) -> int {
    if a >= b { a - b } else { 0 }
}

/// `a + b` in the integers, clamped at `usize::MAX`.
pub open spec fn sat_add(a: int, b: int) -> int {
    if a + b <= usize::MAX { a + b } else { usize::MAX as int }
}

impl Position {
    /// Subtracts `other` component-wise, each clamped at zero.
    pub fn saturating_sub(self, other: Self) -> (res: Self)
        ensures
            res.row == sat_sub(self.row as int, other.row as int),
            res.col == sat_sub(self.col as int, other.col as int),
    {
        Position {
            row: self.row.saturating_sub(other.row),
            col: self.col.saturating_sub(other.col),
        }
    }
}

} // verus!
