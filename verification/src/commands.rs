use vstd::prelude::*;

verus! {

/// A change to the text asked for by the user.
#[derive(Copy, Clone, Debug, PartialEq, Eq, Structural)]
pub enum Edit {
    Insert(char),
    InsertNewLine,
    Delete,
    DeleteBackward,
}

/// A caret movement asked for by the user.
#[derive(Copy, Clone, Debug, PartialEq, Eq, Structural)]
pub enum Move {
    PageUp,
    PageDown,
    StartOfLine,
    EndOfLine,
    Up,
    Left,
    Right,
    Down,
}

/// The direction in which a search runs.
#[derive(Copy, Clone, Debug, PartialEq, Eq, Structural)]
pub enum SearchDirection {
    Forward,
    Backward,
}

} // verus!
