//! Typed positions: byte offsets, char offsets, and line/column coordinates.
use vstd::prelude::*;

verus! {

/// A byte index into the buffer text, used only at the highlighter boundary.
#[derive(Debug, Clone, Copy, PartialEq, Eq, Structural, Hash)]
pub struct ByteOffset(pub usize);

/// A count of Unicode scalar values from the start of the buffer. All
/// intra-buffer addressing is char based.
#[derive(Debug, Clone, Copy, PartialEq, Eq, Structural, Hash)]
pub struct CharOffset(pub usize);

/// A line-major char coordinate: `line` is 0-based, `column` is the char
/// offset within that line, excluding the trailing newline.
#[derive(Debug, Clone, Copy, PartialEq, Eq, Structural, Hash, PartialOrd, Ord)]
pub struct Position {
    pub line: usize,
    pub column: usize,
}

impl Position {
    pub fn new(line: usize, column: usize) -> (p: Position)
        ensures
            p.line == line,
            p.column == column,
    {
        Position { line, column }
    }

    pub fn start() -> (p: Position)
        ensures
            p.line == 0,
            p.column == 0,
    {
        Position { line: 0, column: 0 }
    }
}

impl ByteOffset {
    pub fn saturating_sub(self, rhs: usize) -> (r: ByteOffset)
        ensures
            r.0 == if self.0 >= rhs {
                self.0 - rhs
            } else {
                0
            },
    {
        if self.0 >= rhs {
            ByteOffset(self.0 - rhs)
        } else {
            ByteOffset(0)
        }
    }

    pub fn saturating_add(self, rhs: usize) -> (r: ByteOffset)
        ensures
            r.0 == if self.0 + rhs <= usize::MAX {
                self.0 + rhs
            } else {
                usize::MAX as int
            },
    {
        if self.0 <= usize::MAX - rhs {
            ByteOffset(self.0 + rhs)
        } else {
            ByteOffset(usize::MAX)
        }
    }
}

impl CharOffset {
    pub fn saturating_sub(self, rhs: usize) -> (r: CharOffset)
        ensures
            r.0 == if self.0 >= rhs {
                self.0 - rhs
            } else {
                0
            },
    {
        if self.0 >= rhs {
            CharOffset(self.0 - rhs)
        } else {
            CharOffset(0)
        }
    }

    pub fn saturating_add(self, rhs: usize) -> (r: CharOffset)
        ensures
            r.0 == if self.0 + rhs <= usize::MAX {
                self.0 + rhs
            } else {
                usize::MAX as int
            },
    {
        if self.0 <= usize::MAX - rhs {
            CharOffset(self.0 + rhs)
        } else {
            CharOffset(usize::MAX)
        }
    }
}

} // verus!
