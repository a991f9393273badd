//! The logical cursor: a line index and a column within that line.
use vstd::prelude::*;

verus! {

#[derive(Debug, Clone, Copy, PartialEq, Eq, Structural)]
pub struct Cursor {
    pub row: usize,
    pub column: usize,
}

impl Cursor {
    /// Pulls the column back to `line_length` when it lies past it.
    pub fn clamp(&mut self, line_length: usize)
        ensures
            final(self).row == old(self).row,
            final(self).column == if old(self).column > line_length {
                line_length
            } else {
                old(self).column
            },
    {
        if self.column > line_length {
            self.column = line_length;
        }
    }
}

} // verus!
