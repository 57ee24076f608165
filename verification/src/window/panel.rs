//! The size of one pane of the screen.

use vstd::prelude::*;

verus! {

/// A pane as the library sees it: its height and width in cells. The
/// terminal's own handle of the pane stays with whoever draws.
#[derive(Clone, Copy, Debug)]
pub struct LllPanel {
    pub rows: i32,
    pub cols: i32,
}

impl LllPanel {
    pub fn new(rows: i32, cols: i32) -> (panel: LllPanel)
        ensures
            panel.rows == rows,
            panel.cols == cols,
    {
        LllPanel { rows, cols }
    }

    /// The number of rows that can be drawn on: none for a height below
    /// one.
    pub open spec fn usable_rows(self) -> usize {
        if self.rows > 0 {
            self.rows as usize
        } else {
            0
        }
    }

    /// The number of rows that can be drawn on.
    pub fn row_count(&self) -> (n: usize)
        ensures
            n == self.usable_rows(),
    {
        if self.rows > 0 {
            self.rows as usize
        } else {
            0
        }
    }
}

} // verus!
