//! The part of a listing that fits the visible rows.

use vstd::prelude::*;

verus! {

/// The half-open range `start..end` of the entries that are shown.
#[derive(Clone, Copy, Debug)]
pub struct LllPageState {
    pub start: usize,
    pub end: usize,
}

/// The number of rows kept between the cursor and the edge of the window:
/// the scroll offset, as far as the window has room for it on both sides.
pub open spec fn margin(rows: int, offset: int) -> int {
    if offset < (rows - 1) / 2 {
        offset
    } else {
        (rows - 1) / 2
    }
}

/// The first row of the window. The window stays where it was unless the
/// cursor would come nearer to an edge than the margin or leave it; then it
/// moves no further than needed. It never reaches past the end of the
/// listing while rows above could be shown instead.
pub open spec fn window_start(prev: int, index: int, rows: int, len: int, offset: int) -> int {
    let m = margin(rows, offset);
    let lowest = if index + m + 1 - rows > 0 {
        index + m + 1 - rows
    } else {
        0
    };
    let highest = if index - m > 0 {
        index - m
    } else {
        0
    };
    let kept = if prev < lowest {
        lowest
    } else if prev > highest {
        highest
    } else {
        prev
    };
    let last_full = if len - rows > 0 {
        len - rows
    } else {
        0
    };
    if kept > last_full {
        last_full
    } else {
        kept
    }
}

/// The row behind the last of a window that starts at `start`.
pub open spec fn window_end(start: int, rows: int, len: int) -> int {
    if start + rows < len {
        start + rows
    } else {
        len
    }
}

/// The window has at most `rows` rows, lies within the listing and holds
/// the cursor. It can be had for a cursor within the listing and at least
/// one row.
pub proof fn lemma_window_holds_cursor(prev: int, index: int, rows: int, len: int, offset: int)
    requires
        0 <= prev,
        0 <= index < len,
        1 <= rows,
        0 <= offset,
    ensures
        ({
            let start = window_start(prev, index, rows, len, offset);
            let end = window_end(start, rows, len);
            &&& 0 <= start <= index < end <= len
            &&& end - start <= rows
        }),
{
}

impl LllPageState {
    pub fn new() -> (state: LllPageState)
        ensures
            state.start == 0,
            state.end == 0,
    {
        LllPageState { start: 0, end: 0 }
    }

    /// The window that follows this one for the cursor `index` in a
    /// listing of `vec_len` entries shown in `win_rows` rows. A cursor
    /// behind the listing counts as one on its last entry. With no rows or
    /// no entries the window is empty.
    pub open spec fn updated(self, index: usize, win_rows: usize, vec_len: usize, offset: usize) -> LllPageState {
        if win_rows == 0 || vec_len == 0 {
            LllPageState { start: 0, end: 0 }
        } else {
            let at = if index < vec_len {
                index as int
            } else {
                vec_len - 1
            };
            let start = window_start(
                self.start as int,
                at,
                win_rows as int,
                vec_len as int,
                offset as int,
            );
            LllPageState {
                start: start as usize,
                end: window_end(start, win_rows as int, vec_len as int) as usize,
            }
        }
    }

    /// Moves the window so that it shows the entry at `index` of a listing
    /// of `vec_len` entries in `win_rows` rows. For a cursor within the
    /// listing and at least one row, the window has at most `win_rows`
    /// rows, lies within the listing and holds the cursor.
    pub fn update_page_state(&mut self, index: usize, win_rows: usize, vec_len: usize, offset: usize)
        ensures
            *final(self) == old(self).updated(index, win_rows, vec_len, offset),
            final(self).start <= final(self).end <= vec_len,
            final(self).end - final(self).start <= win_rows,
            win_rows > 0 && index < vec_len ==> final(self).start <= index < final(self).end,
    {
        if win_rows == 0 || vec_len == 0 {
            self.start = 0;
            self.end = 0;
            return ;
        }
        let at: usize = if index < vec_len {
            index
        } else {
            vec_len - 1
        };
        let half: usize = (win_rows - 1) / 2;
        let m: usize = if offset < half {
            offset
        } else {
            half
        };
        let reach: usize = win_rows - 1 - m;
        let lowest: usize = if at > reach {
            at - reach
        } else {
            0
        };
        let highest: usize = if at > m {
            at - m
        } else {
            0
        };
        let kept: usize = if self.start < lowest {
            lowest
        } else if self.start > highest {
            highest
        } else {
            self.start
        };
        let last_full: usize = if vec_len > win_rows {
            vec_len - win_rows
        } else {
            0
        };
        let start: usize = if kept > last_full {
            last_full
        } else {
            kept
        };
        let end: usize = if vec_len - start > win_rows {
            start + win_rows
        } else {
            vec_len
        };
        proof {
            lemma_window_holds_cursor(
                old(self).start as int,
                at as int,
                win_rows as int,
                vec_len as int,
                offset as int,
            );
        }
        self.start = start;
        self.end = end;
    }
}

impl Default for LllPageState {
    fn default() -> (state: LllPageState)
        ensures
            state.start == 0,
            state.end == 0,
    {
        LllPageState::new()
    }
}

} // verus!
