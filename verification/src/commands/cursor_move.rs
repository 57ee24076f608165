//! Moving the cursor of the current listing.

use vstd::prelude::*;
use vstd::string::StringExecFns;
use crate::context::LllContext;
use crate::error::LllError;
use crate::fs::LllDirList;
use crate::tab::LllTab;
use crate::text::{decimal_of, number_text};
use crate::ui::window_after;
use crate::window::LllView;

verus! {

/// Where the cursor of `list` stands after a move to `target`: on the entry
/// at `target`, or on the last entry where the listing is shorter. A
/// listing without entries has no cursor and gets none.
pub open spec fn moved_cursor(list: LllDirList, target: int) -> Option<usize> {
    match list.index {
        None => None,
        Some(_) => if target < list.contents@.len() {
            Some(target as usize)
        } else {
            Some((list.contents@.len() - 1) as usize)
        },
    }
}

/// `after` is `before` with the cursor of the current listing moved to
/// `target` and the window of that listing moved after it, as the middle
/// column of `view` asks. Nothing else differs.
pub open spec fn cursor_moved(before: LllContext, after: LllContext, target: int, view: LllView) -> bool {
    let old_list = before.curr_tab().curr_list;
    let moved = LllDirList { index: moved_cursor(old_list, target), ..old_list };
    &&& after == (LllContext { tabs: after.tabs, ..before })
    &&& after.tabs@ == before.tabs@.update(before.curr_tab_index as int, after.curr_tab())
    &&& after.curr_tab() == (LllTab {
        curr_list: LllDirList {
            pagestate: window_after(moved, view.mid_win, before.config_t),
            ..moved
        },
        ..before.curr_tab()
    })
}

/// A move of the cursor keeps the listing well-formed, puts the cursor on
/// an entry where there is one, and leaves a window of no more rows than
/// the pane has, which shows the cursor where the pane has room at all.
pub proof fn lemma_cursor_moved(before: LllContext, after: LllContext, target: int, view: LllView)
    requires
        before.wf(),
        0 <= target,
        cursor_moved(before, after, target, view),
    ensures
        after.curr_tab().curr_list.wf(),
        after.curr_tab().curr_list.contents@.len() > 0 ==> after.curr_tab().curr_list.index is Some,
        view.mid_win.rows > 0 && view.mid_win.cols >= crate::ui::MIN_WIN_WIDTH
            ==> after.curr_tab().curr_list.shows_cursor()
            && after.curr_tab().curr_list.pagestate.end - after.curr_tab().curr_list.pagestate.start
            <= view.mid_win.rows,
{
    let old_list = before.curr_tab().curr_list;
    let len = old_list.contents@.len();
    assert(before.curr_tab().wf());
    assert(len == old_list.contents.len());
    if view.mid_win.cols >= crate::ui::MIN_WIN_WIDTH && len > 0 && view.mid_win.rows > 0 {
        let at = moved_cursor(old_list, target)->0;
        crate::window::page_state::lemma_window_holds_cursor(
            old_list.pagestate.start as int,
            at as int,
            view.mid_win.rows as int,
            len as int,
            before.config_t.scroll_offset as int,
        );
    }
}

/// Puts the cursor of the current listing on the entry at `new_index`, or
/// on the last entry where the listing is shorter, and moves the window
/// after it. A listing without entries stays as it is.
pub fn cursor_move(new_index: usize, context: &mut LllContext, view: &LllView)
    requires
        old(context).wf(),
    ensures
        final(context).wf(),
        cursor_moved(*old(context), *final(context), new_index as int, *view),
{
    let ghost before = *context;
    let at = context.curr_tab_index;
    let has_cursor = context.tabs[at].curr_list.index.is_some();
    if has_cursor {
        context.tabs[at].curr_list.set_cursor(new_index);
    }
    let config_t = context.config_t.clone();
    let _ = context.tabs[at].refresh_curr(&view.mid_win, &config_t);
    proof {
        assert(context.tabs@ =~= before.tabs@.update(at as int, context.tabs@[at as int]));
        assert forall|i: int| 0 <= i < context.tabs@.len()
            implies (#[trigger] context.tabs@[i]).wf() by {
            if i != at {
                assert(context.tabs@[i] == before.tabs@[i]);
            }
        }
    }
}

/// The index `movement` entries below `index`, as far as indices go.
pub open spec fn index_below(index: usize, movement: usize) -> int {
    index + movement
}

/// The index `movement` entries above `index`, the first where there are
/// fewer above.
pub open spec fn index_above(index: usize, movement: usize) -> int {
    if index > movement {
        index - movement
    } else {
        0
    }
}

/// Half the width of the middle column, which is what a page move takes for
/// its step.
pub open spec fn half_page(view: LllView) -> usize {
    if view.mid_win.cols > 0 {
        (view.mid_win.cols / 2) as usize
    } else {
        0
    }
}

fn half_page_of(view: &LllView) -> (n: usize)
    ensures
        n == half_page(*view),
{
    if view.mid_win.cols > 0 {
        (view.mid_win.cols / 2) as usize
    } else {
        0
    }
}

/// The target of a move from the cursor of the current listing, where it
/// has one: `Some` of the target for `Some` of the cursor.
fn current_cursor(context: &LllContext) -> (r: Option<usize>)
    requires
        context.wf(),
    ensures
        r == context.curr_tab().curr_list.index,
        r matches Some(i) ==> i < context.curr_tab().curr_list.contents@.len(),
        context.curr_tab().curr_list.contents@.len() <= usize::MAX,
{
    let _ = context.tabs[context.curr_tab_index].curr_list.contents.len();
    context.tabs[context.curr_tab_index].curr_list.index
}

#[derive(Clone, Copy, Debug)]
pub struct CursorMoveDown {
    pub movement: usize,
}

impl CursorMoveDown {
    pub fn new(movement: usize) -> (command: CursorMoveDown)
        ensures
            command.movement == movement,
    {
        CursorMoveDown { movement }
    }

    /// The name under which the command is made. The two step commands
    /// go by each other's names: this one, which moves down, is called
    /// `cursor_move_up`.
    pub fn command() -> (name: &'static str)
        ensures
            name@ == "cursor_move_up"@,
    {
        "cursor_move_up"
    }

    /// The command as a text: its name and its step.
    pub fn to_string(&self) -> (text: String)
        ensures
            text@ == "cursor_move_up"@ + " "@ + decimal_of(self.movement as nat),
    {
        let mut text = CursorMoveDown::command().to_owned();
        text.append(" ");
        text.append(number_text(self.movement).as_str());
        text
    }

    /// `after` is what running the command makes of `before`.
    pub open spec fn runs(self, before: LllContext, after: LllContext, view: LllView) -> bool {
        match before.curr_tab().curr_list.index {
            Some(i) => cursor_moved(before, after, index_below(i, self.movement), view),
            None => after == before,
        }
    }

    /// Moves the cursor `movement` entries down, no further than the last
    /// entry.
    pub fn execute(&self, context: &mut LllContext, view: &LllView) -> (r: Result<(), LllError>)
        requires
            old(context).wf(),
        ensures
            r is Ok,
            final(context).wf(),
            self.runs(*old(context), *final(context), *view),
    {
        match current_cursor(context) {
            Some(idx) => {
                let target: usize = if self.movement > usize::MAX - idx {
                    usize::MAX
                } else {
                    idx + self.movement
                };
                cursor_move(target, context, view);
            },
            None => {},
        }
        Ok(())
    }
}

#[derive(Clone, Copy, Debug)]
pub struct CursorMoveUp {
    pub movement: usize,
}

impl CursorMoveUp {
    pub fn new(movement: usize) -> (command: CursorMoveUp)
        ensures
            command.movement == movement,
    {
        CursorMoveUp { movement }
    }

    /// The name under which the command is made. The two step commands
    /// go by each other's names: this one, which moves up, is called
    /// `cursor_move_down`.
    pub fn command() -> (name: &'static str)
        ensures
            name@ == "cursor_move_down"@,
    {
        "cursor_move_down"
    }

    /// The command as a text: its name and its step.
    pub fn to_string(&self) -> (text: String)
        ensures
            text@ == "cursor_move_down"@ + " "@ + decimal_of(self.movement as nat),
    {
        let mut text = CursorMoveUp::command().to_owned();
        text.append(" ");
        text.append(number_text(self.movement).as_str());
        text
    }

    /// `after` is what running the command makes of `before`.
    pub open spec fn runs(self, before: LllContext, after: LllContext, view: LllView) -> bool {
        match before.curr_tab().curr_list.index {
            Some(i) => cursor_moved(before, after, index_above(i, self.movement), view),
            None => after == before,
        }
    }

    /// Moves the cursor `movement` entries up, no further than the first
    /// entry.
    pub fn execute(&self, context: &mut LllContext, view: &LllView) -> (r: Result<(), LllError>)
        requires
            old(context).wf(),
        ensures
            r is Ok,
            final(context).wf(),
            self.runs(*old(context), *final(context), *view),
    {
        match current_cursor(context) {
            Some(idx) => {
                let target: usize = if idx > self.movement {
                    idx - self.movement
                } else {
                    0
                };
                cursor_move(target, context, view);
            },
            None => {},
        }
        Ok(())
    }
}

#[derive(Clone, Copy, Debug)]
pub struct CursorMovePageUp;

impl CursorMovePageUp {
    pub fn new() -> CursorMovePageUp {
        CursorMovePageUp
    }

    pub fn command() -> (name: &'static str)
        ensures
            name@ == "cursor_move_page_up"@,
    {
        "cursor_move_page_up"
    }

    /// The command as a text: its name.
    pub fn to_string(&self) -> (text: String)
        ensures
            text@ == "cursor_move_page_up"@,
    {
        CursorMovePageUp::command().to_owned()
    }

    /// `after` is what running the command makes of `before`.
    pub open spec fn runs(self, before: LllContext, after: LllContext, view: LllView) -> bool {
        match before.curr_tab().curr_list.index {
            Some(i) => cursor_moved(before, after, index_above(i, half_page(view)), view),
            None => after == before,
        }
    }

    /// Moves the cursor half a page up, no further than the first entry.
    pub fn execute(&self, context: &mut LllContext, view: &LllView) -> (r: Result<(), LllError>)
        requires
            old(context).wf(),
        ensures
            r is Ok,
            final(context).wf(),
            self.runs(*old(context), *final(context), *view),
    {
        match current_cursor(context) {
            Some(idx) => {
                let half = half_page_of(view);
                let target: usize = if idx > half {
                    idx - half
                } else {
                    0
                };
                cursor_move(target, context, view);
            },
            None => {},
        }
        Ok(())
    }
}

#[derive(Clone, Copy, Debug)]
pub struct CursorMovePageDown;

impl CursorMovePageDown {
    pub fn new() -> CursorMovePageDown {
        CursorMovePageDown
    }

    pub fn command() -> (name: &'static str)
        ensures
            name@ == "cursor_move_page_down"@,
    {
        "cursor_move_page_down"
    }

    /// The command as a text: its name.
    pub fn to_string(&self) -> (text: String)
        ensures
            text@ == "cursor_move_page_down"@,
    {
        CursorMovePageDown::command().to_owned()
    }

    /// `after` is what running the command makes of `before`.
    pub open spec fn runs(self, before: LllContext, after: LllContext, view: LllView) -> bool {
        match before.curr_tab().curr_list.index {
            Some(i) => cursor_moved(before, after, index_below(i, half_page(view)), view),
            None => after == before,
        }
    }

    /// Moves the cursor half a page down, no further than the last entry.
    pub fn execute(&self, context: &mut LllContext, view: &LllView) -> (r: Result<(), LllError>)
        requires
            old(context).wf(),
        ensures
            r is Ok,
            final(context).wf(),
            self.runs(*old(context), *final(context), *view),
    {
        match current_cursor(context) {
            Some(idx) => {
                let dir_len = context.tabs[context.curr_tab_index].curr_list.contents.len();
                let half = half_page_of(view);
                let target: usize = if half > dir_len - 1 - idx {
                    dir_len - 1
                } else {
                    idx + half
                };
                cursor_move(target, context, view);
            },
            None => {},
        }
        Ok(())
    }
}

#[derive(Clone, Copy, Debug)]
pub struct CursorMoveHome;

impl CursorMoveHome {
    pub fn new() -> CursorMoveHome {
        CursorMoveHome
    }

    pub fn command() -> (name: &'static str)
        ensures
            name@ == "cursor_move_home"@,
    {
        "cursor_move_home"
    }

    /// The command as a text: its name.
    pub fn to_string(&self) -> (text: String)
        ensures
            text@ == "cursor_move_home"@,
    {
        CursorMoveHome::command().to_owned()
    }

    /// `after` is what running the command makes of `before`.
    pub open spec fn runs(self, before: LllContext, after: LllContext, view: LllView) -> bool {
        match before.curr_tab().curr_list.index {
            Some(i) => cursor_moved(before, after, 0, view),
            None => after == before,
        }
    }

    /// Moves the cursor to the first entry.
    pub fn execute(&self, context: &mut LllContext, view: &LllView) -> (r: Result<(), LllError>)
        requires
            old(context).wf(),
        ensures
            r is Ok,
            final(context).wf(),
            self.runs(*old(context), *final(context), *view),
    {
        let len = context.tabs[context.curr_tab_index].curr_list.contents.len();
        if len > 0 {
            cursor_move(0, context, view);
        }
        Ok(())
    }
}

#[derive(Clone, Copy, Debug)]
pub struct CursorMoveEnd;

impl CursorMoveEnd {
    pub fn new() -> CursorMoveEnd {
        CursorMoveEnd
    }

    pub fn command() -> (name: &'static str)
        ensures
            name@ == "cursor_move_end"@,
    {
        "cursor_move_end"
    }

    /// The command as a text: its name.
    pub fn to_string(&self) -> (text: String)
        ensures
            text@ == "cursor_move_end"@,
    {
        CursorMoveEnd::command().to_owned()
    }

    /// `after` is what running the command makes of `before`.
    pub open spec fn runs(self, before: LllContext, after: LllContext, view: LllView) -> bool {
        match before.curr_tab().curr_list.index {
            Some(i) => cursor_moved(before, after, before.curr_tab().curr_list.contents@.len() - 1, view),
            None => after == before,
        }
    }

    /// Moves the cursor to the last entry.
    pub fn execute(&self, context: &mut LllContext, view: &LllView) -> (r: Result<(), LllError>)
        requires
            old(context).wf(),
        ensures
            r is Ok,
            final(context).wf(),
            self.runs(*old(context), *final(context), *view),
    {
        let len = context.tabs[context.curr_tab_index].curr_list.contents.len();
        if len > 0 {
            cursor_move(len - 1, context, view);
        }
        Ok(())
    }
}

} // verus!
