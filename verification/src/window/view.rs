//! The panes of the screen.

use vstd::prelude::*;
use crate::window::panel::LllPanel;

verus! {

/// The sizes of the panes: the path line on top, the tab bar, the three
/// columns and the status line at the bottom.
#[derive(Clone, Copy, Debug)]
pub struct LllView {
    pub top_win: LllPanel,
    pub tab_win: LllPanel,
    pub left_win: LllPanel,
    pub mid_win: LllPanel,
    pub right_win: LllPanel,
    pub bot_win: LllPanel,
}

} // verus!
