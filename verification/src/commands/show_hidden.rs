//! Showing or hiding the entries whose names begin with a dot.

use vstd::prelude::*;
use crate::commands::reload_dir::{reload_ran, ReloadDirList};
use crate::config::LllConfig;
use crate::context::LllContext;
use crate::error::LllError;
use crate::fs::{FsSnapshot, LllDirList};
use crate::history::lemma_depreciate_keeps;
use crate::sort::SortOption;
use crate::tab::LllTab;
use crate::window::LllView;

verus! {

#[derive(Clone, Copy, Debug)]
pub struct ToggleHiddenFiles;

/// `after` is `before` with every listing, the current one and those in
/// the cache, marked as no longer trusted.
pub open spec fn tab_depreciated(before: LllTab, after: LllTab) -> bool {
    &&& after.curr_path == before.curr_path
    &&& after.curr_list == (LllDirList { outdated: true, ..before.curr_list })
    &&& after.history.lists@.len() == before.history.lists@.len()
    &&& forall|i: int|
        0 <= i < before.history.lists@.len() ==> #[trigger] after.history.lists@[i] == (LllDirList {
            outdated: true,
            ..before.history.lists@[i]
        })
}

/// `after` is `before` with the policy on hidden entries turned round and
/// every listing of every tab marked as no longer trusted.
pub open spec fn hidden_toggled(before: LllContext, after: LllContext) -> bool {
    &&& after == (LllContext { tabs: after.tabs, config_t: after.config_t, ..before })
    &&& after.config_t == (LllConfig {
        sort_option: SortOption {
            show_hidden: !before.config_t.sort_option.show_hidden,
            ..before.config_t.sort_option
        },
        ..before.config_t
    })
    &&& after.tabs@.len() == before.tabs@.len()
    &&& forall|i: int|
        0 <= i < before.tabs@.len() ==> tab_depreciated(before.tabs@[i], #[trigger] after.tabs@[i])
}

/// `after` is what the toggle command makes of `before`, and `r` what it
/// answers: the policy is turned round and every listing marked, and from
/// there the current tab is reloaded as the reload command does.
pub open spec fn toggle_ran(
    before: LllContext,
    after: LllContext,
    view: LllView,
    fs: FsSnapshot,
    r: Result<(), LllError>,
) -> bool {
    exists|mid: LllContext| #[trigger]
        hidden_toggled(before, mid) && mid.wf() && reload_ran(mid, after, view, fs, r)
}

impl ToggleHiddenFiles {
    pub fn new() -> ToggleHiddenFiles {
        ToggleHiddenFiles
    }

    pub fn command() -> (name: &'static str)
        ensures
            name@ == "toggle_hidden"@,
    {
        "toggle_hidden"
    }

    /// The command as a text: its name.
    pub fn to_string(&self) -> (text: String)
        ensures
            text@ == "toggle_hidden"@,
    {
        ToggleHiddenFiles::command().to_owned()
    }

    /// Turns the policy on hidden entries round, and marks every listing of
    /// every tab as no longer trusted: what a listing should hold has
    /// changed, though the directory has not.
    pub fn toggle_hidden(context: &mut LllContext)
        requires
            old(context).wf(),
        ensures
            final(context).wf(),
            hidden_toggled(*old(context), *final(context)),
    {
        let opposite = !context.config_t.sort_option.show_hidden;
        context.config_t.sort_option.show_hidden = opposite;
        let ghost before = *context;
        let mut i: usize = 0;
        while i < context.tabs.len()
            invariant
                i <= context.tabs.len(),
                *context == (LllContext { tabs: context.tabs, ..before }),
                context.tabs@.len() == before.tabs@.len(),
                forall|j: int| 0 <= j < before.tabs@.len() ==> (#[trigger] before.tabs@[j]).wf(),
                forall|j: int| 0 <= j < context.tabs@.len() ==> (#[trigger] context.tabs@[j]).wf(),
                forall|j: int|
                    0 <= j < i ==> tab_depreciated(before.tabs@[j], #[trigger] context.tabs@[j]),
                forall|j: int| i <= j < context.tabs@.len() ==> #[trigger] context.tabs@[j]
                    == before.tabs@[j],
            decreases context.tabs.len() - i,
        {
            let ghost mid = *context;
            context.tabs[i].history.depreciate_all_entries();
            context.tabs[i].curr_list.depreciate();
            proof {
                lemma_depreciate_keeps(before.tabs@[i as int].history, context.tabs@[i as int].history);
                assert forall|j: int| 0 <= j < context.tabs@.len() implies (
                #[trigger] context.tabs@[j]).wf() by {
                    if j != i {
                        assert(context.tabs@[j] == mid.tabs@[j]);
                    }
                }
                assert forall|j: int| 0 <= j < i implies tab_depreciated(
                    before.tabs@[j],
                    #[trigger] context.tabs@[j],
                ) by {
                    assert(context.tabs@[j] == mid.tabs@[j]);
                }
                assert forall|j: int| i < j < context.tabs@.len()
                    implies #[trigger] context.tabs@[j]
                    == before.tabs@[j] by {
                    assert(context.tabs@[j] == mid.tabs@[j]);
                }
            }
            i += 1;
        }
    }

    /// Turns the policy on hidden entries round, as `toggle_hidden` does,
    /// and reads the current directory anew under the new policy.
    pub fn execute(&self, context: &mut LllContext, view: &LllView, fs: &FsSnapshot) -> (r: Result<
        (),
        LllError,
    >)
        requires
            old(context).wf(),
        ensures
            final(context).wf(),
            toggle_ran(*old(context), *final(context), *view, *fs, r),
    {
        ToggleHiddenFiles::toggle_hidden(context);
        let ghost mid = *context;
        let r = ReloadDirList::new().execute(context, view, fs);
        assert(hidden_toggled(*old(context), mid) && mid.wf() && reload_ran(
            mid,
            *context,
            *view,
            *fs,
            r,
        ));
        r
    }
}

} // verus!
