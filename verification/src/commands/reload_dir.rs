//! Reading the current directory anew.

use vstd::prelude::*;
use crate::context::LllContext;
use crate::error::{IoError, LllError};
use crate::fs::dirlist::{cut_to, refreshed};
use crate::fs::{FsSnapshot, LllDirList};
use crate::path::{parent, parent_of};
use crate::sort::SortOption;
use crate::tab::LllTab;
use crate::ui::window_after;
use crate::window::LllView;

verus! {

#[derive(Clone, Copy, Debug)]
pub struct ReloadDirList;

/// The cached parent of the current directory of `tab`, if there is one.
pub open spec fn cached_parent(tab: LllTab) -> Option<Seq<char>> {
    match parent_of(tab.curr_list.path@) {
        Some(p) => if tab.history.contains(p) {
            Some(p)
        } else {
            None
        },
        None => None,
    }
}

/// `after` is `before` with the current listing read anew.
pub open spec fn current_reloaded(before: LllTab, after: LllTab, opt: SortOption, fs: FsSnapshot) -> bool {
    &&& after.curr_path == before.curr_path
    &&& refreshed(before.curr_list, after.curr_list, opt, fs)
    &&& forall|p: Seq<char>| #[trigger] after.history.contains(p) == before.history.contains(p)
}

/// The cache of `after` is that of `before` but for the listing of `path`.
pub open spec fn cache_kept_except(before: LllTab, after: LllTab, path: Option<Seq<char>>) -> bool {
    forall|p: Seq<char>|
        Some(p) != path && before.history.contains(p) ==> #[trigger] after.history.listing(p)
            == before.history.listing(p)
}

/// `after` is what reloading makes of the tab `before`, and `r` what it
/// answers. Where the current directory was not read or could not be read,
/// the tab stays as it is. Else the current listing is read anew, and with
/// it the listing of the parent where the cache holds it; a failure on the
/// parent leaves that listing as it is. The rest of the cache stays.
pub open spec fn tab_reloaded(
    before: LllTab,
    after: LllTab,
    opt: SortOption,
    fs: FsSnapshot,
    r: Result<(), IoError>,
) -> bool {
    match fs.failure_of(before.curr_list.path@) {
        Some(_) => r matches Err(e) && fs.fails_with(before.curr_list.path@, e) && after == before,
        None => current_reloaded(before, after, opt, fs) && match cached_parent(before) {
            None => r is Ok && cache_kept_except(before, after, None),
            Some(p) => cache_kept_except(before, after, Some(p)) && match fs.failure_of(p) {
                Some(_) => r matches Err(e) && fs.fails_with(p, e) && after.history.listing(p)
                    == before.history.listing(p),
                None => r is Ok && refreshed(
                    before.history.listing(p),
                    after.history.listing(p),
                    opt,
                    fs,
                ),
            },
        },
    }
}

/// `after` is what the reload command makes of `before`, and `r` what it
/// answers: the current tab is reloaded and, where that went well, the
/// window of its listing is moved so that it shows the cursor. Nothing
/// else differs.
pub open spec fn reload_ran(
    before: LllContext,
    after: LllContext,
    view: LllView,
    fs: FsSnapshot,
    r: Result<(), LllError>,
) -> bool {
    let old_tab = before.curr_tab();
    let new_tab = after.curr_tab();
    let opt = before.config_t.sort_option;
    &&& after == (LllContext { tabs: after.tabs, ..before })
    &&& after.tabs@ == before.tabs@.update(before.curr_tab_index as int, new_tab)
    &&& match r {
        Ok(()) => {
            let unmoved = LllDirList {
                pagestate: cut_to(old_tab.curr_list.pagestate, new_tab.curr_list.contents@.len()),
                ..new_tab.curr_list
            };
            &&& tab_reloaded(
                old_tab,
                LllTab { curr_list: unmoved, ..new_tab },
                opt,
                fs,
                Ok(()),
            )
            &&& new_tab.curr_list.pagestate == window_after(unmoved, view.mid_win, before.config_t)
        },
        Err(LllError::IO(e)) => tab_reloaded(old_tab, new_tab, opt, fs, Err(e)),
        Err(_) => false,
    }
}

/// The directories that reloading `tab` looks at in a snapshot: the
/// current one, and its parent where the cache holds it.
pub open spec fn reload_reads(tab: LllTab) -> Seq<Seq<char>> {
    match cached_parent(tab) {
        Some(p) => seq![tab.curr_list.path@, p],
        None => seq![tab.curr_list.path@],
    }
}

impl ReloadDirList {
    /// The directories that must be read before the current tab can be
    /// reloaded.
    pub fn reads(context: &LllContext) -> (paths: Vec<String>)
        requires
            context.curr_tab_index < context.tabs@.len(),
        ensures
            paths@.len() == reload_reads(context.curr_tab()).len(),
            forall|i: int|
                0 <= i < paths@.len() ==> (#[trigger] paths@[i])@ == reload_reads(
                    context.curr_tab(),
                )[i],
    {
        let tab = &context.tabs[context.curr_tab_index];
        let mut paths: Vec<String> = Vec::new();
        paths.push(tab.curr_list.path.clone());
        match parent(tab.curr_list.path.as_str()) {
            Some(up) => {
                if tab.history.contains_key(up.as_str()) {
                    paths.push(up);
                }
            },
            None => {},
        }
        paths
    }

    pub fn new() -> ReloadDirList {
        ReloadDirList
    }

    pub fn command() -> (name: &'static str)
        ensures
            name@ == "reload_dir_list"@,
    {
        "reload_dir_list"
    }

    /// The command as a text: its name.
    pub fn to_string(&self) -> (text: String)
        ensures
            text@ == "reload_dir_list"@,
    {
        ReloadDirList::command().to_owned()
    }

    /// Reads anew the current listing of the tab `index` and, where the
    /// cache holds it, the listing of its parent, from what was read. A
    /// failure on the current directory leaves everything as it is; one on
    /// the parent leaves the cache as it is.
    pub fn reload(index: usize, context: &mut LllContext, fs: &FsSnapshot) -> (r: Result<
        (),
        IoError,
    >)
        requires
            old(context).wf(),
            index < old(context).tabs@.len(),
        ensures
            final(context).wf(),
            *final(context) == (LllContext { tabs: final(context).tabs, ..*old(context) }),
            final(context).tabs@ == old(context).tabs@.update(
                index as int,
                final(context).tabs@[index as int],
            ),
            tab_reloaded(
                old(context).tabs@[index as int],
                final(context).tabs@[index as int],
                old(context).config_t.sort_option,
                *fs,
                r,
            ),
    {
        let ghost before = *context;
        let sort_option = context.config_t.sort_option;
        let first = context.tabs[index].curr_list.update_contents(&sort_option, fs);
        proof {
            assert(context.tabs@ =~= before.tabs@.update(index as int, context.tabs@[index as int]));
            assert forall|i: int| 0 <= i < context.tabs@.len()
                implies (#[trigger] context.tabs@[i]).wf() by {
                if i != index {
                    assert(context.tabs@[i] == before.tabs@[i]);
                }
            }
        }
        match first {
            Err(e) => {
                proof {
                    assert(context.tabs@[index as int] == before.tabs@[index as int]);
                }
                return Err(e);
            },
            Ok(()) => {},
        }
        let ghost mid = *context;
        let second = match parent(context.tabs[index].curr_list.path.as_str()) {
            Some(up) => context.tabs[index].history.update_entry(up.as_str(), &sort_option, fs),
            None => Ok(()),
        };
        proof {
            assert(context.tabs@ =~= before.tabs@.update(index as int, context.tabs@[index as int]));
            assert forall|i: int| 0 <= i < context.tabs@.len()
                implies (#[trigger] context.tabs@[i]).wf() by {
                if i != index {
                    assert(context.tabs@[i] == before.tabs@[i]);
                }
            }
            let old_tab = before.tabs@[index as int];
            let new_tab = context.tabs@[index as int];
            assert(new_tab.curr_list == mid.tabs@[index as int].curr_list);
            assert(mid.tabs@[index as int].history == old_tab.history);
        }
        second
    }

    /// Reads the current directory of the current tab anew, as `reload`
    /// does, and moves the window of its listing so that it shows the
    /// cursor.
    pub fn execute(&self, context: &mut LllContext, view: &LllView, fs: &FsSnapshot) -> (r: Result<
        (),
        LllError,
    >)
        requires
            old(context).wf(),
        ensures
            final(context).wf(),
            reload_ran(*old(context), *final(context), *view, *fs, r),
    {
        let ghost before = *context;
        let at = context.curr_tab_index;
        match ReloadDirList::reload(at, context, fs) {
            Ok(()) => {
                let config_t = context.config_t.clone();
                let ghost mid = *context;
                let _ = context.tabs[at].refresh(view, &config_t);
                proof {
                    assert(context.tabs@ =~= before.tabs@.update(at as int, context.tabs@[at as int]));
                    assert forall|i: int| 0 <= i < context.tabs@.len() implies (
                    #[trigger] context.tabs@[i]).wf() by {
                        if i != at {
                            assert(context.tabs@[i] == mid.tabs@[i]);
                        }
                    }
                }
                Ok(())
            },
            Err(e) => Err(LllError::IO(e)),
        }
    }
}

} // verus!
