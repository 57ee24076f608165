//! One navigation context: where the user is and what was seen on the way.

use vstd::prelude::*;
use crate::config::LllConfig;
use crate::error::IoError;
use crate::fs::dirlist::refreshed;
use crate::fs::{FsSnapshot, LllDirList};
use crate::history::{is_built, LllHistory};
use crate::path::{ancestors, is_abs_path};
use crate::sort::SortOption;
use crate::ui::{
    display_contents, drawing_of, primary_display_option, window_after, DisplayOptions, Drawing,
};
use crate::window::{LllPanel, LllView};

verus! {

/// A tab: the current directory, its listing, and the cache of the
/// listings of the other directories. The listing of the current
/// directory is out of the cache while the tab shows it.
#[derive(Debug)]
pub struct LllTab {
    pub history: LllHistory,
    pub curr_path: String,
    pub curr_list: LllDirList,
}

impl LllTab {
    /// The current path is an absolute path in normal form, the cache and
    /// the current listing are well-formed, the current listing is that of
    /// the current path, and the cache holds no other for it.
    pub open spec fn wf(self) -> bool {
        &&& is_abs_path(self.curr_path@)
        &&& self.history.wf()
        &&& self.curr_list.wf()
        &&& self.curr_list.path@ == self.curr_path@
        &&& !self.history.contains(self.curr_path@)
    }

    /// Whether the tab is well-formed.
    pub fn is_well_formed(&self) -> (ok: bool)
        ensures
            ok == self.wf(),
    {
        crate::path::is_absolute(self.curr_path.as_str()) && self.history.is_well_formed()
            && self.curr_list.is_well_formed() && crate::text::same_text(
            self.curr_list.path.as_str(),
            self.curr_path.as_str(),
        ) && !self.history.contains_key(self.curr_path.as_str())
    }

    /// The tab has a listing for `path`: the current one or one in the
    /// cache.
    pub open spec fn covers(self, path: Seq<char>) -> bool {
        path == self.curr_path@ || self.history.contains(path)
    }

    /// Every directory from the current one up to the root has a listing.
    pub open spec fn chain_complete(self) -> bool {
        forall|k: int|
            0 <= k < ancestors(self.curr_path@).len() ==> self.covers(
                #[trigger] ancestors(self.curr_path@)[k],
            )
    }

    /// A tab on the directory `curr_path`, with listings for it and for
    /// all that lies above it, built from what was read. There is no tab
    /// where one of them was not read or could not be read.
    pub fn new(curr_path: String, sort_option: &SortOption, fs: &FsSnapshot) -> (r: Result<
        LllTab,
        IoError,
    >)
        requires
            is_abs_path(curr_path@),
        ensures
            r is Ok <==> forall|k: int|
                0 <= k < ancestors(curr_path@).len()
                    ==> fs.failure_of(#[trigger] ancestors(curr_path@)[k]) is None,
            r matches Ok(tab) ==> tab.wf() && tab.curr_path == curr_path && tab.chain_complete()
                && is_built(tab.curr_list, curr_path@, *sort_option, *fs)
                    && !tab.history.contains(curr_path@) && forall|p: Seq<char>| #[trigger]
                tab.history.contains(p) ==> ancestors(curr_path@).contains(p) && is_built(
                    tab.history.listing(p),
                    p,
                    *sort_option,
                    *fs,
                ),
            r matches Err(e) ==> exists|k: int|
                0 <= k < ancestors(curr_path@).len() && fs.fails_with(
                    #[trigger] ancestors(curr_path@)[k],
                    e,
                ) && forall|j: int|
                    0 <= j < k ==> fs.failure_of(#[trigger] ancestors(curr_path@)[j]) is None,
    {
        let mut history = LllHistory::new();
        let ghost empty = history;
        proof {
            crate::path::lemma_parent_shorter(curr_path@);
            assert(ancestors(curr_path@).len() > 0 && ancestors(curr_path@)[0] == curr_path@);
        }
        match history.populate_to_root(curr_path.as_str(), sort_option, fs) {
            Err(e) => {
                proof {
                    let k = choose|k: int|
                        0 <= k < ancestors(curr_path@).len() && !empty.contains(
                            #[trigger] ancestors(curr_path@)[k],
                        ) && fs.fails_with(ancestors(curr_path@)[k], e) && forall|
                            j: int,
                        |
                            0 <= j < k ==> history.contains(#[trigger] ancestors(curr_path@)[j]);
                    assert forall|j: int| 0 <= j < k
                        implies fs.failure_of(#[trigger] ancestors(curr_path@)[j]) is None by {
                        assert(history.contains(ancestors(curr_path@)[j]));
                    }
                }
                Err(e)
            },
            Ok(()) => {
                let ghost full = history;
                proof {
                    assert(full.contains(ancestors(curr_path@)[0]));
                }
                match history.pop_or_create(curr_path.as_str(), sort_option, fs) {
                    Ok(curr_list) => {
                        let tab = LllTab { curr_path, history, curr_list };
                        proof {
                            assert forall|k: int|
                                0 <= k < ancestors(tab.curr_path@).len() implies tab.covers(
                                #[trigger] ancestors(tab.curr_path@)[k],
                            ) by {
                                assert(full.contains(ancestors(tab.curr_path@)[k]));
                            }
                            assert(!tab.history.contains(tab.curr_path@));
                            assert forall|p: Seq<char>| #[trigger]
                                tab.history.contains(p) implies ancestors(curr_path@).contains(p)
                                && is_built(tab.history.listing(p), p, *sort_option, *fs) by {
                                assert(full.contains(p));
                                assert(tab.history.listing(p) == full.listing(p));
                            }
                        }
                        Ok(tab)
                    },
                    Err(e) => Err(e),
                }
            },
        }
    }

    /// The listing that the tab holds for `path`.
    pub open spec fn held(self, path: Seq<char>) -> LllDirList {
        if path == self.curr_path@ {
            self.curr_list
        } else {
            self.history.listing(path)
        }
    }

    /// The directory `path` must be read before the tab can go to the
    /// directory `target`: it lies on the way from `target` to the root
    /// and has no listing, or it is `target` itself and its listing is no
    /// longer trusted.
    pub open spec fn must_read(self, target: Seq<char>, path: Seq<char>) -> bool {
        ancestors(target).contains(path) && (!self.covers(path) || (path == target && self.held(
            path,
        ).outdated))
    }

    /// The directories that must be read before the tab can go to the
    /// directory `target`, nearest first.
    pub fn paths_to_read(&self, target: &str) -> (paths: Vec<String>)
        requires
            is_abs_path(target@),
        ensures
            forall|i: int|
                0 <= i < paths@.len() ==> self.must_read(target@, (#[trigger] paths@[i])@),
            forall|p: Seq<char>|
                self.must_read(target@, p) ==> exists|i: int|
                    0 <= i < paths@.len() && (#[trigger] paths@[i])@ == p,
    {
        let chain = crate::path::ancestors_of(target);
        let ghost anc = ancestors(target@);
        let mut paths: Vec<String> = Vec::new();
        let mut k: usize = 0;
        proof {
            crate::path::lemma_parent_shorter(target@);
            crate::path::lemma_ancestors_distinct(target@);
            assert(anc.len() > 0 && anc[0] == target@);
        }
        while k < chain.len()
            invariant
                k <= chain.len(),
                chain.len() == anc.len(),
                anc == ancestors(target@),
                anc.len() > 0 && anc[0] == target@,
                forall|j: int| 0 <= j < chain.len() ==> (#[trigger] chain[j])@ == anc[j],
                forall|i: int, j: int|
                    0 <= i < j < anc.len() ==> #[trigger] anc[i] != #[trigger] anc[j],
                forall|i: int|
                    0 <= i < paths@.len() ==> self.must_read(target@, (#[trigger] paths@[i])@),
                forall|j: int|
                    0 <= j < k && self.must_read(target@, #[trigger] anc[j]) ==> exists|i: int|
                        0 <= i < paths@.len() && (#[trigger] paths@[i])@ == anc[j],
            decreases chain.len() - k,
        {
            let here = chain[k].as_str();
            let ghost before = paths@;
            assert(anc.contains(anc[k as int]));
            assert(k > 0 ==> anc[k as int] != anc[0]);
            let wanted = if crate::text::same_text(here, self.curr_path.as_str()) {
                k == 0 && self.curr_list.need_update()
            } else {
                match self.history.get(here) {
                    Some(list) => k == 0 && list.need_update(),
                    None => true,
                }
            };
            if wanted {
                paths.push(chain[k].clone());
                assert(paths@[paths@.len() - 1]@ == anc[k as int]);
            }
            proof {
                assert forall|j: int|
                    0 <= j < k + 1 && self.must_read(target@, #[trigger] anc[j]) implies exists|
                    i: int,
                | 0 <= i < paths@.len() && (#[trigger] paths@[i])@ == anc[j] by {
                    if j < k {
                        let i = choose|i: int| 0 <= i < before.len()
                            && (#[trigger] before[i])@ == anc[j];
                        assert(paths@[i]@ == anc[j]);
                    } else {
                        assert(paths@[paths@.len() - 1]@ == anc[j]);
                    }
                }
            }
            k += 1;
        }
        proof {
            assert forall|p: Seq<char>| self.must_read(target@, p) implies exists|i: int|
                0 <= i < paths@.len() && (#[trigger] paths@[i])@ == p by {
                let j = choose|j: int| 0 <= j < anc.len() && anc[j] == p;
                assert(self.must_read(target@, anc[j]));
            }
        }
        paths
    }

    /// Goes to the directory `path`. The listing that was current goes
    /// back into the cache; every directory from `path` up to the root
    /// gets a listing, built from what was read where the tab has none;
    /// the listing of `path` leaves the cache and becomes the current one,
    /// read anew first where it is no longer trusted. Where a directory
    /// that must be read was not read or could not be read, the tab stays
    /// where it is, and the cache loses nothing.
    pub fn change_directory(&mut self, path: &str, sort_option: &SortOption, fs: &FsSnapshot) -> (r:
        Result<(), IoError>)
        requires
            old(self).wf(),
            is_abs_path(path@),
        ensures
            final(self).wf(),
            r is Ok <==> forall|p: Seq<char>| #[trigger]
                old(self).must_read(path@, p) ==> fs.failure_of(p) is None,
            r matches Err(e) ==> exists|p: Seq<char>| #[trigger]
                old(self).must_read(path@, p) && fs.fails_with(p, e),
            r is Err ==> final(self).curr_path == old(self).curr_path && final(self).curr_list
                == old(self).curr_list,
            r is Err ==> forall|p: Seq<char>|
                old(self).history.contains(p) ==> #[trigger] final(self).history.contains(p)
                    && final(self).history.listing(p) == old(self).history.listing(p),
            r is Ok ==> final(self).curr_path@ == path@ && final(self).chain_complete()
                && !final(self).curr_list.outdated,
            r is Ok ==> (if !old(self).covers(path@) {
                is_built(final(self).curr_list, path@, *sort_option, *fs)
            } else if old(self).held(path@).outdated {
                refreshed(old(self).held(path@), final(self).curr_list, *sort_option, *fs)
            } else {
                final(self).curr_list == old(self).held(path@)
            }),
            r is Ok ==> forall|p: Seq<char>|
                p != path@ ==> (#[trigger] final(self).history.contains(p) <==> old(self).covers(p)
                    || ancestors(path@).contains(p)),
            r is Ok ==> forall|p: Seq<char>|
                p != path@ && #[trigger] final(self).history.contains(p)
                    ==> (if old(self).covers(p) {
                    final(self).history.listing(p) == old(self).held(p)
                } else {
                    is_built(final(self).history.listing(p), p, *sort_option, *fs)
                }),
    {
        let ghost before = *self;
        let ghost anc = ancestors(path@);
        let mut spare = LllDirList {
            index: None,
            path: String::new(),
            outdated: true,
            contents: Vec::new(),
            pagestate: crate::window::LllPageState::new(),
        };
        core::mem::swap(&mut self.curr_list, &mut spare);
        self.history.insert(spare);
        let ghost held = self.history;
        proof {
            assert forall|p: Seq<char>| held.contains(p) == before.covers(p) by {}
            assert forall|p: Seq<char>| before.covers(p) implies held.listing(p)
                == before.held(p) by {}
        }
        let walked = self.history.populate_to_root(path, sort_option, fs);
        let ghost full = self.history;
        proof {
            crate::path::lemma_parent_shorter(path@);
            assert(anc.len() > 0 && anc[0] == path@);
            assert(anc.contains(path@));
            assert forall|p: Seq<char>| before.covers(p) implies full.contains(p) && full.listing(p)
                == before.held(p) by {
                assert(held.contains(p));
                assert(full.listing(p) == held.listing(p));
            }
        }
        if let Err(e) = walked {
            proof {
                let k = choose|k: int|
                    0 <= k < anc.len() && !held.contains(#[trigger] anc[k]) && fs.fails_with(
                        anc[k],
                        e,
                    ) && forall|j: int| 0 <= j < k ==> full.contains(#[trigger] anc[j]);
                assert(anc.contains(anc[k]));
                assert(before.must_read(path@, anc[k]));
            }
            match self.history.remove(self.curr_path.as_str()) {
                Some(list) => {
                    self.curr_list = list;
                },
                None => {},
            }
            return Err(e);
        }
        proof {
            assert(full.contains(anc[0]));
            assert forall|p: Seq<char>| #[trigger]
                before.must_read(path@, p) && !before.covers(p)
                    implies fs.failure_of(p) is None by {
                let k = choose|k: int| 0 <= k < anc.len() && anc[k] == p;
                assert(!held.contains(anc[k]));
            }
        }
        let mut next = match self.history.remove(path) {
            Some(list) => list,
            None => {
                return Err(crate::fs::snapshot::not_found());
            },
        };
        let ghost rest = self.history;
        let ghost taken = next;
        proof {
            crate::history::lemma_index_in(full.lists@, path@);
            assert(taken.path@ == path@);
            if before.covers(path@) {
                assert(taken == before.held(path@));
            } else {
                assert(!held.contains(path@));
                assert(is_built(taken, path@, *sort_option, *fs));
            }
        }
        if next.need_update() {
            if let Err(e) = next.update_contents(sort_option, fs) {
                self.history.insert(next);
                let ghost restored = self.history;
                proof {
                    assert(next == taken);
                    assert(before.must_read(path@, path@));
                    let here = before.curr_path@;
                    assert(held.contains(here) && held.listing(here) == before.curr_list);
                    assert(full.contains(here) && full.listing(here) == held.listing(here));
                    if here != path@ {
                        assert(rest.contains(here) == full.contains(here));
                        assert(rest.listing(here) == full.listing(here));
                        assert(restored.contains(here) == rest.contains(here));
                        assert(restored.listing(here) == rest.listing(here));
                    }
                    assert(restored.contains(here) && restored.listing(here) == before.curr_list);
                    assert forall|p: Seq<char>| before.history.contains(p)
                        implies restored.contains(p) && restored.listing(p)
                        == before.history.listing(p) by {
                        assert(full.contains(p) && full.listing(p) == before.history.listing(p));
                        if p != path@ {
                            assert(rest.contains(p) == full.contains(p));
                            assert(rest.listing(p) == full.listing(p));
                            assert(restored.contains(p) == rest.contains(p));
                            assert(restored.listing(p) == rest.listing(p));
                        }
                    }
                }
                match self.history.remove(self.curr_path.as_str()) {
                    Some(list) => {
                        self.curr_list = list;
                    },
                    None => {},
                }
                return Err(e);
            }
        }
        self.curr_list = next;
        self.curr_path = path.to_owned();
        proof {
            assert forall|k: int| 0 <= k < ancestors(self.curr_path@).len() implies self.covers(
                #[trigger] ancestors(self.curr_path@)[k],
            ) by {
                assert(full.contains(anc[k]));
            }
            assert forall|p: Seq<char>| #[trigger]
                before.must_read(path@, p) implies fs.failure_of(p) is None by {
                if before.covers(p) {
                    assert(p == path@ && taken.outdated);
                }
            }
            assert forall|p: Seq<char>| p != path@ implies (#[trigger] self.history.contains(p)
                <==> before.covers(p) || anc.contains(p)) by {
                assert(rest.contains(p) == full.contains(p));
                if anc.contains(p) {
                    let k = choose|k: int| 0 <= k < anc.len() && anc[k] == p;
                    assert(full.contains(anc[k]));
                }
                if full.contains(p) && !held.contains(p) {
                    assert(anc.contains(p));
                }
                if before.covers(p) {
                    assert(held.contains(p));
                    assert(full.contains(p));
                }
            }
            assert forall|p: Seq<char>| p != path@
                && #[trigger] self.history.contains(p) implies (if before.covers(p) {
                self.history.listing(p) == before.held(p)
            } else {
                is_built(self.history.listing(p), p, *sort_option, *fs)
            }) by {
                assert(rest.contains(p) == full.contains(p));
                assert(rest.listing(p) == full.listing(p));
                if before.covers(p) {
                    assert(held.contains(p));
                    assert(full.listing(p) == held.listing(p));
                } else {
                    assert(!held.contains(p));
                }
            }
        }
        Ok(())
    }

    /// What the middle column shows of the current listing, whose window
    /// is moved so that it shows the cursor. The path line and the status
    /// line are drawn from `curr_path` and from the entry under the cursor.
    pub fn refresh(&mut self, views: &LllView, config_t: &LllConfig) -> (drawing: Drawing)
        requires
            old(self).wf(),
        ensures
            final(self).wf(),
            refreshed_tab(*old(self), *final(self), views.mid_win, *config_t),
            drawing == drawing_of(
                old(self).curr_list,
                views.mid_win,
                *config_t,
                DisplayOptions { detailed: true },
            ),
    {
        self.refresh_curr(&views.mid_win, config_t)
    }

    /// What the pane `win` shows of the current listing, whose window is
    /// moved so that it shows the cursor.
    pub fn refresh_curr(&mut self, win: &LllPanel, config_t: &LllConfig) -> (drawing: Drawing)
        requires
            old(self).wf(),
        ensures
            final(self).wf(),
            refreshed_tab(*old(self), *final(self), *win, *config_t),
            drawing == drawing_of(
                old(self).curr_list,
                *win,
                *config_t,
                DisplayOptions { detailed: true },
            ),
    {
        let options = primary_display_option();
        display_contents(win, &mut self.curr_list, config_t, &options)
    }
}

/// `after` is `before` with the window of the current listing moved as the
/// pane `win` asks. Nothing else differs.
pub open spec fn refreshed_tab(before: LllTab, after: LllTab, win: LllPanel, config_t: LllConfig) -> bool {
    after == (LllTab {
        curr_list: LllDirList {
            pagestate: window_after(before.curr_list, win, config_t),
            ..before.curr_list
        },
        ..before
    })
}

} // verus!
