//! The listings of the directories that were visited, by path.

use vstd::prelude::*;
use crate::error::IoError;
use crate::find::{last_where, lemma_last_where};
use crate::fs::dirlist::{clamped_cursor, listing_of, refreshed, LllDirList};
use crate::fs::snapshot::FsSnapshot;
use crate::path::{ancestors, ancestors_of, is_abs_path, lemma_ancestors_abs, root};
use crate::sort::SortOption;
use crate::text::same_text;

verus! {

/// The cache of one tab: at most one listing for each path. Nothing leaves
/// it but what is taken out by name.
#[derive(Debug)]
pub struct LllHistory {
    pub lists: Vec<LllDirList>,
}

/// The index of the listing of `path`.
pub open spec fn index_in(lists: Seq<LllDirList>, path: Seq<char>) -> Option<int> {
    last_where(lists, |x: LllDirList| x.path@ =~= path)
}

/// No two listings have the same path.
pub open spec fn distinct_paths(lists: Seq<LllDirList>) -> bool {
    forall|i: int, j: int|
        0 <= i < j < lists.len() ==> (#[trigger] lists[i]).path@ != (#[trigger] lists[j]).path@
}

/// What `index_in` finds is a listing of `path`; where it finds none there
/// is none.
pub proof fn lemma_index_in(lists: Seq<LllDirList>, path: Seq<char>)
    ensures
        match index_in(lists, path) {
            Some(i) => 0 <= i < lists.len() && lists[i].path@ == path && forall|j: int|
                i < j < lists.len() ==> lists[j].path@ != path,
            None => forall|j: int| 0 <= j < lists.len() ==> lists[j].path@ != path,
        },
{
    lemma_last_where(lists, |x: LllDirList| x.path@ =~= path);
}

/// Among distinct paths a listing is found at its own index.
pub proof fn lemma_index_in_distinct(lists: Seq<LllDirList>, i: int)
    requires
        distinct_paths(lists),
        0 <= i < lists.len(),
    ensures
        index_in(lists, lists[i].path@) == Some(i),
{
    lemma_index_in(lists, lists[i].path@);
}

/// The listing of `path` as it is built from what was read: the children
/// that are shown, in order, the cursor on the first, no window yet.
pub open spec fn is_built(list: LllDirList, path: Seq<char>, opt: SortOption, fs: FsSnapshot) -> bool {
    &&& list.path@ == path
    &&& list.wf()
    &&& !list.outdated
    &&& list.index == clamped_cursor(None, list.contents@.len())
    &&& list.pagestate.start == 0
    &&& list.pagestate.end == 0
    &&& fs.outcome_of(path) matches Some(Ok(children)) && list.contents@ == listing_of(
        opt,
        children@,
    )
}

impl LllHistory {
    /// Every listing is well-formed and no path has two.
    pub open spec fn wf(self) -> bool {
        &&& distinct_paths(self.lists@)
        &&& forall|i: int| 0 <= i < self.lists@.len() ==> (#[trigger] self.lists@[i]).wf()
    }

    /// The cache holds a listing for `path`.
    pub open spec fn contains(self, path: Seq<char>) -> bool {
        index_in(self.lists@, path) is Some
    }

    /// The listing that the cache holds for `path`.
    pub open spec fn listing(self, path: Seq<char>) -> LllDirList {
        self.lists@[index_in(self.lists@, path)->0]
    }

    /// Every ancestor of `path`, the path itself and the root included, has
    /// a listing.
    pub open spec fn chain_complete(self, path: Seq<char>) -> bool {
        forall|k: int| 0 <= k < ancestors(path).len()
            ==> self.contains(#[trigger] ancestors(path)[k])
    }

    /// Whether the cache is well-formed.
    pub fn is_well_formed(&self) -> (ok: bool)
        ensures
            ok == self.wf(),
    {
        let mut j: usize = 0;
        while j < self.lists.len()
            invariant
                j <= self.lists.len(),
                forall|b: int| 0 <= b < j ==> (#[trigger] self.lists@[b]).wf(),
                forall|a: int, b: int|
                    0 <= a < b < j ==> (#[trigger] self.lists@[a]).path@ != (
                    #[trigger] self.lists@[b]).path@,
            decreases self.lists.len() - j,
        {
            if !self.lists[j].is_well_formed() {
                return false;
            }
            let mut i: usize = 0;
            while i < j
                invariant
                    i <= j < self.lists.len(),
                    forall|a: int|
                        0 <= a < i
                            ==> (#[trigger] self.lists@[a]).path@ != self.lists@[j as int].path@,
                decreases j - i,
            {
                if same_text(self.lists[i].path.as_str(), self.lists[j].path.as_str()) {
                    return false;
                }
                i += 1;
            }
            j += 1;
        }
        true
    }

    /// An empty cache.
    pub fn new() -> (history: LllHistory)
        ensures
            history.wf(),
            history.lists@.len() == 0,
            forall|p: Seq<char>| !history.contains(p),
    {
        LllHistory { lists: Vec::new() }
    }

    /// The index of the listing of `path`.
    pub fn position(&self, path: &str) -> (r: Option<usize>)
        ensures
            match r {
                Some(i) => i < self.lists.len() && index_in(self.lists@, path@) == Some(i as int),
                None => !self.contains(path@),
            },
    {
        let mut i: usize = self.lists.len();
        assert(self.lists@.subrange(0, i as int) =~= self.lists@);
        while i > 0
            invariant
                i <= self.lists.len(),
                index_in(self.lists@, path@) == index_in(self.lists@.subrange(0, i as int), path@),
            decreases i,
        {
            proof {
                let t = self.lists@.subrange(0, i as int);
                assert(t.last() == self.lists@[i - 1]);
                assert(t.drop_last() =~= self.lists@.subrange(0, i - 1));
            }
            if same_text(self.lists[i - 1].path.as_str(), path) {
                return Some(i - 1);
            }
            i -= 1;
        }
        None
    }

    /// Whether the cache holds a listing for `path`.
    pub fn contains_key(&self, path: &str) -> (r: bool)
        ensures
            r == self.contains(path@),
    {
        self.position(path).is_some()
    }

    /// The listing of `path`, if the cache holds one.
    pub fn get(&self, path: &str) -> (r: Option<&LllDirList>)
        ensures
            match r {
                Some(list) => self.contains(path@) && *list == self.listing(path@),
                None => !self.contains(path@),
            },
    {
        match self.position(path) {
            Some(i) => Some(&self.lists[i]),
            None => None,
        }
    }

    /// Puts `list` into the cache under its own path, in place of what was
    /// there under that path.
    pub fn insert(&mut self, list: LllDirList)
        requires
            old(self).wf(),
            list.wf(),
        ensures
            final(self).wf(),
            final(self).contains(list.path@),
            final(self).listing(list.path@) == list,
            forall|p: Seq<char>|
                p != list.path@ ==> (#[trigger] final(self).contains(p) == old(self).contains(p)),
            forall|p: Seq<char>|
                p != list.path@ && old(self).contains(p)
                    ==> #[trigger] final(self).listing(p) == old(self).listing(p),
    {
        let ghost before = self.lists@;
        let ghost key = list.path@;
        match self.position(list.path.as_str()) {
            Some(i) => {
                self.lists[i] = list;
                proof {
                    let after = self.lists@;
                    assert(after =~= before.update(i as int, list));
                    lemma_index_in(before, key);
                    assert(distinct_paths(after)) by {
                        assert forall|a: int, b: int| 0 <= a < b < after.len() implies (
                        #[trigger] after[a]).path@ != (#[trigger] after[b]).path@ by {
                            assert(before[a].path@ != before[b].path@);
                        }
                    }
                    lemma_index_in_distinct(after, i as int);
                    assert forall|p: Seq<char>| p != key implies (#[trigger] self.contains(p)
                        == old(self).contains(p)) by {
                        lemma_index_in(before, p);
                        lemma_index_in(after, p);
                        if index_in(before, p) is Some {
                            let k = index_in(before, p)->0;
                            assert(after[k].path@ == p);
                            lemma_index_in_distinct(after, k);
                        }
                        if index_in(after, p) is Some {
                            let k = index_in(after, p)->0;
                            assert(before[k].path@ == p);
                            lemma_index_in_distinct(before, k);
                        }
                    }
                    assert forall|p: Seq<char>|
                        p != key && old(self).contains(p) implies #[trigger] self.listing(p)
                            == old(self).listing(p) by {
                        lemma_index_in(before, p);
                        lemma_index_in(after, p);
                        if index_in(before, p) is Some {
                            let k = index_in(before, p)->0;
                            assert(after[k].path@ == p);
                            lemma_index_in_distinct(after, k);
                        }
                        if index_in(after, p) is Some {
                            let k = index_in(after, p)->0;
                            assert(before[k].path@ == p);
                            lemma_index_in_distinct(before, k);
                        }
                    }
                }
            },
            None => {
                self.lists.push(list);
                proof {
                    let after = self.lists@;
                    assert(after.drop_last() =~= before);
                    lemma_index_in(before, key);
                    assert(distinct_paths(after)) by {
                        assert forall|a: int, b: int| 0 <= a < b < after.len() implies (
                        #[trigger] after[a]).path@ != (#[trigger] after[b]).path@ by {
                            if b < before.len() {
                                assert(before[a].path@ != before[b].path@);
                            } else {
                                assert(after[a] == before[a]);
                            }
                        }
                    }
                    assert forall|p: Seq<char>| p != key implies (#[trigger] self.contains(p)
                        == old(self).contains(p)) by {
                        lemma_index_in(before, p);
                    }
                    assert forall|p: Seq<char>|
                        p != key && old(self).contains(p) implies #[trigger] self.listing(p)
                            == old(self).listing(p) by {
                        lemma_index_in(before, p);
                    }
                }
            },
        }
    }

    /// Takes the listing of `path` out of the cache.
    pub fn remove(&mut self, path: &str) -> (r: Option<LllDirList>)
        requires
            old(self).wf(),
        ensures
            final(self).wf(),
            !final(self).contains(path@),
            match r {
                Some(list) => old(self).contains(path@) && list == old(self).listing(path@)
                    && list.wf(),
                None => !old(self).contains(path@) && final(self).lists@ == old(self).lists@,
            },
            forall|p: Seq<char>|
                p != path@ ==> (#[trigger] final(self).contains(p) == old(self).contains(p)),
            forall|p: Seq<char>|
                p != path@ && old(self).contains(p) ==> #[trigger] final(self).listing(p)
                    == old(self).listing(p),
    {
        let ghost before = self.lists@;
        match self.position(path) {
            Some(i) => {
                let list = self.lists.remove(i);
                proof {
                    let after = self.lists@;
                    assert(after =~= before.remove(i as int));
                    lemma_index_in(before, path@);
                    assert(distinct_paths(after)) by {
                        assert forall|a: int, b: int| 0 <= a < b < after.len() implies (
                        #[trigger] after[a]).path@ != (#[trigger] after[b]).path@ by {
                            let a0 = if a < i {
                                a
                            } else {
                                a + 1
                            };
                            let b0 = if b < i {
                                b
                            } else {
                                b + 1
                            };
                            assert(after[a] == before[a0] && after[b] == before[b0]);
                        }
                    }
                    assert forall|k: int| 0 <= k < after.len()
                        implies (#[trigger] after[k]).wf() by {
                        let k0 = if k < i {
                            k
                        } else {
                            k + 1
                        };
                        assert(after[k] == before[k0]);
                    }
                    assert forall|p: Seq<char>| true implies (p != path@
                        ==> (#[trigger] self.contains(p) == old(self).contains(p))) && (p
                            == path@ ==> !self.contains(p)) by {
                        lemma_index_in(before, p);
                        lemma_index_in(after, p);
                        if index_in(after, p) is Some {
                            let k = index_in(after, p)->0;
                            let k0 = if k < i {
                                k
                            } else {
                                k + 1
                            };
                            assert(after[k] == before[k0]);
                            lemma_index_in_distinct(before, k0);
                        }
                        if p != path@ && index_in(before, p) is Some {
                            let k0 = index_in(before, p)->0;
                            let k = if k0 < i {
                                k0
                            } else {
                                k0 - 1
                            };
                            assert(after[k] == before[k0]);
                            lemma_index_in_distinct(after, k);
                        }
                    }
                    assert forall|p: Seq<char>|
                        p != path@ && old(self).contains(p)
                            implies #[trigger] self.listing(p) == old(self).listing(p) by {
                        lemma_index_in(before, p);
                        lemma_index_in(after, p);
                        if index_in(after, p) is Some {
                            let k = index_in(after, p)->0;
                            let k0 = if k < i {
                                k
                            } else {
                                k + 1
                            };
                            assert(after[k] == before[k0]);
                            lemma_index_in_distinct(before, k0);
                        }
                        if p != path@ && index_in(before, p) is Some {
                            let k0 = index_in(before, p)->0;
                            let k = if k0 < i {
                                k0
                            } else {
                                k0 - 1
                            };
                            assert(after[k] == before[k0]);
                            lemma_index_in_distinct(after, k);
                        }
                    }
                }
                Some(list)
            },
            None => None,
        }
    }

    /// Sees to it that every ancestor of `path`, the path itself and the
    /// root included, has a listing: each that has none is built from what
    /// was read, nearest first. Listings that are there stay as they are.
    /// The first directory that cannot be built ends the walk with its
    /// failure; what was built before stays.
    pub fn populate_to_root(&mut self, path: &str, sort_option: &SortOption, fs: &FsSnapshot) -> (r:
        Result<(), IoError>)
        requires
            old(self).wf(),
            is_abs_path(path@),
        ensures
            final(self).wf(),
            r is Ok <==> forall|k: int|
                0 <= k < ancestors(path@).len()
                    ==> old(self).contains(#[trigger] ancestors(path@)[k])
                    || fs.failure_of(ancestors(path@)[k]) is None,
            r is Ok ==> final(self).chain_complete(path@),
            old(self).chain_complete(path@) ==> r is Ok && final(self).lists@ == old(self).lists@,
            r matches Err(e) ==> exists|k: int|
                0 <= k < ancestors(path@).len()
                    && !old(self).contains(#[trigger] ancestors(path@)[k])
                    && fs.fails_with(ancestors(path@)[k], e) && forall|j: int|
                    0 <= j < k ==> final(self).contains(#[trigger] ancestors(path@)[j]),
            forall|p: Seq<char>| old(self).contains(p) ==> #[trigger] final(self).contains(p),
            forall|p: Seq<char>|
                old(self).contains(p) ==> #[trigger] final(self).listing(p) == old(self).listing(p),
            forall|p: Seq<char>|
                #[trigger] final(self).contains(p) && !old(self).contains(p)
                    ==> ancestors(path@).contains(p)
                    && is_built(final(self).listing(p), p, *sort_option, *fs),
    {
        let chain = ancestors_of(path);
        let ghost anc = ancestors(path@);
        let mut k: usize = 0;
        while k < chain.len()
            invariant
                k <= chain.len(),
                chain.len() == anc.len(),
                anc == ancestors(path@),
                forall|j: int| 0 <= j < chain.len() ==> (#[trigger] chain[j])@ == anc[j],
                self.wf(),
                forall|j: int|
                    0 <= j < k ==> old(self).contains(#[trigger] anc[j])
                        || fs.failure_of(anc[j])
                        is None,
                forall|j: int| 0 <= j < k ==> self.contains(#[trigger] anc[j]),
                (forall|j: int| 0 <= j < k ==> old(self).contains(#[trigger] anc[j]))
                    ==> self.lists@ == old(self).lists@,
                forall|p: Seq<char>| old(self).contains(p) ==> #[trigger] self.contains(p),
                forall|p: Seq<char>|
                    old(self).contains(p) ==> #[trigger] self.listing(p) == old(self).listing(p),
                forall|p: Seq<char>|
                    #[trigger] self.contains(p) && !old(self).contains(p) ==> anc.contains(p)
                        && is_built(self.listing(p), p, *sort_option, *fs),
            decreases chain.len() - k,
        {
            let ghost here = anc[k as int];
            let ghost mid = *self;
            assert(chain[k as int]@ == here);
            if !self.contains_key(chain[k].as_str()) {
                match LllDirList::new(chain[k].clone(), sort_option, fs) {
                    Ok(list) => {
                        self.insert(list);
                        proof {
                            assert(anc.contains(here));
                            assert forall|p: Seq<char>|
                                old(self).contains(p) implies #[trigger] self.contains(p) by {
                                assert(mid.contains(p));
                            }
                            assert forall|p: Seq<char>|
                                old(self).contains(p) implies #[trigger] self.listing(p)
                                    == old(self).listing(p) by {
                                assert(mid.contains(p));
                                assert(mid.listing(p) == old(self).listing(p));
                            }
                            assert forall|p: Seq<char>| #[trigger]
                                self.contains(p) && !old(self).contains(p) implies anc.contains(p)
                                && is_built(self.listing(p), p, *sort_option, *fs) by {
                                if p != here {
                                    assert(mid.contains(p));
                                }
                            }
                            assert forall|j: int| 0 <= j < k implies self.contains(
                                #[trigger] anc[j],
                            ) by {
                                assert(mid.contains(anc[j]));
                            }
                        }
                    },
                    Err(e) => {
                        proof {
                            assert(!old(self).contains(here));
                            assert(fs.fails_with(here, e));
                        }
                        return Err(e);
                    },
                }
            } else {
                proof {
                    if !old(self).contains(here) {
                        assert(is_built(self.listing(here), here, *sort_option, *fs));
                    }
                }
            }
            k += 1;
        }
        Ok(())
    }

    /// Hands out the listing of `path`. Where the cache holds one, that one
    /// leaves the cache as it is, out of date or not: to read it anew is
    /// the caller's part. Where it holds none, the listing is built from
    /// what was read and the cache stays as it is.
    pub fn pop_or_create(&mut self, path: &str, sort_option: &SortOption, fs: &FsSnapshot) -> (r:
        Result<LllDirList, IoError>)
        requires
            old(self).wf(),
        ensures
            final(self).wf(),
            !final(self).contains(path@),
            forall|p: Seq<char>|
                p != path@ ==> (#[trigger] final(self).contains(p) == old(self).contains(p)),
            forall|p: Seq<char>|
                p != path@ && old(self).contains(p) ==> #[trigger] final(self).listing(p)
                    == old(self).listing(p),
            old(self).contains(path@) ==> r == Ok::<LllDirList, IoError>(old(self).listing(path@)),
            !old(self).contains(path@) ==> final(self).lists@ == old(self).lists@
                && match fs.outcome_of(path@) {
                Some(Ok(children)) => r matches Ok(list)
                    && is_built(list, path@, *sort_option, *fs),
                _ => r matches Err(e) && fs.fails_with(path@, e),
            },
            r matches Ok(list) ==> list.wf() && list.path@ == path@,
    {
        match self.remove(path) {
            Some(list) => {
                proof {
                    lemma_index_in(old(self).lists@, path@);
                }
                Ok(list)
            },
            None => LllDirList::new(path.to_owned(), sort_option, fs),
        }
    }

    /// Reads the listing of `path` anew, where the cache holds one. Where it
    /// holds none, or the directory was not read or could not be read, the
    /// cache stays as it is.
    pub fn update_entry(&mut self, path: &str, sort_option: &SortOption, fs: &FsSnapshot) -> (r:
        Result<(), IoError>)
        requires
            old(self).wf(),
        ensures
            final(self).wf(),
            forall|p: Seq<char>| #[trigger] final(self).contains(p) == old(self).contains(p),
            forall|p: Seq<char>|
                p != path@ && old(self).contains(p) ==> #[trigger] final(self).listing(p)
                    == old(self).listing(p),
            !old(self).contains(path@) ==> r is Ok && final(self).lists@ == old(self).lists@,
            old(self).contains(path@) ==> match fs.outcome_of(path@) {
                Some(Ok(_)) => r is Ok && refreshed(
                    old(self).listing(path@),
                    final(self).listing(path@),
                    *sort_option,
                    *fs,
                ),
                _ => r matches Err(e) && fs.fails_with(path@, e) && final(self).lists@
                    == old(self).lists@,
            },
    {
        let ghost before = self.lists@;
        match self.position(path) {
            None => Ok(()),
            Some(i) => {
                proof {
                    lemma_index_in(before, path@);
                }
                let r = self.lists[i].update_contents(sort_option, fs);
                proof {
                    let after = self.lists@;
                    assert(after =~= before.update(i as int, after[i as int]));
                    assert(after[i as int].path == before[i as int].path);
                    assert(distinct_paths(after)) by {
                        assert forall|a: int, b: int| 0 <= a < b < after.len() implies (
                        #[trigger] after[a]).path@ != (#[trigger] after[b]).path@ by {
                            assert(before[a].path@ != before[b].path@);
                        }
                    }
                    assert forall|p: Seq<char>| #[trigger] self.contains(p)
                        == old(self).contains(p) by {
                        lemma_index_in(before, p);
                        lemma_index_in(after, p);
                        if index_in(before, p) is Some {
                            let k = index_in(before, p)->0;
                            assert(after[k].path@ == p);
                            lemma_index_in_distinct(after, k);
                        }
                        if index_in(after, p) is Some {
                            let k = index_in(after, p)->0;
                            assert(before[k].path@ == p);
                        }
                    }
                    assert forall|p: Seq<char>|
                        p != path@ && old(self).contains(p) implies #[trigger] self.listing(p)
                        == old(self).listing(p) by {
                        lemma_index_in(before, p);
                        let k = index_in(before, p)->0;
                        assert(after[k].path@ == p);
                        lemma_index_in_distinct(after, k);
                    }
                    lemma_index_in_distinct(after, i as int);
                    if r is Err {
                        assert(after =~= before);
                    }
                }
                r
            },
        }
    }

    /// Marks every listing as no longer trusted. Nothing else changes.
    pub fn depreciate_all_entries(&mut self)
        ensures
            final(self).lists@.len() == old(self).lists@.len(),
            forall|i: int|
                0 <= i < old(self).lists@.len() ==> #[trigger] final(self).lists@[i]
                    == (LllDirList {
                    outdated: true,
                    ..old(self).lists@[i]
                }),
    {
        let mut i: usize = 0;
        while i < self.lists.len()
            invariant
                i <= self.lists.len(),
                self.lists@.len() == old(self).lists@.len(),
                forall|j: int|
                    0 <= j < i ==> #[trigger] self.lists@[j] == (LllDirList {
                        outdated: true,
                        ..old(self).lists@[j]
                    }),
                forall|j: int| i <= j < self.lists@.len() ==> #[trigger] self.lists@[j]
                    == old(self).lists@[j],
            decreases self.lists.len() - i,
        {
            self.lists[i].depreciate();
            i += 1;
        }
    }
}

/// A cache that holds the whole chain of an absolute path holds the path
/// itself and the root.
pub proof fn lemma_chain_reaches_root(history: LllHistory, path: Seq<char>)
    requires
        is_abs_path(path),
        history.chain_complete(path),
    ensures
        history.contains(path),
        history.contains(root()),
{
    lemma_ancestors_abs(path);
    assert(history.contains(ancestors(path)[0]));
    assert(history.contains(ancestors(path)[ancestors(path).len() - 1]));
}

/// Marking listings as no longer trusted keeps the cache well-formed and
/// keeps the paths that it holds.
pub proof fn lemma_depreciate_keeps(before: LllHistory, after: LllHistory)
    requires
        before.wf(),
        after.lists@.len() == before.lists@.len(),
        forall|i: int|
            0 <= i < before.lists@.len() ==> #[trigger] after.lists@[i] == (LllDirList {
                outdated: true,
                ..before.lists@[i]
            }),
    ensures
        after.wf(),
        forall|p: Seq<char>| #[trigger] after.contains(p) == before.contains(p),
        forall|p: Seq<char>|
            before.contains(p) ==> #[trigger] after.listing(p) == (LllDirList {
                outdated: true,
                ..before.listing(p)
            }),
{
    assert(distinct_paths(after.lists@)) by {
        assert forall|a: int, b: int| 0 <= a < b < after.lists@.len() implies (
        #[trigger] after.lists@[a]).path@ != (#[trigger] after.lists@[b]).path@ by {
            assert(before.lists@[a].path@ != before.lists@[b].path@);
        }
    }
    assert forall|i: int| 0 <= i < after.lists@.len() implies (#[trigger] after.lists@[i]).wf() by {
        assert(before.lists@[i].wf());
    }
    assert forall|p: Seq<char>| #[trigger] after.contains(p) == before.contains(p) by {
        lemma_index_in(before.lists@, p);
        lemma_index_in(after.lists@, p);
        if index_in(before.lists@, p) is Some {
            let k = index_in(before.lists@, p)->0;
            assert(after.lists@[k].path@ == p);
            lemma_index_in_distinct(after.lists@, k);
        }
        if index_in(after.lists@, p) is Some {
            let k = index_in(after.lists@, p)->0;
            assert(before.lists@[k].path@ == p);
        }
    }
    assert forall|p: Seq<char>| before.contains(p) implies #[trigger] after.listing(p)
        == (LllDirList {
        outdated: true,
        ..before.listing(p)
    }) by {
        lemma_index_in(before.lists@, p);
        lemma_index_in(after.lists@, p);
        if index_in(before.lists@, p) is Some {
            let k = index_in(before.lists@, p)->0;
            assert(after.lists@[k].path@ == p);
            lemma_index_in_distinct(after.lists@, k);
        }
        if index_in(after.lists@, p) is Some {
            let k = index_in(after.lists@, p)->0;
            assert(before.lists@[k].path@ == p);
        }
    }
}

} // verus!
