//! The cached view of one directory.

use vstd::prelude::*;
use crate::error::IoError;
use crate::fs::entry::LllDirEntry;
use crate::fs::snapshot::{not_found, FsSnapshot};
use crate::sort::{
    entry_before, is_hidden, is_hidden_name, is_sorted, lemma_entry_order_total,
    lemma_sort_permutes, lemma_sort_sorted, lemma_sorted_pairwise, sort_entries, sort_seq,
    SortOption, SortType,
};
use crate::window::page_state::LllPageState;

verus! {

/// The entries of one directory in the order of the sort option, with the
/// cursor, the window that is shown and the mark that says that the
/// contents are no longer trusted.
#[derive(Debug)]
pub struct LllDirList {
    pub index: Option<usize>,
    pub path: String,
    pub outdated: bool,
    pub contents: Vec<LllDirEntry>,
    pub pagestate: LllPageState,
}

/// The entry is shown under `opt`: hidden names only where that is asked.
pub open spec fn is_shown(opt: SortOption, e: LllDirEntry) -> bool {
    opt.show_hidden || !is_hidden_name(e.name@)
}

/// The entries of `s` that are shown under `opt`, in their order.
pub open spec fn shown_entries(opt: SortOption, s: Seq<LllDirEntry>) -> Seq<LllDirEntry>
    decreases s.len(),
{
    if s.len() == 0 {
        s
    } else if is_shown(opt, s.last()) {
        shown_entries(opt, s.drop_last()).push(s.last())
    } else {
        shown_entries(opt, s.drop_last())
    }
}

/// What a listing holds of the children that were read: those that are
/// shown, in order.
pub open spec fn listing_of(opt: SortOption, children: Seq<LllDirEntry>) -> Seq<LllDirEntry> {
    sort_seq(opt, shown_entries(opt, children))
}

/// The cursor for `len` entries that is nearest to `old`: the same index
/// where there is such an entry, else the last one; none where there is no
/// entry.
pub open spec fn clamped_cursor(old: Option<usize>, len: nat) -> Option<usize> {
    if len == 0 {
        None
    } else {
        match old {
            Some(i) => if i < len {
                Some(i)
            } else {
                Some((len - 1) as usize)
            },
            None => Some(0usize),
        }
    }
}

/// An entry is among those that are shown where it is among the entries
/// and is shown.
pub proof fn lemma_shown_member(opt: SortOption, s: Seq<LllDirEntry>, e: LllDirEntry)
    ensures
        shown_entries(opt, s).contains(e) <==> s.contains(e) && is_shown(opt, e),
    decreases s.len(),
{
    if s.len() > 0 {
        let init = s.drop_last();
        let last = s.last();
        lemma_shown_member(opt, init, e);
        let kept = shown_entries(opt, init);
        let out = shown_entries(opt, s);
        if s.contains(e) {
            let k = choose|k: int| 0 <= k < s.len() && s[k] == e;
            if k < init.len() {
                assert(init[k] == e);
            }
        }
        if init.contains(e) {
            let k = choose|k: int| 0 <= k < init.len() && init[k] == e;
            assert(s[k] == e);
        }
        if kept.contains(e) && is_shown(opt, last) {
            let k = choose|k: int| 0 <= k < kept.len() && kept[k] == e;
            assert(out[k] == e);
        }
        if out.contains(e) && is_shown(opt, last) {
            let k = choose|k: int| 0 <= k < out.len() && out[k] == e;
            if k < kept.len() {
                assert(kept[k] == e);
            }
        }
        if last == e {
            assert(s[s.len() - 1] == e);
            if is_shown(opt, last) {
                assert(out[out.len() - 1] == e);
            }
        }
    }
}

/// A listing holds the children that are shown, each as often as it was
/// read, and nothing else; and it is in order.
pub proof fn lemma_listing(opt: SortOption, children: Seq<LllDirEntry>)
    ensures
        is_sorted(opt, listing_of(opt, children)),
        listing_of(opt, children).len() <= children.len(),
        forall|e: LllDirEntry| #[trigger]
            listing_of(opt, children).contains(e) <==> children.contains(e) && is_shown(opt, e),
        !opt.show_hidden ==> forall|i: int|
            0 <= i < listing_of(opt, children).len() ==> !is_hidden_name(
                (#[trigger] listing_of(opt, children)[i]).name@,
            ),
{
    broadcast use vstd::seq_lib::group_to_multiset_ensures;

    let shown = shown_entries(opt, children);
    lemma_sort_sorted(opt, shown);
    lemma_sort_permutes(opt, shown);
    lemma_shown_length(opt, children);
    assert forall|e: LllDirEntry| #[trigger]
        listing_of(opt, children).contains(e) <==> children.contains(e) && is_shown(opt, e) by {
        lemma_shown_member(opt, children, e);
        assert(shown.to_multiset().count(e) == listing_of(opt, children).to_multiset().count(e));
    }
    assert forall|i: int| 0 <= i < listing_of(opt, children).len() implies is_shown(
        opt,
        #[trigger] listing_of(opt, children)[i],
    ) by {
        assert(listing_of(opt, children).contains(listing_of(opt, children)[i]));
    }
}

/// Under a method other than the natural one a listing is in order pair by
/// pair: no entry stands before one that precedes it, and of two entries
/// with different names the earlier stands before the later. (Of the
/// natural order nothing says that it carries over from pair to pair.)
pub proof fn lemma_listing_pairwise(opt: SortOption, children: Seq<LllDirEntry>, i: int, j: int)
    requires
        opt.sort_method != SortType::Natural,
        0 <= i < j < listing_of(opt, children).len(),
    ensures
        !entry_before(opt, listing_of(opt, children)[j], listing_of(opt, children)[i]),
        listing_of(opt, children)[i].name@ != listing_of(opt, children)[j].name@ ==> entry_before(
            opt,
            listing_of(opt, children)[i],
            listing_of(opt, children)[j],
        ),
{
    let list = listing_of(opt, children);
    lemma_sort_sorted(opt, shown_entries(opt, children));
    lemma_sorted_pairwise(opt, list, i, j);
    if list[i].name@ != list[j].name@ {
        lemma_entry_order_total(opt, list[i], list[j]);
    }
}

/// No more entries are shown than there are.
pub proof fn lemma_shown_length(opt: SortOption, s: Seq<LllDirEntry>)
    ensures
        shown_entries(opt, s).len() <= s.len(),
    decreases s.len(),
{
    if s.len() > 0 {
        lemma_shown_length(opt, s.drop_last());
    }
}

/// The entries of `children` that are shown under `opt`.
fn filter_shown(opt: &SortOption, children: &Vec<LllDirEntry>) -> (out: Vec<LllDirEntry>)
    ensures
        out@ == shown_entries(*opt, children@),
{
    let mut out: Vec<LllDirEntry> = Vec::new();
    let mut i: usize = 0;
    assert(children@.subrange(0, 0) =~= Seq::<LllDirEntry>::empty());
    while i < children.len()
        invariant
            i <= children.len(),
            out@ == shown_entries(*opt, children@.subrange(0, i as int)),
        decreases children.len() - i,
    {
        proof {
            let t = children@.subrange(0, i + 1);
            assert(t.last() == children@[i as int]);
            assert(t.drop_last() =~= children@.subrange(0, i as int));
        }
        if opt.show_hidden || !is_hidden(children[i].file_name()) {
            out.push(children[i].clone());
        }
        i += 1;
    }
    assert(children@.subrange(0, i as int) =~= children@);
    out
}

/// `after` is `before` read anew from what was read of its directory: the
/// children that are shown under `opt`, in order; the cursor on its old
/// index or, where the listing became shorter, on the last entry; the
/// window cut to the new length; trusted again.
pub open spec fn refreshed(before: LllDirList, after: LllDirList, opt: SortOption, fs: FsSnapshot) -> bool {
    &&& fs.outcome_of(before.path@) matches Some(Ok(children)) && after.contents@ == listing_of(
        opt,
        children@,
    )
    &&& after.path == before.path
    &&& !after.outdated
    &&& after.index == clamped_cursor(before.index, after.contents@.len())
    &&& after.pagestate == cut_to(before.pagestate, after.contents@.len())
}

/// The window cut to a listing of `len` entries.
pub open spec fn cut_to(window: LllPageState, len: nat) -> LllPageState {
    LllPageState {
        start: if window.start <= len {
            window.start
        } else {
            len as usize
        },
        end: if window.end <= len {
            window.end
        } else {
            len as usize
        },
    }
}

/// What a listing holds of the children that were read: those that are
/// shown under `opt`, in its order.
pub fn build_listing(opt: &SortOption, children: &Vec<LllDirEntry>) -> (out: Vec<LllDirEntry>)
    ensures
        out@ == listing_of(*opt, children@),
        is_sorted(*opt, out@),
{
    sort_entries(opt, filter_shown(opt, children))
}

impl LllDirList {
    /// The cursor is on an entry, or there is no entry; the window lies
    /// within the entries.
    pub open spec fn wf(self) -> bool {
        &&& self.index == clamped_cursor(self.index, self.contents@.len())
        &&& self.pagestate.start <= self.pagestate.end <= self.contents@.len()
    }

    /// Whether the listing is well-formed.
    pub fn is_well_formed(&self) -> (ok: bool)
        ensures
            ok == self.wf(),
    {
        let len = self.contents.len();
        let cursor_ok = match self.index {
            Some(i) => i < len,
            None => len == 0,
        };
        cursor_ok && self.pagestate.start <= self.pagestate.end && self.pagestate.end <= len
    }

    /// The window shows the cursor.
    pub open spec fn shows_cursor(self) -> bool {
        self.index matches Some(i) ==> self.pagestate.start <= i < self.pagestate.end
    }

    /// Builds the listing of the directory `path` from what was read of it:
    /// the children that are shown under `sort_option`, in its order, the
    /// cursor on the first. Where the directory was not read, or reading it
    /// failed, there is no listing and the failure is handed on.
    pub fn new(path: String, sort_option: &SortOption, fs: &FsSnapshot) -> (r: Result<
        LllDirList,
        IoError,
    >)
        ensures
            match fs.outcome_of(path@) {
                Some(Ok(children)) => r matches Ok(list) && list.wf() && list.path == path
                    && !list.outdated && list.contents@ == listing_of(*sort_option, children@)
                    && list.index == clamped_cursor(None, list.contents@.len())
                    && list.pagestate.start == 0 && list.pagestate.end == 0,
                _ => r matches Err(e) && fs.fails_with(path@, e),
            },
    {
        match fs.find(path.as_str()) {
            None => Err(not_found()),
            Some(at) => match &fs.reads[at].outcome {
                Err(e) => Err(e.clone()),
                Ok(children) => {
                    let contents = build_listing(sort_option, children);
                    let index = if contents.len() > 0 {
                        Some(0)
                    } else {
                        None
                    };
                    Ok(
                        LllDirList {
                            index,
                            path,
                            outdated: false,
                            contents,
                            pagestate: LllPageState::new(),
                        },
                    )
                },
            },
        }
    }

    /// Reads the contents anew from what was read of the listing's own
    /// directory. The cursor stays on its index where there still is such an
    /// entry and goes to the last entry where there is not; the window is
    /// cut to the new length; the listing is trusted again. Where the
    /// directory was not read, or reading it failed, the listing stays as
    /// it is and the failure is handed on.
    pub fn update_contents(&mut self, sort_option: &SortOption, fs: &FsSnapshot) -> (r: Result<
        (),
        IoError,
    >)
        requires
            old(self).wf(),
        ensures
            final(self).wf(),
            match fs.outcome_of(old(self).path@) {
                Some(Ok(_)) => r is Ok && refreshed(*old(self), *final(self), *sort_option, *fs),
                _ => r matches Err(e) && fs.fails_with(old(self).path@, e) && *final(self)
                    == *old(self),
            },
    {
        match fs.find(self.path.as_str()) {
            None => Err(not_found()),
            Some(at) => match &fs.reads[at].outcome {
                Err(e) => Err(e.clone()),
                Ok(children) => {
                    let contents = build_listing(sort_option, children);
                    let len = contents.len();
                    self.index = if len == 0 {
                        None
                    } else {
                        match self.index {
                            Some(i) => if i < len {
                                Some(i)
                            } else {
                                Some(len - 1)
                            },
                            None => Some(0),
                        }
                    };
                    if self.pagestate.start > len {
                        self.pagestate.start = len;
                    }
                    if self.pagestate.end > len {
                        self.pagestate.end = len;
                    }
                    self.contents = contents;
                    self.outdated = false;
                    Ok(())
                },
            },
        }
    }

    /// Marks the contents as no longer trusted. Nothing else changes.
    pub fn depreciate(&mut self)
        ensures
            *final(self) == (LllDirList { outdated: true, ..*old(self) }),
    {
        self.outdated = true;
    }

    /// Whether the contents must be read anew before they are shown.
    pub fn need_update(&self) -> (r: bool)
        ensures
            r == self.outdated,
    {
        self.outdated
    }

    pub fn file_path(&self) -> (path: &String)
        ensures
            *path == self.path,
    {
        &self.path
    }

    /// The entry under the cursor.
    pub fn get_curr_ref(&self) -> (r: Option<&LllDirEntry>)
        ensures
            match self.index {
                Some(i) if i < self.contents@.len() => r == Some(&self.contents@[i as int]),
                _ => r is None,
            },
    {
        match self.index {
            Some(i) => if i < self.contents.len() {
                Some(&self.contents[i])
            } else {
                None
            },
            None => None,
        }
    }

    /// Puts the cursor on the entry at `new_index`, or on the last entry
    /// where the listing is shorter. A listing without entries has no
    /// cursor and keeps none.
    pub fn set_cursor(&mut self, new_index: usize)
        ensures
            final(self).index == (if old(self).contents@.len() == 0 {
                None
            } else if new_index < old(self).contents@.len() {
                Some(new_index)
            } else {
                Some((old(self).contents@.len() - 1) as usize)
            }),
            *final(self) == (LllDirList { index: final(self).index, ..*old(self) }),
    {
        let len = self.contents.len();
        self.index = if len == 0 {
            None
        } else if new_index < len {
            Some(new_index)
        } else {
            Some(len - 1)
        };
    }

    /// The window that shows the cursor in `rows` rows: the one that
    /// follows the present window, or none where there is no cursor.
    pub open spec fn paged(self, rows: usize, scroll_offset: usize) -> LllPageState {
        match self.index {
            Some(i) => self.pagestate.updated(
                i,
                rows,
                self.contents@.len() as usize,
                scroll_offset,
            ),
            None => LllPageState { start: 0, end: 0 },
        }
    }

    /// Moves the window so that it shows the cursor in `rows` rows.
    pub fn update_page(&mut self, rows: usize, scroll_offset: usize)
        requires
            old(self).wf(),
        ensures
            final(self).wf(),
            *final(self)
                == (LllDirList { pagestate: old(self).paged(rows, scroll_offset), ..*old(self) }),
            rows > 0 ==> final(self).shows_cursor(),
            final(self).pagestate.end - final(self).pagestate.start <= rows,
    {
        let len = self.contents.len();
        match self.index {
            Some(i) => {
                self.pagestate.update_page_state(i, rows, len, scroll_offset);
            },
            None => {
                self.pagestate.start = 0;
                self.pagestate.end = 0;
            },
        }
    }
}

} // verus!
