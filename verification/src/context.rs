//! The state of a session.

use vstd::prelude::*;
use crate::config::LllConfig;
use crate::find::{last_where, lemma_last_where};
use crate::tab::LllTab;

verus! {

/// What a background operation does to the files it was given.
#[derive(Clone, Copy, Debug, PartialEq, Eq, Structural)]
pub enum FileOperation {
    Copy,
    Move,
    Delete,
}

/// How far an operation has come: bytes done, of bytes in all.
#[derive(Clone, Copy, Debug, PartialEq, Eq, Structural)]
pub struct Progress {
    pub copied_bytes: u64,
    pub total_bytes: u64,
}

/// A bulk operation that runs beside the session. The session keeps what
/// it needs to show and to count it; the worker itself and its channel stay
/// with whoever started them, under the same `id`.
#[derive(Clone, Copy, Debug)]
pub struct FileOperationThread {
    pub id: u64,
    pub kind: FileOperation,
    pub tab_src: usize,
    pub tab_dest: usize,
    pub progress: Progress,
}

/// The tabs, the settings, the operations that are under way, the pattern
/// that was searched for last, and the flag that ends the session.
#[derive(Debug)]
pub struct LllContext {
    pub threads: Vec<FileOperationThread>,
    pub curr_tab_index: usize,
    pub tabs: Vec<LllTab>,
    pub exit: bool,
    pub config_t: LllConfig,
    pub search_pattern: Option<String>,
}

/// The index of the operation `id`.
pub open spec fn operation_index(threads: Seq<FileOperationThread>, id: u64) -> Option<int> {
    last_where(threads, |x: FileOperationThread| x.id == id)
}

/// What `operation_index` finds is an operation `id`; where it finds none
/// there is none.
pub proof fn lemma_operation_index(threads: Seq<FileOperationThread>, id: u64)
    ensures
        match operation_index(threads, id) {
            Some(i) => 0 <= i < threads.len() && threads[i].id == id && forall|j: int|
                i < j < threads.len() ==> threads[j].id != id,
            None => forall|j: int| 0 <= j < threads.len() ==> threads[j].id != id,
        },
{
    lemma_last_where(threads, |x: FileOperationThread| x.id == id);
}

/// No two operations have the same `id`.
pub open spec fn distinct_ids(threads: Seq<FileOperationThread>) -> bool {
    forall|i: int, j: int|
        0 <= i < j < threads.len() ==> (#[trigger] threads[i]).id != (#[trigger] threads[j]).id
}

impl LllContext {
    /// There is a tab, the current index names one, every tab is
    /// well-formed, and each operation is held once.
    pub open spec fn wf(self) -> bool {
        &&& self.tabs@.len() > 0
        &&& self.curr_tab_index < self.tabs@.len()
        &&& forall|i: int| 0 <= i < self.tabs@.len() ==> (#[trigger] self.tabs@[i]).wf()
        &&& distinct_ids(self.threads@)
    }

    /// Whether the session is well-formed.
    pub fn is_well_formed(&self) -> (ok: bool)
        ensures
            ok == self.wf(),
    {
        if self.tabs.len() == 0 || self.curr_tab_index >= self.tabs.len() {
            return false;
        }
        let mut t: usize = 0;
        while t < self.tabs.len()
            invariant
                t <= self.tabs.len(),
                forall|i: int| 0 <= i < t ==> (#[trigger] self.tabs@[i]).wf(),
            decreases self.tabs.len() - t,
        {
            if !self.tabs[t].is_well_formed() {
                return false;
            }
            t += 1;
        }
        let mut j: usize = 0;
        while j < self.threads.len()
            invariant
                j <= self.threads.len(),
                forall|a: int, b: int|
                    0 <= a < b < j ==> (#[trigger] self.threads@[a]).id != (
                    #[trigger] self.threads@[b]).id,
            decreases self.threads.len() - j,
        {
            let mut i: usize = 0;
            while i < j
                invariant
                    i <= j < self.threads.len(),
                    forall|a: int|
                        0 <= a < i
                            ==> (#[trigger] self.threads@[a]).id != self.threads@[j as int].id,
                decreases j - i,
            {
                if self.threads[i].id == self.threads[j].id {
                    return false;
                }
                i += 1;
            }
            j += 1;
        }
        true
    }

    /// The tab that is shown.
    pub open spec fn curr_tab(self) -> LllTab {
        self.tabs@[self.curr_tab_index as int]
    }

    /// A session with the one tab `tab` and no operation under way.
    pub fn new(config_t: LllConfig, tab: LllTab) -> (context: LllContext)
        requires
            tab.wf(),
        ensures
            context.wf(),
            context.threads@.len() == 0,
            context.curr_tab_index == 0,
            context.tabs@ == seq![tab],
            !context.exit,
            context.config_t == config_t,
            context.search_pattern is None,
    {
        let mut tabs: Vec<LllTab> = Vec::new();
        tabs.push(tab);
        LllContext {
            threads: Vec::new(),
            curr_tab_index: 0,
            tabs,
            exit: false,
            config_t,
            search_pattern: None,
        }
    }

    pub fn curr_tab_ref(&self) -> (tab: &LllTab)
        requires
            self.curr_tab_index < self.tabs@.len(),
        ensures
            *tab == self.curr_tab(),
    {
        &self.tabs[self.curr_tab_index]
    }

    pub fn curr_tab_mut(&mut self) -> (tab: &mut LllTab)
        requires
            old(self).curr_tab_index < old(self).tabs@.len(),
        ensures
            *tab == old(self).curr_tab(),
            *final(self) == (LllContext {
                tabs: final(self).tabs,
                ..*old(self)
            }),
            final(self).tabs@ == old(self).tabs@.update(
                old(self).curr_tab_index as int,
                *final(tab),
            ),
    {
        &mut self.tabs[self.curr_tab_index]
    }

    /// Adds a tab behind the others. The current tab stays current.
    pub fn push_tab(&mut self, tab: LllTab)
        requires
            old(self).wf(),
            tab.wf(),
        ensures
            final(self).wf(),
            final(self).tabs@ == old(self).tabs@.push(tab),
            *final(self) == (LllContext { tabs: final(self).tabs, ..*old(self) }),
    {
        self.tabs.push(tab);
    }

    /// The number of operations under way.
    pub fn operation_count(&self) -> (n: usize)
        ensures
            n == self.threads@.len(),
    {
        self.threads.len()
    }

    /// The index of the operation `id`.
    pub fn find_operation(&self, id: u64) -> (r: Option<usize>)
        ensures
            match r {
                Some(i) => i < self.threads@.len() && operation_index(self.threads@, id) == Some(
                    i as int,
                ),
                None => operation_index(self.threads@, id) is None,
            },
    {
        let mut i: usize = self.threads.len();
        assert(self.threads@.subrange(0, i as int) =~= self.threads@);
        while i > 0
            invariant
                i <= self.threads.len(),
                operation_index(self.threads@, id) == operation_index(
                    self.threads@.subrange(0, i as int),
                    id,
                ),
            decreases i,
        {
            proof {
                let t = self.threads@.subrange(0, i as int);
                assert(t.last() == self.threads@[i - 1]);
                assert(t.drop_last() =~= self.threads@.subrange(0, i - 1));
            }
            if self.threads[i - 1].id == id {
                return Some(i - 1);
            }
            i -= 1;
        }
        None
    }

    /// Takes note of an operation that was started. One that is held
    /// already is not held twice: then nothing changes and the answer is
    /// `false`.
    pub fn add_operation(&mut self, operation: FileOperationThread) -> (added: bool)
        requires
            old(self).wf(),
        ensures
            final(self).wf(),
            added == (operation_index(old(self).threads@, operation.id) is None),
            added ==> final(self).threads@ == old(self).threads@.push(operation),
            !added ==> final(self).threads@ == old(self).threads@,
            *final(self) == (LllContext { threads: final(self).threads, ..*old(self) }),
    {
        match self.find_operation(operation.id) {
            Some(_) => false,
            None => {
                proof {
                    lemma_operation_index(self.threads@, operation.id);
                }
                self.threads.push(operation);
                true
            },
        }
    }

    /// Takes note of the progress that the operation `id` reported. The
    /// count of bytes done never goes back: a report below what is held is
    /// answered with what is held. Where no such operation is held nothing
    /// changes and the answer is nothing.
    pub fn report_progress(&mut self, id: u64, progress: Progress) -> (held: Option<Progress>)
        requires
            old(self).wf(),
        ensures
            final(self).wf(),
            *final(self) == (LllContext { threads: final(self).threads, ..*old(self) }),
            final(self).threads@.len() == old(self).threads@.len(),
            match operation_index(old(self).threads@, id) {
                Some(i) => held == Some(final(self).threads@[i].progress) && final(self).threads@
                    == old(self).threads@.update(
                    i,
                    FileOperationThread { progress: held->0, ..old(self).threads@[i] },
                ) && held->0.copied_bytes >= old(self).threads@[i].progress.copied_bytes && held->0
                    == (if progress.copied_bytes >= old(self).threads@[i].progress.copied_bytes {
                    progress
                } else {
                    old(self).threads@[i].progress
                }),
                None => held is None && final(self).threads@ == old(self).threads@,
            },
    {
        match self.find_operation(id) {
            Some(i) => {
                let ghost before = self.threads@;
                if progress.copied_bytes >= self.threads[i].progress.copied_bytes {
                    self.threads[i].progress = progress;
                }
                proof {
                    let after = self.threads@;
                    assert(after =~= before.update(
                        i as int,
                        FileOperationThread { progress: after[i as int].progress, ..before[i as int] },
                    ));
                    assert forall|a: int, b: int| 0 <= a < b < after.len() implies (
                    #[trigger] after[a]).id != (#[trigger] after[b]).id by {
                        assert(before[a].id != before[b].id);
                    }
                }
                Some(self.threads[i].progress)
            },
            None => None,
        }
    }

    /// Lets go of the operation `id`, whose end was seen, whether it
    /// succeeded or failed.
    pub fn finish_operation(&mut self, id: u64) -> (r: Option<FileOperationThread>)
        requires
            old(self).wf(),
        ensures
            final(self).wf(),
            *final(self) == (LllContext { threads: final(self).threads, ..*old(self) }),
            operation_index(final(self).threads@, id) is None,
            match operation_index(old(self).threads@, id) {
                Some(i) => r == Some(old(self).threads@[i]) && final(self).threads@
                    == old(self).threads@.remove(i),
                None => r is None && final(self).threads@ == old(self).threads@,
            },
    {
        match self.find_operation(id) {
            Some(i) => {
                let ghost before = self.threads@;
                let operation = self.threads.remove(i);
                proof {
                    let after = self.threads@;
                    lemma_operation_index(before, id);
                    lemma_operation_index(after, id);
                    assert forall|a: int, b: int| 0 <= a < b < after.len() implies (
                    #[trigger] after[a]).id != (#[trigger] after[b]).id by {
                        let a0 = if a < i {
                            a
                        } else {
                            a + 1
                        };
                        let b0 = if b < i {
                            b
                        } else {
                            b + 1
                        };
                        assert(after[a] == before[a0] && after[b] == before[b0]);
                    }
                    if operation_index(after, id) is Some {
                        let k = operation_index(after, id)->0;
                        let k0 = if k < i {
                            k
                        } else {
                            k + 1
                        };
                        assert(after[k] == before[k0]);
                        assert(before[k0].id != before[i as int].id);
                    }
                }
                Some(operation)
            },
            None => None,
        }
    }
}

} // verus!
