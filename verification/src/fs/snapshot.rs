//! What was read from the filesystem, as plain values.
//!
//! The library never touches the filesystem. Whoever calls it reads the
//! directories that an operation needs and hands over what came back; a
//! directory that was not read counts as one that is not there.

use vstd::prelude::*;
use crate::error::{IoError, IoErrorKind};
use crate::find::{last_where, lemma_last_where};
use crate::fs::entry::LllDirEntry;

verus! {

/// What reading one directory gave: its children, or why it failed.
#[derive(Debug)]
pub struct DirRead {
    pub path: String,
    pub outcome: Result<Vec<LllDirEntry>, IoError>,
}

/// The directories that were read, in the order of reading.
#[derive(Debug)]
pub struct FsSnapshot {
    pub reads: Vec<DirRead>,
}

/// The index of the latest read of `path`.
pub open spec fn latest_read(reads: Seq<DirRead>, path: Seq<char>) -> Option<int> {
    last_where(reads, |x: DirRead| x.path@ =~= path)
}

/// What `latest_read` finds is a read of `path`, and no later one is.
pub proof fn lemma_latest_read(reads: Seq<DirRead>, path: Seq<char>)
    ensures
        match latest_read(reads, path) {
            Some(i) => 0 <= i < reads.len() && reads[i].path@ == path && forall|j: int|
                i < j < reads.len() ==> reads[j].path@ != path,
            None => forall|j: int| 0 <= j < reads.len() ==> reads[j].path@ != path,
        },
{
    lemma_last_where(reads, |x: DirRead| x.path@ =~= path);
}

impl FsSnapshot {
    /// What the filesystem said of `path`: nothing where it was not read.
    pub open spec fn outcome_of(self, path: Seq<char>) -> Option<Result<Vec<LllDirEntry>, IoError>> {
        match latest_read(self.reads@, path) {
            Some(i) => Some(self.reads@[i].outcome),
            None => None,
        }
    }

    /// What reading `path` failed with, if it failed: a directory that was
    /// not read counts as not found.
    pub open spec fn failure_of(self, path: Seq<char>) -> Option<IoErrorKind> {
        match self.outcome_of(path) {
            Some(Ok(_)) => None,
            Some(Err(e)) => Some(e.kind),
            None => Some(IoErrorKind::NotFound),
        }
    }

    /// `e` is the failure of reading `path`: the error that reading gave,
    /// or the one for a directory that is not there where it was not read.
    pub open spec fn fails_with(self, path: Seq<char>, e: IoError) -> bool {
        match self.outcome_of(path) {
            Some(Ok(_)) => false,
            Some(Err(x)) => e == x,
            None => is_not_found(e),
        }
    }

    /// A snapshot in which nothing was read.
    pub fn new() -> (fs: FsSnapshot)
        ensures
            fs.reads@.len() == 0,
    {
        FsSnapshot { reads: Vec::new() }
    }

    /// Adds what reading `path` gave. It replaces what an earlier read of
    /// the same path gave.
    pub fn record(&mut self, path: String, outcome: Result<Vec<LllDirEntry>, IoError>)
        ensures
            final(self).reads@ == old(self).reads@.push(DirRead { path, outcome }),
            final(self).outcome_of(path@) == Some(outcome),
            forall|other: Seq<char>|
                other != path@ ==> #[trigger] final(self).outcome_of(other) == old(self).outcome_of(
                    other,
                ),
    {
        let ghost before = self.reads@;
        self.reads.push(DirRead { path, outcome });
        proof {
            assert(self.reads@.drop_last() =~= before);
            assert forall|other: Seq<char>| other != path@ implies #[trigger] self.outcome_of(other)
                == old(self).outcome_of(other) by {
                lemma_latest_read(before, other);
            }
        }
    }

    /// The index of the latest read of `path`.
    pub fn find(&self, path: &str) -> (r: Option<usize>)
        ensures
            match r {
                Some(i) => i < self.reads.len() && latest_read(self.reads@, path@)
                    == Some(i as int),
                None => latest_read(self.reads@, path@) is None,
            },
    {
        let mut i: usize = self.reads.len();
        assert(self.reads@.subrange(0, i as int) =~= self.reads@);
        while i > 0
            invariant
                i <= self.reads.len(),
                latest_read(self.reads@, path@) == latest_read(
                    self.reads@.subrange(0, i as int),
                    path@,
                ),
            decreases i,
        {
            proof {
                let t = self.reads@.subrange(0, i as int);
                assert(t.last() == self.reads@[i - 1]);
                assert(t.drop_last() =~= self.reads@.subrange(0, i - 1));
            }
            if crate::text::same_text(self.reads[i - 1].path.as_str(), path) {
                return Some(i - 1);
            }
            i -= 1;
        }
        None
    }
}

/// `e` is the error for a directory that is not there.
pub open spec fn is_not_found(e: IoError) -> bool {
    e.kind == IoErrorKind::NotFound && e.message@ == "No such file or directory"@
}

/// The error for a directory that is not there.
pub fn not_found() -> (e: IoError)
    ensures
        is_not_found(e),
{
    IoError::new(IoErrorKind::NotFound, "No such file or directory")
}

} // verus!
