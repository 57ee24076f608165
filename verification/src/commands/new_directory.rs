//! Making directories.

use vstd::prelude::*;
use crate::commands::reload_dir::{reload_ran, ReloadDirList};
use crate::context::LllContext;
use crate::error::{IoError, IoErrorKind, LllError};
use crate::fs::FsSnapshot;
use crate::window::LllView;

verus! {

#[derive(Clone, Debug)]
pub struct NewDirectory {
    pub paths: Vec<String>,
}

/// The index of the first attempt that failed.
pub open spec fn first_failure(outcomes: Seq<Result<(), IoError>>) -> Option<int>
    decreases outcomes.len(),
{
    if outcomes.len() == 0 {
        None
    } else {
        match first_failure(outcomes.drop_last()) {
            Some(i) => Some(i),
            None => if outcomes.last() is Err {
                Some(outcomes.len() - 1)
            } else {
                None
            },
        }
    }
}

/// What `first_failure` finds is a failure with none before it; where it
/// finds none every attempt succeeded.
pub proof fn lemma_first_failure(outcomes: Seq<Result<(), IoError>>)
    ensures
        match first_failure(outcomes) {
            Some(i) => 0 <= i < outcomes.len() && outcomes[i] is Err && forall|j: int|
                0 <= j < i ==> outcomes[j] is Ok,
            None => forall|j: int| 0 <= j < outcomes.len() ==> outcomes[j] is Ok,
        },
    decreases outcomes.len(),
{
    if outcomes.len() > 0 {
        let t = outcomes.drop_last();
        lemma_first_failure(t);
        assert(forall|j: int| 0 <= j < t.len() ==> outcomes[j] == t[j]);
    }
}

/// The index of the first attempt that failed.
fn find_failure(outcomes: &Vec<Result<(), IoError>>) -> (r: Option<usize>)
    ensures
        match r {
            Some(i) => i < outcomes.len() && first_failure(outcomes@) == Some(i as int)
                && outcomes@[i as int] is Err,
            None => first_failure(outcomes@) is None,
        },
{
    let mut i: usize = 0;
    assert(outcomes@.subrange(0, 0) =~= Seq::<Result<(), IoError>>::empty());
    while i < outcomes.len()
        invariant
            i <= outcomes.len(),
            first_failure(outcomes@.subrange(0, i as int)) is None,
        decreases outcomes.len() - i,
    {
        proof {
            let t = outcomes@.subrange(0, i + 1);
            assert(t.last() == outcomes@[i as int]);
            assert(t.drop_last() =~= outcomes@.subrange(0, i as int));
        }
        if outcomes[i].is_err() {
            proof {
                lemma_first_failure(outcomes@);
                lemma_first_failure(outcomes@.subrange(0, i + 1));
                let k = first_failure(outcomes@)->0;
                if k < i {
                    assert(outcomes@.subrange(0, i + 1)[k] == outcomes@[k]);
                }
            }
            return Some(i);
        }
        i += 1;
    }
    assert(outcomes@.subrange(0, i as int) =~= outcomes@);
    None
}

impl NewDirectory {
    pub fn new(paths: Vec<String>) -> (command: NewDirectory)
        ensures
            command.paths == paths,
    {
        NewDirectory { paths }
    }

    pub fn command() -> (name: &'static str)
        ensures
            name@ == "mkdir"@,
    {
        "mkdir"
    }

    /// The command as a text: its name.
    pub fn to_string(&self) -> (text: String)
        ensures
            text@ == "mkdir"@,
    {
        NewDirectory::command().to_owned()
    }

    /// The index of the path to try next after the attempts whose outcomes
    /// are `outcomes`: the one behind those that were tried, as long as
    /// none has failed and one is left.
    pub open spec fn next_index(self, outcomes: Seq<Result<(), IoError>>) -> Option<int> {
        if first_failure(outcomes) is None && outcomes.len() < self.paths@.len() {
            Some(outcomes.len() as int)
        } else {
            None
        }
    }

    /// Each of the attempts whose outcomes are `outcomes` was made because
    /// the command asked for it after the attempts before it.
    pub open spec fn asked_in_turn(self, outcomes: Seq<Result<(), IoError>>) -> bool {
        forall|i: int|
            0 <= i < outcomes.len() ==> #[trigger] self.next_index(outcomes.subrange(0, i)) == Some(
                i,
            )
    }

    /// The directory to make next, with its parents, after the attempts
    /// whose outcomes are `outcomes`, one for each path from the first on.
    /// There is none once an attempt has failed, or once every path was
    /// tried: a path is never tried twice, and none after a failure.
    pub fn next_to_create(&self, outcomes: &Vec<Result<(), IoError>>) -> (r: Option<&String>)
        ensures
            match self.next_index(outcomes@) {
                Some(i) => r == Some(&self.paths@[i]),
                None => r is None,
            },
    {
        match find_failure(outcomes) {
            Some(_) => None,
            None => if outcomes.len() < self.paths.len() {
                Some(&self.paths[outcomes.len()])
            } else {
                None
            },
        }
    }

    /// `after` is what ending the command makes of `before`, and `r` what
    /// it answers, after the attempts whose outcomes are `outcomes`.
    pub open spec fn runs(
        self,
        before: LllContext,
        after: LllContext,
        view: LllView,
        outcomes: Seq<Result<(), IoError>>,
        fs: FsSnapshot,
        r: Result<(), LllError>,
    ) -> bool {
        match first_failure(outcomes) {
            Some(i) => r == Err::<(), LllError>(LllError::IO(outcomes[i]->Err_0)) && after
                == before,
            None => if outcomes.len() < self.paths@.len() {
                &&& r matches Err(LllError::IO(e)) && e.kind == IoErrorKind::Other
                &&& after == before
            } else {
                reload_ran(before, after, view, fs, r)
            },
        }
    }

    /// Ends the command after the attempts whose outcomes are `outcomes`.
    /// The first failure is handed on and nothing is read anew. Where every
    /// path was made, the current directory is read anew as the reload
    /// command does. Where paths are left untried without a failure the
    /// command is refused.
    pub fn execute(
        &self,
        context: &mut LllContext,
        view: &LllView,
        outcomes: &Vec<Result<(), IoError>>,
        fs: &FsSnapshot,
    ) -> (r: Result<(), LllError>)
        requires
            old(context).wf(),
        ensures
            final(context).wf(),
            self.runs(*old(context), *final(context), *view, outcomes@, *fs, r),
    {
        match find_failure(outcomes) {
            Some(i) => match &outcomes[i] {
                Err(e) => Err(LllError::IO(e.clone())),
                Ok(_) => Ok(()),
            },
            None => {
                if outcomes.len() < self.paths.len() {
                    Err(LllError::IO(IoError::new(IoErrorKind::Other, "directories were left untried")))
                } else {
                    ReloadDirList::new().execute(context, view, fs)
                }
            },
        }
    }
}

/// Where every attempt is made because the command asked for it, the
/// attempts go through the paths in their order, one for each path and
/// none twice; all but the last have succeeded, so that nothing is tried
/// after a failure; and the command asks for no more once an attempt has
/// failed or every path was tried.
pub proof fn lemma_attempts_in_order(command: NewDirectory, outcomes: Seq<Result<(), IoError>>)
    requires
        command.asked_in_turn(outcomes),
    ensures
        outcomes.len() <= command.paths@.len(),
        forall|i: int| 0 <= i < outcomes.len() - 1 ==> (#[trigger] outcomes[i]) is Ok,
        command.next_index(outcomes) is None <==> outcomes.len() == command.paths@.len() || (
        outcomes.len() > 0 && outcomes.last() is Err),
{
    let n = outcomes.len() as int;
    if n > 0 {
        let head = outcomes.subrange(0, n - 1);
        assert(command.next_index(head) == Some(n - 1));
        lemma_first_failure(head);
        assert forall|i: int| 0 <= i < n - 1 implies (#[trigger] outcomes[i]) is Ok by {
            assert(head[i] == outcomes[i]);
        }
    }
    lemma_first_failure(outcomes);
    if first_failure(outcomes) is Some {
        let k = first_failure(outcomes)->0;
        assert(k == n - 1);
    }
}

} // verus!
