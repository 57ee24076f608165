//! Ending the session.

use vstd::prelude::*;
use crate::context::LllContext;
use crate::error::{IoError, IoErrorKind, LllError};
use crate::window::LllView;

verus! {

#[derive(Clone, Copy, Debug)]
pub struct Quit;

/// `after` is what quitting makes of `before`, and `r` what it answers: the
/// session ends where no operation is under way; where one is, it goes on
/// as it is and the answer says why.
pub open spec fn quit_ran(before: LllContext, after: LllContext, r: Result<(), LllError>) -> bool {
    if before.threads@.len() == 0 {
        r is Ok && after == (LllContext { exit: true, ..before })
    } else {
        &&& after == before
        &&& r matches Err(LllError::IO(e)) && e.kind == IoErrorKind::Other && e.message@
            == "operations running in background, use force_quit to quit"@
    }
}

impl Quit {
    pub fn new() -> Quit {
        Quit
    }

    pub fn command() -> (name: &'static str)
        ensures
            name@ == "quit"@,
    {
        "quit"
    }

    /// The command as a text: its name.
    pub fn to_string(&self) -> (text: String)
        ensures
            text@ == "quit"@,
    {
        Quit::command().to_owned()
    }

    /// Ends the session where no operation is under way. Where one is, the
    /// session goes on as it is and the answer says why.
    pub fn quit(context: &mut LllContext) -> (r: Result<(), LllError>)
        ensures
            quit_ran(*old(context), *final(context), r),
    {
        if context.threads.len() > 0 {
            let err = IoError::new(
                IoErrorKind::Other,
                "operations running in background, use force_quit to quit",
            );
            Err(LllError::IO(err))
        } else {
            context.exit = true;
            Ok(())
        }
    }

    pub fn execute(&self, context: &mut LllContext, view: &LllView) -> (r: Result<(), LllError>)
        ensures
            quit_ran(*old(context), *final(context), r),
    {
        Quit::quit(context)
    }
}

impl Default for Quit {
    fn default() -> Quit {
        Quit
    }
}

#[derive(Clone, Copy, Debug)]
pub struct ForceQuit;

impl ForceQuit {
    pub fn new() -> ForceQuit {
        ForceQuit
    }

    pub fn command() -> (name: &'static str)
        ensures
            name@ == "force_quit"@,
    {
        "force_quit"
    }

    /// The command as a text: its name.
    pub fn to_string(&self) -> (text: String)
        ensures
            text@ == "force_quit"@,
    {
        ForceQuit::command().to_owned()
    }

    /// Ends the session whatever is under way. The operations stay in the
    /// list; nobody waits for them.
    pub fn force_quit(context: &mut LllContext)
        ensures
            *final(context) == (LllContext { exit: true, ..*old(context) }),
    {
        context.exit = true;
    }

    pub fn execute(&self, context: &mut LllContext, view: &LllView) -> (r: Result<(), LllError>)
        ensures
            r is Ok,
            *final(context) == (LllContext { exit: true, ..*old(context) }),
    {
        ForceQuit::force_quit(context);
        Ok(())
    }
}

} // verus!
