//! The commands of the file manager.

use vstd::prelude::*;
use crate::context::LllContext;
use crate::error::{IoError, KeymapError, LllError};
use crate::fs::FsSnapshot;
use crate::text::{decimal_of, lowercase_of, number_of, parse_number, same_text};
use crate::window::LllView;

pub mod command_line;
pub mod cursor_move;
pub mod new_directory;
pub mod quit;
pub mod reload_dir;
pub mod search;
pub mod show_hidden;

pub use self::command_line::CommandLine;
pub use self::cursor_move::{
    cursor_move, CursorMoveDown, CursorMoveEnd, CursorMoveHome, CursorMovePageDown,
    CursorMovePageUp, CursorMoveUp,
};
pub use self::new_directory::NewDirectory;
pub use self::quit::{ForceQuit, Quit};
pub use self::reload_dir::ReloadDirList;
pub use self::search::{Search, SearchDirection, SearchNext, SearchPrev};
pub use self::show_hidden::ToggleHiddenFiles;

verus! {

use self::quit::quit_ran;
use self::reload_dir::reload_ran;
use self::search::search_repeated;
use self::show_hidden::toggle_ran;

/// A command: one of a closed set, made once from a name and arguments.
#[derive(Clone, Debug)]
pub enum Command {
    CommandLine(CommandLine),
    CursorMoveDown(CursorMoveDown),
    CursorMoveUp(CursorMoveUp),
    CursorMovePageUp(CursorMovePageUp),
    CursorMovePageDown(CursorMovePageDown),
    CursorMoveHome(CursorMoveHome),
    CursorMoveEnd(CursorMoveEnd),
    NewDirectory(NewDirectory),
    Quit(Quit),
    ForceQuit(ForceQuit),
    ReloadDirList(ReloadDirList),
    Search(Search),
    SearchNext(SearchNext),
    SearchPrev(SearchPrev),
    ToggleHiddenFiles(ToggleHiddenFiles),
}

/// The texts of the arguments.
pub open spec fn arg_texts(args: Seq<&str>) -> Seq<Seq<char>> {
    Seq::new(args.len(), |i: int| args[i]@)
}

/// The step of a cursor move that is given `args`: one without an
/// argument, the number that the one argument writes.
pub open spec fn step_of(args: Seq<Seq<char>>) -> Result<usize, KeymapError> {
    if args.len() == 0 {
        Ok(1usize)
    } else if args.len() == 1 {
        match number_of(args[0]) {
            Some(n) => Ok(n),
            None => Err(KeymapError::InvalidNumber),
        }
    } else {
        Err(KeymapError::ArgumentCount { got: args.len() as usize })
    }
}

/// `r` answers the request for a command that takes no argument.
pub open spec fn plain(args: Seq<Seq<char>>, r: Result<Command, KeymapError>, made: bool) -> bool {
    if args.len() == 0 {
        r is Ok && made
    } else {
        r == Err::<Command, KeymapError>(KeymapError::ArgumentCount { got: args.len() as usize })
    }
}

/// `r` is what the name `name` and the arguments `args` ask for: the
/// command of that name with these arguments, or the reason why there is
/// none.
pub open spec fn parsed(name: Seq<char>, args: Seq<Seq<char>>, r: Result<Command, KeymapError>) -> bool {
    if name == "console"@ {
        if args.len() == 0 {
            r matches Ok(Command::CommandLine(c)) && c.prefix@.len() == 0 && c.suffix@.len() == 0
        } else if args.len() == 1 {
            r matches Ok(Command::CommandLine(c)) && c.prefix@ == args[0] && c.suffix@.len() == 0
        } else {
            r == Err::<Command, KeymapError>(KeymapError::ArgumentCount { got: args.len() as usize })
        }
    } else if name == "cursor_move_up"@ {
        match step_of(args) {
            Ok(n) => r matches Ok(Command::CursorMoveDown(c)) && c.movement == n,
            Err(e) => r == Err::<Command, KeymapError>(e),
        }
    } else if name == "cursor_move_down"@ {
        match step_of(args) {
            Ok(n) => r matches Ok(Command::CursorMoveUp(c)) && c.movement == n,
            Err(e) => r == Err::<Command, KeymapError>(e),
        }
    } else if name == "cursor_move_page_up"@ {
        plain(args, r, r matches Ok(Command::CursorMovePageUp(_)))
    } else if name == "cursor_move_page_down"@ {
        plain(args, r, r matches Ok(Command::CursorMovePageDown(_)))
    } else if name == "cursor_move_home"@ {
        plain(args, r, r matches Ok(Command::CursorMoveHome(_)))
    } else if name == "cursor_move_end"@ {
        plain(args, r, r matches Ok(Command::CursorMoveEnd(_)))
    } else if name == "mkdir"@ {
        if args.len() == 0 {
            r == Err::<Command, KeymapError>(KeymapError::ArgumentCount { got: 0 })
        } else {
            r matches Ok(Command::NewDirectory(c)) && c.paths@.len() == args.len() && forall|i: int|
                0 <= i < args.len() ==> (#[trigger] c.paths@[i])@ == args[i]
        }
    } else if name == "quit"@ {
        plain(args, r, r matches Ok(Command::Quit(_)))
    } else if name == "force_quit"@ {
        plain(args, r, r matches Ok(Command::ForceQuit(_)))
    } else if name == "reload_dir_list"@ {
        plain(args, r, r matches Ok(Command::ReloadDirList(_)))
    } else if name == "search"@ {
        if args.len() == 1 {
            r matches Ok(Command::Search(c)) && c.pattern@ == lowercase_of(args[0])
        } else {
            r == Err::<Command, KeymapError>(KeymapError::ArgumentCount { got: args.len() as usize })
        }
    } else if name == "search_next"@ {
        plain(args, r, r matches Ok(Command::SearchNext(_)))
    } else if name == "search_prev"@ {
        plain(args, r, r matches Ok(Command::SearchPrev(_)))
    } else if name == "toggle_hidden"@ {
        plain(args, r, r matches Ok(Command::ToggleHiddenFiles(_)))
    } else {
        r == Err::<Command, KeymapError>(KeymapError::UnknownCommand)
    }
}

/// The step of a cursor move that is given `args`.
fn step_from(args: &[&str]) -> (r: Result<usize, KeymapError>)
    ensures
        r == step_of(arg_texts(args@)),
{
    if args.len() == 0 {
        Ok(1)
    } else if args.len() == 1 {
        match parse_number(args[0]) {
            Some(n) => Ok(n),
            None => Err(KeymapError::InvalidNumber),
        }
    } else {
        Err(KeymapError::ArgumentCount { got: args.len() })
    }
}

/// The command `made`, which takes no argument, where none was given.
fn no_args(args: &[&str], made: Command) -> (r: Result<Command, KeymapError>)
    ensures
        args@.len() == 0 ==> r == Ok::<Command, KeymapError>(made),
        args@.len() != 0 ==> r == Err::<Command, KeymapError>(
            KeymapError::ArgumentCount { got: args@.len() as usize },
        ),
{
    if args.len() == 0 {
        Ok(made)
    } else {
        Err(KeymapError::ArgumentCount { got: args.len() })
    }
}

/// Makes the command that the name `command` and the arguments `args` ask
/// for. This is the one way in for the key bindings of the configuration
/// and for what the user types at the console.
pub fn from_args(command: &str, args: &[&str]) -> (r: Result<Command, KeymapError>)
    ensures
        parsed(command@, arg_texts(args@), r),
{
    let ghost texts = arg_texts(args@);
    if same_text(command, CommandLine::command()) {
        if args.len() == 0 {
            Ok(Command::CommandLine(CommandLine::new(String::new(), String::new())))
        } else if args.len() == 1 {
            assert(texts[0] == args@[0]@);
            Ok(Command::CommandLine(CommandLine::new(args[0].to_owned(), String::new())))
        } else {
            Err(KeymapError::ArgumentCount { got: args.len() })
        }
    } else if same_text(command, CursorMoveDown::command()) {
        match step_from(args) {
            Ok(n) => Ok(Command::CursorMoveDown(CursorMoveDown::new(n))),
            Err(e) => Err(e),
        }
    } else if same_text(command, CursorMoveUp::command()) {
        match step_from(args) {
            Ok(n) => Ok(Command::CursorMoveUp(CursorMoveUp::new(n))),
            Err(e) => Err(e),
        }
    } else if same_text(command, CursorMovePageUp::command()) {
        no_args(args, Command::CursorMovePageUp(CursorMovePageUp::new()))
    } else if same_text(command, CursorMovePageDown::command()) {
        no_args(args, Command::CursorMovePageDown(CursorMovePageDown::new()))
    } else if same_text(command, CursorMoveHome::command()) {
        no_args(args, Command::CursorMoveHome(CursorMoveHome::new()))
    } else if same_text(command, CursorMoveEnd::command()) {
        no_args(args, Command::CursorMoveEnd(CursorMoveEnd::new()))
    } else if same_text(command, NewDirectory::command()) {
        if args.len() == 0 {
            Err(KeymapError::ArgumentCount { got: 0 })
        } else {
            let mut paths: Vec<String> = Vec::new();
            let mut i: usize = 0;
            while i < args.len()
                invariant
                    i <= args.len(),
                    paths.len() == i,
                    forall|j: int| 0 <= j < i ==> (#[trigger] paths@[j])@ == args@[j]@,
                decreases args.len() - i,
            {
                paths.push(args[i].to_owned());
                i += 1;
            }
            assert forall|j: int| 0 <= j < texts.len() implies (#[trigger] paths@[j])@
                == texts[j] by {
                assert(texts[j] == args@[j]@);
            }
            Ok(Command::NewDirectory(NewDirectory::new(paths)))
        }
    } else if same_text(command, Quit::command()) {
        no_args(args, Command::Quit(Quit::new()))
    } else if same_text(command, ForceQuit::command()) {
        no_args(args, Command::ForceQuit(ForceQuit::new()))
    } else if same_text(command, ReloadDirList::command()) {
        no_args(args, Command::ReloadDirList(ReloadDirList::new()))
    } else if same_text(command, Search::command()) {
        if args.len() == 1 {
            assert(texts[0] == args@[0]@);
            Ok(Command::Search(Search::new(args[0])))
        } else {
            Err(KeymapError::ArgumentCount { got: args.len() })
        }
    } else if same_text(command, SearchNext::command()) {
        no_args(args, Command::SearchNext(SearchNext::new()))
    } else if same_text(command, SearchPrev::command()) {
        no_args(args, Command::SearchPrev(SearchPrev::new()))
    } else if same_text(command, ToggleHiddenFiles::command()) {
        no_args(args, Command::ToggleHiddenFiles(ToggleHiddenFiles::new()))
    } else {
        Err(KeymapError::UnknownCommand)
    }
}

impl Command {
    /// The name under which the command is made.
    pub fn name(&self) -> (name: &'static str)
        ensures
            name@ == (match self {
                Command::CommandLine(_) => "console"@,
                Command::CursorMoveDown(_) => "cursor_move_up"@,
                Command::CursorMoveUp(_) => "cursor_move_down"@,
                Command::CursorMovePageUp(_) => "cursor_move_page_up"@,
                Command::CursorMovePageDown(_) => "cursor_move_page_down"@,
                Command::CursorMoveHome(_) => "cursor_move_home"@,
                Command::CursorMoveEnd(_) => "cursor_move_end"@,
                Command::NewDirectory(_) => "mkdir"@,
                Command::Quit(_) => "quit"@,
                Command::ForceQuit(_) => "force_quit"@,
                Command::ReloadDirList(_) => "reload_dir_list"@,
                Command::Search(_) => "search"@,
                Command::SearchNext(_) => "search_next"@,
                Command::SearchPrev(_) => "search_prev"@,
                Command::ToggleHiddenFiles(_) => "toggle_hidden"@,
            }),
    {
        match self {
            Command::CommandLine(_) => CommandLine::command(),
            Command::CursorMoveDown(_) => CursorMoveDown::command(),
            Command::CursorMoveUp(_) => CursorMoveUp::command(),
            Command::CursorMovePageUp(_) => CursorMovePageUp::command(),
            Command::CursorMovePageDown(_) => CursorMovePageDown::command(),
            Command::CursorMoveHome(_) => CursorMoveHome::command(),
            Command::CursorMoveEnd(_) => CursorMoveEnd::command(),
            Command::NewDirectory(_) => NewDirectory::command(),
            Command::Quit(_) => Quit::command(),
            Command::ForceQuit(_) => ForceQuit::command(),
            Command::ReloadDirList(_) => ReloadDirList::command(),
            Command::Search(_) => Search::command(),
            Command::SearchNext(_) => SearchNext::command(),
            Command::SearchPrev(_) => SearchPrev::command(),
            Command::ToggleHiddenFiles(_) => ToggleHiddenFiles::command(),
        }
    }

    /// The command as a text: its name and, for a command that shows them,
    /// its arguments.
    pub open spec fn text(self) -> Seq<char> {
        match self {
            Command::CommandLine(c) => "console"@ + ": "@ + c.prefix@ + " "@ + c.suffix@,
            Command::CursorMoveDown(c) => "cursor_move_up"@ + " "@ + decimal_of(c.movement as nat),
            Command::CursorMoveUp(c) => "cursor_move_down"@ + " "@ + decimal_of(c.movement as nat),
            Command::CursorMovePageUp(_) => "cursor_move_page_up"@,
            Command::CursorMovePageDown(_) => "cursor_move_page_down"@,
            Command::CursorMoveHome(_) => "cursor_move_home"@,
            Command::CursorMoveEnd(_) => "cursor_move_end"@,
            Command::NewDirectory(_) => "mkdir"@,
            Command::Quit(_) => "quit"@,
            Command::ForceQuit(_) => "force_quit"@,
            Command::ReloadDirList(_) => "reload_dir_list"@,
            Command::Search(c) => "search"@ + " "@ + c.pattern@,
            Command::SearchNext(_) => "search_next"@,
            Command::SearchPrev(_) => "search_prev"@,
            Command::ToggleHiddenFiles(_) => "toggle_hidden"@,
        }
    }

    /// The command as a text.
    pub fn to_string(&self) -> (text: String)
        ensures
            text@ == self.text(),
    {
        match self {
            Command::CommandLine(c) => c.to_string(),
            Command::CursorMoveDown(c) => c.to_string(),
            Command::CursorMoveUp(c) => c.to_string(),
            Command::CursorMovePageUp(c) => c.to_string(),
            Command::CursorMovePageDown(c) => c.to_string(),
            Command::CursorMoveHome(c) => c.to_string(),
            Command::CursorMoveEnd(c) => c.to_string(),
            Command::NewDirectory(c) => c.to_string(),
            Command::Quit(c) => c.to_string(),
            Command::ForceQuit(c) => c.to_string(),
            Command::ReloadDirList(c) => c.to_string(),
            Command::Search(c) => c.to_string(),
            Command::SearchNext(c) => c.to_string(),
            Command::SearchPrev(c) => c.to_string(),
            Command::ToggleHiddenFiles(c) => c.to_string(),
        }
    }

    /// The directories that the command looks at in a snapshot.
    pub open spec fn reads_of(self, context: LllContext) -> Seq<Seq<char>> {
        match self {
            Command::NewDirectory(_) | Command::ReloadDirList(_) | Command::ToggleHiddenFiles(
                _,
            ) => self::reload_dir::reload_reads(context.curr_tab()),
            _ => Seq::empty(),
        }
    }

    /// The directories that must be read before the command is run.
    pub fn reads(&self, context: &LllContext) -> (paths: Vec<String>)
        requires
            context.curr_tab_index < context.tabs@.len(),
        ensures
            paths@.len() == self.reads_of(*context).len(),
            forall|i: int|
                0 <= i < paths@.len() ==> (#[trigger] paths@[i])@ == self.reads_of(*context)[i],
    {
        match self {
            Command::NewDirectory(_) | Command::ReloadDirList(_) | Command::ToggleHiddenFiles(
                _,
            ) => ReloadDirList::reads(context),
            _ => Vec::new(),
        }
    }

    /// `after` is what running the command makes of `before`, and `r` what
    /// it answers.
    pub open spec fn runs(
        self,
        before: LllContext,
        after: LllContext,
        view: LllView,
        fs: FsSnapshot,
        created: Seq<Result<(), IoError>>,
        r: Result<(), LllError>,
    ) -> bool {
        match self {
            Command::CommandLine(_) => r is Ok && after == before,
            Command::CursorMoveDown(c) => r is Ok && c.runs(before, after, view),
            Command::CursorMoveUp(c) => r is Ok && c.runs(before, after, view),
            Command::CursorMovePageUp(c) => r is Ok && c.runs(before, after, view),
            Command::CursorMovePageDown(c) => r is Ok && c.runs(before, after, view),
            Command::CursorMoveHome(c) => r is Ok && c.runs(before, after, view),
            Command::CursorMoveEnd(c) => r is Ok && c.runs(before, after, view),
            Command::NewDirectory(c) => c.runs(before, after, view, created, fs, r),
            Command::Quit(_) => quit_ran(before, after, r),
            Command::ForceQuit(_) => r is Ok && after == (LllContext { exit: true, ..before }),
            Command::ReloadDirList(_) => reload_ran(before, after, view, fs, r),
            Command::Search(c) => r is Ok && c.runs(before, after, view),
            Command::SearchNext(_) => r is Ok && search_repeated(
                before,
                after,
                SearchDirection::Forward,
                view,
            ),
            Command::SearchPrev(_) => r is Ok && search_repeated(
                before,
                after,
                SearchDirection::Backward,
                view,
            ),
            Command::ToggleHiddenFiles(_) => toggle_ran(before, after, view, fs, r),
        }
    }

    /// Runs the command on the session. `fs` holds what was read of the
    /// directories that the command reads anew, `created` the outcomes of
    /// the attempts to make the directories of a `mkdir`. The console
    /// command changes nothing here: the line that the user types gives a
    /// command of its own, which is run in its turn.
    pub fn execute(
        &self,
        context: &mut LllContext,
        view: &LllView,
        fs: &FsSnapshot,
        created: &Vec<Result<(), IoError>>,
    ) -> (r: Result<(), LllError>)
        requires
            old(context).wf(),
        ensures
            final(context).wf(),
            self.runs(*old(context), *final(context), *view, *fs, created@, r),
    {
        match self {
            Command::CommandLine(_) => Ok(()),
            Command::CursorMoveDown(c) => c.execute(context, view),
            Command::CursorMoveUp(c) => c.execute(context, view),
            Command::CursorMovePageUp(c) => c.execute(context, view),
            Command::CursorMovePageDown(c) => c.execute(context, view),
            Command::CursorMoveHome(c) => c.execute(context, view),
            Command::CursorMoveEnd(c) => c.execute(context, view),
            Command::NewDirectory(c) => c.execute(context, view, created, fs),
            Command::Quit(c) => c.execute(context, view),
            Command::ForceQuit(c) => c.execute(context, view),
            Command::ReloadDirList(c) => c.execute(context, view, fs),
            Command::Search(c) => c.execute(context, view),
            Command::SearchNext(c) => c.execute(context, view),
            Command::SearchPrev(c) => c.execute(context, view),
            Command::ToggleHiddenFiles(c) => c.execute(context, view, fs),
        }
    }
}

/// No command takes back that the session is about to end.
pub proof fn lemma_exit_stays(
    command: Command,
    before: LllContext,
    after: LllContext,
    view: LllView,
    fs: FsSnapshot,
    created: Seq<Result<(), IoError>>,
    r: Result<(), LllError>,
)
    requires
        command.runs(before, after, view, fs, created, r),
        before.exit,
    ensures
        after.exit,
{
    match command {
        Command::ToggleHiddenFiles(_) => {
            let mid = choose|mid: LllContext| #[trigger]
                self::show_hidden::hidden_toggled(before, mid) && mid.wf() && reload_ran(
                    mid,
                    after,
                    view,
                    fs,
                    r,
                );
            assert(mid.exit);
        },
        Command::Search(c) => {
            let list = before.curr_tab().curr_list;
            if !(list.index is None || self::search::no_match(
                list.contents@,
                c.pattern@,
                list.index->0 as int,
            )) {
                let at = choose|at: int| #[trigger]
                    self::search::finds(
                        list.contents@,
                        c.pattern@,
                        list.index->0 as int,
                        at,
                        SearchDirection::Forward,
                    ) && self::cursor_move::cursor_moved(
                        LllContext { search_pattern: after.search_pattern, ..before },
                        after,
                        at,
                        view,
                    );
            }
        },
        Command::SearchNext(_) => {
            lemma_repeated_keeps_exit(before, after, SearchDirection::Forward, view);
        },
        Command::SearchPrev(_) => {
            lemma_repeated_keeps_exit(before, after, SearchDirection::Backward, view);
        },
        _ => {},
    }
}

proof fn lemma_repeated_keeps_exit(
    before: LllContext,
    after: LllContext,
    direction: SearchDirection,
    view: LllView,
)
    requires
        search_repeated(before, after, direction, view),
    ensures
        after.exit == before.exit,
{
    if before.search_pattern is Some {
        let p = before.search_pattern->0@;
        let list = before.curr_tab().curr_list;
        if !(list.index is None
            || self::search::no_match(list.contents@, p, list.index->0 as int)) {
            let at = choose|at: int| #[trigger]
                self::search::finds(list.contents@, p, list.index->0 as int, at, direction)
                    && self::cursor_move::cursor_moved(
                    LllContext { search_pattern: after.search_pattern, ..before },
                    after,
                    at,
                    view,
                );
        }
    }
}

} // verus!
