use lll::commands::{
    cursor_move, from_args, Command, CommandLine, CursorMoveDown, CursorMoveEnd, CursorMoveHome,
    CursorMovePageDown, CursorMovePageUp, CursorMoveUp, ForceQuit, NewDirectory, Quit,
    ReloadDirList, Search, SearchDirection, SearchNext, SearchPrev, ToggleHiddenFiles,
};
use lll::commands::search::search_with_func;
use lll::config::LllConfig;
use lll::context::{FileOperation, FileOperationThread, LllContext, Progress};
use lll::error::{IoError, IoErrorKind, KeymapError, LllError};
use lll::fs::{FileType, FsSnapshot, LllDirEntry, LllMetadata};
use lll::tab::LllTab;
use lll::window::{LllPanel, LllView};

fn meta_commands() -> LllMetadata {
    LllMetadata {
        len: 0,
        modified_secs: 0,
        modified_nanos: 0,
        mode: 0o644,
        file_type: FileType::Regular,
        uid: 0,
        gid: 0,
    }
}

fn entries_commands(dir: &str, names: &[&str]) -> Vec<LllDirEntry> {
    names.iter().map(|n| LllDirEntry::new(dir, n, meta_commands())).collect()
}

fn view_commands(rows: i32, cols: i32) -> LllView {
    let panel = LllPanel::new(rows, cols);
    LllView {
        top_win: LllPanel::new(1, cols),
        tab_win: LllPanel::new(1, 10),
        left_win: panel,
        mid_win: panel,
        right_win: panel,
        bot_win: LllPanel::new(1, cols),
    }
}

fn snapshot_commands(names: &[&str]) -> FsSnapshot {
    let mut fs = FsSnapshot::new();
    fs.record("/".to_string(), Ok(entries_commands("/", &["home", ".secret"])));
    fs.record("/home".to_string(), Ok(entries_commands("/home", names)));
    fs
}

fn context_commands(names: &[&str]) -> LllContext {
    let mut config = LllConfig::default();
    config.sort_option.directories_first = false;
    config.sort_option.case_sensitive = true;
    config.sort_option.sort_method = lll::sort::SortType::Alphabetic;
    let fs = snapshot_commands(names);
    let tab = LllTab::new("/home".to_string(), &config.sort_option, &fs).unwrap();
    LllContext::new(config, tab)
}

fn cursor_commands(context: &LllContext) -> Option<usize> {
    context.curr_tab_ref().curr_list.index
}

fn names_commands(context: &LllContext) -> Vec<String> {
    context.curr_tab_ref().curr_list.contents.iter().map(|e| e.file_name().to_string()).collect()
}

fn operation_commands(id: u64) -> FileOperationThread {
    FileOperationThread {
        id,
        kind: FileOperation::Copy,
        tab_src: 0,
        tab_dest: 0,
        progress: Progress { copied_bytes: 0, total_bytes: 100 },
    }
}

const TEN: [&str; 10] = ["a", "b", "c", "d", "e", "f", "g", "h", "i", "j"];

#[test]
fn cursor_move_clamps_to_the_last_entry() {
    let mut context = context_commands(&TEN);
    let view = view_commands(4, 20);
    cursor_move(3, &mut context, &view);
    assert_eq!(cursor_commands(&context), Some(3));
    cursor_move(99, &mut context, &view);
    assert_eq!(cursor_commands(&context), Some(9));
    cursor_move(usize::MAX, &mut context, &view);
    assert_eq!(cursor_commands(&context), Some(9));
    cursor_move(0, &mut context, &view);
    assert_eq!(cursor_commands(&context), Some(0));
}

#[test]
fn cursor_move_keeps_the_window_on_the_cursor() {
    let mut context = context_commands(&TEN);
    let view = view_commands(4, 20);
    for target in [0usize, 5, 9, 2, 7, 3, 8, 1] {
        cursor_move(target, &mut context, &view);
        let list = &context.curr_tab_ref().curr_list;
        assert!(list.pagestate.start <= target && target < list.pagestate.end);
        assert!(list.pagestate.end - list.pagestate.start <= 4);
        assert!(list.pagestate.end <= 10);
    }
}

#[test]
fn cursor_move_leaves_an_empty_listing_alone() {
    let mut context = context_commands(&[]);
    let view = view_commands(4, 20);
    cursor_move(3, &mut context, &view);
    assert_eq!(cursor_commands(&context), None);
    assert!(CursorMoveDown::new(1).execute(&mut context, &view).is_ok());
    assert!(CursorMoveUp::new(1).execute(&mut context, &view).is_ok());
    assert!(CursorMoveHome::new().execute(&mut context, &view).is_ok());
    assert!(CursorMoveEnd::new().execute(&mut context, &view).is_ok());
    assert!(CursorMovePageUp::new().execute(&mut context, &view).is_ok());
    assert!(CursorMovePageDown::new().execute(&mut context, &view).is_ok());
    assert_eq!(cursor_commands(&context), None);
}

#[test]
fn cursor_moves_by_steps() {
    let mut context = context_commands(&TEN);
    let view = view_commands(4, 20);
    CursorMoveDown::new(3).execute(&mut context, &view).unwrap();
    assert_eq!(cursor_commands(&context), Some(3));
    CursorMoveDown::new(usize::MAX).execute(&mut context, &view).unwrap();
    assert_eq!(cursor_commands(&context), Some(9));
    CursorMoveUp::new(4).execute(&mut context, &view).unwrap();
    assert_eq!(cursor_commands(&context), Some(5));
    CursorMoveUp::new(5).execute(&mut context, &view).unwrap();
    assert_eq!(cursor_commands(&context), Some(0));
    CursorMoveDown::new(2).execute(&mut context, &view).unwrap();
    CursorMoveUp::new(100).execute(&mut context, &view).unwrap();
    assert_eq!(cursor_commands(&context), Some(0));
    CursorMoveEnd::new().execute(&mut context, &view).unwrap();
    assert_eq!(cursor_commands(&context), Some(9));
    CursorMoveHome::new().execute(&mut context, &view).unwrap();
    assert_eq!(cursor_commands(&context), Some(0));
}

#[test]
fn page_moves_take_half_the_width_of_the_column() {
    let mut context = context_commands(&TEN);
    let view = view_commands(4, 6);
    CursorMovePageDown::new().execute(&mut context, &view).unwrap();
    assert_eq!(cursor_commands(&context), Some(3));
    CursorMovePageDown::new().execute(&mut context, &view).unwrap();
    assert_eq!(cursor_commands(&context), Some(6));
    CursorMovePageDown::new().execute(&mut context, &view).unwrap();
    CursorMovePageDown::new().execute(&mut context, &view).unwrap();
    assert_eq!(cursor_commands(&context), Some(9));
    CursorMovePageUp::new().execute(&mut context, &view).unwrap();
    assert_eq!(cursor_commands(&context), Some(6));
    CursorMovePageUp::new().execute(&mut context, &view).unwrap();
    CursorMovePageUp::new().execute(&mut context, &view).unwrap();
    CursorMovePageUp::new().execute(&mut context, &view).unwrap();
    assert_eq!(cursor_commands(&context), Some(0));
}

#[test]
fn search_goes_round_forward_and_backward() {
    let mut context = context_commands(&["A", "Bat", "cat", "DOG"]);
    assert_eq!(names_commands(&context), vec!["A", "Bat", "DOG", "cat"]);
    context.config_t.sort_option.case_sensitive = false;
    let mut fs = FsSnapshot::new();
    fs.record("/home".to_string(), Ok(entries_commands("/home", &["A", "Bat", "cat", "DOG"])));
    fs.record("/".to_string(), Ok(entries_commands("/", &["home"])));
    ReloadDirList::reload(0, &mut context, &fs).unwrap();
    assert_eq!(names_commands(&context), vec!["A", "Bat", "cat", "DOG"]);
    let view = view_commands(4, 20);
    cursor_move(0, &mut context, &view);
    assert_eq!(Search::search(context.curr_tab_ref(), "at"), Some(1));
    cursor_move(1, &mut context, &view);
    assert_eq!(Search::search_rev(context.curr_tab_ref(), "at"), Some(2));
    assert_eq!(Search::search(context.curr_tab_ref(), "at"), Some(2));
    cursor_move(2, &mut context, &view);
    assert_eq!(Search::search(context.curr_tab_ref(), "at"), Some(1));
    assert_eq!(Search::search_rev(context.curr_tab_ref(), "at"), Some(1));
    cursor_move(3, &mut context, &view);
    assert_eq!(Search::search(context.curr_tab_ref(), "at"), Some(1));
    assert_eq!(Search::search_rev(context.curr_tab_ref(), "at"), Some(2));
}

#[test]
fn search_never_finds_the_entry_under_the_cursor() {
    let mut context = context_commands(&["one", "two", "three"]);
    let view = view_commands(4, 20);
    cursor_move(2, &mut context, &view);
    assert_eq!(names_commands(&context)[2], "two");
    assert_eq!(Search::search(context.curr_tab_ref(), "wo"), None);
    assert_eq!(Search::search_rev(context.curr_tab_ref(), "wo"), None);
    assert_eq!(Search::search(context.curr_tab_ref(), "zzz"), None);
    assert_eq!(Search::search_rev(context.curr_tab_ref(), "zzz"), None);
    assert_eq!(Search::search(context.curr_tab_ref(), ""), Some(0));
    assert_eq!(Search::search_rev(context.curr_tab_ref(), ""), Some(1));
    let mut alone = context_commands(&["only"]);
    cursor_move(0, &mut alone, &view);
    assert_eq!(Search::search(alone.curr_tab_ref(), "only"), None);
    assert_eq!(Search::search_rev(alone.curr_tab_ref(), ""), None);
    Search::new("only").execute(&mut alone, &view).unwrap();
    assert_eq!(cursor_commands(&alone), Some(0));
}

#[test]
fn search_in_an_empty_listing_finds_nothing() {
    let context = context_commands(&[]);
    assert_eq!(Search::search(context.curr_tab_ref(), "a"), None);
    assert_eq!(Search::search_rev(context.curr_tab_ref(), ""), None);
}

#[test]
fn search_folds_the_case_of_pattern_and_names() {
    let search = Search::new("DoG");
    assert_eq!(search.pattern, "dog");
    let mut context = context_commands(&["A", "Bat", "DOG", "cat"]);
    let view = view_commands(4, 20);
    search.execute(&mut context, &view).unwrap();
    assert_eq!(cursor_commands(&context), Some(2));
    assert_eq!(context.search_pattern, Some("dog".to_string()));
}

#[test]
fn searching_on_and_back_undo_each_other() {
    let mut context = context_commands(&["x1", "a", "x2", "b", "c", "x3"]);
    let view = view_commands(4, 20);
    let hits = [4usize, 5, 3];
    assert_eq!(names_commands(&context), vec!["a", "b", "c", "x1", "x2", "x3"]);
    for start in [3usize, 4, 5] {
        cursor_move(start, &mut context, &view);
        let next = Search::search(context.curr_tab_ref(), "x").unwrap();
        assert_eq!(next, hits[start - 3]);
        cursor_move(next, &mut context, &view);
        assert_eq!(Search::search_rev(context.curr_tab_ref(), "x"), Some(start));
        let prev = Search::search_rev(context.curr_tab_ref(), "x").unwrap();
        cursor_move(prev, &mut context, &view);
        assert_eq!(Search::search(context.curr_tab_ref(), "x"), Some(next));
    }
}

#[test]
fn repeated_search_uses_the_last_pattern() {
    let mut context = context_commands(&["x1", "a", "x2", "b"]);
    let view = view_commands(4, 20);
    SearchNext::new().execute(&mut context, &view).unwrap();
    assert_eq!(cursor_commands(&context), Some(0));
    Search::new("X").execute(&mut context, &view).unwrap();
    assert_eq!(cursor_commands(&context), Some(2));
    SearchNext::new().execute(&mut context, &view).unwrap();
    assert_eq!(cursor_commands(&context), Some(3));
    SearchNext::new().execute(&mut context, &view).unwrap();
    assert_eq!(cursor_commands(&context), Some(2));
    SearchPrev::new().execute(&mut context, &view).unwrap();
    assert_eq!(cursor_commands(&context), Some(3));
    search_with_func(&mut context, &view, SearchDirection::Backward);
    assert_eq!(cursor_commands(&context), Some(2));
    Search::new("nothing").execute(&mut context, &view).unwrap();
    assert_eq!(cursor_commands(&context), Some(2));
    assert_eq!(context.search_pattern, Some("nothing".to_string()));
}

#[test]
fn quit_is_refused_while_operations_run() {
    let mut context = context_commands(&TEN);
    assert!(context.add_operation(operation_commands(1)));
    match Quit::quit(&mut context) {
        Err(LllError::IO(e)) => {
            assert_eq!(e.kind, IoErrorKind::Other);
            assert_eq!(e.message, "operations running in background, use force_quit to quit");
        }
        _ => panic!("quit went through"),
    }
    assert!(!context.exit);
    let view = view_commands(4, 20);
    assert!(Quit::new().execute(&mut context, &view).is_err());
    assert!(!context.exit);
    context.finish_operation(1);
    assert!(Quit::quit(&mut context).is_ok());
    assert!(context.exit);
}

#[test]
fn force_quit_always_ends_the_session() {
    let mut context = context_commands(&TEN);
    context.add_operation(operation_commands(1));
    context.add_operation(operation_commands(2));
    ForceQuit::force_quit(&mut context);
    assert!(context.exit);
    assert_eq!(context.operation_count(), 2);
    let mut idle = context_commands(&TEN);
    let view = view_commands(4, 20);
    assert!(ForceQuit::new().execute(&mut idle, &view).is_ok());
    assert!(idle.exit);
    assert!(Quit::quit(&mut idle).is_ok());
    assert!(idle.exit);
}

#[test]
fn mkdir_stops_at_the_first_failure() {
    let command = NewDirectory::new(vec!["valid_dir".to_string(), "path/with/no/permission".to_string()]);
    let mut outcomes: Vec<Result<(), IoError>> = Vec::new();
    assert_eq!(command.next_to_create(&outcomes), Some(&"valid_dir".to_string()));
    outcomes.push(Ok(()));
    assert_eq!(command.next_to_create(&outcomes), Some(&"path/with/no/permission".to_string()));
    outcomes.push(Err(IoError::new(IoErrorKind::PermissionDenied, "Permission denied")));
    assert_eq!(command.next_to_create(&outcomes), None);
    let mut context = context_commands(&["a"]);
    let view = view_commands(4, 20);
    let fs = snapshot_commands(&["a", "valid_dir"]);
    match command.execute(&mut context, &view, &outcomes, &fs) {
        Err(LllError::IO(e)) => {
            assert_eq!(e.kind, IoErrorKind::PermissionDenied);
            assert_eq!(e.message, "Permission denied");
        }
        _ => panic!("no failure"),
    }
    assert_eq!(names_commands(&context), vec!["a"]);
}

#[test]
fn mkdir_never_goes_on_after_a_failure() {
    let command = NewDirectory::new(vec!["a".to_string(), "b".to_string(), "c".to_string()]);
    let outcomes: Vec<Result<(), IoError>> =
        vec![Err(IoError::new(IoErrorKind::Other, "no")), Ok(())];
    assert_eq!(command.next_to_create(&outcomes), None);
    let first: Vec<Result<(), IoError>> = vec![Err(IoError::new(IoErrorKind::NotFound, "gone"))];
    assert_eq!(command.next_to_create(&first), None);
}

#[test]
fn mkdir_reloads_when_every_directory_was_made() {
    let command = NewDirectory::new(vec!["new".to_string()]);
    let mut context = context_commands(&["a"]);
    let view = view_commands(4, 20);
    let outcomes: Vec<Result<(), IoError>> = vec![Ok(())];
    assert_eq!(command.next_to_create(&outcomes), None);
    let fs = snapshot_commands(&["a", "new"]);
    assert!(command.execute(&mut context, &view, &outcomes, &fs).is_ok());
    assert_eq!(names_commands(&context), vec!["a", "new"]);
    let untried: Vec<Result<(), IoError>> = Vec::new();
    assert!(command.execute(&mut context, &view, &untried, &fs).is_err());
}

#[test]
fn reload_reads_the_listing_and_its_cached_parent() {
    let mut context = context_commands(&["a", "b", "c"]);
    let view = view_commands(4, 20);
    cursor_move(2, &mut context, &view);
    let mut fs = FsSnapshot::new();
    fs.record("/home".to_string(), Ok(entries_commands("/home", &["z", "y"])));
    fs.record("/".to_string(), Ok(entries_commands("/", &["home", "var"])));
    assert!(ReloadDirList::new().execute(&mut context, &view, &fs).is_ok());
    assert_eq!(names_commands(&context), vec!["y", "z"]);
    assert_eq!(cursor_commands(&context), Some(1));
    let root = context.curr_tab_ref().history.get("/").unwrap();
    assert_eq!(root.contents.len(), 2);
}

#[test]
fn a_failed_reload_leaves_the_listing_in_place() {
    let mut context = context_commands(&["a", "b", "c"]);
    let view = view_commands(4, 20);
    let mut fs = FsSnapshot::new();
    fs.record("/home".to_string(), Err(IoError::new(IoErrorKind::PermissionDenied, "denied")));
    match ReloadDirList::new().execute(&mut context, &view, &fs) {
        Err(LllError::IO(e)) => assert_eq!(e.kind, IoErrorKind::PermissionDenied),
        _ => panic!("reload went through"),
    }
    assert_eq!(names_commands(&context), vec!["a", "b", "c"]);
    let none = FsSnapshot::new();
    assert!(ReloadDirList::reload(0, &mut context, &none).is_err());
    let mut half = FsSnapshot::new();
    half.record("/home".to_string(), Ok(entries_commands("/home", &["q"])));
    let e = ReloadDirList::reload(0, &mut context, &half).unwrap_err();
    assert_eq!(e.kind, IoErrorKind::NotFound);
    assert_eq!(names_commands(&context), vec!["q"]);
}

#[test]
fn toggle_hidden_marks_every_listing_and_reloads() {
    let mut context = context_commands(&["a", ".b"]);
    assert_eq!(names_commands(&context), vec!["a"]);
    ToggleHiddenFiles::toggle_hidden(&mut context);
    assert!(context.config_t.sort_option.show_hidden);
    assert!(context.curr_tab_ref().curr_list.need_update());
    assert!(context.curr_tab_ref().history.lists.iter().all(|l| l.need_update()));
    assert_eq!(names_commands(&context), vec!["a"]);
    ToggleHiddenFiles::toggle_hidden(&mut context);
    assert!(!context.config_t.sort_option.show_hidden);
    let view = view_commands(4, 20);
    let fs = snapshot_commands(&["a", ".b"]);
    assert!(ToggleHiddenFiles::new().execute(&mut context, &view, &fs).is_ok());
    assert!(context.config_t.sort_option.show_hidden);
    assert_eq!(names_commands(&context), vec![".b", "a"]);
    assert!(!context.curr_tab_ref().curr_list.need_update());
    let root = context.curr_tab_ref().history.get("/").unwrap();
    assert!(!root.need_update());
    assert_eq!(root.contents.len(), 2);
}

#[test]
fn commands_are_made_from_names_and_arguments() {
    assert!(matches!(from_args("quit", &[]), Ok(Command::Quit(_))));
    assert!(matches!(from_args("force_quit", &[]), Ok(Command::ForceQuit(_))));
    assert!(matches!(from_args("reload_dir_list", &[]), Ok(Command::ReloadDirList(_))));
    assert!(matches!(from_args("toggle_hidden", &[]), Ok(Command::ToggleHiddenFiles(_))));
    assert!(matches!(from_args("search_next", &[]), Ok(Command::SearchNext(_))));
    assert!(matches!(from_args("search_prev", &[]), Ok(Command::SearchPrev(_))));
    assert!(matches!(from_args("cursor_move_home", &[]), Ok(Command::CursorMoveHome(_))));
    assert!(matches!(from_args("cursor_move_end", &[]), Ok(Command::CursorMoveEnd(_))));
    assert!(matches!(from_args("cursor_move_page_up", &[]), Ok(Command::CursorMovePageUp(_))));
    assert!(matches!(from_args("cursor_move_page_down", &[]), Ok(Command::CursorMovePageDown(_))));
    match from_args("search", &["Some"]) {
        Ok(Command::Search(s)) => assert_eq!(s.pattern, "some"),
        _ => panic!("no search"),
    }
    match from_args("mkdir", &["a", "b/c"]) {
        Ok(Command::NewDirectory(c)) => assert_eq!(c.paths, vec!["a", "b/c"]),
        _ => panic!("no mkdir"),
    }
    match from_args("console", &[]) {
        Ok(Command::CommandLine(c)) => assert_eq!((c.prefix.as_str(), c.suffix.as_str()), ("", "")),
        _ => panic!("no console"),
    }
    match from_args("console", &["mkdir "]) {
        Ok(Command::CommandLine(c)) => assert_eq!((c.prefix.as_str(), c.suffix.as_str()), ("mkdir ", "")),
        _ => panic!("no console"),
    }
}

#[test]
fn cursor_commands_take_an_optional_step() {
    match from_args(CursorMoveDown::command(), &[]) {
        Ok(Command::CursorMoveDown(c)) => assert_eq!(c.movement, 1),
        _ => panic!("no move"),
    }
    match from_args(CursorMoveDown::command(), &["5"]) {
        Ok(Command::CursorMoveDown(c)) => assert_eq!(c.movement, 5),
        _ => panic!("no move"),
    }
    match from_args(CursorMoveUp::command(), &["12"]) {
        Ok(Command::CursorMoveUp(c)) => assert_eq!(c.movement, 12),
        _ => panic!("no move"),
    }
    assert_eq!(from_args(CursorMoveUp::command(), &["x"]).unwrap_err(), KeymapError::InvalidNumber);
    assert_eq!(
        from_args(CursorMoveUp::command(), &["1", "2"]).unwrap_err(),
        KeymapError::ArgumentCount { got: 2 }
    );
}

#[test]
fn commands_refuse_what_they_do_not_take() {
    assert_eq!(from_args("no_such_command", &[]).unwrap_err(), KeymapError::UnknownCommand);
    assert_eq!(from_args("", &[]).unwrap_err(), KeymapError::UnknownCommand);
    assert_eq!(from_args("quit", &["x"]).unwrap_err(), KeymapError::ArgumentCount { got: 1 });
    assert_eq!(from_args("mkdir", &[]).unwrap_err(), KeymapError::ArgumentCount { got: 0 });
    assert_eq!(from_args("search", &[]).unwrap_err(), KeymapError::ArgumentCount { got: 0 });
    assert_eq!(from_args("search", &["a", "b"]).unwrap_err(), KeymapError::ArgumentCount { got: 2 });
    assert_eq!(from_args("console", &["a", "b"]).unwrap_err(), KeymapError::ArgumentCount { got: 2 });
}

#[test]
fn every_command_is_made_under_its_own_name() {
    let names = [
        CommandLine::command(),
        CursorMoveDown::command(),
        CursorMoveUp::command(),
        CursorMovePageUp::command(),
        CursorMovePageDown::command(),
        CursorMoveHome::command(),
        CursorMoveEnd::command(),
        Quit::command(),
        ForceQuit::command(),
        ReloadDirList::command(),
        SearchNext::command(),
        SearchPrev::command(),
        ToggleHiddenFiles::command(),
    ];
    for name in names.iter() {
        assert_eq!(from_args(name, &[]).unwrap().name(), *name);
    }
    assert_eq!(from_args(Search::command(), &["x"]).unwrap().name(), "search");
    assert_eq!(from_args(NewDirectory::command(), &["x"]).unwrap().name(), "mkdir");
    assert_eq!(CommandLine::command(), "console");
    assert_eq!(Quit::command(), "quit");
    assert_eq!(ForceQuit::command(), "force_quit");
    assert_eq!(ReloadDirList::command(), "reload_dir_list");
    assert_eq!(ToggleHiddenFiles::command(), "toggle_hidden");
}

#[test]
fn a_line_is_cut_into_name_and_rest() {
    assert_eq!(CommandLine::split_line("quit"), ("quit".to_string(), None));
    assert_eq!(CommandLine::split_line("  quit"), ("quit".to_string(), None));
    assert_eq!(
        CommandLine::split_line("mkdir a b"),
        ("mkdir".to_string(), Some("a b".to_string()))
    );
    assert_eq!(
        CommandLine::split_line("\t search   x y "),
        ("search".to_string(), Some("x y ".to_string()))
    );
    assert_eq!(CommandLine::split_line("quit "), ("quit".to_string(), Some("".to_string())));
    assert_eq!(CommandLine::split_line(""), ("".to_string(), None));
    assert_eq!(CommandLine::split_line("a\tb c"), ("a\tb".to_string(), Some("c".to_string())));
}

#[test]
fn the_console_makes_the_command_that_was_typed() {
    let console = CommandLine::new(String::new(), String::new());
    assert!(matches!(console.readline(None), Ok(None)));
    assert!(matches!(console.readline(Some("quit")), Ok(Some(Command::Quit(_)))));
    assert!(matches!(console.readline(Some("   force_quit")), Ok(Some(Command::ForceQuit(_)))));
    match console.readline(Some("mkdir one 'two three'")) {
        Ok(Some(Command::NewDirectory(c))) => assert_eq!(c.paths, vec!["one", "two three"]),
        _ => panic!("no mkdir"),
    }
    match console.readline(Some("search  Needle")) {
        Ok(Some(Command::Search(s))) => assert_eq!(s.pattern, "needle"),
        _ => panic!("no search"),
    }
    match console.readline(Some("bogus")) {
        Err(LllError::Keymap(e)) => assert_eq!(e, KeymapError::UnknownCommand),
        _ => panic!("bogus went through"),
    }
    match console.readline(Some("mkdir 'unbalanced")) {
        Err(LllError::Keymap(e)) => assert_eq!(e, KeymapError::ArgumentCount { got: 0 }),
        _ => panic!("unbalanced went through"),
    }
    match console.readline(Some("mkdir a\0b")) {
        Err(LllError::Keymap(e)) => assert_eq!(e, KeymapError::ArgumentCount { got: 0 }),
        _ => panic!("nul went through"),
    }
}

#[test]
fn words_and_names_give_the_command() {
    match CommandLine::interpret("mkdir", Some(vec!["a".to_string(), "b".to_string()])) {
        Ok(Command::NewDirectory(c)) => assert_eq!(c.paths, vec!["a", "b"]),
        _ => panic!("no mkdir"),
    }
    assert!(matches!(CommandLine::interpret("quit", None), Ok(Command::Quit(_))));
    assert!(matches!(
        CommandLine::interpret("mkdir", None),
        Err(LllError::Keymap(KeymapError::ArgumentCount { got: 0 }))
    ));
}

#[test]
fn running_a_command_through_the_enumeration() {
    let mut context = context_commands(&TEN);
    let view = view_commands(4, 20);
    let fs = snapshot_commands(&["only"]);
    let none: Vec<Result<(), IoError>> = Vec::new();
    from_args(CursorMoveDown::command(), &["4"])
        .unwrap()
        .execute(&mut context, &view, &fs, &none)
        .unwrap();
    assert_eq!(cursor_commands(&context), Some(4));
    from_args("reload_dir_list", &[]).unwrap().execute(&mut context, &view, &fs, &none).unwrap();
    assert_eq!(names_commands(&context), vec!["only"]);
    assert_eq!(cursor_commands(&context), Some(0));
    from_args("console", &[]).unwrap().execute(&mut context, &view, &fs, &none).unwrap();
    assert!(!context.exit);
    from_args("quit", &[]).unwrap().execute(&mut context, &view, &fs, &none).unwrap();
    assert!(context.exit);
}

#[test]
fn operations_are_held_once_and_progress_never_goes_back() {
    let mut context = context_commands(&TEN);
    assert!(context.add_operation(operation_commands(7)));
    assert!(!context.add_operation(operation_commands(7)));
    assert!(context.add_operation(operation_commands(8)));
    assert_eq!(context.operation_count(), 2);
    assert_eq!(context.find_operation(8), Some(1));
    assert_eq!(context.find_operation(9), None);
    let up = context.report_progress(7, Progress { copied_bytes: 40, total_bytes: 100 });
    assert_eq!(up, Some(Progress { copied_bytes: 40, total_bytes: 100 }));
    let back = context.report_progress(7, Progress { copied_bytes: 10, total_bytes: 100 });
    assert_eq!(back, Some(Progress { copied_bytes: 40, total_bytes: 100 }));
    let same = context.report_progress(7, Progress { copied_bytes: 40, total_bytes: 120 });
    assert_eq!(same, Some(Progress { copied_bytes: 40, total_bytes: 120 }));
    assert_eq!(context.report_progress(9, Progress { copied_bytes: 1, total_bytes: 1 }), None);
    assert_eq!(context.finish_operation(7).map(|o| o.id), Some(7));
    assert!(context.finish_operation(7).is_none());
    assert_eq!(context.operation_count(), 1);
}

#[test]
fn a_session_starts_with_one_tab() {
    let mut context = context_commands(&TEN);
    assert_eq!(context.tabs.len(), 1);
    assert_eq!(context.curr_tab_index, 0);
    assert!(!context.exit);
    assert!(context.search_pattern.is_none());
    assert_eq!(context.curr_tab_ref().curr_path, "/home");
    context.curr_tab_mut().curr_list.set_cursor(4);
    assert_eq!(cursor_commands(&context), Some(4));
    let fs = snapshot_commands(&TEN);
    let other = LllTab::new("/".to_string(), &context.config_t.sort_option, &fs).unwrap();
    context.push_tab(other);
    assert_eq!(context.tabs.len(), 2);
    assert_eq!(context.curr_tab_ref().curr_path, "/home");
}

#[test]
fn a_command_says_what_must_be_read() {
    let context = context_commands(&TEN);
    assert_eq!(from_args("reload_dir_list", &[]).unwrap().reads(&context), vec!["/home", "/"]);
    assert_eq!(from_args("toggle_hidden", &[]).unwrap().reads(&context), vec!["/home", "/"]);
    assert_eq!(from_args("mkdir", &["x"]).unwrap().reads(&context), vec!["/home", "/"]);
    assert!(from_args("quit", &[]).unwrap().reads(&context).is_empty());
    assert!(from_args("search", &["x"]).unwrap().reads(&context).is_empty());
    let mut fs = FsSnapshot::new();
    fs.record("/".to_string(), Ok(entries_commands("/", &["home"])));
    let top = LllTab::new("/".to_string(), &context.config_t.sort_option, &fs).unwrap();
    let alone = LllContext::new(LllConfig::default(), top);
    assert_eq!(ReloadDirList::reads(&alone), vec!["/"]);
}

#[test]
fn every_command_has_a_text() {
    assert_eq!(Search::new("Bat").to_string(), "search bat");
    assert_eq!(Search::new("").to_string(), "search ");
    let console = CommandLine::new(String::from("mkdir "), String::from("x"));
    assert_eq!(console.prefix, "mkdir ");
    assert_eq!(console.suffix, "x");
    assert_eq!(console.to_string(), "console: mkdir  x");
    assert_eq!(CommandLine::new(String::new(), String::new()).to_string(), "console:  ");
    assert_eq!(CursorMoveDown::new(3).to_string(), "cursor_move_up 3");
    assert_eq!(CursorMoveUp::new(120).to_string(), "cursor_move_down 120");
    assert_eq!(CursorMoveDown::new(0).to_string(), "cursor_move_up 0");
    assert_eq!(
        CursorMoveUp::new(usize::MAX).to_string(),
        format!("cursor_move_down {}", usize::MAX)
    );
    assert_eq!(CursorMovePageUp::new().to_string(), "cursor_move_page_up");
    assert_eq!(CursorMovePageDown::new().to_string(), "cursor_move_page_down");
    assert_eq!(CursorMoveHome::new().to_string(), "cursor_move_home");
    assert_eq!(CursorMoveEnd::new().to_string(), "cursor_move_end");
    assert_eq!(NewDirectory::new(vec!["a".to_string()]).to_string(), "mkdir");
    assert_eq!(Quit::new().to_string(), "quit");
    assert_eq!(ForceQuit::new().to_string(), "force_quit");
    assert_eq!(ReloadDirList::new().to_string(), "reload_dir_list");
    assert_eq!(SearchNext::new().to_string(), "search_next");
    assert_eq!(SearchPrev::new().to_string(), "search_prev");
    assert_eq!(ToggleHiddenFiles::new().to_string(), "toggle_hidden");
    assert_eq!(from_args("search", &["Needle"]).unwrap().to_string(), "search needle");
    assert_eq!(from_args("cursor_move_up", &["7"]).unwrap().to_string(), "cursor_move_up 7");
    assert_eq!(from_args("quit", &[]).unwrap().to_string(), "quit");
}

#[test]
fn the_console_runs_no_command_of_the_shell() {
    let console = CommandLine::new(String::new(), String::new());
    match console.readline(Some("mkdir $(echo made)")) {
        Err(LllError::Keymap(e)) => assert_eq!(e, KeymapError::ArgumentCount { got: 0 }),
        _ => panic!("the shell ran a command"),
    }
    match console.readline(Some("mkdir `echo made`")) {
        Err(LllError::Keymap(e)) => assert_eq!(e, KeymapError::ArgumentCount { got: 0 }),
        _ => panic!("the shell ran a command"),
    }
    match console.readline(Some("search a\0b")) {
        Err(LllError::Keymap(e)) => assert_eq!(e, KeymapError::ArgumentCount { got: 0 }),
        _ => panic!("nul went through"),
    }
    assert!(matches!(console.readline(Some("quit \0")), Ok(Some(Command::Quit(_)))));
}

#[test]
fn mkdir_asks_for_each_path_once_and_in_order() {
    let paths: Vec<String> = vec!["a".to_string(), "b".to_string(), "c".to_string()];
    let command = NewDirectory::new(paths.clone());
    for fail_at in 0..4usize {
        let mut outcomes: Vec<Result<(), IoError>> = Vec::new();
        let mut asked: Vec<String> = Vec::new();
        while let Some(path) = command.next_to_create(&outcomes) {
            asked.push(path.clone());
            if outcomes.len() == fail_at {
                outcomes.push(Err(IoError::new(IoErrorKind::PermissionDenied, "denied")));
            } else {
                outcomes.push(Ok(()));
            }
        }
        let expected = if fail_at < 3 { fail_at + 1 } else { 3 };
        assert_eq!(asked, paths[..expected].to_vec());
        assert_eq!(outcomes.len(), expected);
    }
    let none = NewDirectory::new(Vec::new());
    assert_eq!(none.next_to_create(&Vec::new()), None);
}
