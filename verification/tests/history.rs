use lll::error::{IoError, IoErrorKind};
use lll::fs::{FileType, FsSnapshot, LllDirEntry, LllDirList, LllMetadata};
use lll::history::LllHistory;
use lll::sort::{SortOption, SortType};
use lll::tab::LllTab;

fn meta_history(file_type: FileType) -> LllMetadata {
    LllMetadata {
        len: 0,
        modified_secs: 0,
        modified_nanos: 0,
        mode: 0o755,
        file_type,
        uid: 0,
        gid: 0,
    }
}

fn children_history(dir: &str, names: &[&str]) -> Vec<LllDirEntry> {
    names
        .iter()
        .map(|n| LllDirEntry::new(dir, n, meta_history(FileType::Directory)))
        .collect()
}

fn option_history() -> SortOption {
    SortOption {
        show_hidden: false,
        directories_first: true,
        case_sensitive: false,
        reverse: false,
        sort_method: SortType::Natural,
    }
}

fn tree_history() -> FsSnapshot {
    let mut fs = FsSnapshot::new();
    fs.record("/".to_string(), Ok(children_history("/", &["a", "etc", ".cache"])));
    fs.record("/a".to_string(), Ok(children_history("/a", &["b"])));
    fs.record("/a/b".to_string(), Ok(children_history("/a/b", &["c", "d"])));
    fs.record("/a/b/c".to_string(), Ok(Vec::new()));
    fs
}

fn names_history(list: &LllDirList) -> Vec<String> {
    list.contents.iter().map(|e| e.file_name().to_string()).collect()
}

#[test]
fn populate_to_root_fills_the_whole_chain() {
    let mut history = LllHistory::new();
    let fs = tree_history();
    assert!(history.populate_to_root("/a/b/c", &option_history(), &fs).is_ok());
    assert!(history.contains_key("/"));
    assert!(history.contains_key("/a"));
    assert!(history.contains_key("/a/b"));
    assert!(history.contains_key("/a/b/c"));
    assert_eq!(history.lists.len(), 4);
    assert_eq!(names_history(history.get("/").unwrap()), vec!["a", "etc"]);
    assert_eq!(names_history(history.get("/a/b").unwrap()), vec!["c", "d"]);
    assert_eq!(history.get("/a/b").unwrap().index, Some(0));
    assert_eq!(history.get("/a/b/c").unwrap().index, None);
}

#[test]
fn populate_to_root_twice_changes_nothing() {
    let mut history = LllHistory::new();
    let fs = tree_history();
    history.populate_to_root("/a/b", &option_history(), &fs).unwrap();
    history.lists[0].index = None;
    let before: Vec<String> = history.lists.iter().map(|l| l.path.clone()).collect();
    let other = FsSnapshot::new();
    assert!(history.populate_to_root("/a/b", &option_history(), &other).is_ok());
    let after: Vec<String> = history.lists.iter().map(|l| l.path.clone()).collect();
    assert_eq!(before, after);
}

#[test]
fn populate_to_root_keeps_what_is_cached() {
    let mut history = LllHistory::new();
    let fs = tree_history();
    history.populate_to_root("/a", &option_history(), &fs).unwrap();
    history.depreciate_all_entries();
    history.populate_to_root("/a/b/c", &option_history(), &fs).unwrap();
    assert!(history.get("/a").unwrap().need_update());
    assert!(history.get("/").unwrap().need_update());
    assert!(!history.get("/a/b").unwrap().need_update());
}

#[test]
fn populate_to_root_hands_on_the_first_failure() {
    let mut fs = FsSnapshot::new();
    fs.record("/a/b".to_string(), Ok(Vec::new()));
    fs.record(
        "/a".to_string(),
        Err(IoError::new(IoErrorKind::PermissionDenied, "Permission denied")),
    );
    fs.record("/".to_string(), Ok(Vec::new()));
    let mut history = LllHistory::new();
    let r = history.populate_to_root("/a/b", &option_history(), &fs);
    let e = r.unwrap_err();
    assert_eq!(e.kind, IoErrorKind::PermissionDenied);
    assert_eq!(e.message, "Permission denied");
    assert!(history.contains_key("/a/b"));
    assert!(!history.contains_key("/a"));
    assert!(!history.contains_key("/"));
}

#[test]
fn a_directory_that_was_not_read_is_not_found() {
    let fs = FsSnapshot::new();
    let mut history = LllHistory::new();
    let e = history.populate_to_root("/", &option_history(), &fs).unwrap_err();
    assert_eq!(e.kind, IoErrorKind::NotFound);
    assert!(LllDirList::new("/x".to_string(), &option_history(), &fs).is_err());
}

#[test]
fn pop_or_create_hands_out_a_stale_listing_as_it_is() {
    let mut history = LllHistory::new();
    let fs = tree_history();
    history.populate_to_root("/a/b", &option_history(), &fs).unwrap();
    history.depreciate_all_entries();
    let mut changed = FsSnapshot::new();
    changed.record("/a/b".to_string(), Ok(children_history("/a/b", &["x", "y", "z"])));
    let list = history.pop_or_create("/a/b", &option_history(), &changed).unwrap();
    assert!(list.need_update());
    assert_eq!(names_history(&list), vec!["c", "d"]);
    assert!(!history.contains_key("/a/b"));
    assert!(history.contains_key("/a"));
}

#[test]
fn pop_or_create_builds_what_is_not_cached() {
    let mut history = LllHistory::new();
    let fs = tree_history();
    let list = history.pop_or_create("/a/b", &option_history(), &fs).unwrap();
    assert!(!list.need_update());
    assert_eq!(names_history(&list), vec!["c", "d"]);
    assert_eq!(list.index, Some(0));
    assert!(history.lists.is_empty());
    assert!(history.pop_or_create("/nowhere", &option_history(), &fs).is_err());
}

#[test]
fn depreciate_all_entries_marks_every_listing() {
    let mut history = LllHistory::new();
    let fs = tree_history();
    history.populate_to_root("/a/b/c", &option_history(), &fs).unwrap();
    assert!(history.lists.iter().all(|l| !l.need_update()));
    history.depreciate_all_entries();
    assert_eq!(history.lists.len(), 4);
    assert!(history.lists.iter().all(|l| l.need_update()));
    assert_eq!(names_history(history.get("/a/b").unwrap()), vec!["c", "d"]);
}

#[test]
fn insert_replaces_and_remove_takes_out() {
    let fs = tree_history();
    let mut history = LllHistory::new();
    let mut first = LllDirList::new("/a".to_string(), &option_history(), &fs).unwrap();
    first.depreciate();
    history.insert(first);
    assert!(history.get("/a").unwrap().need_update());
    history.insert(LllDirList::new("/a".to_string(), &option_history(), &fs).unwrap());
    assert_eq!(history.lists.len(), 1);
    assert!(!history.get("/a").unwrap().need_update());
    assert!(history.remove("/b").is_none());
    assert!(history.remove("/a").is_some());
    assert!(history.get("/a").is_none());
}

#[test]
fn update_entry_reads_a_cached_listing_anew() {
    let fs = tree_history();
    let mut history = LllHistory::new();
    history.populate_to_root("/a/b", &option_history(), &fs).unwrap();
    let mut changed = FsSnapshot::new();
    changed.record("/a/b".to_string(), Ok(children_history("/a/b", &["x"])));
    assert!(history.update_entry("/a/b", &option_history(), &changed).is_ok());
    assert_eq!(names_history(history.get("/a/b").unwrap()), vec!["x"]);
    assert!(history.update_entry("/not/cached", &option_history(), &changed).is_ok());
    let e = history.update_entry("/a", &option_history(), &changed).unwrap_err();
    assert_eq!(e.kind, IoErrorKind::NotFound);
    assert_eq!(names_history(history.get("/a").unwrap()), vec!["b"]);
}

#[test]
fn a_listing_hides_dot_names_unless_asked() {
    let fs = tree_history();
    let mut opt = option_history();
    let hidden = LllDirList::new("/".to_string(), &opt, &fs).unwrap();
    assert_eq!(names_history(&hidden), vec!["a", "etc"]);
    opt.show_hidden = true;
    let shown = LllDirList::new("/".to_string(), &opt, &fs).unwrap();
    assert_eq!(names_history(&shown), vec![".cache", "a", "etc"]);
}

#[test]
fn update_contents_clamps_the_cursor() {
    let fs = tree_history();
    let opt = option_history();
    let mut list = LllDirList::new("/".to_string(), &opt, &fs).unwrap();
    list.set_cursor(1);
    list.depreciate();
    let mut same = FsSnapshot::new();
    same.record("/".to_string(), Ok(children_history("/", &["a", "b", "c"])));
    list.update_contents(&opt, &same).unwrap();
    assert_eq!(list.index, Some(1));
    assert!(!list.need_update());
    let mut shorter = FsSnapshot::new();
    shorter.record("/".to_string(), Ok(children_history("/", &["only"])));
    list.update_contents(&opt, &shorter).unwrap();
    assert_eq!(list.index, Some(0));
    let mut empty = FsSnapshot::new();
    empty.record("/".to_string(), Ok(Vec::new()));
    list.update_contents(&opt, &empty).unwrap();
    assert_eq!(list.index, None);
    list.update_contents(&opt, &same).unwrap();
    assert_eq!(list.index, Some(0));
}

#[test]
fn a_failed_update_leaves_the_listing_in_place() {
    let fs = tree_history();
    let opt = option_history();
    let mut list = LllDirList::new("/a/b".to_string(), &opt, &fs).unwrap();
    list.set_cursor(1);
    list.depreciate();
    let mut broken = FsSnapshot::new();
    broken.record("/a/b".to_string(), Err(IoError::new(IoErrorKind::NotADirectory, "Not a directory")));
    let e = list.update_contents(&opt, &broken).unwrap_err();
    assert_eq!(e.kind, IoErrorKind::NotADirectory);
    assert_eq!(names_history(&list), vec!["c", "d"]);
    assert_eq!(list.index, Some(1));
    assert!(list.need_update());
}

#[test]
fn cursor_and_current_entry() {
    let fs = tree_history();
    let mut list = LllDirList::new("/a/b".to_string(), &option_history(), &fs).unwrap();
    assert_eq!(list.get_curr_ref().unwrap().file_name(), "c");
    list.set_cursor(7);
    assert_eq!(list.index, Some(1));
    assert_eq!(list.get_curr_ref().unwrap().file_name(), "d");
    assert_eq!(list.file_path(), "/a/b");
    let mut empty = LllDirList::new("/a/b/c".to_string(), &option_history(), &fs).unwrap();
    empty.set_cursor(0);
    assert_eq!(empty.index, None);
    assert!(empty.get_curr_ref().is_none());
}

#[test]
fn the_latest_read_of_a_directory_counts() {
    let mut fs = FsSnapshot::new();
    fs.record("/a".to_string(), Ok(children_history("/a", &["old"])));
    fs.record("/b".to_string(), Ok(Vec::new()));
    fs.record("/a".to_string(), Ok(children_history("/a", &["new"])));
    assert_eq!(fs.find("/a"), Some(2));
    assert_eq!(fs.find("/b"), Some(1));
    assert_eq!(fs.find("/c"), None);
    let list = LllDirList::new("/a".to_string(), &option_history(), &fs).unwrap();
    assert_eq!(names_history(&list), vec!["new"]);
}

#[test]
fn a_new_tab_has_the_chain_and_holds_the_current_listing() {
    let fs = tree_history();
    let tab = LllTab::new("/a/b".to_string(), &option_history(), &fs).unwrap();
    assert_eq!(tab.curr_path, "/a/b");
    assert_eq!(tab.curr_list.path, "/a/b");
    assert_eq!(names_history(&tab.curr_list), vec!["c", "d"]);
    assert!(tab.history.contains_key("/"));
    assert!(tab.history.contains_key("/a"));
    assert!(!tab.history.contains_key("/a/b"));
}

#[test]
fn no_tab_without_the_whole_chain() {
    let mut fs = FsSnapshot::new();
    fs.record("/a".to_string(), Ok(Vec::new()));
    let e = LllTab::new("/a".to_string(), &option_history(), &fs).unwrap_err();
    assert_eq!(e.kind, IoErrorKind::NotFound);
}
