use lll::config::LllConfig;
use lll::context::{FileOperation, FileOperationThread, LllContext, Progress};
use lll::error::{IoError, IoErrorKind};
use lll::fs::{FileType, FsSnapshot, LllDirEntry, LllDirList, LllMetadata};
use lll::history::LllHistory;
use lll::sort::SortOption;
use lll::tab::LllTab;
use lll::ui::tab::{find_row, item_label, view_items, Tab};
use lll::window::LllPageState;

fn meta_navigation(file_type: FileType) -> LllMetadata {
    LllMetadata { len: 0, modified_secs: 0, modified_nanos: 0, mode: 0, file_type, uid: 0, gid: 0 }
}

fn dirs_navigation(dir: &str, names: &[&str]) -> Vec<LllDirEntry> {
    names.iter().map(|n| LllDirEntry::new(dir, n, meta_navigation(FileType::Directory))).collect()
}

fn tree_navigation() -> FsSnapshot {
    let mut fs = FsSnapshot::new();
    fs.record("/".to_string(), Ok(dirs_navigation("/", &["a", "x"])));
    fs.record("/a".to_string(), Ok(dirs_navigation("/a", &["b"])));
    fs.record("/a/b".to_string(), Ok(dirs_navigation("/a/b", &["c"])));
    fs.record("/a/b/c".to_string(), Ok(Vec::new()));
    fs.record("/x".to_string(), Ok(dirs_navigation("/x", &["y"])));
    fs
}

fn names_navigation(list: &LllDirList) -> Vec<String> {
    list.contents.iter().map(|e| e.file_name().to_string()).collect()
}

#[test]
fn going_down_keeps_the_chain() {
    let fs = tree_navigation();
    let opt = SortOption::default();
    let mut tab = LllTab::new("/a".to_string(), &opt, &fs).unwrap();
    tab.curr_list.set_cursor(0);
    assert!(tab.change_directory("/a/b/c", &opt, &fs).is_ok());
    assert_eq!(tab.curr_path, "/a/b/c");
    assert_eq!(tab.curr_list.path, "/a/b/c");
    assert!(tab.curr_list.contents.is_empty());
    assert!(tab.history.contains_key("/"));
    assert!(tab.history.contains_key("/a"));
    assert!(tab.history.contains_key("/a/b"));
    assert!(!tab.history.contains_key("/a/b/c"));
    assert!(tab.is_well_formed());
}

#[test]
fn going_elsewhere_reads_only_what_is_missing() {
    let fs = tree_navigation();
    let opt = SortOption::default();
    let mut tab = LllTab::new("/a/b".to_string(), &opt, &fs).unwrap();
    let mut only = FsSnapshot::new();
    only.record("/x".to_string(), Ok(dirs_navigation("/x", &["y", "z"])));
    assert!(tab.change_directory("/x", &opt, &only).is_ok());
    assert_eq!(tab.curr_path, "/x");
    assert_eq!(names_navigation(&tab.curr_list), vec!["y", "z"]);
    assert_eq!(names_navigation(tab.history.get("/a/b").unwrap()), vec!["c"]);
    let none = FsSnapshot::new();
    assert!(tab.change_directory("/a", &opt, &none).is_ok());
    assert_eq!(names_navigation(&tab.curr_list), vec!["b"]);
    assert!(tab.history.contains_key("/x"));
    assert!(tab.change_directory("/a", &opt, &none).is_ok());
    assert_eq!(tab.curr_path, "/a");
    assert!(!tab.history.contains_key("/a"));
}

#[test]
fn a_stale_listing_is_read_anew_before_it_is_shown() {
    let fs = tree_navigation();
    let opt = SortOption::default();
    let mut tab = LllTab::new("/a/b".to_string(), &opt, &fs).unwrap();
    tab.history.depreciate_all_entries();
    let mut changed = FsSnapshot::new();
    changed.record("/a".to_string(), Ok(dirs_navigation("/a", &["b", "new"])));
    assert!(tab.change_directory("/a", &opt, &changed).is_ok());
    assert!(!tab.curr_list.need_update());
    assert_eq!(names_navigation(&tab.curr_list), vec!["b", "new"]);
    assert!(tab.history.get("/").unwrap().need_update());
}

#[test]
fn a_failed_change_leaves_the_tab_where_it_is() {
    let fs = tree_navigation();
    let opt = SortOption::default();
    let mut tab = LllTab::new("/a/b".to_string(), &opt, &fs).unwrap();
    tab.curr_list.set_cursor(0);
    let mut broken = FsSnapshot::new();
    broken.record("/x".to_string(), Ok(Vec::new()));
    broken.record("/x/y".to_string(), Err(IoError::new(IoErrorKind::PermissionDenied, "denied")));
    let e = tab.change_directory("/x/y", &opt, &broken).unwrap_err();
    assert_eq!(e.kind, IoErrorKind::PermissionDenied);
    assert_eq!(tab.curr_path, "/a/b");
    assert_eq!(names_navigation(&tab.curr_list), vec!["c"]);
    assert!(!tab.history.contains_key("/a/b"));
    assert!(tab.history.contains_key("/a"));
    assert!(tab.is_well_formed());
    tab.history.depreciate_all_entries();
    let none = FsSnapshot::new();
    let e = tab.change_directory("/a", &opt, &none).unwrap_err();
    assert_eq!(e.kind, IoErrorKind::NotFound);
    assert_eq!(e.message, "No such file or directory");
    assert_eq!(tab.curr_path, "/a/b");
    assert!(tab.history.get("/a").unwrap().need_update());
    assert!(tab.is_well_formed());
}

#[test]
fn well_formed_values_are_told_from_others() {
    let fs = tree_navigation();
    let opt = SortOption::default();
    let mut list = LllDirList::new("/".to_string(), &opt, &fs).unwrap();
    assert!(list.is_well_formed());
    list.index = Some(2);
    assert!(!list.is_well_formed());
    list.index = None;
    assert!(!list.is_well_formed());
    list.index = Some(1);
    list.pagestate = LllPageState { start: 2, end: 1 };
    assert!(!list.is_well_formed());
    list.pagestate = LllPageState { start: 0, end: 3 };
    assert!(!list.is_well_formed());
    list.pagestate = LllPageState { start: 1, end: 2 };
    assert!(list.is_well_formed());

    let mut history = LllHistory::new();
    assert!(history.is_well_formed());
    history.populate_to_root("/a/b", &opt, &fs).unwrap();
    assert!(history.is_well_formed());
    history.lists.push(LllDirList::new("/a".to_string(), &opt, &fs).unwrap());
    assert!(!history.is_well_formed());
    history.lists.pop();
    history.lists[0].index = None;
    assert!(!history.is_well_formed());

    let mut tab = LllTab::new("/a".to_string(), &opt, &fs).unwrap();
    assert!(tab.is_well_formed());
    tab.curr_path = "/b".to_string();
    assert!(!tab.is_well_formed());
    tab.curr_path = "/a".to_string();
    tab.history.insert(LllDirList::new("/a".to_string(), &opt, &fs).unwrap());
    assert!(!tab.is_well_formed());

    let good = LllTab::new("/a".to_string(), &opt, &fs).unwrap();
    let mut context = LllContext::new(LllConfig::default(), good);
    assert!(context.is_well_formed());
    context.curr_tab_index = 1;
    assert!(!context.is_well_formed());
    context.curr_tab_index = 0;
    let operation = FileOperationThread {
        id: 3,
        kind: FileOperation::Delete,
        tab_src: 0,
        tab_dest: 0,
        progress: Progress { copied_bytes: 0, total_bytes: 0 },
    };
    context.threads.push(operation);
    context.threads.push(operation);
    assert!(!context.is_well_formed());
    context.threads.pop();
    assert!(context.is_well_formed());
    context.tabs.clear();
    assert!(!context.is_well_formed());
}

#[test]
fn rows_of_the_tree_view() {
    let children = vec![
        LllDirEntry::new("/d", "b10", meta_navigation(FileType::Regular)),
        LllDirEntry::new("/d", "zdir", meta_navigation(FileType::Directory)),
        LllDirEntry::new("/d", ".hidden", meta_navigation(FileType::Regular)),
        LllDirEntry::new("/d", "b9", meta_navigation(FileType::Regular)),
        LllDirEntry::new("/d", "pipe", meta_navigation(FileType::Fifo)),
        LllDirEntry::new("/d", "adir", meta_navigation(FileType::Directory)),
        LllDirEntry::new("/d", "link", meta_navigation(FileType::Symlink)),
    ];
    let items = view_items(&children);
    let labels: Vec<String> = items.iter().map(item_label).collect();
    assert_eq!(labels, vec!["adir/", "zdir/", "b9", "b10"]);
    assert_eq!(find_row(&items, "/d/zdir"), Some(1));
    assert_eq!(find_row(&items, "/d/b10"), Some(3));
    assert_eq!(find_row(&items, "/d/none"), None);
    assert!(view_items(&Vec::new()).is_empty());
}

#[test]
fn the_tree_view_remembers_the_focus() {
    let mut tab = Tab::from(1, &"/d/zdir".to_string()).unwrap();
    assert_eq!(tab.focus_of_current(), 0);
    let items = view_items(&vec![
        LllDirEntry::new("/d", "adir", meta_navigation(FileType::Directory)),
        LllDirEntry::new("/d", "zdir", meta_navigation(FileType::Directory)),
    ]);
    assert_eq!(tab.focus_parent(&items), 1);
    assert_eq!(tab.focused.get("/d"), Some(&1));
    let before = tab.focused.rows.len();
    tab.leave(Some(5));
    assert_eq!(tab.focused.rows.len(), before + 1);
    assert_eq!(tab.focused.rows[before].key, "/d/zdir");
    assert_eq!(tab.focused.rows[before].value, 5);
    assert_eq!(tab.focused.rows[0].key, "/d");
    assert_eq!(tab.focused.rows[0].value, 1);
    assert!(tab.is_well_formed());
    assert_eq!(tab.current_view, "/d");
    assert_eq!(tab.parent_view, "/");
    assert_eq!(tab.focused.get("/d/zdir"), Some(&5));
    assert_eq!(tab.focus_of_current(), 1);
    tab.leave(None);
    assert_eq!(tab.current_view, "/");
    assert_eq!(tab.focused.get("/d"), Some(&0));
    assert_eq!(tab.focus_parent(&items), 0);
    assert_eq!(tab.focused.get("root"), Some(&0));
    tab.go_forward("/d/zdir".to_string());
    assert_eq!(tab.focus_of_current(), 5);
}

#[test]
fn what_must_be_read_before_a_change() {
    let fs = tree_navigation();
    let opt = SortOption::default();
    let mut tab = LllTab::new("/a/b".to_string(), &opt, &fs).unwrap();
    assert_eq!(tab.paths_to_read("/x/y"), vec!["/x/y", "/x"]);
    assert!(tab.paths_to_read("/a").is_empty());
    assert!(tab.paths_to_read("/a/b").is_empty());
    assert_eq!(tab.paths_to_read("/a/b/c"), vec!["/a/b/c"]);
    tab.history.depreciate_all_entries();
    tab.curr_list.depreciate();
    assert_eq!(tab.paths_to_read("/a"), vec!["/a"]);
    assert_eq!(tab.paths_to_read("/a/b"), vec!["/a/b"]);
    assert_eq!(tab.paths_to_read("/a/b/c"), vec!["/a/b/c"]);
    assert_eq!(tab.paths_to_read("/"), vec!["/"]);
}
