use lll::config::config::{
    default_column_ratio, default_max_preview_size, default_scroll_offset, default_true,
};
use lll::config::{
    LllColorPair, LllColorTheme, LllConfig, LllMimetype, LllMimetypeEntry, LllPrefix, LllPreview,
    LllPreviewEntry, LllRawConfig, LllRawMimetype, LllRawPreview, LllTheme, SortRawOption,
    StringTable,
};
use lll::error::{Error, ErrorKind, IoError, IoErrorKind};
use lll::fs::{FileType, LllDirEntry, LllMetadata};
use lll::sort::SortType;
use lll::ui::tab::Tab;

fn program_config(id: usize, program: &str) -> LllMimetypeEntry {
    LllMimetypeEntry { id, program: program.to_string(), args: None, fork: false, silent: false }
}

#[test]
fn defaults_of_the_settings() {
    assert!(default_true());
    assert_eq!(default_scroll_offset(), 6);
    assert_eq!(default_max_preview_size(), 2097152);
    assert_eq!(default_column_ratio(), (1, 3, 4));
    let config = LllConfig::default();
    assert_eq!(config.scroll_offset, 6);
    assert_eq!(config.max_preview_size, 2 * 1024 * 1024);
    assert_eq!(config.column_ratio, (1, 3, 4));
    assert_eq!(config.sort_option.sort_method, SortType::Natural);
    assert!(config.sort_option.directories_first);
    assert!(!config.sort_option.show_hidden);
    let copy = config.clone();
    assert_eq!(copy.scroll_offset, 6);
    let raw = SortRawOption::default();
    assert!(raw.directories_first && !raw.show_hidden && !raw.case_sensitive && !raw.reverse);
}

#[test]
fn settings_follow_the_file() {
    let raw = LllRawConfig {
        scroll_offset: 3,
        max_preview_size: 10,
        column_ratio: Some([2, 5, 7]),
        sort_method: Some("mtime".to_string()),
        sort_option: SortRawOption {
            show_hidden: true,
            directories_first: false,
            case_sensitive: true,
            reverse: true,
        },
    };
    let config = raw.flatten();
    assert_eq!(config.scroll_offset, 3);
    assert_eq!(config.max_preview_size, 10);
    assert_eq!(config.column_ratio, (2, 5, 7));
    assert_eq!(config.sort_option.sort_method, SortType::Mtime);
    assert!(config.sort_option.show_hidden);
    assert!(!config.sort_option.directories_first);
    assert!(config.sort_option.case_sensitive);
    assert!(config.sort_option.reverse);
}

#[test]
fn settings_fall_back_where_the_file_is_silent() {
    let raw = LllRawConfig {
        scroll_offset: 6,
        max_preview_size: 1,
        column_ratio: None,
        sort_method: None,
        sort_option: SortRawOption::default(),
    };
    let config = raw.flatten();
    assert_eq!(config.column_ratio, (1, 3, 4));
    assert_eq!(config.sort_option.sort_method, SortType::Natural);
    let odd = LllRawConfig {
        scroll_offset: 6,
        max_preview_size: 1,
        column_ratio: None,
        sort_method: Some("by_colour".to_string()),
        sort_option: SortRawOption::default(),
    };
    assert_eq!(odd.flatten().sort_option.sort_method, SortType::Natural);
    let opt = SortRawOption::default().into_sort_option(SortType::Size);
    assert_eq!(opt.sort_method, SortType::Size);
    assert!(opt.directories_first);
}

#[test]
fn a_table_gives_the_latest_value_under_a_name() {
    let mut table: StringTable<u32> = StringTable::new();
    assert_eq!(table.get("a"), None);
    table.insert("a".to_string(), 1);
    table.insert("b".to_string(), 2);
    table.insert("a".to_string(), 3);
    assert_eq!(table.get("a"), Some(&3));
    assert_eq!(table.get("b"), Some(&2));
    assert_eq!(table.get("c"), None);
    assert_eq!(table.rows.len(), 3);
}

#[test]
fn programs_for_an_extension() {
    let mut extension: StringTable<Vec<usize>> = StringTable::new();
    extension.insert("txt".to_string(), vec![2, 9, 1, 2]);
    extension.insert("png".to_string(), vec![]);
    let mut mimetype: StringTable<Vec<usize>> = StringTable::new();
    mimetype.insert("text".to_string(), vec![1]);
    let raw = LllRawMimetype {
        entry: vec![program_config(1, "vim"), program_config(2, "old"), program_config(2, "nano")],
        extension,
        mimetype,
    };
    let table = raw.flatten();
    let found: Vec<&str> =
        table.get_entries_for_ext("txt").iter().map(|e| e.program.as_str()).collect();
    assert_eq!(found, vec!["nano", "vim", "nano"]);
    assert!(table.get_entries_for_ext("png").is_empty());
    assert!(table.get_entries_for_ext("jpg").is_empty());
    let by_type: Vec<&str> =
        table.get_entries_for_mimetype("text").iter().map(|e| e.program.as_str()).collect();
    assert_eq!(by_type, vec!["vim"]);
    let direct = LllMimetype::get_entries(&table.mimetype, &table.entries, "text");
    assert_eq!(direct.len(), 1);
    let empty = LllMimetype::default();
    assert!(empty.get_entries_for_ext("txt").is_empty());
    assert!(!lll::config::mimetype::default_false());
}

#[test]
fn a_program_is_shown_with_its_flags() {
    let plain = program_config(1, "vim");
    assert_eq!(plain.to_string(), "vim\t[]");
    let full = LllMimetypeEntry {
        id: 2,
        program: "mpv".to_string(),
        args: Some(vec!["--loop".to_string(), "-q".to_string()]),
        fork: true,
        silent: true,
    };
    assert_eq!(full.to_string(), "mpv --loop -q\t[fork,silent]");
    let fork = LllMimetypeEntry {
        id: 3,
        program: "feh".to_string(),
        args: Some(Vec::new()),
        fork: true,
        silent: false,
    };
    assert_eq!(fork.to_string(), "feh\t[fork,]");
    let silent =
        LllMimetypeEntry { id: 4, program: "x".to_string(), args: None, fork: false, silent: true };
    assert_eq!(silent.to_string(), "x\t[silent]");
}

#[test]
fn preview_tables() {
    let raw = LllRawPreview::default();
    let preview = raw.flatten();
    assert!(preview.extension.rows.is_empty());
    assert!(preview.mimetype.rows.is_empty());
    let mut extension: StringTable<LllPreviewEntry> = StringTable::new();
    extension
        .insert("md".to_string(), LllPreviewEntry { program: "glow".to_string(), args: None });
    let given = LllRawPreview { extension: Some(extension), mimetype: None }.flatten();
    assert_eq!(given.extension.get("md").unwrap().program, "glow");
    assert!(given.mimetype.rows.is_empty());
    assert!(LllPreview::default().extension.rows.is_empty());
}

#[test]
fn theme_defaults() {
    let theme = LllTheme::default();
    assert!(theme.colorpair.is_empty());
    assert!(theme.ext.rows.is_empty());
    for part in [
        &theme.regular,
        &theme.selection,
        &theme.directory,
        &theme.executable,
        &theme.link,
        &theme.socket,
    ] {
        assert_eq!(part.colorpair, 0);
        assert!(!part.bold && !part.underline && part.prefix.is_none());
    }
    let one = LllColorTheme::default();
    assert_eq!(one.colorpair, 0);
    let pair = LllColorPair { id: 1, fg: 2, bg: 3 };
    assert_eq!((pair.id, pair.fg, pair.bg), (1, 2, 3));
    let prefix = LllPrefix { prefix: "> ".to_string(), size: 2 };
    assert_eq!(prefix.prefix(), "> ");
    assert_eq!(prefix.size(), 2);
    assert_eq!(prefix.clone().size(), 2);
    assert_eq!(lll::config::theme::default_zero(), 0);
    assert!(!lll::config::theme::default_false());
    assert!(lll::config::theme::default_prefix().is_none());
}

#[test]
fn an_entry_is_made_from_the_bytes_of_its_name() {
    let meta = LllMetadata {
        len: 5,
        modified_secs: 1,
        modified_nanos: 2,
        mode: 0o644,
        file_type: FileType::Regular,
        uid: 1,
        gid: 2,
    };
    let entry = LllDirEntry::from("/home", &"naïve.txt".as_bytes().to_vec(), meta).unwrap();
    assert_eq!(entry.file_name(), "naïve.txt");
    assert_eq!(entry.file_path(), "/home/naïve.txt");
    assert_eq!(entry.metadata.len, 5);
    assert!(!entry.is_selected());
    assert!(!entry.marked);
    let at_root = LllDirEntry::from("/", &b"etc".to_vec(), meta).unwrap();
    assert_eq!(at_root.file_path(), "/etc");
    let copy = entry.clone();
    assert_eq!(copy.file_name(), "naïve.txt");
}

#[test]
fn a_name_that_is_no_text_is_refused() {
    let meta = LllMetadata {
        len: 0,
        modified_secs: 0,
        modified_nanos: 0,
        mode: 0,
        file_type: FileType::Regular,
        uid: 0,
        gid: 0,
    };
    let e = LllDirEntry::from("/home", &vec![0x66, 0xff, 0x6f], meta).unwrap_err();
    assert_eq!(e.kind, IoErrorKind::Other);
    assert_eq!(e.message, "Failed converting OsString to String");
    assert!(LllDirEntry::from("/home", &vec![0xc3], meta).is_err());
    assert!(LllDirEntry::from("/home", &vec![0xed, 0xa0, 0x80], meta).is_err());
}

#[test]
fn metadata_comparisons() {
    let mut a = LllMetadata {
        len: 0,
        modified_secs: 5,
        modified_nanos: 9,
        mode: 0,
        file_type: FileType::Directory,
        uid: 0,
        gid: 0,
    };
    let mut b = a;
    assert!(a.is_directory());
    assert!(!a.is_older_than(&b));
    b.modified_nanos = 10;
    assert!(a.is_older_than(&b));
    assert!(!b.is_older_than(&a));
    a.modified_secs = 6;
    a.file_type = FileType::Symlink;
    assert!(!a.is_older_than(&b));
    assert!(b.is_older_than(&a));
    assert!(!a.is_directory());
}

#[test]
fn errors_carry_their_kind_and_text() {
    let e = IoError::new(IoErrorKind::InvalidData, "bad");
    assert_eq!(e.kind, IoErrorKind::InvalidData);
    assert_eq!(e.clone().message, "bad");
    let kind = ErrorKind::DirNotFound { dirname: "x".to_string() };
    assert_eq!(kind.message(), "Directory not found: x");
    let err = Error::from(kind);
    assert_eq!(err.kind.message(), "Directory not found: x");
}

#[test]
fn tree_view_tab_from_a_path() {
    let tab = Tab::from(1, &"/home/user".to_string()).unwrap();
    assert_eq!(tab.title, 1);
    assert_eq!(tab.current_view, "/home/user");
    assert_eq!(tab.parent_view, "/home");
    assert!(tab.focused.rows.is_empty());
    let root = Tab::from(2, &"/".to_string()).unwrap();
    assert_eq!(root.current_view, "/");
    assert_eq!(root.parent_view, "root");
    let relative = Tab::from(3, &"dir".to_string()).unwrap();
    assert_eq!(relative.parent_view, "");
    let e = Tab::from(4, &"".to_string()).unwrap_err();
    assert_eq!(e.kind.message(), "Directory not found: Parent for \"\"");
}

#[test]
fn tree_view_tab_goes_back_and_forward() {
    let mut tab = Tab::from(1, &"/home/user".to_string()).unwrap();
    tab.go_back();
    assert_eq!((tab.current_view.as_str(), tab.parent_view.as_str()), ("/home", "/"));
    tab.go_back();
    assert_eq!((tab.current_view.as_str(), tab.parent_view.as_str()), ("/", "root"));
    tab.go_back();
    assert_eq!((tab.current_view.as_str(), tab.parent_view.as_str()), ("/", "root"));
    tab.go_forward("/var/log".to_string());
    assert_eq!((tab.current_view.as_str(), tab.parent_view.as_str()), ("/var/log", "/var"));
    tab.go_forward("/var".to_string());
    assert_eq!((tab.current_view.as_str(), tab.parent_view.as_str()), ("/var", "/"));
    let mut relative = Tab::from(3, &"dir".to_string()).unwrap();
    relative.go_back();
    assert_eq!((relative.current_view.as_str(), relative.parent_view.as_str()), ("dir", ""));
}
