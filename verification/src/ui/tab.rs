//! The tab of the tree view: a directory, its parent and the rows that had
//! the focus.

use vstd::prelude::*;
use vstd::string::StringExecFns;
use crate::config::table::{StringTable, TableRow};
use crate::error::{Error, ErrorKind};
use crate::find::last_where;
use crate::fs::dirlist::{build_listing, listing_of};
use crate::fs::LllDirEntry;
use crate::fs::metadata::FileType;
use crate::path::{is_plain, is_plain_path, lemma_parent_plain, parent, parent_of, root};
use crate::sort::{SortOption, SortType};
use crate::text::same_text;

verus! {

/// A tab of the tree view. Above the root the parent view is the word
/// `root`, which is no path.
#[derive(Debug)]
pub struct Tab {
    pub title: u32,
    pub parent_view: String,
    pub current_view: String,
    /// The row that had the focus, by the path of its directory.
    pub focused: StringTable<usize>,
}

/// The order of the tree view: directories first, names in natural order
/// as they are written, hidden names left out.
pub open spec fn tree_option() -> SortOption {
    SortOption {
        show_hidden: false,
        directories_first: true,
        case_sensitive: true,
        reverse: false,
        sort_method: SortType::Natural,
    }
}

/// The entry is a directory or a plain file: nothing else has a row.
pub open spec fn has_row(e: LllDirEntry) -> bool {
    e.metadata.file_type == FileType::Directory || e.metadata.file_type == FileType::Regular
}

/// The directories and plain files among `s`, in their order.
pub open spec fn with_rows(s: Seq<LllDirEntry>) -> Seq<LllDirEntry>
    decreases s.len(),
{
    if s.len() == 0 {
        s
    } else if has_row(s.last()) {
        with_rows(s.drop_last()).push(s.last())
    } else {
        with_rows(s.drop_last())
    }
}

/// The text of a row: the name, behind a directory a slash.
pub open spec fn label_of(e: LllDirEntry) -> Seq<char> {
    if e.metadata.is_dir() {
        e.name@ + "/"@
    } else {
        e.name@
    }
}

/// The index of the last of `items` whose path is `path`.
pub open spec fn row_of(items: Seq<LllDirEntry>, path: Seq<char>) -> Option<int> {
    last_where(items, |x: LllDirEntry| x.path@ =~= path)
}

/// The rows of a directory with the children `children`: the directories,
/// then the plain files, each group in natural order, hidden names left
/// out.
pub fn view_items(children: &Vec<LllDirEntry>) -> (items: Vec<LllDirEntry>)
    ensures
        items@ == listing_of(tree_option(), with_rows(children@)),
{
    let mut kept: Vec<LllDirEntry> = Vec::new();
    let mut i: usize = 0;
    assert(children@.subrange(0, 0) =~= Seq::<LllDirEntry>::empty());
    while i < children.len()
        invariant
            i <= children.len(),
            kept@ == with_rows(children@.subrange(0, i as int)),
        decreases children.len() - i,
    {
        proof {
            let t = children@.subrange(0, i + 1);
            assert(t.last() == children@[i as int]);
            assert(t.drop_last() =~= children@.subrange(0, i as int));
        }
        match children[i].metadata.file_type {
            FileType::Directory | FileType::Regular => {
                kept.push(children[i].clone());
            },
            _ => {},
        }
        i += 1;
    }
    assert(children@.subrange(0, i as int) =~= children@);
    let option = SortOption {
        show_hidden: false,
        directories_first: true,
        case_sensitive: true,
        reverse: false,
        sort_method: SortType::Natural,
    };
    build_listing(&option, &kept)
}

/// The index of the last of `items` whose path is `path`.
pub fn find_row(items: &Vec<LllDirEntry>, path: &str) -> (r: Option<usize>)
    ensures
        match r {
            Some(i) => i < items.len() && row_of(items@, path@) == Some(i as int),
            None => row_of(items@, path@) is None,
        },
{
    let mut i: usize = items.len();
    assert(items@.subrange(0, i as int) =~= items@);
    while i > 0
        invariant
            i <= items.len(),
            row_of(items@, path@) == row_of(items@.subrange(0, i as int), path@),
        decreases i,
    {
        proof {
            let t = items@.subrange(0, i as int);
            assert(t.last() == items@[i - 1]);
            assert(t.drop_last() =~= items@.subrange(0, i - 1));
        }
        if same_text(items[i - 1].path.as_str(), path) {
            return Some(i - 1);
        }
        i -= 1;
    }
    None
}

/// The text of the row of `entry`.
pub fn item_label(entry: &LllDirEntry) -> (label: String)
    ensures
        label@ == label_of(*entry),
{
    let mut label = entry.name.clone();
    if entry.metadata.is_directory() {
        label.append("/");
    }
    label
}

impl Tab {
    /// The row that had the focus in the current view, the first where
    /// none is remembered.
    pub fn focus_of_current(&self) -> (row: usize)
        ensures
            row == (match self.focused.value_of(self.current_view@) {
                Some(r) => r,
                None => 0,
            }),
    {
        match self.focused.get(self.current_view.as_str()) {
            Some(r) => *r,
            None => 0,
        }
    }

    /// Finds the row of the current view among the rows `items` of its
    /// parent, the first row where it is not among them, and remembers it
    /// as the focus of the parent view.
    pub fn focus_parent(&mut self, items: &Vec<LllDirEntry>) -> (row: usize)
        ensures
            row == (match row_of(items@, old(self).current_view@) {
                Some(r) => r as usize,
                None => 0,
            }),
            final(self).focused.rows@ == old(self).focused.rows@.push(
                TableRow { key: old(self).parent_view, value: row },
            ),
            final(self).focused.value_of(old(self).parent_view@) == Some(row),
            final(self).title == old(self).title,
            final(self).parent_view == old(self).parent_view,
            final(self).current_view == old(self).current_view,
    {
        let row = match find_row(items, self.current_view.as_str()) {
            Some(r) => r,
            None => 0,
        };
        self.focused.insert(self.parent_view.clone(), row);
        row
    }

    /// Leaves the current view for its parent: the row `selection`, or the
    /// first where none is selected, is remembered as the focus of the
    /// view that is left, behind what is remembered already, and the tab
    /// goes back.
    pub fn leave(&mut self, selection: Option<usize>)
        requires
            old(self).wf(),
        ensures
            final(self).wf(),
            final(self).focused.rows@ == old(self).focused.rows@.push(
                TableRow {
                    key: old(self).current_view,
                    value: match selection {
                        Some(r) => r,
                        None => 0usize,
                    },
                },
            ),
            went_back(Tab { focused: final(self).focused, ..*old(self) }, *final(self)),
    {
        let row = match selection {
            Some(r) => r,
            None => 0,
        };
        self.focused.insert(self.current_view.clone(), row);
        self.go_back();
    }

    /// Both views are paths in normal form. The word `root`, which stands
    /// for what lies above the root, is one.
    pub open spec fn wf(self) -> bool {
        is_plain_path(self.current_view@) && is_plain_path(self.parent_view@)
    }

    /// Whether the tab is well-formed.
    pub fn is_well_formed(&self) -> (ok: bool)
        ensures
            ok == self.wf(),
    {
        is_plain(self.current_view.as_str()) && is_plain(self.parent_view.as_str())
    }

    /// A tab with the title `title` on the directory `path`, whose parent
    /// view is the parent of `path`, or the word `root` for the root. There
    /// is none for a path without a parent, but for the root: that is the
    /// empty path.
    pub fn from(title: u32, path: &String) -> (r: Result<Tab, Error>)
        requires
            is_plain_path(path@),
        ensures
            r is Ok <==> path@.len() > 0,
            r matches Ok(tab) ==> tab.wf() && tab.title == title && tab.current_view@ == path@
                && tab.focused.rows@.len() == 0 && tab.parent_view@ == (if path@ == root() {
                "root"@
            } else {
                parent_of(path@)->0
            }),
            r matches Err(e) ==> e.kind.dirname()@ == "Parent for \"\""@,
    {
        proof {
            reveal_strlit("/");
            reveal_strlit("root");
            assert("/"@ =~= root());
            lemma_parent_plain(path@);
            crate::text::lemma_last_index_of(path@, '/');
            if path@.len() == 1 && path@[0] == '/' {
                assert(path@ =~= root());
            }
        }
        let parent_view: String = if same_text(path.as_str(), "/") {
            "root".to_owned()
        } else {
            match parent(path.as_str()) {
                Some(p) => p,
                None => {
                    return Err(
                        Error::from(ErrorKind::DirNotFound { dirname: "Parent for \"\"".to_owned() }),
                    );
                },
            }
        };
        Ok(Tab { title, parent_view, current_view: path.clone(), focused: StringTable::new() })
    }

    /// Goes up one directory: the parent view becomes the current view.
    /// From the root, and from a parent view without a parent, there is no
    /// way up and nothing changes.
    pub fn go_back(&mut self)
        requires
            old(self).wf(),
        ensures
            final(self).wf(),
            went_back(*old(self), *final(self)),
    {
        proof {
            reveal_strlit("/");
            reveal_strlit("root");
            assert("/"@ =~= root());
            lemma_parent_plain(self.parent_view@);
        }
        if same_text(self.parent_view.as_str(), "/") {
            self.parent_view = "root".to_owned();
            self.current_view = "/".to_owned();
        } else if same_text(self.parent_view.as_str(), "root") {
        } else {
            match parent(self.parent_view.as_str()) {
                Some(d) => {
                    let c = self.parent_view.clone();
                    self.parent_view = d;
                    self.current_view = c;
                },
                None => {},
            }
        }
    }

    /// Goes into the directory `path`.
    pub fn go_forward(&mut self, path: String)
        requires
            is_plain_path(path@),
            parent_of(path@) is Some,
        ensures
            final(self).wf(),
            final(self).title == old(self).title,
            final(self).focused == old(self).focused,
            final(self).current_view@ == path@,
            final(self).parent_view@ == parent_of(path@)->0,
    {
        proof {
            lemma_parent_plain(path@);
        }
        match parent(path.as_str()) {
            Some(p) => {
                self.parent_view = p;
            },
            None => {},
        }
        self.current_view = path;
    }
}

/// `after` is `before` one directory up: the parent view became the
/// current view and its parent the parent view; above the root stands the
/// word `root`. From there, and from a parent view without a parent, there
/// is no way up and nothing differs.
pub open spec fn went_back(before: Tab, after: Tab) -> bool {
    &&& after.title == before.title
    &&& after.focused == before.focused
    &&& if before.parent_view@ == root() {
        after.parent_view@ == "root"@ && after.current_view@ == root()
    } else if before.parent_view@ == "root"@ || parent_of(before.parent_view@) is None {
        after == before
    } else {
        after.current_view@ == before.parent_view@ && after.parent_view@ == parent_of(
            before.parent_view@,
        )->0
    }
}

} // verus!
