//! What is drawn, decided without drawing.
//!
//! Each function here works out from plain values what a pane shows; the
//! terminal calls that put it on the screen are the caller's.

use vstd::prelude::*;
use crate::config::{LllColorTheme, LllConfig, LllTheme};
use crate::fs::{LllDirEntry, LllDirList};
use crate::fs::metadata::FileType;
use crate::sort::{extension, extension_of};
use crate::text::{chars_of, last_index_of, lemma_last_index_of, rfind_char};
use crate::width::{char_width, char_width_of, text_width, text_width_of};
use crate::window::LllPanel;
use crate::window::page_state::LllPageState;

pub mod tab;

verus! {

/// The colour pair of error messages.
pub const ERR_COLOR: i16 = 240;

/// The colour pair of the note that a directory is empty.
pub const EMPTY_COLOR: i16 = 241;

/// A pane narrower than this shows nothing.
pub const MIN_WIN_WIDTH: usize = 4;

pub struct DisplayOptions {
    pub detailed: bool,
}

/// The options of the middle column.
pub fn primary_display_option() -> (options: DisplayOptions)
    ensures
        options.detailed,
{
    DisplayOptions { detailed: true }
}

/// What a pane shows of a listing.
#[derive(Clone, Copy, Debug, PartialEq, Eq, Structural)]
pub enum Drawing {
    /// The pane is too narrow: it is left as it is.
    Nothing,
    /// The listing has no entry: the pane says so.
    Empty,
    /// The entries `start..end`, one to a row, the one at `cursor` standing
    /// out.
    Rows { start: usize, end: usize, cursor: usize, detailed: bool },
}

/// The window of `list` once the pane `win` has shown it: as it was where
/// the pane is too narrow or the listing has no entry, else moved so that
/// it shows the cursor.
pub open spec fn window_after(list: LllDirList, win: LllPanel, config_t: LllConfig) -> LllPageState {
    if win.cols < MIN_WIN_WIDTH || list.contents@.len() == 0 {
        list.pagestate
    } else {
        list.paged(win.usable_rows(), config_t.scroll_offset)
    }
}

/// What the pane `win` shows of `list`.
pub open spec fn drawing_of(
    list: LllDirList,
    win: LllPanel,
    config_t: LllConfig,
    options: DisplayOptions,
) -> Drawing {
    if win.cols < MIN_WIN_WIDTH {
        Drawing::Nothing
    } else if list.contents@.len() == 0 {
        Drawing::Empty
    } else {
        Drawing::Rows {
            start: window_after(list, win, config_t).start,
            end: window_after(list, win, config_t).end,
            cursor: match list.index {
                Some(i) => i,
                None => 0,
            },
            detailed: options.detailed,
        }
    }
}

/// Works out what the pane `win` shows of `dirlist`, and moves the window
/// of the listing so that it shows the cursor.
pub fn display_contents(
    win: &LllPanel,
    dirlist: &mut LllDirList,
    config_t: &LllConfig,
    options: &DisplayOptions,
) -> (drawing: Drawing)
    requires
        old(dirlist).wf(),
    ensures
        final(dirlist).wf(),
        *final(dirlist) == (LllDirList {
            pagestate: window_after(*old(dirlist), *win, *config_t),
            ..*old(dirlist)
        }),
        drawing == drawing_of(*old(dirlist), *win, *config_t, *options),
        win.cols >= MIN_WIN_WIDTH && win.rows > 0 ==> final(dirlist).shows_cursor(),
        win.cols >= MIN_WIN_WIDTH && old(dirlist).contents@.len() > 0
            ==> final(dirlist).pagestate.end
            - final(dirlist).pagestate.start <= win.usable_rows(),
{
    if win.cols < 4 {
        return Drawing::Nothing;
    }
    let dir_len = dirlist.contents.len();
    if dir_len == 0 {
        return Drawing::Empty;
    }
    let curr_index = match dirlist.index {
        Some(i) => i,
        None => 0,
    };
    dirlist.update_page(win.row_count(), config_t.scroll_offset);
    Drawing::Rows {
        start: dirlist.pagestate.start,
        end: dirlist.pagestate.end,
        cursor: curr_index,
        detailed: options.detailed,
    }
}

/// How one row is drawn.
#[derive(Clone, Copy, Debug)]
pub struct EntryLook<'a> {
    /// The columns that the prefix takes.
    pub prefix_size: usize,
    /// What is written before the name.
    pub prefix: &'a str,
    /// The row is the one under the cursor.
    pub standout: bool,
    pub bold: bool,
    pub underline: bool,
    pub colorpair: i16,
}

/// The kinds of entry that are neither file, directory nor link.
pub open spec fn is_special(file_type: FileType) -> bool {
    file_type == FileType::BlockDevice || file_type == FileType::CharDevice || file_type
        == FileType::Fifo || file_type == FileType::Socket
}

/// The theme that an entry is drawn in: that of selected entries, of
/// directories, of links or of devices, pipes and sockets, in this order;
/// for any other entry the theme of its extension, where the theme has one
/// for it, and else the plain one.
pub open spec fn theme_of(theme: LllTheme, entry: LllDirEntry) -> LllColorTheme {
    if entry.selected {
        theme.selection
    } else if entry.metadata.file_type == FileType::Directory {
        theme.directory
    } else if entry.metadata.file_type == FileType::Symlink {
        theme.link
    } else if is_special(entry.metadata.file_type) {
        theme.socket
    } else if last_index_of(entry.name@, '.') is Some && theme.ext.value_of(
        extension_of(entry.name@),
    ) is Some {
        theme.ext.value_of(extension_of(entry.name@))->0
    } else {
        theme.regular
    }
}

/// The colour pair that an entry is drawn in: that of its theme, but for
/// devices, pipes and sockets, which take the colours of links.
pub open spec fn colorpair_of(theme: LllTheme, entry: LllDirEntry) -> i16 {
    if !entry.selected && entry.metadata.file_type != FileType::Directory
        && entry.metadata.file_type != FileType::Symlink && is_special(entry.metadata.file_type) {
        theme.link.colorpair
    } else {
        theme_of(theme, entry).colorpair
    }
}

fn is_special_type(file_type: FileType) -> (r: bool)
    ensures
        r == is_special(file_type),
{
    match file_type {
        FileType::BlockDevice | FileType::CharDevice | FileType::Fifo | FileType::Socket => true,
        _ => false,
    }
}

fn pick_theme<'a>(theme: &'a LllTheme, entry: &LllDirEntry) -> (r: (&'a LllColorTheme, i16))
    ensures
        *r.0 == theme_of(*theme, *entry),
        r.1 == colorpair_of(*theme, *entry),
{
    if entry.is_selected() {
        (&theme.selection, theme.selection.colorpair)
    } else if entry.metadata.file_type == FileType::Directory {
        (&theme.directory, theme.directory.colorpair)
    } else if entry.metadata.file_type == FileType::Symlink {
        (&theme.link, theme.link.colorpair)
    } else if is_special_type(entry.metadata.file_type) {
        (&theme.socket, theme.link.colorpair)
    } else {
        let chars = chars_of(entry.file_name());
        match rfind_char(&chars, '.') {
            Some(_) => {
                let ext = extension(entry.file_name());
                match theme.ext.get(ext.as_str()) {
                    Some(found) => (found, found.colorpair),
                    None => (&theme.regular, theme.regular.colorpair),
                }
            },
            None => (&theme.regular, theme.regular.colorpair),
        }
    }
}

/// How the entry is drawn under `theme`, standing out where `standout`
/// says so: the marks and the colours of its theme and the prefix of that
/// theme, or one blank where it has none.
pub fn get_theme_attr<'a>(theme: &'a LllTheme, standout: bool, entry: &LllDirEntry) -> (look:
    EntryLook<'a>)
    ensures
        look.standout == standout,
        look.bold == theme_of(*theme, *entry).bold,
        look.underline == theme_of(*theme, *entry).underline,
        look.colorpair == colorpair_of(*theme, *entry),
        match theme_of(*theme, *entry).prefix {
            Some(p) => look.prefix_size == p.size && look.prefix@ == p.prefix@,
            None => look.prefix_size == 1 && look.prefix@ == " "@,
        },
{
    let (chosen, colorpair) = pick_theme(theme, entry);
    let (prefix_size, prefix) = match &chosen.prefix {
        Some(p) => (p.size(), p.prefix()),
        None => (1, " "),
    };
    EntryLook {
        prefix_size,
        prefix,
        standout,
        bold: chosen.bold,
        underline: chosen.underline,
        colorpair,
    }
}

/// The columns that the characters of `s` take, one by one; a character
/// without a width of its own counts for two.
pub open spec fn columns_of(s: Seq<char>) -> nat
    decreases s.len(),
{
    if s.len() == 0 {
        0
    } else {
        columns_of(s.drop_last()) + (match char_width_of(s.last()) {
            Some(w) => w as nat,
            None => 2,
        })
    }
}

/// The number of characters of `name` that are written into `space`
/// columns: as many as it takes to fill them, or all.
pub open spec fn kept_chars(name: Seq<char>, space: nat) -> int
    decreases name.len(),
{
    if name.len() == 0 {
        0
    } else if kept_chars(name.drop_last(), space) < name.len() - 1 {
        kept_chars(name.drop_last(), space)
    } else if columns_of(name.drop_last()) >= space {
        name.len() - 1
    } else {
        name.len() as int
    }
}

/// What `kept_chars` gives is the first count of characters that fills the
/// space, or the count of all.
pub proof fn lemma_kept_chars(name: Seq<char>, space: nat)
    ensures
        0 <= kept_chars(name, space) <= name.len(),
        kept_chars(name, space) < name.len() ==> columns_of(
            name.subrange(0, kept_chars(name, space)),
        ) >= space,
        forall|k: int|
            0 <= k < kept_chars(name, space) ==> columns_of(#[trigger] name.subrange(0, k)) < space,
    decreases name.len(),
{
    if name.len() > 0 {
        let init = name.drop_last();
        lemma_kept_chars(init, space);
        let n = kept_chars(name, space);
        assert forall|k: int| 0 <= k <= init.len() implies #[trigger] name.subrange(0, k)
            == init.subrange(0, k) by {
            assert(name.subrange(0, k) =~= init.subrange(0, k));
        }
        assert(init.subrange(0, init.len() as int) =~= init);
    }
}

/// How a name is written into the columns that it has.
#[derive(Clone, Copy, Debug, PartialEq, Eq, Structural)]
pub enum NameDrawing {
    /// The name fits and is written whole.
    Whole,
    /// The name does not fit. Where there is room, its extension, from the
    /// character at `from` on, is written at the column `column`. Where
    /// `stem` is given, the first `stem` characters of the name and an
    /// ellipsis are written at the start.
    Cut { extension: Option<ExtensionDrawing>, stem: Option<usize> },
}

/// Where the extension of a name that was cut is written.
#[derive(Clone, Copy, Debug, PartialEq, Eq, Structural)]
pub struct ExtensionDrawing {
    pub column: usize,
    pub from: usize,
}

/// The columns that the extension of `name` takes, the dot included, where
/// the name has one and `space_avail` columns are more than it takes.
pub open spec fn extension_room(name: Seq<char>, space_avail: usize) -> Option<usize> {
    match last_index_of(name, '.') {
        Some(dot) => {
            let ext_len = text_width_of(name.subrange(dot, name.len() as int));
            if space_avail > ext_len {
                Some(ext_len)
            } else {
                None
            }
        },
        None => None,
    }
}

/// How `name` is written into `space_avail` columns. A name that takes
/// fewer columns is written whole. Of any other, the extension is written
/// at the end of the space, where it leaves room; of what is left two
/// columns go to the ellipsis, and the rest is filled with the beginning
/// of the name.
pub open spec fn name_drawing(name: Seq<char>, space_avail: usize) -> NameDrawing {
    if text_width_of(name) < space_avail {
        NameDrawing::Whole
    } else {
        let left = match extension_room(name, space_avail) {
            Some(ext_len) => (space_avail - ext_len) as usize,
            None => space_avail,
        };
        NameDrawing::Cut {
            extension: match extension_room(name, space_avail) {
                Some(_) => Some(
                    ExtensionDrawing {
                        column: left,
                        from: last_index_of(name, '.')->0 as usize,
                    },
                ),
                None => None,
            },
            stem: if left < 2 {
                None
            } else {
                Some(kept_chars(name, (left - 2) as nat) as usize)
            },
        }
    }
}

/// Works out how `file_name` is written into `space_avail` columns.
pub fn wprint_file_name(file_name: &str, space_avail: usize) -> (drawing: NameDrawing)
    ensures
        drawing == name_drawing(file_name@, space_avail),
{
    if text_width(file_name) < space_avail {
        return NameDrawing::Whole;
    }
    let chars = chars_of(file_name);
    let mut left: usize = space_avail;
    let mut extension: Option<ExtensionDrawing> = None;
    proof {
        lemma_last_index_of(file_name@, '.');
    }
    if let Some(dot) = rfind_char(&chars, '.') {
        let tail = crate::text::slice_text(file_name, dot, chars.len());
        let ext_len = text_width(tail.as_str());
        if space_avail > ext_len {
            left = space_avail - ext_len;
            extension = Some(ExtensionDrawing { column: left, from: dot });
        }
    }
    if left < 2 {
        return NameDrawing::Cut { extension, stem: None };
    }
    let room: usize = left - 2;
    let mut total: usize = 0;
    let mut k: usize = 0;
    assert(chars@.subrange(0, 0) =~= Seq::<char>::empty());
    while k < chars.len() && total < room
        invariant
            k <= chars.len(),
            chars@ == file_name@,
            total < room ==> total == columns_of(chars@.subrange(0, k as int)),
            total >= room ==> columns_of(chars@.subrange(0, k as int)) >= room,
            kept_chars(chars@.subrange(0, k as int), room as nat) == k,
        decreases chars.len() - k,
    {
        let w: usize = match char_width(chars[k]) {
            Some(w) => w,
            None => 2,
        };
        proof {
            let next = chars@.subrange(0, k + 1);
            assert(next.last() == chars@[k as int]);
            assert(next.drop_last() =~= chars@.subrange(0, k as int));
        }
        total = if w > usize::MAX - total {
            usize::MAX
        } else {
            total + w
        };
        k += 1;
    }
    proof {
        lemma_kept_tail(chars@, k as int, room as nat);
    }
    NameDrawing::Cut { extension, stem: Some(k) }
}

/// Once a beginning of `name` fills the space, no more of it is kept.
pub proof fn lemma_kept_tail(name: Seq<char>, k: int, space: nat)
    requires
        0 <= k <= name.len(),
        kept_chars(name.subrange(0, k), space) == k,
        k < name.len() ==> columns_of(name.subrange(0, k)) >= space,
    ensures
        kept_chars(name, space) == k,
    decreases name.len() - k,
{
    if k == name.len() {
        assert(name.subrange(0, k) =~= name);
    } else {
        let init = name.drop_last();
        assert(init.subrange(0, k) =~= name.subrange(0, k));
        if k < init.len() {
            lemma_kept_tail(init, k, space);
        } else {
            assert(init.subrange(0, k) =~= init);
        }
    }
}

/// The columns that are left for the name in a pane `cols` wide behind a
/// prefix of `prefix_size` columns: none where the prefix fills the pane.
pub open spec fn name_space(cols: i32, prefix_size: usize) -> Option<usize> {
    if cols <= prefix_size {
        None
    } else {
        Some((cols - prefix_size) as usize)
    }
}

/// Works out how the name of `file` is written in the pane `win` behind a
/// prefix of `prefix_size` columns: not at all where the prefix fills the
/// pane.
pub fn wprint_entry(win: &LllPanel, file: &LllDirEntry, prefix_size: usize) -> (drawing: Option<
    NameDrawing,
>)
    ensures
        match name_space(win.cols, prefix_size) {
            Some(space) => drawing == Some(name_drawing(file.name@, space)),
            None => drawing is None,
        },
{
    if win.cols <= 0 || win.cols as usize <= prefix_size {
        return None;
    }
    let space_avail: usize = win.cols as usize - prefix_size;
    Some(wprint_file_name(file.file_name(), space_avail))
}

/// What the tab bar shows.
#[derive(Clone, Copy, Debug, PartialEq, Eq, Structural)]
pub enum TabBar {
    /// One tab: the bar stays empty.
    Nothing,
    /// Six tabs or more: the number of the current tab, counted from one,
    /// standing out, and the number of tabs.
    Counter { current: usize, total: usize },
    /// The numbers of the tabs, from one to `count`, the one at the index
    /// `current` standing out.
    Numbers { count: usize, current: usize },
}

/// What the tab bar shows for `tab_len` tabs of which the one at
/// `curr_tab_index` is shown.
pub open spec fn tab_bar_of(tab_len: usize, curr_tab_index: usize) -> TabBar {
    if tab_len == 1 {
        TabBar::Nothing
    } else if tab_len >= 6 {
        TabBar::Counter { current: (curr_tab_index + 1) as usize, total: tab_len }
    } else {
        TabBar::Numbers { count: tab_len, current: curr_tab_index }
    }
}

/// Works out what the tab bar shows.
pub fn redraw_tab_view(context: &crate::context::LllContext) -> (bar: TabBar)
    requires
        context.curr_tab_index < context.tabs@.len(),
    ensures
        bar == tab_bar_of(context.tabs@.len() as usize, context.curr_tab_index),
{
    let tab_len = context.tabs.len();
    if tab_len == 1 {
        TabBar::Nothing
    } else if tab_len >= 6 {
        TabBar::Counter { current: context.curr_tab_index + 1, total: tab_len }
    } else {
        TabBar::Numbers { count: tab_len, current: context.curr_tab_index }
    }
}

/// The file type bits of a symbolic link in a mode word.
pub const S_IFLNK: u32 = 0o120000;

/// The mode word, without its nine permission bits, holds no bit that the
/// mode word of a symbolic link does not hold.
pub open spec fn has_link_bits(mode: u32) -> bool {
    ((mode >> 9) & (S_IFLNK >> 9)) == (mode >> 9)
}

/// Whether the target of the entry is to be shown behind its status: the
/// test on the mode word that comes before the look at the filesystem.
pub fn wprint_file_info(file: &LllDirEntry) -> (r: bool)
    ensures
        r == has_link_bits(file.metadata.mode),
{
    let mode = file.metadata.mode;
    ((mode >> 9) & (S_IFLNK >> 9)) == (mode >> 9)
}

} // verus!
