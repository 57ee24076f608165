//! How entries are drawn.

use vstd::prelude::*;
use crate::config::table::StringTable;

verus! {

pub fn default_zero() -> (r: i16)
    ensures
        r == 0,
{
    0
}

pub fn default_false() -> (r: bool)
    ensures
        !r,
{
    false
}

pub fn default_prefix() -> (r: Option<LllPrefix>)
    ensures
        r is None,
{
    None
}

/// A pair of colours under a number.
#[derive(Clone, Copy, Debug)]
pub struct LllColorPair {
    pub id: i16,
    pub fg: i16,
    pub bg: i16,
}

/// What is written before a name, and how many columns it takes.
#[derive(Debug)]
pub struct LllPrefix {
    pub prefix: String,
    pub size: usize,
}

impl LllPrefix {
    pub fn prefix(&self) -> (text: &str)
        ensures
            text@ == self.prefix@,
    {
        self.prefix.as_str()
    }

    pub fn size(&self) -> (size: usize)
        ensures
            size == self.size,
    {
        self.size
    }
}

impl Clone for LllPrefix {
    fn clone(&self) -> (r: LllPrefix)
        ensures
            r == *self,
    {
        LllPrefix { prefix: self.prefix.clone(), size: self.size }
    }
}

/// How one kind of entry is drawn.
#[derive(Debug)]
pub struct LllColorTheme {
    pub colorpair: i16,
    pub bold: bool,
    pub underline: bool,
    pub prefix: Option<LllPrefix>,
}

impl Default for LllColorTheme {
    fn default() -> (theme: LllColorTheme)
        ensures
            theme.colorpair == 0,
            !theme.bold,
            !theme.underline,
            theme.prefix is None,
    {
        LllColorTheme {
            colorpair: default_zero(),
            bold: default_false(),
            underline: default_false(),
            prefix: default_prefix(),
        }
    }
}

/// How each kind of entry is drawn, and entries with a known extension.
#[derive(Debug)]
pub struct LllTheme {
    pub colorpair: Vec<LllColorPair>,
    pub regular: LllColorTheme,
    pub selection: LllColorTheme,
    pub directory: LllColorTheme,
    pub executable: LllColorTheme,
    pub link: LllColorTheme,
    pub socket: LllColorTheme,
    pub ext: StringTable<LllColorTheme>,
}

/// The theme is the plain one: no colour, no mark, no prefix.
pub open spec fn is_plain(theme: LllColorTheme) -> bool {
    theme.colorpair == 0 && !theme.bold && !theme.underline && theme.prefix is None
}

impl Default for LllTheme {
    fn default() -> (theme: LllTheme)
        ensures
            theme.colorpair@.len() == 0,
            theme.ext.rows@.len() == 0,
            is_plain(theme.regular),
            is_plain(theme.selection),
            is_plain(theme.directory),
            is_plain(theme.executable),
            is_plain(theme.link),
            is_plain(theme.socket),
    {
        LllTheme {
            colorpair: Vec::new(),
            selection: LllColorTheme::default(),
            executable: LllColorTheme::default(),
            regular: LllColorTheme::default(),
            directory: LllColorTheme::default(),
            link: LllColorTheme::default(),
            socket: LllColorTheme::default(),
            ext: StringTable::new(),
        }
    }
}

} // verus!
