//! The general settings.

use vstd::prelude::*;
use crate::sort::{sort_type_named, SortOption, SortType};

verus! {

pub fn default_true() -> (r: bool)
    ensures
        r,
{
    true
}

pub fn default_scroll_offset() -> (r: usize)
    ensures
        r == 6,
{
    6
}

/// Two mebibytes.
pub fn default_max_preview_size() -> (r: u64)
    ensures
        r == 2 * 1024 * 1024,
{
    2 * 1024 * 1024
}

pub fn default_column_ratio() -> (r: (usize, usize, usize))
    ensures
        r == (1usize, 3usize, 4usize),
{
    (1, 3, 4)
}

/// The sort flags as the configuration file gives them.
#[derive(Clone, Copy, Debug)]
pub struct SortRawOption {
    pub show_hidden: bool,
    pub directories_first: bool,
    pub case_sensitive: bool,
    pub reverse: bool,
}

impl SortRawOption {
    /// The sort option with these flags and the method `sort_method`.
    pub fn into_sort_option(self, sort_method: SortType) -> (opt: SortOption)
        ensures
            opt.show_hidden == self.show_hidden,
            opt.directories_first == self.directories_first,
            opt.case_sensitive == self.case_sensitive,
            opt.reverse == self.reverse,
            opt.sort_method == sort_method,
    {
        SortOption {
            show_hidden: self.show_hidden,
            directories_first: self.directories_first,
            case_sensitive: self.case_sensitive,
            reverse: self.reverse,
            sort_method,
        }
    }
}

impl Default for SortRawOption {
    fn default() -> (raw: SortRawOption)
        ensures
            !raw.show_hidden,
            raw.directories_first,
            !raw.case_sensitive,
            !raw.reverse,
    {
        SortRawOption {
            show_hidden: false,
            directories_first: default_true(),
            case_sensitive: false,
            reverse: false,
        }
    }
}

/// The settings as the configuration file gives them.
#[derive(Debug)]
pub struct LllRawConfig {
    pub scroll_offset: usize,
    pub max_preview_size: u64,
    pub column_ratio: Option<[usize; 3]>,
    pub sort_method: Option<String>,
    pub sort_option: SortRawOption,
}

/// The settings that the program runs with.
#[derive(Debug)]
pub struct LllConfig {
    pub scroll_offset: usize,
    pub max_preview_size: u64,
    pub sort_option: SortOption,
    pub column_ratio: (usize, usize, usize),
}

/// The method that the file names, or the natural order where it names
/// none or one that does not exist.
pub open spec fn method_or_natural(name: Option<String>) -> SortType {
    match name {
        Some(s) => match sort_type_named(s@) {
            Some(t) => t,
            None => SortType::Natural,
        },
        None => SortType::Natural,
    }
}

impl LllRawConfig {
    /// The settings that follow from the file: the column ratio and the
    /// sort method fall back to their defaults where the file has none.
    pub fn flatten(self) -> (config: LllConfig)
        ensures
            config.scroll_offset == self.scroll_offset,
            config.max_preview_size == self.max_preview_size,
            config.column_ratio == (match self.column_ratio {
                Some(s) => (s[0], s[1], s[2]),
                None => (1usize, 3usize, 4usize),
            }),
            config.sort_option.sort_method == method_or_natural(self.sort_method),
            config.sort_option.show_hidden == self.sort_option.show_hidden,
            config.sort_option.directories_first == self.sort_option.directories_first,
            config.sort_option.case_sensitive == self.sort_option.case_sensitive,
            config.sort_option.reverse == self.sort_option.reverse,
    {
        let column_ratio = match self.column_ratio {
            Some(s) => (s[0], s[1], s[2]),
            None => default_column_ratio(),
        };
        let sort_method = match &self.sort_method {
            Some(s) => match SortType::parse(s.as_str()) {
                Some(t) => t,
                None => SortType::Natural,
            },
            None => SortType::Natural,
        };
        let sort_option = self.sort_option.into_sort_option(sort_method);
        LllConfig {
            scroll_offset: self.scroll_offset,
            max_preview_size: self.max_preview_size,
            column_ratio,
            sort_option,
        }
    }
}

impl Clone for LllConfig {
    fn clone(&self) -> (config: LllConfig)
        ensures
            config == *self,
    {
        LllConfig {
            scroll_offset: self.scroll_offset,
            max_preview_size: self.max_preview_size,
            sort_option: self.sort_option,
            column_ratio: self.column_ratio,
        }
    }
}

impl Default for LllConfig {
    fn default() -> (config: LllConfig)
        ensures
            config.scroll_offset == 6,
            config.max_preview_size == 2 * 1024 * 1024,
            config.column_ratio == (1usize, 3usize, 4usize),
            !config.sort_option.show_hidden,
            config.sort_option.directories_first,
            !config.sort_option.case_sensitive,
            !config.sort_option.reverse,
            config.sort_option.sort_method == SortType::Natural,
    {
        LllConfig {
            scroll_offset: default_scroll_offset(),
            max_preview_size: default_max_preview_size(),
            sort_option: SortOption::default(),
            column_ratio: default_column_ratio(),
        }
    }
}

} // verus!
