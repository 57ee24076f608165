//! The programs that show a preview.

use vstd::prelude::*;
use crate::config::table::StringTable;

verus! {

/// A program and its arguments.
#[derive(Debug)]
pub struct LllPreviewEntry {
    pub program: String,
    pub args: Option<Vec<String>>,
}

/// The preview tables as the configuration file gives them.
#[derive(Debug)]
pub struct LllRawPreview {
    pub extension: Option<StringTable<LllPreviewEntry>>,
    pub mimetype: Option<StringTable<LllPreviewEntry>>,
}

/// The preview programs by extension and by mimetype.
#[derive(Debug)]
pub struct LllPreview {
    pub extension: StringTable<LllPreviewEntry>,
    pub mimetype: StringTable<LllPreviewEntry>,
}

impl Default for LllRawPreview {
    fn default() -> (raw: LllRawPreview)
        ensures
            raw.extension is None,
            raw.mimetype is None,
    {
        LllRawPreview { extension: None, mimetype: None }
    }
}

impl LllRawPreview {
    /// The tables of the file; a table that it lacks is empty.
    pub fn flatten(self) -> (preview: LllPreview)
        ensures
            match self.extension {
                Some(t) => preview.extension == t,
                None => preview.extension.rows@.len() == 0,
            },
            match self.mimetype {
                Some(t) => preview.mimetype == t,
                None => preview.mimetype.rows@.len() == 0,
            },
    {
        let extension = match self.extension {
            Some(t) => t,
            None => StringTable::new(),
        };
        let mimetype = match self.mimetype {
            Some(t) => t,
            None => StringTable::new(),
        };
        LllPreview { extension, mimetype }
    }
}

impl Default for LllPreview {
    fn default() -> (preview: LllPreview)
        ensures
            preview.extension.rows@.len() == 0,
            preview.mimetype.rows@.len() == 0,
    {
        LllPreview { extension: StringTable::new(), mimetype: StringTable::new() }
    }
}

} // verus!
