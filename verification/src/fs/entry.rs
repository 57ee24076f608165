//! One child of a directory.

use vstd::prelude::*;
use vstd::utf8::{decode_utf8, valid_utf8};
use crate::error::{IoError, IoErrorKind};
use crate::fs::metadata::LllMetadata;
use crate::path::{join, join_path};

verus! {

/// A named child of a directory with its metadata and the two marks that
/// the user can put on it.
#[derive(Debug)]
pub struct LllDirEntry {
    pub name: String,
    pub path: String,
    pub metadata: LllMetadata,
    pub selected: bool,
    pub marked: bool,
}

/// `String::from_utf8` on a copy of the bytes: the text that the bytes
/// encode where they are well-formed UTF-8, nothing where they are not.
#[verifier::external_body]
fn text_of_bytes(raw: &Vec<u8>) -> (r: Option<String>)
    ensures
        r is Some <==> valid_utf8(raw@),
        r matches Some(s) ==> s@ == decode_utf8(raw@),
{
    match String::from_utf8(raw.clone()) {
        Ok(s) => Some(s),
        Err(_) => None,
    }
}

impl LllDirEntry {
    /// The entry for the child of `dir` whose name is the bytes `raw_name`.
    /// A name that is not valid text is refused.
    pub fn from(dir: &str, raw_name: &Vec<u8>, metadata: LllMetadata) -> (r: Result<
        LllDirEntry,
        IoError,
    >)
        ensures
            r is Ok <==> valid_utf8(raw_name@),
            r matches Ok(e) ==> e.name@ == decode_utf8(raw_name@) && e.path@ == join(dir@, e.name@)
                && e.metadata == metadata && !e.selected && !e.marked,
            r matches Err(e) ==> e.kind == IoErrorKind::Other && e.message@
                == "Failed converting OsString to String"@,
    {
        match text_of_bytes(raw_name) {
            Some(name) => {
                let path = join_path(dir, name.as_str());
                Ok(LllDirEntry { name, path, metadata, selected: false, marked: false })
            },
            None => Err(IoError::new(IoErrorKind::Other, "Failed converting OsString to String")),
        }
    }

    /// The entry named `name` in `dir`, unselected and unmarked.
    pub fn new(dir: &str, name: &str, metadata: LllMetadata) -> (e: LllDirEntry)
        ensures
            e.name@ == name@,
            e.path@ == join(dir@, name@),
            e.metadata == metadata,
            !e.selected,
            !e.marked,
    {
        LllDirEntry {
            name: name.to_owned(),
            path: join_path(dir, name),
            metadata,
            selected: false,
            marked: false,
        }
    }

    pub fn file_name(&self) -> (name: &str)
        ensures
            name@ == self.name@,
    {
        self.name.as_str()
    }

    pub fn file_path(&self) -> (path: &String)
        ensures
            *path == self.path,
    {
        &self.path
    }

    pub fn is_selected(&self) -> (r: bool)
        ensures
            r == self.selected,
    {
        self.selected
    }

    pub fn set_selected(&mut self, selected: bool)
        ensures
            *final(self) == (LllDirEntry { selected, ..*old(self) }),
    {
        self.selected = selected;
    }
}

impl Clone for LllDirEntry {
    fn clone(&self) -> (e: LllDirEntry)
        ensures
            e == *self,
    {
        LllDirEntry {
            name: self.name.clone(),
            path: self.path.clone(),
            metadata: self.metadata,
            selected: self.selected,
            marked: self.marked,
        }
    }
}

} // verus!
