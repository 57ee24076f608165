//! What is known of a filesystem entry at the moment it was looked at.

use vstd::prelude::*;

verus! {

/// The kind of a filesystem entry.
#[derive(Clone, Copy, Debug, PartialEq, Eq, Structural)]
pub enum FileType {
    Regular,
    Directory,
    Symlink,
    Fifo,
    Socket,
    BlockDevice,
    CharDevice,
}

/// The stat data of one entry. It is captured once and never changed: a
/// fresh snapshot comes with a fresh entry.
#[derive(Clone, Copy, Debug)]
pub struct LllMetadata {
    /// Size in bytes.
    pub len: u64,
    /// Time of the last change, in whole seconds since the epoch.
    pub modified_secs: i64,
    /// The part of that time below a second, in nanoseconds.
    pub modified_nanos: u32,
    /// The mode word: file type and permission bits.
    pub mode: u32,
    pub file_type: FileType,
    pub uid: u32,
    pub gid: u32,
}

impl LllMetadata {
    pub open spec fn is_dir(self) -> bool {
        self.file_type == FileType::Directory
    }

    /// `self` was changed strictly before `other`.
    pub open spec fn older_than(self, other: LllMetadata) -> bool {
        self.modified_secs < other.modified_secs || (self.modified_secs == other.modified_secs
            && self.modified_nanos < other.modified_nanos)
    }

    /// Whether the entry is a directory.
    pub fn is_directory(&self) -> (r: bool)
        ensures
            r == self.is_dir(),
    {
        self.file_type == FileType::Directory
    }

    /// Whether `self` was changed strictly before `other`.
    pub fn is_older_than(&self, other: &LllMetadata) -> (r: bool)
        ensures
            r == self.older_than(*other),
    {
        self.modified_secs < other.modified_secs || (self.modified_secs == other.modified_secs
            && self.modified_nanos < other.modified_nanos)
    }
}

} // verus!
