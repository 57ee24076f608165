pub mod dirlist;
pub mod entry;
pub mod metadata;
pub mod snapshot;

pub use self::dirlist::LllDirList;
pub use self::entry::LllDirEntry;
pub use self::metadata::{FileType, LllMetadata};
pub use self::snapshot::{DirRead, FsSnapshot};
