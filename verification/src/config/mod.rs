pub mod config;
pub mod keymap;
pub mod mimetype;
pub mod preview;
pub mod table;
pub mod theme;

pub use self::config::{LllConfig, LllRawConfig, SortRawOption};
pub use self::keymap::{
    insert_keycommand, CommandKeybind, LllCommandMapping, LllKeyMapping,
    LllMapCommand, LllRawCommandMapping,
};
pub use self::mimetype::{LllMimetype, LllMimetypeEntry, LllRawMimetype};
pub use self::preview::{LllPreview, LllPreviewEntry, LllRawPreview};
pub use self::table::{StringTable, TableRow};
pub use self::theme::{LllColorPair, LllColorTheme, LllPrefix, LllTheme};
