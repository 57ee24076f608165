//! The engine of a terminal file manager, without the terminal.
//!
//! The library keeps a cached view of the directory tree that the user
//! walks (`fs`, `history`, `tab`), turns key strokes into commands
//! (`config::keymap`, `commands`), runs the commands on the state of the
//! session (`context`), and works out what each pane shows (`ui`,
//! `window`). It reads no file and draws nothing: whoever uses it reads the
//! directories that an operation needs, hands them over as a snapshot, and
//! puts on the screen what the library says.
//!
//! Every function is verified against its contract. The few calls into
//! other crates stand behind small wrappers whose contracts are taken on
//! trust: the lowercase form of a text, the natural order of two names, the
//! width of a text on the screen, the text that bytes encode, and the words
//! that the shell makes of a line.

pub mod commands;
pub mod config;
pub mod context;
pub mod error;
pub mod find;
pub mod fs;
pub mod history;
pub mod natural;
pub mod path;
pub mod sort;
pub mod tab;
pub mod text;
pub mod ui;
pub mod width;
pub mod window;
