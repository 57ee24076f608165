//! The failures that the library reports.

use vstd::prelude::*;
use vstd::string::StringExecFns;

verus! {

/// Why the filesystem refused an operation.
#[derive(Clone, Copy, Debug, PartialEq, Eq, Structural)]
pub enum IoErrorKind {
    NotFound,
    PermissionDenied,
    NotADirectory,
    InvalidData,
    Other,
}

/// A failure of a filesystem operation, or a refusal reported in its form.
#[derive(Debug)]
pub struct IoError {
    pub kind: IoErrorKind,
    pub message: String,
}

impl IoError {
    pub fn new(kind: IoErrorKind, message: &str) -> (e: IoError)
        ensures
            e.kind == kind,
            e.message@ == message@,
    {
        IoError { kind, message: message.to_owned() }
    }
}

impl Clone for IoError {
    fn clone(&self) -> (e: IoError)
        ensures
            e == *self,
    {
        IoError { kind: self.kind, message: self.message.clone() }
    }
}

/// Why a command or a key binding of the configuration was refused.
#[derive(Clone, Copy, Debug, PartialEq, Eq, Structural)]
pub enum KeymapError {
    /// No command has the name that was given.
    UnknownCommand,
    /// The command does not take `got` arguments.
    ArgumentCount { got: usize },
    /// An argument that must be a number is none, or is too large.
    InvalidNumber,
    /// The key sequence is empty, is bound already, extends a bound
    /// sequence, or is the beginning of one.
    Ambiguous,
}

/// What a command reports when it fails.
#[derive(Debug)]
pub enum LllError {
    IO(IoError),
    Keymap(KeymapError),
}

/// The failures of the tree view.
#[derive(Debug)]
pub enum ErrorKind {
    DirNotFound { dirname: String },
}

impl ErrorKind {
    /// The directory that was not found.
    pub open spec fn dirname(self) -> String {
        self->dirname
    }

    /// What the user is told.
    pub fn message(&self) -> (text: String)
        ensures
            text@ == "Directory not found: "@ + self.dirname()@,
    {
        match self {
            ErrorKind::DirNotFound { dirname } => {
                let mut text = "Directory not found: ".to_owned();
                text.append(dirname.as_str());
                text
            },
        }
    }
}

/// A failure of the tree view.
#[derive(Debug)]
pub struct Error {
    pub kind: ErrorKind,
}

impl From<ErrorKind> for Error {
    fn from(kind: ErrorKind) -> (e: Error) {
        Error { kind }
    }
}

impl vstd::std_specs::convert::FromSpecImpl<ErrorKind> for Error {
    open spec fn obeys_from_spec() -> bool {
        true
    }

    open spec fn from_spec(kind: ErrorKind) -> Error {
        Error { kind }
    }
}

} // verus!
