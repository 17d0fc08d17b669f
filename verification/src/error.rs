//! Errors of a run.

use vstd::prelude::*;
use vstd::string::*;

verus! {

/// The kinds of error.
#[derive(Debug, Clone, Copy, PartialEq, Eq, Structural)]
pub enum ErrorKind {
    /// I/O error.
    Io,
    /// Git error.
    Git,
    /// Toml error.
    Toml,
    /// Rustdoc error.
    Rustdoc,
    /// Concurrent error.
    Concurrent,
    /// Json error.
    Json,
}

impl ErrorKind {
    /// The words that describe the kind.
    pub open spec fn description_text(self) -> Seq<char> {
        match self {
            ErrorKind::Io => "I/O error"@,
            ErrorKind::Git => "Git error"@,
            ErrorKind::Toml => "TOML error"@,
            ErrorKind::Rustdoc => "Rustdoc error"@,
            ErrorKind::Concurrent => "Concurrent error"@,
            ErrorKind::Json => "JSON error"@,
        }
    }

    /// Describes the kind in words.
    pub fn description(self) -> (words: &'static str)
        ensures
            words@ == self.description_text(),
    {
        match self {
            ErrorKind::Io => "I/O error",
            ErrorKind::Git => "Git error",
            ErrorKind::Toml => "TOML error",
            ErrorKind::Rustdoc => "Rustdoc error",
            ErrorKind::Concurrent => "Concurrent error",
            ErrorKind::Json => "JSON error",
        }
    }
}

/// An error of the library: its kind, and what went wrong.
#[derive(Debug)]
pub struct Error {
    kind: ErrorKind,
    info: String,
}

/// What an `Error` stands for.
pub struct ErrorView {
    pub kind: ErrorKind,
    pub info: Seq<char>,
}

impl View for Error {
    type V = ErrorView;

    closed spec fn view(&self) -> ErrorView {
        ErrorView { kind: self.kind, info: self.info@ }
    }
}

/// The message of an error: the description of its kind, a colon, and what
/// went wrong.
pub open spec fn message(error: ErrorView) -> Seq<char> {
    error.kind.description_text() + ": "@ + error.info
}

impl Error {
    /// An error of kind `kind` that says `info`.
    pub fn new(kind: ErrorKind, info: &str) -> (error: Error)
        ensures
            error@ == (ErrorView { kind, info: info@ }),
    {
        Error { kind, info: info.to_owned() }
    }

    /// The kind of the error.
    pub fn kind(&self) -> (kind: ErrorKind)
        ensures
            kind == self@.kind,
    {
        self.kind
    }

    /// What went wrong.
    pub fn info(&self) -> (info: &str)
        ensures
            info@ == self@.info,
    {
        self.info.as_str()
    }

    /// The message of the error.
    pub fn error(&self) -> (text: String)
        ensures
            text@ == message(self@),
    {
        let mut text = String::from_str(self.kind.description());
        text.append(": ");
        text.append(self.info.as_str());
        text
    }
}

} // verus!
