//! The error type shared by every parser of the crate.

use vstd::prelude::*;

verus! {

/// The two ways in which a diff can be rejected.
#[derive(Clone, Copy, Debug, PartialEq, Eq, Structural)]
pub enum ErrorKind {
    /// The text does not have the shape that the grammar asks for.
    Format,
    /// A modification time could not be read.
    Timestamp,
}

/// What an [`Error`] stands for in contracts.
pub struct ErrorView {
    pub kind: ErrorKind,
    pub message: Seq<char>,
}

/// A rejected input, with a short description of what was wrong.
#[derive(Debug)]
pub struct Error {
    kind: ErrorKind,
    message: String,
}

impl View for Error {
    type V = ErrorView;

    closed spec fn view(&self) -> ErrorView {
        ErrorView { kind: self.kind, message: self.message@ }
    }
}

/// The view of a format error with the given description.
pub open spec fn format_error(message: Seq<char>) -> ErrorView {
    ErrorView { kind: ErrorKind::Format, message }
}

/// The view of a timestamp error with the given description.
pub open spec fn timestamp_error(message: Seq<char>) -> ErrorView {
    ErrorView { kind: ErrorKind::Timestamp, message }
}

impl Error {
    /// A format error described by `message`.
    pub fn from(message: &str) -> (e: Error)
        ensures
            e@ == format_error(message@),
    {
        Error { kind: ErrorKind::Format, message: message.to_owned() }
    }

    /// A timestamp error described by `message`.
    pub fn timestamp(message: &str) -> (e: Error)
        ensures
            e@ == timestamp_error(message@),
    {
        Error { kind: ErrorKind::Timestamp, message: message.to_owned() }
    }

    /// Which of the two kinds of rejection this is.
    pub fn kind(&self) -> (k: ErrorKind)
        ensures
            k == self@.kind,
    {
        self.kind
    }

    /// The description that the error was made with.
    pub fn description(&self) -> (m: &str)
        ensures
            m@ == self@.message,
    {
        self.message.as_str()
    }

    /// The description as an owned string.
    pub fn to_string(&self) -> (m: String)
        ensures
            m@ == self@.message,
    {
        self.message.clone()
    }
}

} // verus!
