//! The error reported for bytes that do not hold what they claim to hold.

use vstd::prelude::*;

verus! {

/// What went wrong, coarsely.
#[derive(Debug, Clone, Copy, PartialEq, Eq, Structural)]
pub enum ErrorKind {
    /// The bytes contradict the format.
    InvalidData,
    /// The bytes end before the value does.
    UnexpectedEof,
    /// Anything else, such as a failure of the compression library.
    Other,
}

/// A failure to read or write one of the formats.
#[derive(Debug)]
pub struct Error {
    /// The category of the failure.
    pub kind: ErrorKind,
    /// A description of the failure for humans.
    pub message: String,
}

/// What the contracts say of an error: its kind and the text of its message.
pub type ErrorView = (ErrorKind, Seq<char>);

impl View for Error {
    type V = ErrorView;

    open spec fn view(&self) -> ErrorView {
        (self.kind, self.message@)
    }
}

/// A result with its error, if any, taken by its view.
pub open spec fn result_view<T>(result: Result<T, Error>) -> Result<T, ErrorView> {
    match result {
        Ok(value) => Ok(value),
        Err(error) => Err(error@),
    }
}

impl Error {
    /// An error of the given kind and message.
    pub fn new(kind: ErrorKind, message: String) -> (error: Error)
        ensures
            error@ == (kind, message@),
    {
        Error { kind, message }
    }

    /// A copy of this error.
    pub fn duplicate(&self) -> (error: Error)
        ensures
            error@ == self@,
    {
        Error { kind: self.kind, message: self.message.clone() }
    }
}

/// An error that reports bytes contradicting the format.
pub fn invalid_data(msg: &str) -> (error: Error)
    ensures
        error@ == (ErrorKind::InvalidData, msg@),
{
    Error { kind: ErrorKind::InvalidData, message: msg.to_owned() }
}

/// Same as [`invalid_data`], for a message that was put together at run time.
pub fn io_invalid_data(msg: String) -> (error: Error)
    ensures
        error@ == (ErrorKind::InvalidData, msg@),
{
    Error { kind: ErrorKind::InvalidData, message: msg }
}

/// An error that reports bytes ending before the value does.
pub fn unexpected_eof(msg: &str) -> (error: Error)
    ensures
        error@ == (ErrorKind::UnexpectedEof, msg@),
{
    Error { kind: ErrorKind::UnexpectedEof, message: msg.to_owned() }
}

} // verus!
