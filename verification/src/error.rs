//! Errors reported by every operation: a kind and a context message.

use vstd::prelude::*;
use vstd::string::*;

verus! {

/// The category of a failure.
#[derive(Clone, Copy, Debug, PartialEq, Eq, Structural)]
pub enum ErrorKind {
    /// The entry, or the document behind a locator, does not exist.
    NotFound,
    /// The name is already taken.
    AlreadyExists,
    /// An absolute path, a `.` or `..` component, an empty path or a file
    /// name without an extension.
    InvalidInput,
    /// A directory was expected and a file was found, or the reverse.
    WrongKind,
    /// The storage backend reported a failure; its message is passed on.
    ProviderFailure,
    /// A state that the engine's own bookkeeping rules out.
    InternalInvariantViolation,
}

/// A failure: its kind and what was being done when it happened.
#[derive(Debug)]
pub struct Error {
    pub kind: ErrorKind,
    pub context: String,
}

/// The mathematical value of an [`Error`].
pub struct ErrorView {
    pub kind: ErrorKind,
    pub context: Seq<char>,
}

impl View for Error {
    type V = ErrorView;

    open spec fn view(&self) -> ErrorView {
        ErrorView { kind: self.kind, context: self.context@ }
    }
}

impl Clone for Error {
    fn clone(&self) -> (copy: Self)
        ensures
            copy@ == self@,
    {
        Error { kind: self.kind, context: self.context.clone() }
    }
}

impl Error {
    /// An error of the given kind with `context` as its message.
    pub fn new(kind: ErrorKind, context: &str) -> (e: Error)
        ensures
            e@ == (ErrorView { kind, context: context@ }),
    {
        Error { kind, context: String::from_str(context) }
    }

    /// An error of the given kind whose message is `context` followed by `detail`.
    pub fn with_detail(kind: ErrorKind, context: &str, detail: &str) -> (e: Error)
        ensures
            e@ == (ErrorView { kind, context: context@ + detail@ }),
    {
        Error { kind, context: String::from_str(context).concat(detail) }
    }

    /// The message, as `kind: context`.
    pub fn message(&self) -> (s: String)
        ensures
            s@ == kind_name(self.kind) + ": "@ + self.context@,
    {
        let name = match self.kind {
            ErrorKind::NotFound => "not found",
            ErrorKind::AlreadyExists => "already exists",
            ErrorKind::InvalidInput => "invalid input",
            ErrorKind::WrongKind => "wrong kind",
            ErrorKind::ProviderFailure => "provider failure",
            ErrorKind::InternalInvariantViolation => "internal invariant violation",
        };
        String::from_str(name).concat(": ").concat(self.context.as_str())
    }
}

/// The view of the result of an operation that returns nothing.
pub open spec fn unit_view(r: Result<(), Error>) -> Result<(), ErrorView> {
    match r {
        Ok(_) => Ok(()),
        Err(e) => Err(e@),
    }
}

/// The words that stand for a kind in a message.
pub open spec fn kind_name(kind: ErrorKind) -> Seq<char> {
    match kind {
        ErrorKind::NotFound => "not found"@,
        ErrorKind::AlreadyExists => "already exists"@,
        ErrorKind::InvalidInput => "invalid input"@,
        ErrorKind::WrongKind => "wrong kind"@,
        ErrorKind::ProviderFailure => "provider failure"@,
        ErrorKind::InternalInvariantViolation => "internal invariant violation"@,
    }
}

} // verus!
