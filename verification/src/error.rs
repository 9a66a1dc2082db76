//! The error every fallible operation of the library returns: a category and
//! a message.

use vstd::prelude::*;

verus! {

/// The category of a failure.
#[derive(Clone, Copy, Debug, PartialEq, Eq, Structural)]
pub enum ErrorKind {
    /// A transaction or a parameter was rejected; the submitter may retry.
    InvalidInput,
    /// Something that was asked for is not there.
    NotFound,
    /// The store holds something other than what belongs under a key.
    Storage,
    /// A message could not be read or published.
    Protocol,
    /// The node cannot start or go on: the keystore could not be opened.
    Fatal,
    /// Another validator holds the slot.
    NotElected,
}

/// A failure: its category and what is told to the caller.
#[derive(Clone, Debug, PartialEq, Eq)]
pub struct Error {
    pub kind: ErrorKind,
    pub message: String,
}

/// A failure as plain values: its category and its message.
pub type Failure = (ErrorKind, Seq<char>);

/// The failure of a `Storage` error for a record of the wrong kind.
pub open spec fn unexpected_record() -> Failure {
    (ErrorKind::Storage, "Unexpected record"@)
}

/// What a result without a value says: success, or the failure.
pub open spec fn verdict<T>(result: Result<T, Error>) -> Result<(), Failure> {
    match result {
        Ok(_) => Ok(()),
        Err(e) => Err(e.failure()),
    }
}

impl Error {
    /// The error as plain values.
    pub open spec fn failure(self) -> Failure {
        (self.kind, self.message@)
    }

    /// Whether this error has the given category and message.
    pub open spec fn is(self, kind: ErrorKind, message: Seq<char>) -> bool {
        self.kind == kind && self.message@ == message
    }

    /// An error of a category with a fixed message.
    pub fn new(kind: ErrorKind, message: &str) -> (error: Error)
        ensures
            error.is(kind, message@),
    {
        Error { kind, message: message.to_owned() }
    }

    /// An error of a category whose message is a fixed text followed by a
    /// detail.
    pub fn with_detail(kind: ErrorKind, message: &str, detail: &str) -> (error: Error)
        ensures
            error.is(kind, message@ + detail@),
    {
        let mut text = message.to_owned();
        text.append(detail);
        Error { kind, message: text }
    }

    /// The category.
    pub fn kind(&self) -> (kind: ErrorKind)
        ensures
            kind == self.kind,
    {
        self.kind
    }

    /// The message.
    pub fn message(&self) -> (message: String)
        ensures
            message@ == self.message@,
    {
        self.message.clone()
    }
}

} // verus!
