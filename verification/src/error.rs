//! What can go wrong while a record is read or written.

use vstd::prelude::*;

verus! {

/// The kinds of failure.
#[derive(Debug)]
pub enum ErrorKind {
    /// The underlying source or sink failed, or gave bytes that are no text.
    Io(String),
    /// A line is no record; the text says which line or field and why.
    ReadRecord(String),
    /// A mandatory numeric column is no number of the width asked for; the
    /// text is that column.
    ParseInt(String),
}

/// A failure with its text as a sequence of characters.
pub enum Failure {
    Io(Seq<char>),
    ReadRecord(Seq<char>),
    ParseInt(Seq<char>),
}

impl Failure {
    /// The text that the failure carries.
    pub open spec fn text(self) -> Seq<char> {
        match self {
            Failure::Io(t) => t,
            Failure::ReadRecord(t) => t,
            Failure::ParseInt(t) => t,
        }
    }
}

impl View for ErrorKind {
    type V = Failure;

    open spec fn view(&self) -> Failure {
        match self {
            ErrorKind::Io(t) => Failure::Io(t@),
            ErrorKind::ReadRecord(t) => Failure::ReadRecord(t@),
            ErrorKind::ParseInt(t) => Failure::ParseInt(t@),
        }
    }
}

/// An error of this library: a kind of failure.
#[derive(Debug)]
pub struct Error {
    kind: ErrorKind,
}

impl View for Error {
    type V = Failure;

    closed spec fn view(&self) -> Failure {
        self.kind@
    }
}

impl Error {
    /// An error of the given kind.
    pub fn new(kind: ErrorKind) -> (e: Error)
        ensures
            e@ == kind@,
    {
        Error { kind }
    }

    /// The kind of the error.
    pub fn kind(&self) -> (k: &ErrorKind)
        ensures
            k@ == self@,
    {
        &self.kind
    }

    /// The kind of the error, taken out of it.
    pub fn into_kind(self) -> (k: ErrorKind)
        ensures
            k@ == self@,
    {
        self.kind
    }

    /// The text that the error carries.
    pub fn message(&self) -> (t: &String)
        ensures
            t@ == self@.text(),
    {
        match &self.kind {
            ErrorKind::Io(t) => t,
            ErrorKind::ReadRecord(t) => t,
            ErrorKind::ParseInt(t) => t,
        }
    }
}

} // verus!
