//! The error every storage and reducer operation reports.

use vstd::prelude::*;
use vstd::string::*;

use crate::base::text::join;

verus! {

/// An error with a stable classification and a message.
#[derive(Debug, PartialEq, Eq)]
pub enum Error {
    /// The named thing does not exist.
    NotFound(String),
    /// The named thing exists already.
    AlreadyExists(String),
    /// An argument is out of its domain.
    InvalidArgument(String),
    /// A concurrent change conflicts.
    Conflict(String),
    /// The transaction was committed before.
    AlreadyCommitted(String),
    /// The transaction was aborted before.
    AlreadyAborted(String),
    /// The transaction cannot be used this way.
    InvalidTransaction(String),
    /// A bound was reached.
    Capacity(String),
    /// An internal invariant is broken.
    Internal(String),
    /// The operation is not supported.
    Unsupported(String),
}

/// The mathematical content of an [`Error`].
pub enum ErrorView {
    NotFound(Seq<char>),
    AlreadyExists(Seq<char>),
    InvalidArgument(Seq<char>),
    Conflict(Seq<char>),
    AlreadyCommitted(Seq<char>),
    AlreadyAborted(Seq<char>),
    InvalidTransaction(Seq<char>),
    Capacity(Seq<char>),
    Internal(Seq<char>),
    Unsupported(Seq<char>),
}

impl View for Error {
    type V = ErrorView;

    open spec fn view(&self) -> ErrorView {
        match self {
            Error::NotFound(m) => ErrorView::NotFound(m@),
            Error::AlreadyExists(m) => ErrorView::AlreadyExists(m@),
            Error::InvalidArgument(m) => ErrorView::InvalidArgument(m@),
            Error::Conflict(m) => ErrorView::Conflict(m@),
            Error::AlreadyCommitted(m) => ErrorView::AlreadyCommitted(m@),
            Error::AlreadyAborted(m) => ErrorView::AlreadyAborted(m@),
            Error::InvalidTransaction(m) => ErrorView::InvalidTransaction(m@),
            Error::Capacity(m) => ErrorView::Capacity(m@),
            Error::Internal(m) => ErrorView::Internal(m@),
            Error::Unsupported(m) => ErrorView::Unsupported(m@),
        }
    }
}

impl ErrorView {
    /// The text shown to people: the classification, then the message.
    pub open spec fn text(self) -> Seq<char> {
        match self {
            ErrorView::NotFound(m) => "not found: "@ + m,
            ErrorView::AlreadyExists(m) => "already exists: "@ + m,
            ErrorView::InvalidArgument(m) => "invalid argument: "@ + m,
            ErrorView::Conflict(m) => "conflict: "@ + m,
            ErrorView::AlreadyCommitted(m) => "already committed: "@ + m,
            ErrorView::AlreadyAborted(m) => "already aborted: "@ + m,
            ErrorView::InvalidTransaction(m) => "invalid transaction: "@ + m,
            ErrorView::Capacity(m) => "capacity: "@ + m,
            ErrorView::Internal(m) => "internal: "@ + m,
            ErrorView::Unsupported(m) => "unsupported: "@ + m,
        }
    }
}

impl Error {
    /// A [`Error::NotFound`] with the given message.
    pub fn not_found(message: &str) -> (error: Error)
        ensures
            error@ == ErrorView::NotFound(message@),
    {
        Error::NotFound(message.to_owned())
    }

    /// A [`Error::InvalidArgument`] with the given message.
    pub fn invalid_argument(message: &str) -> (error: Error)
        ensures
            error@ == ErrorView::InvalidArgument(message@),
    {
        Error::InvalidArgument(message.to_owned())
    }

    /// The text shown to people.
    pub fn to_text(&self) -> (text: String)
        ensures
            text@ == self@.text(),
    {
        match self {
            Error::NotFound(m) => join("not found: ", m.as_str()),
            Error::AlreadyExists(m) => join("already exists: ", m.as_str()),
            Error::InvalidArgument(m) => join("invalid argument: ", m.as_str()),
            Error::Conflict(m) => join("conflict: ", m.as_str()),
            Error::AlreadyCommitted(m) => join("already committed: ", m.as_str()),
            Error::AlreadyAborted(m) => join("already aborted: ", m.as_str()),
            Error::InvalidTransaction(m) => join("invalid transaction: ", m.as_str()),
            Error::Capacity(m) => join("capacity: ", m.as_str()),
            Error::Internal(m) => join("internal: ", m.as_str()),
            Error::Unsupported(m) => join("unsupported: ", m.as_str()),
        }
    }
}

impl Clone for Error {
    fn clone(&self) -> (copy: Self)
        ensures
            copy@ == self@,
    {
        match self {
            Error::NotFound(m) => Error::NotFound(m.clone()),
            Error::AlreadyExists(m) => Error::AlreadyExists(m.clone()),
            Error::InvalidArgument(m) => Error::InvalidArgument(m.clone()),
            Error::Conflict(m) => Error::Conflict(m.clone()),
            Error::AlreadyCommitted(m) => Error::AlreadyCommitted(m.clone()),
            Error::AlreadyAborted(m) => Error::AlreadyAborted(m.clone()),
            Error::InvalidTransaction(m) => Error::InvalidTransaction(m.clone()),
            Error::Capacity(m) => Error::Capacity(m.clone()),
            Error::Internal(m) => Error::Internal(m.clone()),
            Error::Unsupported(m) => Error::Unsupported(m.clone()),
        }
    }
}

} // verus!
