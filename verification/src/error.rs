//! The errors that a run can end with.

use vstd::prelude::*;
use crate::api::{GoogleError, GoogleErrorView};

verus! {

/// Why an operation failed.
#[derive(Debug, Clone, PartialEq, Eq)]
pub enum Error {
    /// The remote store rejected a call.
    GoogleError(GoogleError),
    /// The state store could not be read or written.
    DatabaseError(String),
    /// A request did not reach the remote store, or its answer could not be
    /// read.
    RequestError(String),
    /// Anything else, with its description.
    Other(String),
}

/// The mathematical value of an [`Error`].
pub enum ErrorView {
    GoogleError(GoogleErrorView),
    DatabaseError(Seq<char>),
    RequestError(Seq<char>),
    Other(Seq<char>),
}

impl View for Error {
    type V = ErrorView;

    open spec fn view(&self) -> ErrorView {
        match self {
            Error::GoogleError(error) => ErrorView::GoogleError(error@),
            Error::DatabaseError(text) => ErrorView::DatabaseError(text@),
            Error::RequestError(text) => ErrorView::RequestError(text@),
            Error::Other(text) => ErrorView::Other(text@),
        }
    }
}

impl Error {
    /// A copy of the error.
    pub fn duplicate(&self) -> (copy: Error)
        ensures
            copy@ == self@,
    {
        match self {
            Error::GoogleError(error) => Error::GoogleError(error.duplicate()),
            Error::DatabaseError(text) => Error::DatabaseError(text.clone()),
            Error::RequestError(text) => Error::RequestError(text.clone()),
            Error::Other(text) => Error::Other(text.clone()),
        }
    }
}

} // verus!
