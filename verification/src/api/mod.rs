//! What the remote store answers: a payload, or an error with a numeric
//! code and a message.

pub mod drive;
pub mod oauth;

use vstd::prelude::*;
use crate::error::Error;

verus! {

/// One detail of an error that the remote store reported.
#[derive(Debug, Clone, PartialEq, Eq)]
pub struct ErrorData {
    pub domain: String,
    pub reason: String,
    pub message: String,
    pub location_type: Option<String>,
    pub location: Option<String>,
}

/// The mathematical value of an [`ErrorData`].
pub struct ErrorDataView {
    pub domain: Seq<char>,
    pub reason: Seq<char>,
    pub message: Seq<char>,
    pub location_type: Option<Seq<char>>,
    pub location: Option<Seq<char>>,
}

/// The text of an optional string.
pub open spec fn optional_text(value: Option<String>) -> Option<Seq<char>> {
    match value {
        Some(text) => Some(text@),
        None => None,
    }
}

impl View for ErrorData {
    type V = ErrorDataView;

    open spec fn view(&self) -> ErrorDataView {
        ErrorDataView {
            domain: self.domain@,
            reason: self.reason@,
            message: self.message@,
            location_type: optional_text(self.location_type),
            location: optional_text(self.location),
        }
    }
}

/// A copy of an optional string.
pub fn duplicate_optional(value: &Option<String>) -> (copy: Option<String>)
    ensures
        copy == *value,
{
    match value {
        Some(text) => Some(text.clone()),
        None => None,
    }
}

impl ErrorData {
    /// A copy of the detail.
    pub fn duplicate(&self) -> (copy: ErrorData)
        ensures
            copy == *self,
    {
        ErrorData {
            domain: self.domain.clone(),
            reason: self.reason.clone(),
            message: self.message.clone(),
            location_type: duplicate_optional(&self.location_type),
            location: duplicate_optional(&self.location),
        }
    }
}

/// An error that the remote store reported.
#[derive(Debug, Clone, PartialEq, Eq)]
pub struct GoogleError {
    pub code: i16,
    pub message: String,
    pub errors: Vec<ErrorData>,
}

/// The mathematical value of a [`GoogleError`].
pub struct GoogleErrorView {
    pub code: i16,
    pub message: Seq<char>,
    pub errors: Seq<ErrorDataView>,
}

impl View for GoogleError {
    type V = GoogleErrorView;

    open spec fn view(&self) -> GoogleErrorView {
        GoogleErrorView {
            code: self.code,
            message: self.message@,
            errors: Seq::new(self.errors@.len(), |i: int| self.errors@[i]@),
        }
    }
}

impl GoogleError {
    /// A copy of the error.
    pub fn duplicate(&self) -> (copy: GoogleError)
        ensures
            copy@ == self@,
    {
        let mut errors: Vec<ErrorData> = Vec::new();
        let mut index: usize = 0;
        while index < self.errors.len()
            invariant
                index <= self.errors@.len(),
                errors@.len() == index,
                forall|i: int| 0 <= i < index ==> errors@[i] == self.errors@[i],
            decreases self.errors@.len() - index,
        {
            errors.push(self.errors[index].duplicate());
            index += 1;
        }
        let copy = GoogleError { code: self.code, message: self.message.clone(), errors };
        assert(copy@.errors =~= self@.errors);
        copy
    }
}

/// An answer of the remote store: the payload, or the error that took its
/// place.
#[derive(Debug)]
pub struct GoogleResponse<T> {
    pub data: Option<T>,
    pub error: Option<GoogleError>,
}

impl<T> GoogleResponse<T> {
    /// Whether the answer holds an error or a payload.
    pub open spec fn is_answered(&self) -> bool {
        self.error is Some || self.data is Some
    }

    /// The payload of the answer, or its error where it holds one.
    pub fn into_result(self) -> (result: Result<T, Error>)
        requires
            self.is_answered(),
        ensures
            self.error is Some ==> result == Err::<T, Error>(
                Error::GoogleError(self.error->Some_0),
            ),
            self.error is None ==> result == Ok::<T, Error>(self.data->Some_0),
    {
        match self.error {
            Some(error) => Err(Error::GoogleError(error)),
            None => match self.data {
                Some(data) => Ok(data),
                None => vstd::pervasive::unreached(),
            },
        }
    }
}

} // verus!
