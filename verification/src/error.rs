use vstd::prelude::*;

verus! {

/// An error encountered while validating or parsing multipart form data.
#[derive(Copy, Clone, Debug, PartialEq, Eq, Structural)]
#[non_exhaustive]
pub enum Error {
    /// The supplied boundary is empty, too long, or contains an invalid byte.
    InvalidBoundary,
    /// The body does not contain a valid opening boundary delimiter.
    MissingOpeningBoundary,
    /// A part is not followed by another part or a closing boundary delimiter.
    MissingClosingBoundary,
    /// A `Content-Disposition` header has no `name` parameter.
    MissingName,
    /// A part has no valid `Content-Disposition` header.
    MissingContentDisposition,
    /// The multipart body is otherwise malformed.
    MalformedBody,
}

/// How a grammar rule failed.
///
/// `Backtrack` lets an enclosing alternative try its next branch, `Cut`
/// commits to the failure, and `Incomplete` means that the rule reached the
/// end of a partial input and needs more bytes to decide. A failure may carry
/// the library error that explains it.
#[derive(Copy, Clone, Debug, PartialEq, Eq)]
pub enum Failure {
    /// The rule did not match; alternatives may be tried.
    Backtrack(Option<Error>),
    /// The rule did not match and no alternative may be tried.
    Cut(Option<Error>),
    /// More input is needed to decide.
    Incomplete,
}

impl Failure {
    /// Whether more input is needed to decide.
    pub fn is_incomplete(&self) -> (r: bool)
        ensures
            r == (*self is Incomplete),
    {
        match self {
            Failure::Incomplete => true,
            _ => false,
        }
    }
}

/// The library error that a grammar failure reports: its cause where it has
/// one, else `MalformedBody`.
pub open spec fn spec_error_of(failure: Failure) -> Error {
    match failure {
        Failure::Backtrack(Some(e)) => e,
        Failure::Cut(Some(e)) => e,
        _ => Error::MalformedBody,
    }
}

impl Error {
    /// Converts a grammar failure into the error reported to callers.
    pub fn from_failure(failure: Failure) -> (r: Self)
        ensures
            r == spec_error_of(failure),
    {
        match failure {
            Failure::Backtrack(Some(e)) => e,
            Failure::Cut(Some(e)) => e,
            _ => Error::MalformedBody,
        }
    }

    /// The human-readable description of this error.
    pub fn message(&self) -> (r: &'static str)
        ensures
            r@ == spec_message(*self),
    {
        match self {
            Error::InvalidBoundary => "invalid multipart boundary",
            Error::MissingOpeningBoundary => "multipart body has no opening boundary",
            Error::MissingClosingBoundary => "multipart part has no closing boundary",
            Error::MissingName => "name is missing from the content-disposition header",
            Error::MissingContentDisposition => "content-disposition is missing from the part headers",
            Error::MalformedBody => "malformed multipart body",
        }
    }
}

/// The description of each error.
pub open spec fn spec_message(e: Error) -> Seq<char> {
    match e {
        Error::InvalidBoundary => "invalid multipart boundary"@,
        Error::MissingOpeningBoundary => "multipart body has no opening boundary"@,
        Error::MissingClosingBoundary => "multipart part has no closing boundary"@,
        Error::MissingName => "name is missing from the content-disposition header"@,
        Error::MissingContentDisposition => "content-disposition is missing from the part headers"@,
        Error::MalformedBody => "malformed multipart body"@,
    }
}

} // verus!
