//! The request-level error taxonomy and the HTTP status each error maps to.

use vstd::prelude::*;

verus! {

/// An error answered to a request: a failed identifier parse, a missing
/// resource, an internal failure, or a rejected request body.
#[derive(Debug)]
pub enum Error {
    ParseObjectID(String),
    NotFound(String),
    InternalServerError(String),
    BadRequest(String),
}

impl Error {
    pub fn bad_request(message: String) -> (e: Error)
        ensures
            e == Error::BadRequest(message),
    {
        Error::BadRequest(message)
    }

    /// The HTTP status code this error is answered with.
    pub fn status_code(&self) -> (code: u16)
        ensures
            code == match self {
                Error::ParseObjectID(_) => 500u16,
                Error::NotFound(_) => 404u16,
                Error::InternalServerError(_) => 500u16,
                Error::BadRequest(_) => 400u16,
            },
    {
        match self {
            Error::ParseObjectID(_) => 500,
            Error::NotFound(_) => 404,
            Error::InternalServerError(_) => 500,
            Error::BadRequest(_) => 400,
        }
    }
}

/// A bare bad-request marker.
pub struct BadRequest {}

} // verus!
