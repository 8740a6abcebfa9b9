//! Errors that a request handler answers with.

use vstd::prelude::*;

verus! {

/// A refused request.
#[derive(Debug)]
pub enum AppError {
    /// The addressed row does not exist (or is not the caller's).
    NotFound,
    /// The request cannot be served as asked; the text says why.
    BadRequest(String),
    /// Something on the server's side went wrong; the text says what.
    InternalServerError(String),
}

} // verus!
