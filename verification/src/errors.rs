//! The service's error taxonomy: bad input, not found, storage failure
//! and unexpected internal failure, and the mapping from each to the
//! outward HTTP response parts.

use vstd::prelude::*;
use vstd::string::StringExecFns;

verus! {

/// An operation's failure. A storage failure carries the underlying
/// cause for the log; the cause is never shown to the caller.
#[derive(Debug)]
pub enum AppError {
    Database(String),
    NotFound(String),
    BadRequest(String),
    Internal(String),
}

impl AppError {
    /// The outward response for this error: the HTTP status code, the
    /// short error label, and the message body. A storage failure is
    /// reported generically; its cause stays inside.
    pub fn error_response(&self) -> (r: (u16, String, String))
        ensures
            (self matches AppError::Database(_) ==> r.0 == 500 && r.1@ == "Internal server error"@
                && r.2@ == "Database operation failed"@),
            (self matches AppError::NotFound(m) ==> r.0 == 404 && r.1@ == "Not found"@ && r.2@
                == m@),
            (self matches AppError::BadRequest(m) ==> r.0 == 400 && r.1@ == "Bad request"@ && r.2@
                == m@),
            (self matches AppError::Internal(m) ==> r.0 == 500 && r.1@
                == "Internal server error"@ && r.2@ == m@),
    {
        match self {
            AppError::Database(_) => (
                500,
                String::from_str("Internal server error"),
                String::from_str("Database operation failed"),
            ),
            AppError::NotFound(m) => (404, String::from_str("Not found"), m.clone()),
            AppError::BadRequest(m) => (400, String::from_str("Bad request"), m.clone()),
            AppError::Internal(m) => (
                500,
                String::from_str("Internal server error"),
                m.clone(),
            ),
        }
    }
}

/// The outcome of a service operation.
pub type AppResult<T> = Result<T, AppError>;

} // verus!
