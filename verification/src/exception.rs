//! The service's error taxonomy.
//!
//! Every request-path failure collapses into `Unauthorized`, answered with
//! HTTP 401 and a Basic challenge; the other variants cover conversion and
//! database faults and answer with HTTP 500. The HTTP layer renders the
//! response; this type only fixes the message, status and error code.

use vstd::prelude::*;
use vstd::string::*;

verus! {

pub enum ApiError {
    /// A size conversion failed.
    InvalidSize,
    /// The database reported the carried message.
    DbError(String),
    /// The request could not be authenticated.
    Unauthorized,
}

impl ApiError {
    /// The human-readable message the JSON error body carries.
    pub fn message(&self) -> (r: String)
        ensures
            self is InvalidSize ==> r@ == "Invalid length"@,
            self matches ApiError::DbError(m) ==> r@ == "Db error "@ + m@,
            self is Unauthorized ==> r@ == "Unauthorized"@,
    {
        match self {
            ApiError::InvalidSize => String::from_str("Invalid length"),
            ApiError::DbError(m) => String::from_str("Db error ").concat(m.as_str()),
            ApiError::Unauthorized => String::from_str("Unauthorized"),
        }
    }

    /// The HTTP status the error is answered with: 401 for an
    /// authentication failure, 500 otherwise.
    pub fn http_status(&self) -> (r: u16)
        ensures
            r == 401 <==> self is Unauthorized,
            self is Unauthorized || r == 500,
    {
        match self {
            ApiError::Unauthorized => 401,
            _ => 500,
        }
    }

    /// The error code the JSON body carries, the same for every variant.
    pub fn error_code(&self) -> (r: i32)
        ensures
            r == -1,
    {
        -1
    }
}

} // verus!
