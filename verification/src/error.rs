//! The error type of the web handlers.
use vstd::prelude::*;

use crate::text::{extend_str, string_of};

verus! {

/// `eyre::Report`, an opaque error carried to the response.
#[verifier::external_type_specification]
#[verifier::external_body]
pub struct ExReport(eyre::Report);

/// `sqlx::Error`, carried opaquely.
#[verifier::external_type_specification]
#[verifier::external_body]
pub struct ExSqlxError(sqlx::Error);

/// `std::io::Error`, carried opaquely.
#[verifier::external_type_specification]
#[verifier::external_body]
pub struct ExIoError(std::io::Error);

/// Error of the database layer.
#[derive(Debug)]
pub enum DbError {
    Sqlx(sqlx::Error),
    Io(std::io::Error),
    Migration(String),
    NotFound(String),
    Conflict(String),
    Validation(String),
}

/// Error of an HTTP handler.
#[derive(Debug)]
pub enum AppError {
    /// The named resource does not exist.
    NotFound(&'static str),
    /// Anything else; logged, and answered with a generic message.
    Internal(eyre::Report),
}

impl AppError {
    /// The error for a missing `resource`.
    pub fn not_found(resource: &'static str) -> (e: Self)
        ensures
            e matches AppError::NotFound(r) && r@ == resource@,
    {
        AppError::NotFound(resource)
    }

    /// The HTTP status and body this error is answered with: 404 and
    /// `"<resource> not found"`, or 500 and `"internal server error"`.
    pub fn response_parts(&self) -> (r: (u16, String))
        ensures
            self matches AppError::NotFound(res) ==> r.0 == 404 && r.1@ == res@ + " not found"@,
            self is Internal ==> r.0 == 500 && r.1@ == "internal server error"@,
    {
        match self {
            AppError::NotFound(resource) => {
                let mut m: Vec<char> = Vec::new();
                extend_str(&mut m, resource);
                extend_str(&mut m, " not found");
                (404, string_of(m.as_slice()))
            },
            AppError::Internal(_) => (500, "internal server error".to_owned()),
        }
    }
}

} // verus!
