//! The error taxonomy of the library.

use vstd::prelude::*;

verus! {

/// Every fallible operation of the library returns one of these four kinds:
/// the backend cannot be reached or rejects a transaction control statement
/// (`ConnectionError`), a compiled statement is rejected or a row fails to
/// decode (`QueryError`), an instance or an identifier fails its invariant
/// check before any I/O (`ValidationError`), or a keyed update/delete affected
/// zero rows (`NotFound`). The payload is a human-readable context message.
#[derive(Debug)]
pub enum OrmError {
    ConnectionError(String),
    QueryError(String),
    ValidationError(String),
    NotFound(String),
}

impl OrmError {
    /// True exactly of the `ValidationError` variant.
    pub fn is_validation_error(&self) -> (r: bool)
        ensures
            r == (self is ValidationError),
    {
        match self {
            OrmError::ValidationError(_) => true,
            _ => false,
        }
    }

    /// True exactly of the `NotFound` variant.
    pub fn is_not_found(&self) -> (r: bool)
        ensures
            r == (self is NotFound),
    {
        match self {
            OrmError::NotFound(_) => true,
            _ => false,
        }
    }
}

} // verus!
