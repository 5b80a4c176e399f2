//! Error taxonomy for the catalog services.

use vstd::prelude::*;

verus! {

/// One typed error per failed operation.
///
/// `NotFound`: the requested entity id does not exist.
/// `Conflict`: a uniqueness rule would be violated (duplicate category name).
/// `Validation`: the supplied data fails a domain invariant.
/// `BadRequest` / `Unauthorized` / `Internal` round out the taxonomy for the
/// HTTP binding; the store itself only produces the first three.
#[derive(Debug, PartialEq, Eq)]
pub enum ApiError {
    NotFound(String),
    BadRequest(String),
    Internal(String),
    Validation(String),
    Conflict(String),
    Unauthorized(String),
}

impl ApiError {
    /// Builds a `NotFound` error carrying the given message.
    pub fn not_found_simple(message: &str) -> (r: ApiError)
        ensures
            r matches ApiError::NotFound(m) && m@ == message@,
    {
        ApiError::NotFound(message.to_owned())
    }

    /// Builds a `BadRequest` error carrying the given message.
    pub fn bad_request(message: &str) -> (r: ApiError)
        ensures
            r matches ApiError::BadRequest(m) && m@ == message@,
    {
        ApiError::BadRequest(message.to_owned())
    }

    /// Builds an `Internal` error carrying the given message.
    pub fn internal_server_error(message: &str) -> (r: ApiError)
        ensures
            r matches ApiError::Internal(m) && m@ == message@,
    {
        ApiError::Internal(message.to_owned())
    }
}

} // verus!
