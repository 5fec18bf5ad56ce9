//! Error and pagination model of the server's API surface.

use vstd::prelude::*;

verus! {

/// Authentication failures, each carrying a short message.
#[derive(Debug, Clone)]
pub enum AuthError {
    MissingToken(String),
    InvalidToken(String),
    ExpiredToken(String),
    Unauthorized(String),
    Forbidden(String),
}

/// Error type of the server's fallible operations.
#[derive(Debug, Clone)]
pub enum NexusError {
    InternalError(String),
    AuthError(AuthError),
    BadRequest(String),
    NotFound(String),
}

impl NexusError {
    /// An internal error with the given message.
    pub fn internal_error(message: &str) -> (r: NexusError)
        ensures
            r matches NexusError::InternalError(m) && m@ == message@,
    {
        NexusError::InternalError(message.to_owned())
    }

    /// An invalid-token authentication error.
    pub fn invalid_token(message: &str) -> (r: NexusError)
        ensures
            r matches NexusError::AuthError(AuthError::InvalidToken(m)) && m@ == message@,
    {
        NexusError::AuthError(AuthError::InvalidToken(message.to_owned()))
    }

    /// A missing-token authentication error.
    pub fn missing_token(message: &str) -> (r: NexusError)
        ensures
            r matches NexusError::AuthError(AuthError::MissingToken(m)) && m@ == message@,
    {
        NexusError::AuthError(AuthError::MissingToken(message.to_owned()))
    }

    /// An expired-token authentication error.
    pub fn expired_token(message: &str) -> (r: NexusError)
        ensures
            r matches NexusError::AuthError(AuthError::ExpiredToken(m)) && m@ == message@,
    {
        NexusError::AuthError(AuthError::ExpiredToken(message.to_owned()))
    }

    /// A bad-request error.
    pub fn bad_request(message: &str) -> (r: NexusError)
        ensures
            r matches NexusError::BadRequest(m) && m@ == message@,
    {
        NexusError::BadRequest(message.to_owned())
    }

    /// A not-found error.
    pub fn not_found(message: &str) -> (r: NexusError)
        ensures
            r matches NexusError::NotFound(m) && m@ == message@,
    {
        NexusError::NotFound(message.to_owned())
    }

    /// An unauthorized error.
    pub fn unauthorized(message: &str) -> (r: NexusError)
        ensures
            r matches NexusError::AuthError(AuthError::Unauthorized(m)) && m@ == message@,
    {
        NexusError::AuthError(AuthError::Unauthorized(message.to_owned()))
    }

    /// A forbidden error.
    pub fn forbidden(message: &str) -> (r: NexusError)
        ensures
            r matches NexusError::AuthError(AuthError::Forbidden(m)) && m@ == message@,
    {
        NexusError::AuthError(AuthError::Forbidden(message.to_owned()))
    }
}

/// Result alias used across the server-side logic.
pub type NexusResult<T> = Result<T, NexusError>;

/// Pagination of a response: how many records exist, and the window returned.
#[derive(Debug, Clone)]
pub struct ResponsePagination {
    pub count: u64,
    pub offset: u64,
    pub limit: u32,
}

/// Pagination of a request, as taken from query parameters.
#[derive(Debug, Clone)]
pub struct RequestPagination {
    pub offset: u64,
    pub limit: u32,
}

impl RequestPagination {
    /// The widest window a request may ask for.
    pub fn max_limit() -> (r: RequestPagination)
        ensures
            r.offset == 0,
            r.limit == 100,
    {
        RequestPagination { offset: 0, limit: 100 }
    }
}

} // verus!
