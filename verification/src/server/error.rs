use vstd::prelude::*;

verus! {

#[derive(Debug, Clone, PartialEq, Eq)]
pub enum ServerError {
    Startup(String),
}

/// Why a request is refused, as the API reports it.
#[derive(Debug, Clone, Copy, PartialEq, Eq, Structural)]
pub enum ApiError {
    AuthenticationRequired,
    InvalidCredentials,
    TooManyAttempts,
    InvalidOrigin,
    CsrfMismatch,
    InvalidRequest,
    NotFound,
    Conflict,
    QualityExceedsLimit,
    QualityUnavailable,
    InvalidSource,
    ProviderUnavailable,
    Internal,
}

} // verus!
