use vstd::prelude::*;

verus! {

/// Tagged error taxonomy shared by every component of the library.
#[derive(Debug, PartialEq, Eq)]
pub enum AppError {
    /// Malformed or unsupported input, bad parameters.
    Invalid(String),
    /// A container, entry or member that does not exist.
    Missing(String),
    /// A shard compression scheme that is not handled.
    UnsupportedCompression(String),
    /// An offset table or field bound invariant was violated.
    MalformedChunk,
    /// Local filesystem failure.
    Io(String),
    /// Transport failure or an unusable remote response.
    Remote(String),
    /// Worker or lock failure.
    Task(String),
    /// An external viewer could not be launched.
    Open(String),
}

/// Result type used across the library.
pub type AppResult<T> = Result<T, AppError>;

/// Builds an `Invalid` error from a message.
pub fn invalid(msg: &str) -> (r: AppError)
    ensures
        r is Invalid,
{
    AppError::Invalid(msg.to_string())
}

/// Builds a `Missing` error from a message.
pub fn missing(msg: &str) -> (r: AppError)
    ensures
        r is Missing,
{
    AppError::Missing(msg.to_string())
}

} // verus!
