//! The error taxonomy of the serving engine and its mapping to HTTP
//! status codes and user-safe messages.

use vstd::prelude::*;

verus! {

/// Why a request could not be served. Every failure of the engine is
/// one of these; none is retried.
#[derive(Clone, Copy, Debug, PartialEq, Eq, Structural)]
pub enum ServeError {
    /// The raw request path is syntactically unacceptable: absolute,
    /// containing `..`, or containing a backslash.
    InvalidRequestPath,
    /// The path canonicalizes to a location outside the served root.
    TraversalRejected,
    /// The target is absent or not of the expected kind.
    NotFound,
    /// Metadata or content could not be read.
    IoFailure,
}

impl ServeError {
    /// The HTTP status code each error is reported with.
    pub open spec fn spec_status_code(self) -> u16 {
        match self {
            ServeError::InvalidRequestPath => 400,
            ServeError::TraversalRejected => 403,
            ServeError::NotFound => 404,
            ServeError::IoFailure => 500,
        }
    }

    pub fn status_code(&self) -> (c: u16)
        ensures
            c == self.spec_status_code(),
    {
        match self {
            ServeError::InvalidRequestPath => 400,
            ServeError::TraversalRejected => 403,
            ServeError::NotFound => 404,
            ServeError::IoFailure => 500,
        }
    }

    /// The short, user-safe message of each error. Raw OS error text
    /// is never part of it.
    pub open spec fn spec_message(self) -> Seq<char> {
        match self {
            ServeError::InvalidRequestPath => "Invalid file path"@,
            ServeError::TraversalRejected => "Access denied"@,
            ServeError::NotFound => "File not found"@,
            ServeError::IoFailure => "Internal server error"@,
        }
    }

    pub fn message(&self) -> (m: String)
        ensures
            m@ == self.spec_message(),
    {
        match self {
            ServeError::InvalidRequestPath => String::from_str("Invalid file path"),
            ServeError::TraversalRejected => String::from_str("Access denied"),
            ServeError::NotFound => String::from_str("File not found"),
            ServeError::IoFailure => String::from_str("Internal server error"),
        }
    }
}

} // verus!
