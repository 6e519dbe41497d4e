//! The closed set of failure kinds the coordinator reports.

use vstd::prelude::*;
use vstd::string::StringExecFns;

verus! {

/// Failure kinds. Structural errors abort a command; protocol errors are
/// carried inside a response envelope instead.
#[derive(Debug)]
pub enum KenError {
    NotInitialized,
    AlreadyInitialized,
    Database(String),
    Json(String),
    Io(String),
    SessionNotFound(String),
    InvalidRequest(String),
}

/// The human-readable message for an error.
pub open spec fn error_message(e: KenError) -> Seq<char> {
    match e {
        KenError::NotInitialized => "Not initialized: run 'ken init' first"@,
        KenError::AlreadyInitialized => "Already initialized: .ken directory exists"@,
        KenError::Database(s) => "Database error: "@ + s@,
        KenError::Json(s) => "JSON error: "@ + s@,
        KenError::Io(s) => "IO error: "@ + s@,
        KenError::SessionNotFound(s) => "Session not found: "@ + s@,
        KenError::InvalidRequest(s) => "Invalid request: "@ + s@,
    }
}

impl KenError {
    /// Renders the error for display.
    pub fn message(&self) -> (r: String)
        ensures
            r@ == error_message(*self),
    {
        match self {
            KenError::NotInitialized => String::from_str("Not initialized: run 'ken init' first"),
            KenError::AlreadyInitialized => String::from_str(
                "Already initialized: .ken directory exists",
            ),
            KenError::Database(s) => String::from_str("Database error: ").concat(s.as_str()),
            KenError::Json(s) => String::from_str("JSON error: ").concat(s.as_str()),
            KenError::Io(s) => String::from_str("IO error: ").concat(s.as_str()),
            KenError::SessionNotFound(s) => String::from_str("Session not found: ").concat(
                s.as_str(),
            ),
            KenError::InvalidRequest(s) => String::from_str("Invalid request: ").concat(s.as_str()),
        }
    }
}

} // verus!
