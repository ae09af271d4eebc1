//! The shared error-code taxonomy.

use vstd::prelude::*;

verus! {

/// Canonical error codes returned by the daemon.
#[derive(Debug, Clone, Copy, PartialEq, Eq, Structural, Hash)]
pub enum ErrorCode {
    /// The daemon is starting up and not yet ready.
    NotReady,
    /// The requested resource does not exist.
    NotFound,
    /// A conflicting operation is in progress.
    Conflict,
    /// An internal daemon error occurred.
    Internal,
    /// The requested operation is not supported by this host.
    Unsupported,
    /// The client and daemon speak incompatible protocol versions.
    VersionMismatch,
    /// The operation timed out.
    Timeout,
    /// A resource is locked by another operation.
    Busy,
}

/// The wire name of each code, in snake case.
pub open spec fn code_text(c: ErrorCode) -> Seq<char> {
    match c {
        ErrorCode::NotReady => "not_ready"@,
        ErrorCode::NotFound => "not_found"@,
        ErrorCode::Conflict => "conflict"@,
        ErrorCode::Internal => "internal"@,
        ErrorCode::Unsupported => "unsupported"@,
        ErrorCode::VersionMismatch => "version_mismatch"@,
        ErrorCode::Timeout => "timeout"@,
        ErrorCode::Busy => "busy"@,
    }
}

impl ErrorCode {
    /// The code's wire name, as it is displayed and serialized.
    pub fn as_str(&self) -> (r: &'static str)
        ensures
            r@ == code_text(*self),
    {
        match self {
            ErrorCode::NotReady => "not_ready",
            ErrorCode::NotFound => "not_found",
            ErrorCode::Conflict => "conflict",
            ErrorCode::Internal => "internal",
            ErrorCode::Unsupported => "unsupported",
            ErrorCode::VersionMismatch => "version_mismatch",
            ErrorCode::Timeout => "timeout",
            ErrorCode::Busy => "busy",
        }
    }
}

} // verus!
