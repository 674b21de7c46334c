//! The engine's error type.
use vstd::prelude::*;
use crate::strings::{concat, concat3, concat4, concat5, concat6, decimal, u64_to_string};

verus! {

/// Errors of the engine. A failed job or a malformed path is reported, never
/// a panic.
#[derive(Debug, Clone, PartialEq, Eq)]
pub enum PithError {
    /// An I/O failure at a path, with the system's description of it.
    Io { path: String, reason: String },
    Parse { segment: String, reason: String },
    Permission { identity: u64, verb: String, path: String },
    NotFound { path: String },
    InvalidPath { path: String, reason: String },
    Boot { reason: String },
    Subsystem { subsystem: String, reason: String },
    Watcher { reason: String },
    Api { reason: String },
    Session { reason: String },
    Auth { reason: String },
}

/// The message of an error, as the engine prints it.
pub open spec fn error_message(e: PithError) -> Seq<char> {
    match e {
        PithError::Io { path, reason } => "IO error at "@ + path@ + ": "@ + reason@,
        PithError::Parse { segment, reason } => "Parse error in segment '"@ + segment@ + "': "@ + reason@,
        PithError::Permission { identity, verb, path } => "Permission denied: identity "@ + decimal(identity as nat) + " cannot "@
            + verb@ + " at "@ + path@,
        PithError::NotFound { path } => "Path not found: "@ + path@,
        PithError::InvalidPath { path, reason } => "Invalid path: "@ + path@ + " — "@ + reason@,
        PithError::Boot { reason } => "Boot failure: "@ + reason@,
        PithError::Subsystem { subsystem, reason } => "Subsystem error in "@ + subsystem@ + ": "@ + reason@,
        PithError::Watcher { reason } => "Watcher error: "@ + reason@,
        PithError::Api { reason } => "API error: "@ + reason@,
        PithError::Session { reason } => "Session error: "@ + reason@,
        PithError::Auth { reason } => "Authentication error: "@ + reason@,
    }
}

impl PithError {
    /// The message of the error, as the engine prints it.
    pub fn message(&self) -> (r: String)
        ensures
            r@ == error_message(*self),
    {
        match self {
            PithError::Io { path, reason } => concat4("IO error at ", path.as_str(), ": ", reason.as_str()),
            PithError::Parse { segment, reason } => concat4("Parse error in segment '", segment.as_str(), "': ", reason.as_str()),
            PithError::Permission { identity, verb, path } => {
                let n = u64_to_string(*identity);
                concat6("Permission denied: identity ", n.as_str(), " cannot ", verb.as_str(), " at ", path.as_str())
            },
            PithError::NotFound { path } => concat("Path not found: ", path.as_str()),
            PithError::InvalidPath { path, reason } => concat4("Invalid path: ", path.as_str(), " — ", reason.as_str()),
            PithError::Boot { reason } => concat("Boot failure: ", reason.as_str()),
            PithError::Subsystem { subsystem, reason } => concat4("Subsystem error in ", subsystem.as_str(), ": ", reason.as_str()),
            PithError::Watcher { reason } => concat("Watcher error: ", reason.as_str()),
            PithError::Api { reason } => concat("API error: ", reason.as_str()),
            PithError::Session { reason } => concat("Session error: ", reason.as_str()),
            PithError::Auth { reason } => concat("Authentication error: ", reason.as_str()),
        }
    }
}

} // verus!
