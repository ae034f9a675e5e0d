use vstd::prelude::*;
use crate::text::concat;

verus! {

/// Errors of the orchestrator. Errors that come from outside the library
/// (I/O, YAML, JSON) carry their message.
#[derive(Debug, Clone)]
pub enum ServinelError {
    Io(String),
    Yaml(String),
    Json(String),
    ComposeNotFound(String),
    InvalidCompose(String),
    AppNotFound(String),
    ServiceNotFound(String),
    ProfileNotFound(String),
    DaemonNotRunning,
    Usage(String),
}

/// The text shown to a user for an error.
pub open spec fn error_message(e: ServinelError) -> Seq<char> {
    match e {
        ServinelError::Io(m) => "I/O error: "@ + m@,
        ServinelError::Yaml(m) => "YAML error: "@ + m@,
        ServinelError::Json(m) => "JSON error: "@ + m@,
        ServinelError::ComposeNotFound(p) => "Compose file not found: "@ + p@,
        ServinelError::InvalidCompose(m) => "Invalid compose file: "@ + m@,
        ServinelError::AppNotFound(a) => "App not found: "@ + a@,
        ServinelError::ServiceNotFound(s) => "Service not found: "@ + s@,
        ServinelError::ProfileNotFound(p) => "Profile not found: "@ + p@,
        ServinelError::DaemonNotRunning => "Daemon is not running"@,
        ServinelError::Usage(m) => "CLI usage error: "@ + m@,
    }
}

impl ServinelError {
    /// The text shown to a user for this error.
    pub fn message(&self) -> (r: String)
        ensures
            r@ == error_message(*self),
    {
        match self {
            ServinelError::Io(m) => concat("I/O error: ", m.as_str()),
            ServinelError::Yaml(m) => concat("YAML error: ", m.as_str()),
            ServinelError::Json(m) => concat("JSON error: ", m.as_str()),
            ServinelError::ComposeNotFound(p) => concat("Compose file not found: ", p.as_str()),
            ServinelError::InvalidCompose(m) => concat("Invalid compose file: ", m.as_str()),
            ServinelError::AppNotFound(a) => concat("App not found: ", a.as_str()),
            ServinelError::ServiceNotFound(s) => concat("Service not found: ", s.as_str()),
            ServinelError::ProfileNotFound(p) => concat("Profile not found: ", p.as_str()),
            ServinelError::DaemonNotRunning => String::from_str("Daemon is not running"),
            ServinelError::Usage(m) => concat("CLI usage error: ", m.as_str()),
        }
    }
}

} // verus!
