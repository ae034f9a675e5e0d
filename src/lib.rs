//! Verified core of a local service orchestrator: log ring buffers, the
//! daemon's state store, service selection, the supervisor's lifecycle
//! decisions, request handling, the client's decisions, the dashboard's
//! state and the line-delimited wire framing.

pub mod logs;
pub mod text;
pub mod error;
pub mod paths;
pub mod compose;
pub mod state;
pub mod protocol;
pub mod supervisor;
pub mod daemon;
pub mod framing;
pub mod client;
pub mod tui;
