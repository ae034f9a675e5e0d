use vstd::prelude::*;
use crate::error::{error_message, ServinelError};
use crate::logs::{LogEntry, LogStream};
use crate::state::ServiceMetrics;

verus! {

/// Which services of an app a request designates.
#[derive(Debug, Clone)]
pub enum ServiceSelector {
    All,
    Service(String),
    Services(Vec<String>),
    Profile(String),
}

/// A request from a client to the daemon.
#[derive(Debug, Clone)]
pub enum Request {
    Up { file: String, profile: Option<String> },
    Start { file: Option<String>, app: Option<String>, selector: ServiceSelector },
    Stop { app: Option<String>, selector: ServiceSelector },
    Restart { app: Option<String>, selector: ServiceSelector },
    Status { app: Option<String>, selector: ServiceSelector },
    Logs {
        app: Option<String>,
        selector: ServiceSelector,
        follow: bool,
        tail: Option<usize>,
        merged: bool,
    },
    Profiles { app: Option<String> },
    Down { app: Option<String> },
    DashAttach,
}

/// A reply from the daemon; a request gets one, or a stream of them.
#[derive(Debug, Clone)]
pub enum Response {
    Ack,
    Error(String),
    StatusSnapshot(StatusSnapshot),
    ProfilesList(Vec<String>),
    LogChunk(LogChunk),
    DaemonShutdown,
}

#[derive(Debug, Clone)]
pub struct StatusSnapshot {
    pub apps: Vec<AppSnapshot>,
    /// As `ServiceMetrics::cpu_bits`.
    pub system_cpu_bits: u32,
    pub system_memory_used: u64,
    pub system_memory_total: u64,
}

#[derive(Debug, Clone)]
pub struct AppSnapshot {
    pub app_name: String,
    pub services: Vec<ServiceSnapshot>,
}

#[derive(Debug, Clone)]
pub struct ServiceSnapshot {
    pub name: String,
    /// Lower-case status name.
    pub status: String,
    pub pid: Option<u32>,
    pub uptime_secs: Option<u64>,
    pub exit_code: Option<i32>,
    pub metrics: ServiceMetrics,
}

impl ServiceSnapshot {
    /// A copy of this line, equal to it.
    pub fn duplicate(&self) -> (r: ServiceSnapshot)
        ensures
            r == *self,
    {
        ServiceSnapshot {
            name: self.name.clone(),
            status: self.status.clone(),
            pid: self.pid,
            uptime_secs: self.uptime_secs,
            exit_code: self.exit_code,
            metrics: self.metrics,
        }
    }
}

/// One log line of one service, as streamed to clients.
#[derive(Debug, Clone)]
pub struct LogChunk {
    pub app: String,
    pub service: String,
    pub entry: LogEntry,
}

/// The reply to a request that succeeds with nothing to report.
pub fn ack_or_error(r: &Result<(), ServinelError>) -> (resp: Response)
    ensures
        r is Ok ==> resp is Ack,
        r matches Err(e) ==> (resp matches Response::Error(m) && m@ == error_message(*e)),
{
    match r {
        Ok(()) => Response::Ack,
        Err(e) => Response::Error(e.message()),
    }
}

impl LogChunk {
    /// A copy of this chunk, equal to it.
    pub fn duplicate(&self) -> (r: LogChunk)
        ensures
            r == *self,
    {
        LogChunk { app: self.app.clone(), service: self.service.clone(), entry: self.entry.duplicate() }
    }
}

/// The reply to a status request.
pub fn status_reply(r: Result<StatusSnapshot, ServinelError>) -> (resp: Response)
    ensures
        r matches Ok(s) ==> resp == Response::StatusSnapshot(s),
        r matches Err(e) ==> (resp matches Response::Error(m) && m@ == error_message(e)),
{
    match r {
        Ok(s) => Response::StatusSnapshot(s),
        Err(e) => Response::Error(e.message()),
    }
}

/// The reply to a profiles request.
pub fn profiles_reply(r: Result<Vec<String>, ServinelError>) -> (resp: Response)
    ensures
        r matches Ok(p) ==> resp == Response::ProfilesList(p),
        r matches Err(e) ==> (resp matches Response::Error(m) && m@ == error_message(e)),
{
    match r {
        Ok(p) => Response::ProfilesList(p),
        Err(e) => Response::Error(e.message()),
    }
}

/// The reply to a request to bring apps down: the daemon shuts down when
/// no app is left.
pub fn down_reply(r: &Result<bool, ServinelError>) -> (resp: Response)
    ensures
        *r == Ok::<bool, ServinelError>(true) ==> resp is DaemonShutdown,
        *r == Ok::<bool, ServinelError>(false) ==> resp is Ack,
        r matches Err(e) ==> (resp matches Response::Error(m) && m@ == error_message(*e)),
{
    match r {
        Ok(true) => Response::DaemonShutdown,
        Ok(false) => Response::Ack,
        Err(e) => Response::Error(e.message()),
    }
}

/// The replies that open a logs request: the error alone when it failed;
/// else one chunk per history entry, in order, then an acknowledgement
/// unless the client follows the live lines, which come after.
pub fn log_replies(history: &Result<Vec<LogChunk>, ServinelError>, follow: bool) -> (r: Vec<Response>)
    ensures
        history matches Err(e) ==> (r@.len() == 1 && (r@[0] matches Response::Error(m) && m@ == error_message(*e))),
        history matches Ok(chunks) ==> {
            &&& r@.len() == chunks@.len() + if follow { 0int } else { 1int }
            &&& forall|k: int| 0 <= k < chunks@.len() ==> #[trigger] r@[k] == Response::LogChunk(chunks@[k])
            &&& !follow ==> r@[chunks@.len() as int] is Ack
        },
{
    let mut out: Vec<Response> = Vec::new();
    match history {
        Err(e) => {
            out.push(Response::Error(e.message()));
        },
        Ok(chunks) => {
            let mut k: usize = 0;
            while k < chunks.len()
                invariant
                    k <= chunks@.len(),
                    out@.len() == k,
                    forall|m: int| 0 <= m < k ==> #[trigger] out@[m] == Response::LogChunk(chunks@[m]),
                decreases chunks@.len() - k,
            {
                out.push(Response::LogChunk(chunks[k].duplicate()));
                k = k + 1;
            }
            if !follow {
                out.push(Response::Ack);
            }
        },
    }
    out
}

/// The label of a stream in unmerged log output.
pub open spec fn stream_label(s: LogStream) -> Seq<char> {
    match s {
        LogStream::Stdout => "stdout"@,
        LogStream::Stderr => "stderr"@,
    }
}

/// A log line for display: `[time] [service] line` when merged, else
/// `[time] [service:stream] line`.
pub open spec fn log_line_text(
    time: Seq<char>,
    service: Seq<char>,
    stream: LogStream,
    line: Seq<char>,
    merged: bool,
) -> Seq<char> {
    if merged {
        "["@ + time + "] ["@ + service + "] "@ + line
    } else {
        "["@ + time + "] ["@ + service + ":"@ + stream_label(stream) + "] "@ + line
    }
}

/// Lays out one log line for display, given its time already rendered.
pub fn render_log_line(time: &str, service: &str, entry: &LogEntry, merged: bool) -> (r: String)
    ensures
        r@ == log_line_text(time@, service@, entry.stream, entry.line@, merged),
{
    let mut out = String::from_str("[");
    out.append(time);
    out.append("] [");
    out.append(service);
    if !merged {
        out.append(":");
        match entry.stream {
            LogStream::Stdout => out.append("stdout"),
            LogStream::Stderr => out.append("stderr"),
        }
    }
    out.append("] ");
    out.append(entry.line.as_str());
    out
}

/// Relies on chrono: the instant `secs` seconds after the epoch, in the
/// machine's local time zone, as `%Y-%m-%d %H:%M:%S` (the epoch itself when
/// chrono cannot represent it). It depends on the machine's time zone, so
/// nothing is promised of it.
#[verifier::external_body]
fn local_time_text(secs: u64) -> (r: String) {
    chrono::DateTime::from_timestamp(secs as i64, 0)
        .map(|dt| dt.with_timezone(&chrono::Local))
        .unwrap_or_default()
        .format("%Y-%m-%d %H:%M:%S")
        .to_string()
}

/// Lays out one log line for display, with its time in local time.
pub fn format_log_entry(entry: &LogEntry, merged: bool, service: &str) -> (r: String)
    ensures
        exists|t: Seq<char>| r@ == log_line_text(t, service@, entry.stream, entry.line@, merged),
{
    let time = local_time_text(entry.timestamp);
    render_log_line(time.as_str(), service, entry, merged)
}

} // verus!
