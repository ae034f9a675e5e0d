use servinel::client::{
    command_line, handle_simple, is_daemon_command, ping_result, selector_from_options, stream_step, verbose_daemon,
    DaemonStarter, EnsureStep, StreamStep,
};
use servinel::error::ServinelError;
use servinel::framing::{frame_line, LineFramer};
use servinel::logs::{LogEntry, LogStream};
use servinel::protocol::{
    ack_or_error, down_reply, format_log_entry, log_replies, profiles_reply, render_log_line, status_reply, LogChunk,
    Response, ServiceSelector, StatusSnapshot,
};

#[test]
fn framing_survives_fragmented_reads() {
    let stream = b"{\"a\":1}\n\"Ack\"\n{\"b\":2";
    let mut whole = LineFramer::new();
    let lines = whole.feed(stream);
    assert_eq!(lines, vec![b"{\"a\":1}".to_vec(), b"\"Ack\"".to_vec()]);
    assert_eq!(whole.pending(), &b"{\"b\":2".to_vec());
    for cut in 0..stream.len() {
        let mut f = LineFramer::new();
        let mut got = f.feed(&stream[..cut]);
        got.extend(f.feed(&stream[cut..]));
        assert_eq!(got, lines);
        assert_eq!(f.pending(), whole.pending());
    }
    let mut bytewise = LineFramer::new();
    let mut got = Vec::new();
    for b in stream.iter() {
        got.extend(bytewise.feed(&[*b]));
    }
    assert_eq!(got, lines);
}

#[test]
fn framed_message_reads_back() {
    let framed = frame_line(b"\"DashAttach\"");
    assert_eq!(framed, b"\"DashAttach\"\n".to_vec());
    let mut f = LineFramer::new();
    assert_eq!(f.feed(&framed), vec![b"\"DashAttach\"".to_vec()]);
    assert!(f.pending().is_empty());
    let mut g = LineFramer::new();
    assert_eq!(g.feed(b"\n"), vec![Vec::<u8>::new()]);
}

#[test]
fn ensure_daemon_decisions() {
    let mut s = DaemonStarter::new();
    assert_eq!(s.first_ping(true, true, true), EnsureStep::Ready);
    assert_eq!(
        s.first_ping(false, true, false),
        EnsureStep::Launch { remove_socket: true, spawn_daemon: true }
    );
    assert_eq!(
        s.first_ping(false, true, true),
        EnsureStep::Launch { remove_socket: false, spawn_daemon: false }
    );
    assert_eq!(
        s.first_ping(false, false, false),
        EnsureStep::Launch { remove_socket: false, spawn_daemon: true }
    );
    for _ in 0..14 {
        assert_eq!(s.retry_ping(false), EnsureStep::Retry);
    }
    assert_eq!(s.retry_ping(false), EnsureStep::GiveUp);
    assert!(matches!(s.give_up(), ServinelError::DaemonNotRunning));
    let mut t = DaemonStarter::new();
    assert_eq!(t.retry_ping(false), EnsureStep::Retry);
    assert_eq!(t.retry_ping(true), EnsureStep::Ready);
}

#[test]
fn replies_to_outcomes() {
    assert!(ping_result(&Response::Ack).is_ok());
    assert!(ping_result(&Response::ProfilesList(vec![])).is_ok());
    match handle_simple(&Response::Error("boom".to_string())) {
        Err(ServinelError::Usage(m)) => assert_eq!(m, "boom"),
        other => panic!("unexpected {other:?}"),
    }
    assert!(handle_simple(&Response::DaemonShutdown).is_ok());
    match ack_or_error(&Err(ServinelError::AppNotFound("web".to_string()))) {
        Response::Error(m) => assert_eq!(m, "App not found: web"),
        other => panic!("unexpected {other:?}"),
    }
    assert!(matches!(ack_or_error(&Ok(())), Response::Ack));
}

#[test]
fn stream_steps() {
    let entry = LogEntry { timestamp: 1, stream: LogStream::Stderr, line: "x".to_string() };
    let chunk = LogChunk { app: "web".to_string(), service: "api".to_string(), entry };
    match stream_step(Response::LogChunk(chunk)) {
        StreamStep::Deliver(c) => assert_eq!(c.entry.line, "x"),
        other => panic!("unexpected {other:?}"),
    }
    assert!(matches!(stream_step(Response::Ack), StreamStep::Finish));
    assert!(matches!(stream_step(Response::Error("e".to_string())), StreamStep::Fail(ServinelError::Usage(_))));
    assert!(matches!(stream_step(Response::DaemonShutdown), StreamStep::Skip));
}

#[test]
fn selectors_from_options() {
    assert!(matches!(
        selector_from_options(Some("api".to_string()), None, false),
        Ok(ServiceSelector::Service(s)) if s == "api"
    ));
    assert!(matches!(
        selector_from_options(None, Some("backend".to_string()), false),
        Ok(ServiceSelector::Profile(p)) if p == "backend"
    ));
    assert!(matches!(selector_from_options(None, None, true), Ok(ServiceSelector::All)));
    match selector_from_options(None, None, false) {
        Err(e) => assert_eq!(e.message(), "CLI usage error: Provide either a service or --profile"),
        Ok(s) => panic!("unexpected {s:?}"),
    }
    assert!(selector_from_options(Some("a".to_string()), Some("b".to_string()), true).is_err());
}

#[test]
fn process_and_environment_checks() {
    assert!(is_daemon_command("/usr/bin/servinel daemon"));
    assert!(!is_daemon_command("/usr/bin/servinel status"));
    assert!(!is_daemon_command("daemon"));
    let parts = vec!["/usr/bin/servinel".to_string(), "daemon".to_string()];
    assert_eq!(command_line(&parts), "/usr/bin/servinel daemon");
    assert_eq!(command_line(&Vec::new()), "");
    assert!(verbose_daemon(Some("1")));
    assert!(verbose_daemon(Some("TRUE")));
    assert!(verbose_daemon(Some("True")));
    assert!(!verbose_daemon(Some("yes")));
    assert!(!verbose_daemon(Some("0")));
    assert!(!verbose_daemon(None));
}

#[test]
fn log_line_layout() {
    let entry = LogEntry { timestamp: 0, stream: LogStream::Stderr, line: "boom".to_string() };
    assert_eq!(render_log_line("T", "api", &entry, true), "[T] [api] boom");
    assert_eq!(render_log_line("T", "api", &entry, false), "[T] [api:stderr] boom");
    let shown = format_log_entry(&entry, false, "api");
    assert!(shown.starts_with('['));
    assert!(shown.ends_with("] [api:stderr] boom"));
    assert_eq!(shown.len(), "[0000-00-00 00:00:00] [api:stderr] boom".len());
}

#[test]
fn reply_sequences() {
    let entry = LogEntry { timestamp: 1, stream: LogStream::Stdout, line: "a".to_string() };
    let chunk = LogChunk { app: "web".to_string(), service: "api".to_string(), entry };
    let ok: Result<Vec<LogChunk>, ServinelError> = Ok(vec![chunk.clone(), chunk]);
    let r = log_replies(&ok, false);
    assert_eq!(r.len(), 3);
    assert!(matches!(r[0], Response::LogChunk(_)));
    assert!(matches!(r[2], Response::Ack));
    assert_eq!(log_replies(&ok, true).len(), 2);
    let err: Result<Vec<LogChunk>, ServinelError> = Err(ServinelError::AppNotFound("x".to_string()));
    match &log_replies(&err, true)[..] {
        [Response::Error(m)] => assert_eq!(m, "App not found: x"),
        other => panic!("unexpected {other:?}"),
    }
    assert!(matches!(down_reply(&Ok(true)), Response::DaemonShutdown));
    assert!(matches!(down_reply(&Ok(false)), Response::Ack));
    assert!(matches!(profiles_reply(Ok(vec!["a".to_string()])), Response::ProfilesList(p) if p == vec!["a"]));
    let snap = StatusSnapshot { apps: vec![], system_cpu_bits: 0, system_memory_used: 1, system_memory_total: 2 };
    assert!(matches!(status_reply(Ok(snap)), Response::StatusSnapshot(s) if s.system_memory_total == 2));
    match status_reply(Err(ServinelError::Usage("u".to_string()))) {
        Response::Error(m) => assert_eq!(m, "CLI usage error: u"),
        other => panic!("unexpected {other:?}"),
    }
}
