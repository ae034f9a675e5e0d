use vstd::prelude::*;
use crate::error::ServinelError;
use crate::protocol::{LogChunk, Response, ServiceSelector};

verus! {

/// How many times a client pings a daemon it has just launched.
pub const DAEMON_RETRY_ATTEMPTS: usize = 15;

/// How long a client waits between those pings, in milliseconds.
pub const DAEMON_RETRY_DELAY_MS: u64 = 300;

/// What a client does next while making sure a daemon runs.
#[derive(Debug, Clone, Copy, PartialEq, Eq, Structural)]
pub enum EnsureStep {
    /// The daemon answered.
    Ready,
    /// Remove the stale socket if told, launch a daemon if told, then wait
    /// and ping again.
    Launch { remove_socket: bool, spawn_daemon: bool },
    /// Wait, then ping again.
    Retry,
    /// The daemon never answered.
    GiveUp,
}

/// The decisions of `ensure_daemon`: ping; if that fails, clean up and launch
/// a daemon, then ping it a bounded number of times.
pub struct DaemonStarter {
    attempts: usize,
}

impl DaemonStarter {
    pub closed spec fn attempts_spec(&self) -> nat {
        self.attempts as nat
    }

    pub fn new() -> (r: DaemonStarter)
        ensures
            r.attempts_spec() == 0,
    {
        DaemonStarter { attempts: 0 }
    }

    /// After the first ping. A stale socket is one that exists while no
    /// daemon process runs.
    pub fn first_ping(&self, ping_ok: bool, socket_exists: bool, daemon_running: bool) -> (r: EnsureStep)
        ensures
            ping_ok ==> r == EnsureStep::Ready,
            !ping_ok ==> r == (EnsureStep::Launch {
                remove_socket: socket_exists && !daemon_running,
                spawn_daemon: !daemon_running,
            }),
    {
        if ping_ok {
            EnsureStep::Ready
        } else {
            EnsureStep::Launch { remove_socket: socket_exists && !daemon_running, spawn_daemon: !daemon_running }
        }
    }

    /// After one more ping of a launched daemon.
    pub fn retry_ping(&mut self, ping_ok: bool) -> (r: EnsureStep)
        requires
            old(self).attempts_spec() < DAEMON_RETRY_ATTEMPTS,
        ensures
            ping_ok ==> r == EnsureStep::Ready && final(self).attempts_spec() == old(self).attempts_spec(),
            !ping_ok ==> final(self).attempts_spec() == old(self).attempts_spec() + 1,
            !ping_ok && final(self).attempts_spec() < DAEMON_RETRY_ATTEMPTS ==> r == EnsureStep::Retry,
            !ping_ok && final(self).attempts_spec() == DAEMON_RETRY_ATTEMPTS ==> r == EnsureStep::GiveUp,
            final(self).attempts_spec() <= DAEMON_RETRY_ATTEMPTS,
    {
        if ping_ok {
            return EnsureStep::Ready;
        }
        self.attempts = self.attempts + 1;
        if self.attempts < DAEMON_RETRY_ATTEMPTS {
            EnsureStep::Retry
        } else {
            EnsureStep::GiveUp
        }
    }

    /// The outcome once the client has given up.
    pub fn give_up(&self) -> (r: ServinelError)
        ensures
            r is DaemonNotRunning,
    {
        ServinelError::DaemonNotRunning
    }
}

/// What a liveness ping learns from the daemon's reply.
pub fn ping_result(resp: &Response) -> (r: Result<(), ServinelError>)
    ensures
        *resp matches Response::Error(m) ==> r == Err::<(), ServinelError>(ServinelError::Usage(m)),
        !(*resp is Error) ==> r is Ok,
{
    match resp {
        Response::Error(m) => Err(ServinelError::Usage(m.clone())),
        _ => Ok(()),
    }
}

/// The outcome of a request that expects an acknowledgement.
pub fn handle_simple(resp: &Response) -> (r: Result<(), ServinelError>)
    ensures
        *resp matches Response::Error(m) ==> r == Err::<(), ServinelError>(ServinelError::Usage(m)),
        !(*resp is Error) ==> r is Ok,
{
    match resp {
        Response::Ack => Ok(()),
        Response::Error(m) => Err(ServinelError::Usage(m.clone())),
        _ => Ok(()),
    }
}

/// What a client reading a stream of log replies does with one reply.
#[derive(Debug)]
pub enum StreamStep {
    Deliver(LogChunk),
    /// The stream ended well.
    Finish,
    Fail(ServinelError),
    /// Not part of a log stream; read on.
    Skip,
}

pub fn stream_step(resp: Response) -> (r: StreamStep)
    ensures
        resp matches Response::LogChunk(c) ==> r == StreamStep::Deliver(c),
        resp is Ack ==> r is Finish,
        resp matches Response::Error(m) ==> r == StreamStep::Fail(ServinelError::Usage(m)),
        resp is StatusSnapshot || resp is ProfilesList || resp is DaemonShutdown ==> r is Skip,
{
    match resp {
        Response::LogChunk(c) => StreamStep::Deliver(c),
        Response::Ack => StreamStep::Finish,
        Response::Error(m) => StreamStep::Fail(ServinelError::Usage(m)),
        _ => StreamStep::Skip,
    }
}

/// The selector that command-line options give: a service or a profile,
/// or all services where that is allowed.
pub fn selector_from_options(service: Option<String>, profile: Option<String>, allow_all: bool) -> (r: Result<
    ServiceSelector,
    ServinelError,
>)
    ensures
        service matches Some(s) ==> (profile is None ==> r == Ok::<ServiceSelector, ServinelError>(
            ServiceSelector::Service(s),
        )),
        profile matches Some(p) ==> (service is None ==> r == Ok::<ServiceSelector, ServinelError>(
            ServiceSelector::Profile(p),
        )),
        service is None && profile is None && allow_all ==> r matches Ok(ServiceSelector::All),
        (service is Some && profile is Some) || (service is None && profile is None && !allow_all)
            ==> (r matches Err(ServinelError::Usage(m)) && m@ == "Provide either a service or --profile"@),
{
    match (service, profile) {
        (Some(s), None) => Ok(ServiceSelector::Service(s)),
        (None, Some(p)) => Ok(ServiceSelector::Profile(p)),
        (None, None) => if allow_all {
            Ok(ServiceSelector::All)
        } else {
            Err(ServinelError::Usage(String::from_str("Provide either a service or --profile")))
        },
        _ => Err(ServinelError::Usage(String::from_str("Provide either a service or --profile"))),
    }
}

} // verus!

verus! {

/// `s` holds `t` somewhere.
pub open spec fn has_substring(s: Seq<char>, t: Seq<char>) -> bool {
    exists|i: int| 0 <= i && i + t.len() <= s.len() && #[trigger] s.subrange(i, i + t.len()) == t
}

/// Whether `t` occurs in `s`.
pub fn contains_text(s: &str, t: &str) -> (r: bool)
    ensures
        r == has_substring(s@, t@),
{
    let n = s.unicode_len();
    let m = t.unicode_len();
    if m > n {
        return false;
    }
    let mut i: usize = 0;
    while i <= n - m
        invariant
            n == s@.len(),
            m == t@.len(),
            m <= n,
            i <= n - m + 1,
            forall|k: int| 0 <= k < i ==> #[trigger] s@.subrange(k, k + m) != t@,
        decreases n - m + 1 - i,
    {
        let mut j: usize = 0;
        let mut same = true;
        while j < m
            invariant
                n == s@.len(),
                m == t@.len(),
                i + m <= n,
                j <= m,
                same == (forall|q: int| 0 <= q < j ==> s@[i + q] == t@[q]),
            decreases m - j,
        {
            if s.get_char(i + j) != t.get_char(j) {
                same = false;
            }
            j = j + 1;
        }
        if same {
            assert(s@.subrange(i as int, i + m) =~= t@);
            return true;
        }
        assert(s@.subrange(i as int, i + m) != t@) by {
            let q = choose|q: int| 0 <= q < m && s@[i + q] != t@[q];
            assert(s@.subrange(i as int, i + m)[q] == s@[i + q]);
        }
        i = i + 1;
    }
    proof {
        if has_substring(s@, t@) {
            let k = choose|k: int| 0 <= k && k + t@.len() <= s@.len() && #[trigger] s@.subrange(k, k + t@.len()) == t@;
            assert(k < i);
        }
    }
    false
}

/// The words of a process's command line, joined by single spaces.
pub open spec fn spaced(parts: Seq<Seq<char>>) -> Seq<char>
    decreases parts.len(),
{
    if parts.len() == 0 {
        Seq::empty()
    } else if parts.len() == 1 {
        parts[0]
    } else {
        spaced(parts.drop_last()) + " "@ + parts.last()
    }
}

/// A process's command line as one string.
pub fn command_line(parts: &Vec<String>) -> (r: String)
    ensures
        r@ == spaced(crate::compose::str_views(parts@)),
{
    let mut out = String::new();
    let mut k: usize = 0;
    while k < parts.len()
        invariant
            k <= parts@.len(),
            out@ == spaced(crate::compose::str_views(parts@.subrange(0, k as int))),
        decreases parts@.len() - k,
    {
        let ghost prev = parts@.subrange(0, k as int);
        if k > 0 {
            out.append(" ");
        }
        out.append(parts[k].as_str());
        proof {
            let next = parts@.subrange(0, k + 1);
            assert(next.drop_last() =~= prev);
            assert(crate::compose::str_views(next).drop_last() =~= crate::compose::str_views(prev));
            assert(crate::compose::str_views(next).last() == parts@[k as int]@);
            if k == 0 {
                assert(crate::compose::str_views(next) =~= seq![parts@[0]@]);
                assert(out@ =~= parts@[0]@);
            }
        }
        k = k + 1;
    }
    proof {
        assert(parts@.subrange(0, parts@.len() as int) =~= parts@);
    }
    out
}

/// A process is the daemon when its command line names both the program
/// and its `daemon` subcommand.
pub fn is_daemon_command(cmd: &str) -> (r: bool)
    ensures
        r == (has_substring(cmd@, "servinel"@) && has_substring(cmd@, "daemon"@)),
{
    contains_text(cmd, "servinel") && contains_text(cmd, "daemon")
}

/// `1`, or `true` in any case.
pub open spec fn truthy(v: Seq<char>) -> bool {
    v == "1"@ || (v.len() == 4 && (v[0] == 't' || v[0] == 'T') && (v[1] == 'r' || v[1] == 'R') && (v[2]
        == 'u' || v[2] == 'U') && (v[3] == 'e' || v[3] == 'E'))
}

/// Whether a launched daemon keeps the client's output streams, from the
/// value of the variable that asks for it, if set.
pub fn verbose_daemon(value: Option<&str>) -> (r: bool)
    ensures
        r == (value matches Some(v) && truthy(v@)),
{
    match value {
        None => false,
        Some(v) => {
            proof {
                reveal_strlit("1");
            }
            let n = v.unicode_len();
            if n == 1 {
                let c = v.get_char(0);
                proof {
                    if c == '1' {
                        assert(v@ =~= "1"@);
                    }
                }
                return c == '1';
            }
            if n != 4 {
                proof {
                    assert(v@.len() != "1"@.len());
                }
                return false;
            }
            let a = v.get_char(0);
            let b = v.get_char(1);
            let c = v.get_char(2);
            let d = v.get_char(3);
            proof {
                assert(v@.len() != "1"@.len());
            }
            (a == 't' || a == 'T') && (b == 'r' || b == 'R') && (c == 'u' || c == 'U') && (d == 'e' || d == 'E')
        },
    }
}

} // verus!
