use vstd::prelude::*;
use crate::compose::ServiceConfig;
use crate::error::ServinelError;
use crate::paths::{parent_of, path_parent};
use crate::compose::{compose_valid, ComposeFile};
use crate::logs::{keep_last, LogEntry};
use crate::state::{
    app_names, fresh_app, fresh_service, is_active, lemma_service_change, only_service_changed, DaemonState, ServiceMetrics, ServiceState,
    ServiceStatus,
};
use crate::text::{concat, concat3, same_text, starts_with, trim, trim_spec};

verus! {

/// The live child of one service, as the supervisor holds it. `H` is the
/// caller's handle on the process and its log channel.
#[derive(Debug)]
pub struct Runtime<H> {
    pub app: String,
    pub service: String,
    pub handle: H,
}

/// The daemon's state store together with the supervisor's table of live
/// children, one per `(app, service)`.
pub struct Supervisor<H> {
    state: DaemonState,
    runtimes: Vec<Runtime<H>>,
}

/// What the caller does to start a service: first kill the process group of
/// `kill_group` if set, then spawn `launch` if set.
#[derive(Debug)]
pub struct StartPlan {
    pub kill_group: Option<u32>,
    pub launch: Option<Launch>,
}

/// How to spawn a service: `sh -c <shell_command>` in `workdir`, as leader of
/// a new process group.
#[derive(Debug)]
pub struct Launch {
    pub shell_command: String,
    pub workdir: String,
}

/// What the caller does after a service was stopped: kill the process group
/// of `kill_group` if set, and reap `handle` if set.
#[derive(Debug)]
pub struct StopOutcome<H> {
    pub kill_group: Option<u32>,
    pub handle: Option<H>,
}

/// The shell command that runs `command` in `workdir`, with `exec` so that no
/// shell stays between the supervisor and the service.
pub open spec fn shell_command_spec(command: Seq<char>, workdir: Seq<char>) -> Seq<char> {
    let t = trim_spec(command);
    if 5 <= t.len() && t.subrange(0, 5) == "exec "@ {
        "cd "@ + workdir + " && "@ + command
    } else {
        "cd "@ + workdir + " && "@ + "exec "@ + command
    }
}

pub fn shell_command(command: &str, workdir: &str) -> (r: String)
    ensures
        r@ == shell_command_spec(command@, workdir@),
{
    let t = trim(command);
    let prefix = concat3("cd ", workdir, " && ");
    proof {
        reveal_strlit("exec ");
    }
    if starts_with(t.as_str(), "exec ") {
        concat(prefix.as_str(), command)
    } else {
        concat3(prefix.as_str(), "exec ", command)
    }
}

/// Where a service runs: its own working directory, else the directory of
/// its manifest, else `cwd`.
pub open spec fn workdir_spec(config: ServiceConfig, compose_path: Seq<char>, cwd: Seq<char>) -> Seq<char> {
    match config.working_directory {
        Some(d) => d@,
        None => match parent_of(compose_path) {
            Some(p) => p,
            None => cwd,
        },
    }
}

/// Some entry of `rts` is keyed `(app, service)`.
pub open spec fn seq_has<H>(rts: Seq<Runtime<H>>, app: Seq<char>, service: Seq<char>) -> bool {
    exists|k: int| 0 <= k < rts.len() && #[trigger] rts[k].app@ == app && rts[k].service@ == service
}

/// `h` is the handle that `rts` holds for `(app, service)`.
pub open spec fn holds_handle<H>(rts: Seq<Runtime<H>>, app: Seq<char>, service: Seq<char>, h: H) -> bool {
    exists|k: int|
        0 <= k < rts.len() && #[trigger] rts[k].app@ == app && rts[k].service@ == service && rts[k].handle == h
}

/// No two entries of `rts` share a key.
pub open spec fn keys_unique<H>(rts: Seq<Runtime<H>>) -> bool {
    forall|a: int, b: int|
        0 <= a < b < rts.len() ==> !(rts[a].app@ == rts[b].app@ && rts[a].service@ == rts[b].service@)
}

proof fn lemma_seq_has_push<H>(rts: Seq<Runtime<H>>, r: Runtime<H>)
    ensures
        forall|a: Seq<char>, s: Seq<char>|
            #[trigger] seq_has(rts.push(r), a, s) == (seq_has(rts, a, s) || (r.app@ == a
                && r.service@ == s)),
{
    assert forall|a: Seq<char>, s: Seq<char>|
        #[trigger] seq_has(rts.push(r), a, s) == (seq_has(rts, a, s) || (r.app@ == a && r.service@ == s)) by {
        let n = rts.push(r);
        if seq_has(rts, a, s) {
            let k = choose|k: int| 0 <= k < rts.len() && #[trigger] rts[k].app@ == a && rts[k].service@ == s;
            assert(n[k] == rts[k]);
        }
        if r.app@ == a && r.service@ == s {
            assert(n[rts.len() as int] == r);
        }
        if seq_has(n, a, s) {
            let k = choose|k: int| 0 <= k < n.len() && #[trigger] n[k].app@ == a && n[k].service@ == s;
            if k < rts.len() {
                assert(n[k] == rts[k]);
                assert(rts[k].app@ == a && rts[k].service@ == s);
                assert(seq_has(rts, a, s));
            } else {
                assert(n[k] == r);
            }
        }
    }
}

proof fn lemma_holds_remove<H>(rts: Seq<Runtime<H>>, i: int)
    requires
        0 <= i < rts.len(),
    ensures
        forall|a: Seq<char>, s: Seq<char>, h: H|
            #[trigger] holds_handle(rts.remove(i), a, s, h) ==> holds_handle(rts, a, s, h),
{
    assert forall|a: Seq<char>, s: Seq<char>, h: H| #[trigger] holds_handle(rts.remove(i), a, s, h) implies holds_handle(
        rts,
        a,
        s,
        h,
    ) by {
        let n = rts.remove(i);
        let k = choose|k: int| 0 <= k < n.len() && #[trigger] n[k].app@ == a && n[k].service@ == s && n[k].handle == h;
        let k2 = if k < i { k } else { k + 1 };
        assert(n[k] == rts[k2]);
        assert(rts[k2].app@ == a);
    }
}

proof fn lemma_seq_has_remove<H>(rts: Seq<Runtime<H>>, i: int)
    requires
        0 <= i < rts.len(),
        keys_unique(rts),
    ensures
        keys_unique(rts.remove(i)),
        forall|a: Seq<char>, s: Seq<char>|
            #[trigger] seq_has(rts.remove(i), a, s) == (seq_has(rts, a, s) && !(rts[i].app@ == a
                && rts[i].service@ == s)),
{
    let n = rts.remove(i);
    assert forall|x: int, y: int| 0 <= x < y < n.len() implies !(n[x].app@ == n[y].app@ && n[x].service@
        == n[y].service@) by {
        let x2 = if x < i { x } else { x + 1 };
        let y2 = if y < i { y } else { y + 1 };
        assert(n[x] == rts[x2]);
        assert(n[y] == rts[y2]);
    }
    assert forall|a: Seq<char>, s: Seq<char>|
        #[trigger] seq_has(n, a, s) == (seq_has(rts, a, s) && !(rts[i].app@ == a && rts[i].service@ == s)) by {
        if seq_has(n, a, s) {
            let k = choose|k: int| 0 <= k < n.len() && #[trigger] n[k].app@ == a && n[k].service@ == s;
            let k2 = if k < i { k } else { k + 1 };
            assert(n[k] == rts[k2]);
            if rts[i].app@ == a && rts[i].service@ == s {
                if k2 < i {
                    assert(!(rts[k2].app@ == rts[i].app@ && rts[k2].service@ == rts[i].service@));
                } else {
                    assert(!(rts[i].app@ == rts[k2].app@ && rts[i].service@ == rts[k2].service@));
                }
            }
        }
        if seq_has(rts, a, s) && !(rts[i].app@ == a && rts[i].service@ == s) {
            let k = choose|k: int| 0 <= k < rts.len() && #[trigger] rts[k].app@ == a && rts[k].service@ == s;
            assert(k != i);
            let k2 = if k < i { k } else { k - 1 };
            assert(n[k2] == rts[k]);
        }
    }
}

/// The lifecycle fields of one service, and whether a child is held for it.
#[derive(Debug)]
pub struct Lifecycle {
    pub status: ServiceStatus,
    pub pid: Option<u32>,
    pub started_at: Option<u64>,
    pub held: bool,
}

/// The rules that tie status, pid, start time and the held child together.
pub open spec fn lifecycle_ok(l: Lifecycle) -> bool {
    &&& is_active(l.status) <==> (l.held && l.pid is Some)
    &&& !is_active(l.status) ==> l.started_at is None
}

/// What can happen to one service's lifecycle.
#[derive(Debug)]
pub enum LifecycleOp {
    /// A start; when no child is held, one is spawned with `pid` at `now`.
    Start { pid: u32, now: u64 },
    Stop,
    /// The held child was reaped with this exit code.
    Exit { code: Option<i32> },
}

pub open spec fn lifecycle_step(l: Lifecycle, op: LifecycleOp) -> Lifecycle {
    match op {
        LifecycleOp::Start { pid, now } => if l.held {
            l
        } else {
            Lifecycle { status: ServiceStatus::Running, pid: Some(pid), started_at: Some(now), held: true }
        },
        LifecycleOp::Stop => Lifecycle { status: ServiceStatus::Stopped, pid: None, started_at: None, held: false },
        LifecycleOp::Exit { code } => if l.held {
            Lifecycle { status: ServiceStatus::Exited, pid: None, started_at: None, held: false }
        } else {
            l
        },
    }
}

pub open spec fn lifecycle_run(l: Lifecycle, ops: Seq<LifecycleOp>) -> Lifecycle
    decreases ops.len(),
{
    if ops.len() == 0 {
        l
    } else {
        lifecycle_step(lifecycle_run(l, ops.drop_last()), ops.last())
    }
}

/// After any sequence of starts, stops and exits of a service, its status,
/// pid, start time and held child obey the lifecycle rules.
pub proof fn lemma_lifecycle_sequence(l: Lifecycle, ops: Seq<LifecycleOp>)
    requires
        lifecycle_ok(l),
    ensures
        lifecycle_ok(lifecycle_run(l, ops)),
    decreases ops.len(),
{
    if ops.len() > 0 {
        lemma_lifecycle_sequence(l, ops.drop_last());
    }
}

/// In a well-formed supervisor every known service obeys the lifecycle
/// rules, so any run of lifecycle steps from there keeps obeying them.
pub proof fn lemma_supervised_lifecycle<H>(sup: Supervisor<H>, app: Seq<char>, service: Seq<char>, ops: Seq<LifecycleOp>)
    requires
        sup.wf(),
        sup.st().located(app, service),
    ensures
        lifecycle_ok(sup.lifecycle(app, service)),
        lifecycle_ok(lifecycle_run(sup.lifecycle(app, service), ops)),
{
    assert(sup.service_ok(app, service));
    lemma_lifecycle_sequence(sup.lifecycle(app, service), ops);
}

/// Starting a service twice, with no exit between, spawns one child: the
/// second start leaves it Running with the first child.
pub proof fn lemma_start_idempotent(l: Lifecycle, pid1: u32, now1: u64, pid2: u32, now2: u64)
    ensures
        lifecycle_step(
            lifecycle_step(l, LifecycleOp::Start { pid: pid1, now: now1 }),
            LifecycleOp::Start { pid: pid2, now: now2 },
        ) == lifecycle_step(l, LifecycleOp::Start { pid: pid1, now: now1 }),
        lifecycle_step(l, LifecycleOp::Start { pid: pid1, now: now1 }).held,
        !l.held ==> lifecycle_step(l, LifecycleOp::Start { pid: pid1, now: now1 }).status
            == ServiceStatus::Running,
{
}

impl<H> Supervisor<H> {
    /// The lifecycle of a located service.
    pub open spec fn lifecycle(&self, app: Seq<char>, service: Seq<char>) -> Lifecycle {
        let s = self.st().service(app, service);
        Lifecycle { status: s.status, pid: s.pid, started_at: s.started_at, held: self.has_runtime(app, service) }
    }

    /// The state store.
    pub closed spec fn st(&self) -> DaemonState {
        self.state
    }

    /// The table of live children.
    pub closed spec fn rts(&self) -> Seq<Runtime<H>> {
        self.runtimes@
    }

    /// A child is held for `(app, service)`.
    pub open spec fn has_runtime(&self, app: Seq<char>, service: Seq<char>) -> bool {
        seq_has(self.rts(), app, service)
    }

    /// The lifecycle rules for one service: it is Running or Starting exactly
    /// when a child is held for it and its pid is recorded, and only then
    /// does it have a start time.
    pub open spec fn service_ok(&self, app: Seq<char>, service: Seq<char>) -> bool {
        self.st().located(app, service) ==> {
            let s = self.st().service(app, service);
            &&& is_active(s.status) <==> (self.has_runtime(app, service) && s.pid is Some)
            &&& !is_active(s.status) ==> s.started_at is None
        }
    }

    pub open spec fn wf(&self) -> bool {
        &&& self.st().wf()
        &&& keys_unique(self.rts())
        &&& forall|k: int|
            0 <= k < self.rts().len() ==> self.st().located(
                (#[trigger] self.rts()[k]).app@,
                self.rts()[k].service@,
            ) && is_active(self.st().service(self.rts()[k].app@, self.rts()[k].service@).status)
        &&& forall|a: Seq<char>, s: Seq<char>| #[trigger] self.service_ok(a, s)
    }

    /// An empty store and no children.
    pub fn new() -> (r: Supervisor<H>)
        ensures
            r.wf(),
            r.st().apps@.len() == 0,
            r.rts().len() == 0,
    {
        Supervisor { state: DaemonState::new(), runtimes: Vec::new() }
    }

    /// Position of the child of `(app, service)` in the table.
    fn find_runtime(&self, app: &str, service: &str) -> (r: Option<usize>)
        requires
            self.wf(),
        ensures
            r is None <==> !self.has_runtime(app@, service@),
            r matches Some(k) ==> k < self.rts().len() && self.rts()[k as int].app@ == app@
                && self.rts()[k as int].service@ == service@,
    {
        let mut k: usize = 0;
        while k < self.runtimes.len()
            invariant
                k <= self.rts().len(),
                self.rts() == self.runtimes@,
                forall|m: int|
                    0 <= m < k ==> !(self.rts()[m].app@ == app@ && self.rts()[m].service@ == service@),
            decreases self.rts().len() - k,
        {
            if same_text(self.runtimes[k].app.as_str(), app) && same_text(
                self.runtimes[k].service.as_str(),
                service,
            ) {
                return Some(k);
            }
            k = k + 1;
        }
        None
    }

    /// The state store, to read.
    pub fn state(&self) -> (r: &DaemonState)
        ensures
            *r == self.st(),
    {
        &self.state
    }

    /// The number of children held.
    pub fn runtime_count(&self) -> (r: usize)
        ensures
            r == self.rts().len(),
    {
        self.runtimes.len()
    }

    /// The `k`th child held.
    pub fn runtime_at(&self, k: usize) -> (r: &Runtime<H>)
        requires
            k < self.rts().len(),
        ensures
            *r == self.rts()[k as int],
    {
        &self.runtimes[k]
    }

    /// The handle held for `(app, service)`, if any: through it callers
    /// reach the service's log channel.
    pub fn log_sender(&self, app: &str, service: &str) -> (r: Option<&H>)
        requires
            self.wf(),
        ensures
            r is Some <==> self.has_runtime(app@, service@),
            r matches Some(h) ==> holds_handle(self.rts(), app@, service@, *h),
    {
        match self.find_runtime(app, service) {
            Some(k) => Some(&self.runtimes[k].handle),
            None => None,
        }
    }
}

} // verus!

verus! {

/// One service's lifecycle fields and the table's entry for that one key
/// change, nothing else; if the service itself obeys the rules after, so
/// does the whole supervisor.
proof fn lemma_change_one<H>(
    o: Supervisor<H>,
    n: Supervisor<H>,
    app: Seq<char>,
    svc: Seq<char>,
    x: ServiceState,
)
    requires
        o.wf(),
        o.st().located(app, svc),
        o.st().with_service(n.st(), app, svc, x),
        x.config == o.st().service(app, svc).config,
        x.logs.wf(),
        keys_unique(n.rts()),
        forall|a: Seq<char>, s: Seq<char>|
            !(a == app && s == svc) ==> #[trigger] seq_has(n.rts(), a, s) == seq_has(o.rts(), a, s),
        seq_has(n.rts(), app, svc) ==> is_active(x.status),
        is_active(x.status) <==> (seq_has(n.rts(), app, svc) && x.pid is Some),
        !is_active(x.status) ==> x.started_at is None,
    ensures
        n.wf(),
        n.st().located(app, svc),
        n.st().service(app, svc) == x,
        forall|a: Seq<char>, s: Seq<char>|
            !(a == app && s == svc) && o.st().located(a, s) ==> #[trigger] n.st().service(a, s)
                == o.st().service(a, s),
        forall|a: Seq<char>, s: Seq<char>| #[trigger] n.st().located(a, s) == o.st().located(a, s),
{
    let i = o.st().app_index(app);
    let j = o.st().app(app).service_index(svc);
    let os = o.st();
    let ns = n.st();
    assert(os.has_app(app));
    assert(0 <= i < os.apps@.len() && os.apps@[i].app_name@ == app);
    assert(os.app(app).has_service(svc));
    assert(0 <= j < os.apps@[i].services@.len() && os.apps@[i].services@[j].config.name@ == svc);
    lemma_service_change(os, ns, i, j);
    assert(ns.located(app, svc));
    assert(ns.app_index(app) == i);
    assert(ns.app(app).service_index(svc) == j);
    // Any other located key sits at another position, so its record is untouched.
    assert forall|a: Seq<char>, s: Seq<char>| !(a == app && s == svc) && os.located(a, s) implies
        #[trigger] ns.service(a, s) == os.service(a, s) by {
        let i2 = os.app_index(a);
        let j2 = os.app(a).service_index(s);
        assert(os.has_app(a));
        assert(os.app(a).has_service(s));
        assert(ns.located(a, s) == os.located(a, s));
        assert(ns.app_index(a) == i2);
        assert(ns.app(a).service_index(s) == j2);
        assert(os.apps@[i2].app_name@ == a);
        assert(os.apps@[i2].services@[j2].config.name@ == s);
        if i2 == i {
            if j2 == j {
                assert(false);
            }
        }
    }
    assert forall|k: int| 0 <= k < n.rts().len() implies ns.located(
        (#[trigger] n.rts()[k]).app@,
        n.rts()[k].service@,
    ) && is_active(ns.service(n.rts()[k].app@, n.rts()[k].service@).status) by {
        let a = n.rts()[k].app@;
        let s = n.rts()[k].service@;
        assert(seq_has(n.rts(), a, s));
        if !(a == app && s == svc) {
            assert(seq_has(o.rts(), a, s));
            let m = choose|m: int| 0 <= m < o.rts().len() && #[trigger] o.rts()[m].app@ == a && o.rts()[m].service@ == s;
            assert(os.located(o.rts()[m].app@, o.rts()[m].service@));
            assert(ns.located(a, s) == os.located(a, s));
        }
    }
    assert forall|a: Seq<char>, s: Seq<char>| #[trigger] n.service_ok(a, s) by {
        assert(o.service_ok(a, s));
        assert(ns.located(a, s) == os.located(a, s));
    }
}

impl<H> Supervisor<H> {
    /// Decides how to start `(app, service)`. A service whose child is held
    /// is left alone: nothing is killed or launched. Otherwise its recorded
    /// pid, if any, is a leftover of an earlier run, whose process group is
    /// killed before the launch. `cwd` is the daemon's working directory.
    pub fn plan_start(&self, app: &str, service: &str, cwd: &str) -> (r: Result<StartPlan, ServinelError>)
        requires
            self.wf(),
        ensures
            !self.st().has_app(app@) ==> (r matches Err(ServinelError::AppNotFound(a)) && a@ == app@),
            self.st().has_app(app@) && !self.st().located(app@, service@) ==> (r matches Err(
                ServinelError::ServiceNotFound(s),
            ) && s@ == service@),
            self.st().located(app@, service@) ==> (r matches Ok(plan) && {
                let s = self.st().service(app@, service@);
                &&& self.has_runtime(app@, service@) ==> plan.kill_group is None
                &&& !self.has_runtime(app@, service@) ==> plan.kill_group == s.pid
                &&& self.has_runtime(app@, service@) <==> plan.launch is None
                &&& plan.launch matches Some(l) ==> {
                    let w = workdir_spec(s.config, self.st().app(app@).compose_path@, cwd@);
                    &&& l.workdir@ == w
                    &&& l.shell_command@ == shell_command_spec(s.config.command@, w)
                }
            }),
    {
        let i = match self.state.find_app(app) {
            Some(i) => i,
            None => {
                return Err(ServinelError::AppNotFound(String::from_str(app)));
            },
        };
        let a = &self.state.apps[i];
        proof {
            assert(self.state.apps@[i as int].wf());
        }
        let j = match a.find_service(service) {
            Some(j) => j,
            None => {
                return Err(ServinelError::ServiceNotFound(String::from_str(service)));
            },
        };
        let s = &a.services[j];
        if self.find_runtime(app, service).is_some() {
            return Ok(StartPlan { kill_group: None, launch: None });
        }
        let kill_group = s.pid;
        let workdir = match &s.config.working_directory {
            Some(d) => d.clone(),
            None => match path_parent(a.compose_path.as_str()) {
                Some(p) => p,
                None => String::from_str(cwd),
            },
        };
        let shell = shell_command(s.config.command.as_str(), workdir.as_str());
        Ok(StartPlan { kill_group, launch: Some(Launch { shell_command: shell, workdir }) })
    }

    /// Records a child just spawned for `(app, service)` with process id
    /// `pid` at `now`: it is Running with that pid and start time. A service
    /// unknown or already held gives the handle back and changes nothing.
    pub fn commit_start(&mut self, app: &str, service: &str, handle: H, pid: u32, now: u64) -> (r: Result<(), H>)
        requires
            old(self).wf(),
        ensures
            final(self).wf(),
            r is Ok <==> (old(self).st().located(app@, service@) && !old(self).has_runtime(app@, service@)),
            r is Err ==> *final(self) == *old(self),
            old(self).st().located(app@, service@) ==> final(self).lifecycle(app@, service@) == lifecycle_step(
                old(self).lifecycle(app@, service@),
                LifecycleOp::Start { pid, now },
            ),
            r is Ok ==> {
                &&& old(self).st().with_service(
                    final(self).st(),
                    app@,
                    service@,
                    ServiceState {
                        status: ServiceStatus::Running,
                        pid: Some(pid),
                        started_at: Some(now),
                        exit_code: None,
                        ..old(self).st().service(app@, service@)
                    },
                )
                &&& final(self).has_runtime(app@, service@)
                &&& forall|a: Seq<char>, s: Seq<char>|
                    !(a == app@ && s == service@) ==> #[trigger] final(self).has_runtime(a, s)
                        == old(self).has_runtime(a, s)
            },
    {
        if self.state.locate(app, service).is_none() || self.find_runtime(app, service).is_some() {
            return Err(handle);
        }
        let ghost o = *self;
        let rt = Runtime { app: String::from_str(app), service: String::from_str(service), handle };
        self.runtimes.push(rt);
        self.state.set_run_state(app, service, ServiceStatus::Running, Some(pid), Some(now), None);
        proof {
            lemma_seq_has_push(o.rts(), rt);
            assert(self.rts() == o.rts().push(rt));
            assert forall|x: int, y: int| 0 <= x < y < self.rts().len() implies !(self.rts()[x].app@
                == self.rts()[y].app@ && self.rts()[x].service@ == self.rts()[y].service@) by {
                if y == o.rts().len() {
                    assert(self.rts()[x] == o.rts()[x]);
                }
            }
            let x = ServiceState {
                status: ServiceStatus::Running,
                pid: Some(pid),
                started_at: Some(now),
                exit_code: None,
                ..o.st().service(app@, service@)
            };
            let i = o.st().app_index(app@);
            let j = o.st().app(app@).service_index(service@);
            assert(o.st().apps@[i].wf());
            assert(x.logs.wf());
            lemma_change_one(o, *self, app@, service@, x);
        }
        Ok(())
    }

    /// Stops `(app, service)`: it becomes Stopped with no pid, start time or
    /// exit code, and its child, if held, leaves the table. The recorded pid,
    /// if any, is handed back for its process group to be killed.
    pub fn stop_service(&mut self, app: &str, service: &str) -> (r: StopOutcome<H>)
        requires
            old(self).wf(),
        ensures
            final(self).wf(),
            old(self).st().located(app@, service@) ==> old(self).st().with_service(
                final(self).st(),
                app@,
                service@,
                ServiceState {
                    status: ServiceStatus::Stopped,
                    pid: None,
                    started_at: None,
                    exit_code: None,
                    ..old(self).st().service(app@, service@)
                },
            ),
            !old(self).st().located(app@, service@) ==> final(self).st() == old(self).st(),
            r.kill_group == if old(self).st().located(app@, service@) {
                old(self).st().service(app@, service@).pid
            } else {
                None
            },
            r.handle is Some <==> old(self).has_runtime(app@, service@),
            r.handle matches Some(h) ==> holds_handle(old(self).rts(), app@, service@, h),
            old(self).st().located(app@, service@) ==> final(self).lifecycle(app@, service@) == lifecycle_step(
                old(self).lifecycle(app@, service@),
                LifecycleOp::Stop,
            ),
            forall|a: Seq<char>, s: Seq<char>, h: H|
                #[trigger] holds_handle(final(self).rts(), a, s, h) ==> holds_handle(old(self).rts(), a, s, h),
            old(self).st().located(app@, service@) ==> final(self).st().service(app@, service@).exit_code is None,
            forall|a: Seq<char>, s: Seq<char>| #[trigger] final(self).st().located(a, s) == old(self).st().located(a, s),
            forall|a: Seq<char>, s: Seq<char>|
                !(a == app@ && s == service@) && old(self).st().located(a, s) ==> #[trigger] final(self).st().service(a, s)
                    == old(self).st().service(a, s),
            forall|a: Seq<char>| #[trigger] final(self).st().has_app(a) == old(self).st().has_app(a),
            forall|a: Seq<char>| old(self).st().has_app(a) ==> #[trigger] final(self).st().app(a).app_name == old(self).st().app(a).app_name,
            !final(self).has_runtime(app@, service@),
            forall|a: Seq<char>, s: Seq<char>|
                !(a == app@ && s == service@) ==> #[trigger] final(self).has_runtime(a, s)
                    == old(self).has_runtime(a, s),
    {
        let ghost o = *self;
        let kill_group = match self.state.locate(app, service) {
            Some((i, j)) => self.state.apps[i].services[j].pid,
            None => None,
        };
        let handle = match self.find_runtime(app, service) {
            Some(k) => {
                proof {
                    lemma_seq_has_remove(o.rts(), k as int);
                    lemma_holds_remove(o.rts(), k as int);
                }
                let rt = self.runtimes.remove(k);
                proof {
                    assert(rt == o.rts()[k as int]);
                }
                Some(rt.handle)
            },
            None => None,
        };
        self.state.set_run_state(app, service, ServiceStatus::Stopped, None, None, None);
        proof {
            if o.st().located(app@, service@) {
                let x = ServiceState {
                    status: ServiceStatus::Stopped,
                    pid: None,
                    started_at: None,
                    exit_code: None,
                    ..o.st().service(app@, service@)
                };
                let i = o.st().app_index(app@);
                let j = o.st().app(app@).service_index(service@);
                assert(o.st().apps@[i].wf());
                assert(x.logs.wf());
                lemma_change_one(o, *self, app@, service@, x);
                lemma_service_change(o.st(), self.st(), i, j);
                assert forall|a: Seq<char>| o.st().has_app(a) implies #[trigger] self.st().app(a).app_name
                    == o.st().app(a).app_name by {
                    let x2 = o.st().app_index(a);
                    assert(self.st().app_index(a) == x2);
                    if x2 != i {
                        assert(self.st().apps@[x2] == o.st().apps@[x2]);
                    }
                }
            } else {
                // Every held child belongs to a known service, so none is held here.
                if seq_has(o.rts(), app@, service@) {
                    let m = choose|m: int| 0 <= m < o.rts().len() && #[trigger] o.rts()[m].app@ == app@ && o.rts()[m].service@ == service@;
                    assert(o.st().located(o.rts()[m].app@, o.rts()[m].service@));
                }
                assert(self.rts() == o.rts());
                assert(self.st() == o.st());
            }
        }
        StopOutcome { kill_group, handle }
    }

    /// Records that the child held for `(app, service)` has exited with
    /// `exit_code`: the service becomes Exited with no pid or start time, and
    /// the child's handle leaves the table. Nothing changes when no child is
    /// held for it.
    pub fn record_exit(&mut self, app: &str, service: &str, exit_code: Option<i32>) -> (r: Option<H>)
        requires
            old(self).wf(),
        ensures
            final(self).wf(),
            r is Some <==> old(self).has_runtime(app@, service@),
            r is None ==> *final(self) == *old(self),
            old(self).st().located(app@, service@) ==> final(self).lifecycle(app@, service@) == lifecycle_step(
                old(self).lifecycle(app@, service@),
                LifecycleOp::Exit { code: exit_code },
            ),
            forall|a: Seq<char>, s: Seq<char>| #[trigger] final(self).st().located(a, s) == old(self).st().located(a, s),
            forall|a: Seq<char>, s: Seq<char>|
                !(a == app@ && s == service@) && old(self).st().located(a, s) ==> #[trigger] final(self).st().service(a, s)
                    == old(self).st().service(a, s),
            r is Some ==> old(self).st().located(app@, service@) && old(self).st().with_service(
                final(self).st(),
                app@,
                service@,
                ServiceState {
                    status: ServiceStatus::Exited,
                    pid: None,
                    started_at: None,
                    exit_code,
                    ..old(self).st().service(app@, service@)
                },
            ) && final(self).st().service(app@, service@) == (ServiceState {
                status: ServiceStatus::Exited,
                pid: None,
                started_at: None,
                exit_code,
                ..old(self).st().service(app@, service@)
            }),
            r matches Some(h) ==> holds_handle(old(self).rts(), app@, service@, h),
            !final(self).has_runtime(app@, service@),
            forall|a: Seq<char>, s: Seq<char>|
                !(a == app@ && s == service@) ==> #[trigger] final(self).has_runtime(a, s)
                    == old(self).has_runtime(a, s),
    {
        let ghost o = *self;
        match self.find_runtime(app, service) {
            None => None,
            Some(k) => {
                proof {
                    lemma_seq_has_remove(o.rts(), k as int);
                    assert(o.st().located(o.rts()[k as int].app@, o.rts()[k as int].service@));
                }
                let rt = self.runtimes.remove(k);
                self.state.set_run_state(app, service, ServiceStatus::Exited, None, None, exit_code);
                proof {
                    let x = ServiceState {
                        status: ServiceStatus::Exited,
                        pid: None,
                        started_at: None,
                        exit_code,
                        ..o.st().service(app@, service@)
                    };
                    let i = o.st().app_index(app@);
                    let j = o.st().app(app@).service_index(service@);
                    assert(o.st().apps@[i].wf());
                    assert(x.logs.wf());
                    lemma_change_one(o, *self, app@, service@, x);
                    assert(rt == o.rts()[k as int]);
                }
                Some(rt.handle)
            },
        }
    }
}

} // verus!

verus! {

/// A held child belongs to a known service that is Running or Starting.
proof fn lemma_held_located<H>(o: Supervisor<H>, a: Seq<char>, s: Seq<char>)
    requires
        o.wf(),
        seq_has(o.rts(), a, s),
    ensures
        o.st().located(a, s),
        is_active(o.st().service(a, s).status),
{
    let m = choose|m: int| 0 <= m < o.rts().len() && #[trigger] o.rts()[m].app@ == a && o.rts()[m].service@ == s;
    assert(o.st().located(o.rts()[m].app@, o.rts()[m].service@));
}

/// A change to a service's record that keeps its lifecycle fields and its
/// configuration keeps the supervisor well formed.
proof fn lemma_record_change<H>(o: Supervisor<H>, n: Supervisor<H>, app: Seq<char>, svc: Seq<char>, x: ServiceState)
    requires
        o.wf(),
        n.st().wf(),
        n.rts() == o.rts(),
        o.st().located(app, svc),
        o.st().with_service(n.st(), app, svc, x),
        x.config == o.st().service(app, svc).config,
        x.status == o.st().service(app, svc).status,
        x.pid == o.st().service(app, svc).pid,
        x.started_at == o.st().service(app, svc).started_at,
    ensures
        n.wf(),
{
    let i = o.st().app_index(app);
    let j = o.st().app(app).service_index(svc);
    assert(o.st().has_app(app));
    assert(0 <= i < o.st().apps@.len());
    assert(o.st().app(app).has_service(svc));
    assert(0 <= j < o.st().apps@[i].services@.len());
    assert(n.st().apps@[i].wf());
    assert(n.st().apps@[i].services@[j].logs.wf());
    if seq_has(o.rts(), app, svc) {
        lemma_held_located(o, app, svc);
    }
    assert(o.service_ok(app, svc));
    lemma_change_one(o, n, app, svc, x);
}

/// After such a change every key is known as before and keeps its
/// lifecycle.
proof fn lemma_record_frame<H>(o: Supervisor<H>, n: Supervisor<H>, app: Seq<char>, svc: Seq<char>, x: ServiceState)
    requires
        o.wf(),
        n.st().wf(),
        n.rts() == o.rts(),
        o.st().located(app, svc),
        o.st().with_service(n.st(), app, svc, x),
        x.config == o.st().service(app, svc).config,
        x.status == o.st().service(app, svc).status,
        x.pid == o.st().service(app, svc).pid,
        x.started_at == o.st().service(app, svc).started_at,
    ensures
        forall|a: Seq<char>, s: Seq<char>| #[trigger] n.st().located(a, s) == o.st().located(a, s),
        forall|a: Seq<char>, s: Seq<char>| o.st().located(a, s) ==> #[trigger] n.lifecycle(a, s) == o.lifecycle(a, s),
        n.st().service(app, svc) == x,
        forall|a: Seq<char>, s: Seq<char>|
            !(a == app && s == svc) && o.st().located(a, s) ==> #[trigger] n.st().service(a, s) == o.st().service(a, s),
{
    let i = o.st().app_index(app);
    let j = o.st().app(app).service_index(svc);
    assert(o.st().has_app(app));
    assert(o.st().app(app).has_service(svc));
    assert(n.st().apps@[i].wf());
    assert(n.st().apps@[i].services@[j].logs.wf());
    if seq_has(o.rts(), app, svc) {
        lemma_held_located(o, app, svc);
    }
    assert(o.service_ok(app, svc));
    lemma_change_one(o, n, app, svc, x);
    assert forall|a: Seq<char>, s: Seq<char>| o.st().located(a, s) implies #[trigger] n.lifecycle(a, s) == o.lifecycle(a, s) by {
        if !(a == app && s == svc) {
            assert(n.st().service(a, s) == o.st().service(a, s));
        }
    }
}

/// One observation of a refresh tick.
#[derive(Debug)]
pub enum RefreshUpdate {
    /// The held child of the service has exited.
    Exited { app: String, service: String, exit_code: Option<i32> },
    /// A resource sample of the service's child.
    Metrics { app: String, service: String, metrics: ServiceMetrics },
}

pub open spec fn update_key(u: RefreshUpdate) -> (Seq<char>, Seq<char>) {
    match u {
        RefreshUpdate::Exited { app, service, .. } => (app@, service@),
        RefreshUpdate::Metrics { app, service, .. } => (app@, service@),
    }
}

/// The record of service `(a, s)`, and whether a child is held for it,
/// after the updates of a refresh tick, in order: an exit of a held child
/// makes it Exited with no pid or start time and that exit code, and lets
/// the child go; a sample sets its metrics. Nothing else changes.
pub open spec fn refresh_record(
    rec: ServiceState,
    held: bool,
    updates: Seq<RefreshUpdate>,
    a: Seq<char>,
    s: Seq<char>,
) -> (ServiceState, bool)
    decreases updates.len(),
{
    if updates.len() == 0 {
        (rec, held)
    } else {
        let prev = refresh_record(rec, held, updates.drop_last(), a, s);
        match updates.last() {
            RefreshUpdate::Exited { app, service, exit_code } => if app@ == a && service@ == s && prev.1 {
                (
                    ServiceState {
                        status: ServiceStatus::Exited,
                        pid: None,
                        started_at: None,
                        exit_code,
                        ..prev.0
                    },
                    false,
                )
            } else {
                prev
            },
            RefreshUpdate::Metrics { app, service, metrics } => if app@ == a && service@ == s {
                (ServiceState { metrics, ..prev.0 }, prev.1)
            } else {
                prev
            },
        }
    }
}

impl<H> Supervisor<H> {
    /// Appends a line to a service's ring buffer.
    pub fn push_log(&mut self, app: &str, service: &str, entry: LogEntry)
        requires
            old(self).wf(),
        ensures
            final(self).wf(),
            final(self).rts() == old(self).rts(),
            old(self).st().located(app@, service@) ==> {
                let s = old(self).st().service(app@, service@);
                let t = final(self).st().service(app@, service@);
                &&& old(self).st().with_service(final(self).st(), app@, service@, ServiceState { logs: t.logs, ..s })
                &&& t.logs@ == keep_last(s.logs@.push(entry), s.logs.spec_capacity())
            },
            !old(self).st().located(app@, service@) ==> final(self).st() == old(self).st(),
    {
        let ghost o = *self;
        self.state.push_log(app, service, entry);
        proof {
            if o.st().located(app@, service@) {
                let s = o.st().service(app@, service@);
                let t = self.st().service(app@, service@);
                lemma_record_change(o, *self, app@, service@, ServiceState { logs: t.logs, ..s });
            }
        }
    }

    /// Brings back what a previous daemon recorded of a service that is
    /// not running here: its last pid, left as a process group to kill at
    /// the next start, and its last exit code. A service that is unknown,
    /// running or held is left alone.
    pub fn restore_service(&mut self, app: &str, service: &str, pid: Option<u32>, exit_code: Option<i32>) -> (r: bool)
        requires
            old(self).wf(),
        ensures
            final(self).wf(),
            final(self).rts() == old(self).rts(),
            r == (old(self).st().located(app@, service@) && !is_active(old(self).st().service(app@, service@).status)
                && !old(self).has_runtime(app@, service@)),
            !r ==> final(self).st() == old(self).st(),
            r ==> old(self).st().with_service(
                final(self).st(),
                app@,
                service@,
                ServiceState { pid, exit_code, ..old(self).st().service(app@, service@) },
            ),
    {
        let (i, j) = match self.state.locate(app, service) {
            Some(found) => found,
            None => {
                return false;
            },
        };
        if self.state.apps[i].services[j].status.is_active() || self.find_runtime(app, service).is_some() {
            return false;
        }
        let ghost o = *self;
        let status = self.state.apps[i].services[j].status;
        let started_at = self.state.apps[i].services[j].started_at;
        self.state.set_run_state(app, service, status, pid, started_at, exit_code);
        proof {
            let x = ServiceState { pid, exit_code, ..o.st().service(app@, service@) };
            assert(o.st().apps@[i as int].wf());
            assert(x.logs.wf());
            assert(o.service_ok(app@, service@));
            lemma_change_one(o, *self, app@, service@, x);
        }
        true
    }

    /// Records a resource sample of a service.
    pub fn set_metrics(&mut self, app: &str, service: &str, metrics: ServiceMetrics)
        requires
            old(self).wf(),
        ensures
            final(self).wf(),
            final(self).rts() == old(self).rts(),
            old(self).st().located(app@, service@) ==> old(self).st().with_service(
                final(self).st(),
                app@,
                service@,
                ServiceState { metrics, ..old(self).st().service(app@, service@) },
            ),
            !old(self).st().located(app@, service@) ==> final(self).st() == old(self).st(),
            forall|a: Seq<char>, s: Seq<char>| #[trigger] final(self).st().located(a, s) == old(self).st().located(a, s),
            forall|a: Seq<char>, s: Seq<char>|
                old(self).st().located(a, s) ==> #[trigger] final(self).lifecycle(a, s) == old(self).lifecycle(a, s),
            old(self).st().located(app@, service@) ==> final(self).st().service(app@, service@) == (ServiceState {
                metrics,
                ..old(self).st().service(app@, service@)
            }),
            forall|a: Seq<char>, s: Seq<char>|
                !(a == app@ && s == service@) && old(self).st().located(a, s) ==> #[trigger] final(self).st().service(a, s)
                    == old(self).st().service(a, s),
    {
        let ghost o = *self;
        self.state.set_metrics(app, service, metrics);
        proof {
            if o.st().located(app@, service@) {
                let s = o.st().service(app@, service@);
                lemma_record_change(o, *self, app@, service@, ServiceState { metrics, ..s });
                lemma_record_frame(o, *self, app@, service@, ServiceState { metrics, ..s });
            }
        }
    }

    /// Applies one refresh tick: the system-wide sample, then each update in
    /// order. Tells whether there was any update, that is whether the state
    /// is worth saving.
    pub fn refresh(&mut self, cpu_bits: u32, used: u64, total: u64, updates: Vec<RefreshUpdate>) -> (r: bool)
        requires
            old(self).wf(),
        ensures
            final(self).wf(),
            r == (updates@.len() > 0),
            final(self).st().system_cpu_bits == cpu_bits,
            final(self).st().system_memory_used == used,
            final(self).st().system_memory_total == total,
            forall|k: int|
                0 <= k < updates@.len() && updates@[k] is Exited ==> !final(self).has_runtime(
                    #[trigger] update_key(updates@[k]).0,
                    update_key(updates@[k]).1,
                ),
            forall|a: Seq<char>, s: Seq<char>|
                (forall|k: int| 0 <= k < updates@.len() && updates@[k] is Exited ==> #[trigger] update_key(updates@[k]) != (a, s))
                    ==> #[trigger] final(self).has_runtime(a, s) == old(self).has_runtime(a, s),
            forall|a: Seq<char>, s: Seq<char>| #[trigger] final(self).st().located(a, s) == old(self).st().located(a, s),
            forall|a: Seq<char>, s: Seq<char>|
                old(self).st().located(a, s) ==> (#[trigger] final(self).st().service(a, s), final(self).has_runtime(
                    a,
                    s,
                )) == refresh_record(old(self).st().service(a, s), old(self).has_runtime(a, s), updates@, a, s),
    {
        let any = updates.len() > 0;
        self.state.set_system_metrics(cpu_bits, used, total);
        proof {
            assert(self.st().apps == old(self).st().apps);
            assert forall|a: Seq<char>, s: Seq<char>| #[trigger] self.service_ok(a, s) by {
                assert(old(self).service_ok(a, s));
            }
            assert(updates@.subrange(0, 0) =~= Seq::<RefreshUpdate>::empty());
            assert forall|a: Seq<char>, s: Seq<char>| #[trigger] self.st().located(a, s) == old(self).st().located(a, s)
                && self.st().service(a, s) == old(self).st().service(a, s) by {}
        }
        let mut k: usize = 0;
        while k < updates.len()
            invariant
                self.wf(),
                k <= updates@.len(),
                self.st().system_cpu_bits == cpu_bits,
                self.st().system_memory_used == used,
                self.st().system_memory_total == total,
                forall|m: int|
                    0 <= m < k && updates@[m] is Exited ==> !self.has_runtime(
                        #[trigger] update_key(updates@[m]).0,
                        update_key(updates@[m]).1,
                    ),
                forall|a: Seq<char>, s: Seq<char>|
                    (forall|m: int| 0 <= m < k && updates@[m] is Exited ==> #[trigger] update_key(updates@[m]) != (a, s))
                        ==> #[trigger] self.has_runtime(a, s) == old(self).has_runtime(a, s),
                forall|a: Seq<char>, s: Seq<char>| #[trigger] self.st().located(a, s) == old(self).st().located(a, s),
                forall|a: Seq<char>, s: Seq<char>|
                    old(self).st().located(a, s) ==> (#[trigger] self.st().service(a, s), self.has_runtime(a, s))
                        == refresh_record(
                        old(self).st().service(a, s),
                        old(self).has_runtime(a, s),
                        updates@.subrange(0, k as int),
                        a,
                        s,
                    ),
            decreases updates@.len() - k,
        {
            let ghost before = *self;
            match &updates[k] {
                RefreshUpdate::Exited { app, service, exit_code } => {
                    let _ = self.record_exit(app.as_str(), service.as_str(), *exit_code);
                },
                RefreshUpdate::Metrics { app, service, metrics } => {
                    self.set_metrics(app.as_str(), service.as_str(), *metrics);
                    proof {
                        assert(self.st().system_cpu_bits == before.st().system_cpu_bits);
                    }
                },
            }
            proof {
                let pre = updates@.subrange(0, k + 1);
                assert(pre.drop_last() =~= updates@.subrange(0, k as int));
                assert(pre.last() == updates@[k as int]);
                assert forall|a: Seq<char>, s: Seq<char>| #[trigger] self.st().located(a, s) == old(self).st().located(a, s) by {
                    assert(before.st().located(a, s) == old(self).st().located(a, s));
                }
                assert forall|a: Seq<char>, s: Seq<char>| old(self).st().located(a, s) implies (
                #[trigger] self.st().service(a, s), self.has_runtime(a, s)) == refresh_record(
                    old(self).st().service(a, s),
                    old(self).has_runtime(a, s),
                    pre,
                    a,
                    s,
                ) by {
                    assert(before.st().located(a, s));
                    let prev = refresh_record(
                        old(self).st().service(a, s),
                        old(self).has_runtime(a, s),
                        updates@.subrange(0, k as int),
                        a,
                        s,
                    );
                    assert((before.st().service(a, s), before.has_runtime(a, s)) == prev);
                    match updates@[k as int] {
                        RefreshUpdate::Exited { app, service, exit_code } => {
                            if !(app@ == a && service@ == s) {
                                assert(self.st().service(a, s) == before.st().service(a, s));
                                assert(self.has_runtime(a, s) == before.has_runtime(a, s));
                            } else if !prev.1 {
                                assert(*self == before);
                            }
                        },
                        RefreshUpdate::Metrics { app, service, metrics } => {
                            assert(self.has_runtime(a, s) == before.has_runtime(a, s));
                            if !(app@ == a && service@ == s) {
                                assert(self.st().service(a, s) == before.st().service(a, s));
                            }
                        },
                    }
                }
                assert forall|a: Seq<char>, s: Seq<char>|
                    (forall|m: int| 0 <= m < k + 1 && updates@[m] is Exited ==> #[trigger] update_key(updates@[m]) != (a, s))
                    implies #[trigger] self.has_runtime(a, s) == old(self).has_runtime(a, s) by {
                    if updates@[k as int] is Exited {
                        assert(update_key(updates@[k as int]) != (a, s));
                    }
                    assert(before.has_runtime(a, s) == old(self).has_runtime(a, s));
                }
                assert forall|m: int|
                    0 <= m < k + 1 && updates@[m] is Exited implies !self.has_runtime(
                        #[trigger] update_key(updates@[m]).0,
                        update_key(updates@[m]).1,
                    ) by {
                    if m < k {
                        assert(!before.has_runtime(update_key(updates@[m]).0, update_key(updates@[m]).1));
                    }
                }
            }
            k = k + 1;
        }
        proof {
            assert(updates@.subrange(0, updates@.len() as int) =~= updates@);
        }
        any
    }
}

} // verus!

verus! {

impl<H> Supervisor<H> {
    /// Registers the app of a validated manifest loaded from `path`. An app
    /// of that name already known has its services stopped first (their
    /// kills and handles are handed back) and is then replaced; every
    /// service of the new record is Stopped.
    pub fn register_app(&mut self, compose: ComposeFile, path: String) -> (r: Vec<StopOutcome<H>>)
        requires
            old(self).wf(),
            compose_valid(compose),
        ensures
            final(self).wf(),
            final(self).st().has_app(compose.app_name@),
            fresh_app(final(self).st().app(compose.app_name@), compose, path@),
            forall|s: Seq<char>| !#[trigger] final(self).has_runtime(compose.app_name@, s),
            forall|a: Seq<char>|
                a != compose.app_name@ ==> #[trigger] final(self).st().has_app(a) == old(self).st().has_app(a),
            forall|a: Seq<char>|
                a != compose.app_name@ && old(self).st().has_app(a) ==> #[trigger] final(self).st().app(a)
                    == old(self).st().app(a),
            forall|a: Seq<char>, s: Seq<char>|
                a != compose.app_name@ ==> #[trigger] final(self).has_runtime(a, s) == old(self).has_runtime(a, s),
            !old(self).st().has_app(compose.app_name@) ==> r@.len() == 0,
    {
        let name = compose.app_name.clone();
        let mut outcomes: Vec<StopOutcome<H>> = Vec::new();
        if let Some(i) = self.state.find_app(name.as_str()) {
            let names = self.state.apps[i].service_order();
            let ghost o = *self;
            let ghost app0 = o.st().app(name@);
            proof {
                assert(o.st().apps@[i as int].wf());
            }
            let mut k: usize = 0;
            while k < names.len()
                invariant
                    self.wf(),
                    k <= names@.len(),
                    name@ == compose.app_name@,
                    o == *old(self),
                    o.wf(),
                    self.st().has_app(name@),
                    o.st().has_app(name@),
                    app0 == o.st().app(name@),
                    names@.len() == app0.services@.len(),
                    forall|m: int| 0 <= m < names@.len() ==> #[trigger] names@[m] == app0.services@[m].config.name,
                    forall|a: Seq<char>, s: Seq<char>| #[trigger] self.st().located(a, s) == o.st().located(a, s),
                    forall|a: Seq<char>| #[trigger] self.st().has_app(a) == o.st().has_app(a),
                    forall|a: Seq<char>| a != name@ && o.st().has_app(a) ==> #[trigger] self.st().app(a) == o.st().app(a),
                    forall|m: int| 0 <= m < k ==> !self.has_runtime(name@, #[trigger] names@[m]@),
                    forall|a: Seq<char>, s: Seq<char>|
                        a != name@ ==> #[trigger] self.has_runtime(a, s) == o.has_runtime(a, s),
                decreases names@.len() - k,
            {
                let ghost before = *self;
                let out = self.stop_service(name.as_str(), names[k].as_str());
                outcomes.push(out);
                proof {
                    if before.st().located(name@, names@[k as int]@) {
                        let bi = before.st().app_index(name@);
                        let bj = before.st().app(name@).service_index(names@[k as int]@);
                        assert(before.st().has_app(name@));
                        assert(before.st().app(name@).has_service(names@[k as int]@));
                        lemma_service_change(before.st(), self.st(), bi, bj);
                        assert forall|a: Seq<char>| a != name@ && o.st().has_app(a) implies #[trigger] self.st().app(a)
                            == o.st().app(a) by {
                            assert(before.st().has_app(a));
                            let x = before.st().app_index(a);
                            assert(0 <= x < before.st().apps@.len() && before.st().apps@[x].app_name@ == a);
                            assert(self.st().app_index(a) == x);
                            assert(0 <= bi < before.st().apps@.len() && before.st().apps@[bi].app_name@ == name@);
                            assert(x != bi);
                            assert(only_service_changed(before.st(), self.st(), bi, bj));
                            assert(self.st().apps@[x] == before.st().apps@[x]);
                            assert(before.st().app(a) == o.st().app(a));
                        }
                        assert forall|a: Seq<char>| #[trigger] self.st().has_app(a) == o.st().has_app(a) by {
                            assert(self.st().has_app(a) == before.st().has_app(a));
                        }
                        assert forall|a: Seq<char>, s: Seq<char>| #[trigger] self.st().located(a, s) == o.st().located(a, s) by {
                            assert(self.st().located(a, s) == before.st().located(a, s));
                        }
                    }
                    assert forall|m: int| 0 <= m < k + 1 implies !self.has_runtime(name@, #[trigger] names@[m]@) by {
                        if m < k {
                            assert(!before.has_runtime(name@, names@[m]@));
                        }
                    }
                }
                k = k + 1;
            }
            proof {
                // Every held child of the app was stopped.
                assert forall|s: Seq<char>| !#[trigger] self.has_runtime(name@, s) by {
                    if self.has_runtime(name@, s) {
                        lemma_held_located(*self, name@, s);
                        assert(o.st().located(name@, s));
                        assert(app0.has_service(s));
                        let j = choose|j: int| 0 <= j < app0.services@.len() && #[trigger] app0.services@[j].config.name@ == s;
                        assert(names@[j]@ == s);
                    }
                }
            }
        }
        let ghost mid = *self;
        self.state.insert_app(compose, path);
        proof {
            assert forall|s: Seq<char>| !#[trigger] mid.has_runtime(name@, s) by {
                if mid.has_runtime(name@, s) {
                    lemma_held_located(mid, name@, s);
                }
            }
            assert forall|k: int| 0 <= k < self.rts().len() implies self.st().located(
                (#[trigger] self.rts()[k]).app@,
                self.rts()[k].service@,
            ) && is_active(self.st().service(self.rts()[k].app@, self.rts()[k].service@).status) by {
                let a = self.rts()[k].app@;
                let s = self.rts()[k].service@;
                assert(seq_has(mid.rts(), a, s));
                lemma_held_located(mid, a, s);
                if a == name@ {
                    assert(mid.has_runtime(name@, s));
                }
                assert(self.st().has_app(a) == mid.st().has_app(a));
                assert(self.st().app(a) == mid.st().app(a));
            }
            assert forall|a: Seq<char>, s: Seq<char>| #[trigger] self.service_ok(a, s) by {
                if a != name@ {
                    assert(mid.service_ok(a, s));
                    assert(self.st().has_app(a) == mid.st().has_app(a));
                    if mid.st().has_app(a) {
                        assert(self.st().app(a) == mid.st().app(a));
                    }
                } else if self.st().located(a, s) {
                    let ap = self.st().app(a);
                    let j = ap.service_index(s);
                    assert(ap.has_service(s));
                    assert(fresh_service(ap.services@[j], compose.services@[j]));
                    assert(!mid.has_runtime(a, s));
                }
            }
            assert forall|a: Seq<char>, s: Seq<char>| a != name@ implies #[trigger] self.has_runtime(a, s)
                == old(self).has_runtime(a, s) by {
                assert(mid.has_runtime(a, s) == old(self).has_runtime(a, s));
            }
        }
        outcomes
    }

    /// Forgets the app named `name` after stopping every one of its services;
    /// their kills and handles are handed back.
    pub fn remove_app(&mut self, name: &str) -> (r: Vec<StopOutcome<H>>)
        requires
            old(self).wf(),
        ensures
            final(self).wf(),
            !final(self).st().has_app(name@),
            forall|a: Seq<char>|
                a != name@ ==> #[trigger] final(self).st().has_app(a) == old(self).st().has_app(a),
            forall|a: Seq<char>|
                a != name@ && old(self).st().has_app(a) ==> #[trigger] final(self).st().app(a) == old(self).st().app(a),
            forall|a: Seq<char>, s: Seq<char>|
                a != name@ ==> #[trigger] final(self).has_runtime(a, s) == old(self).has_runtime(a, s),
            forall|s: Seq<char>| !#[trigger] final(self).has_runtime(name@, s),
            !old(self).st().has_app(name@) ==> r@.len() == 0 && final(self).st() == old(self).st(),
            old(self).st().has_app(name@) ==> final(self).st().apps@.len() == old(self).st().apps@.len() - 1,
    {
        let mut outcomes: Vec<StopOutcome<H>> = Vec::new();
        let i = match self.state.find_app(name) {
            Some(i) => i,
            None => {
                proof {
                    assert forall|s: Seq<char>| !#[trigger] self.has_runtime(name@, s) by {
                        if self.has_runtime(name@, s) {
                            lemma_held_located(*self, name@, s);
                        }
                    }
                }
                return outcomes;
            },
        };
        let names = self.state.apps[i].service_order();
        let ghost o = *self;
        let ghost app0 = o.st().app(name@);
        let mut k: usize = 0;
        while k < names.len()
            invariant
                self.wf(),
                k <= names@.len(),
                o == *old(self),
                o.wf(),
                o.st().has_app(name@),
                app0 == o.st().app(name@),
                names@.len() == app0.services@.len(),
                forall|m: int| 0 <= m < names@.len() ==> #[trigger] names@[m] == app0.services@[m].config.name,
                forall|a: Seq<char>, s: Seq<char>| #[trigger] self.st().located(a, s) == o.st().located(a, s),
                self.st().apps@.len() == o.st().apps@.len(),
                forall|a: Seq<char>| #[trigger] self.st().has_app(a) == o.st().has_app(a),
                forall|a: Seq<char>| a != name@ && o.st().has_app(a) ==> #[trigger] self.st().app(a) == o.st().app(a),
                forall|m: int| 0 <= m < k ==> !self.has_runtime(name@, #[trigger] names@[m]@),
                forall|a: Seq<char>, s: Seq<char>|
                    a != name@ ==> #[trigger] self.has_runtime(a, s) == o.has_runtime(a, s),
            decreases names@.len() - k,
        {
            let ghost before = *self;
            let out = self.stop_service(name, names[k].as_str());
            outcomes.push(out);
            proof {
                if before.st().located(name@, names@[k as int]@) {
                    let bi = before.st().app_index(name@);
                    let bj = before.st().app(name@).service_index(names@[k as int]@);
                    assert(before.st().has_app(name@));
                    assert(before.st().app(name@).has_service(names@[k as int]@));
                    lemma_service_change(before.st(), self.st(), bi, bj);
                    assert forall|a: Seq<char>| #[trigger] self.st().has_app(a) == o.st().has_app(a) by {
                        assert(self.st().has_app(a) == before.st().has_app(a));
                    }
                    assert forall|a: Seq<char>| a != name@ && o.st().has_app(a) implies #[trigger] self.st().app(a)
                        == o.st().app(a) by {
                        assert(before.st().has_app(a));
                        let x = before.st().app_index(a);
                        assert(0 <= x < before.st().apps@.len() && before.st().apps@[x].app_name@ == a);
                        assert(self.st().app_index(a) == x);
                        assert(0 <= bi < before.st().apps@.len() && before.st().apps@[bi].app_name@ == name@);
                        assert(x != bi);
                        assert(only_service_changed(before.st(), self.st(), bi, bj));
                        assert(self.st().apps@[x] == before.st().apps@[x]);
                        assert(before.st().app(a) == o.st().app(a));
                    }
                    assert forall|a: Seq<char>, s: Seq<char>| #[trigger] self.st().located(a, s) == o.st().located(a, s) by {
                        assert(self.st().located(a, s) == before.st().located(a, s));
                    }
                }
                assert forall|m: int| 0 <= m < k + 1 implies !self.has_runtime(name@, #[trigger] names@[m]@) by {
                    if m < k {
                        assert(!before.has_runtime(name@, names@[m]@));
                    }
                }
            }
            k = k + 1;
        }
        proof {
            assert forall|a: Seq<char>, s: Seq<char>| a != name@ implies #[trigger] self.has_runtime(a, s)
                == old(self).has_runtime(a, s) by {
                assert(self.has_runtime(a, s) == o.has_runtime(a, s));
            }
            assert forall|s: Seq<char>| !#[trigger] self.has_runtime(name@, s) by {
                if self.has_runtime(name@, s) {
                    lemma_held_located(*self, name@, s);
                    assert(o.st().located(name@, s));
                    assert(app0.has_service(s));
                    let j = choose|j: int| 0 <= j < app0.services@.len() && #[trigger] app0.services@[j].config.name@ == s;
                    assert(names@[j]@ == s);
                }
            }
        }
        let ghost mid = *self;
        let _ = self.state.remove_app(name);
        proof {
            let ri = mid.st().app_index(name@);
            assert(mid.st().has_app(name@));
            assert(mid.st().apps@.len() == old(self).st().apps@.len());
            assert(self.st().apps@ == mid.st().apps@.remove(ri));
            assert forall|a: Seq<char>| a != name@ implies #[trigger] self.st().has_app(a) == mid.st().has_app(a) && (
            mid.st().has_app(a) ==> self.st().app(a) == mid.st().app(a)) by {
                if mid.st().has_app(a) {
                    let x = mid.st().app_index(a);
                    assert(0 <= x < mid.st().apps@.len() && mid.st().apps@[x].app_name@ == a);
                    assert(x != ri);
                    let x2 = if x < ri { x } else { x - 1 };
                    assert(self.st().apps@[x2] == mid.st().apps@[x]);
                    assert(self.st().has_app(a));
                    let y = self.st().app_index(a);
                    assert(self.st().apps@[y].app_name@ == a);
                    lemma_app_names_eq(self.st(), y, x2);
                }
                if self.st().has_app(a) {
                    let y = self.st().app_index(a);
                    let y2 = if y < ri { y } else { y + 1 };
                    assert(self.st().apps@[y] == mid.st().apps@[y2]);
                }
            }
            assert forall|k: int| 0 <= k < self.rts().len() implies self.st().located(
                (#[trigger] self.rts()[k]).app@,
                self.rts()[k].service@,
            ) && is_active(self.st().service(self.rts()[k].app@, self.rts()[k].service@).status) by {
                let a = self.rts()[k].app@;
                let s = self.rts()[k].service@;
                assert(seq_has(mid.rts(), a, s));
                lemma_held_located(mid, a, s);
                if a == name@ {
                    assert(mid.has_runtime(name@, s));
                }
                assert(self.st().has_app(a) == mid.st().has_app(a));
                assert(self.st().app(a) == mid.st().app(a));
            }
            assert forall|a: Seq<char>, s: Seq<char>| #[trigger] self.service_ok(a, s) by {
                if a != name@ {
                    assert(mid.service_ok(a, s));
                    assert(self.st().has_app(a) == mid.st().has_app(a));
                    if mid.st().has_app(a) {
                        assert(self.st().app(a) == mid.st().app(a));
                    }
                }
            }
            assert forall|a: Seq<char>, s: Seq<char>| a != name@ implies #[trigger] self.has_runtime(a, s)
                == old(self).has_runtime(a, s) by {
                assert(mid.has_runtime(a, s) == old(self).has_runtime(a, s));
            }
            assert forall|a: Seq<char>| a != name@ && old(self).st().has_app(a) implies #[trigger] self.st().app(a)
                == old(self).st().app(a) by {
                assert(mid.st().app(a) == o.st().app(a));
                assert(self.st().has_app(a) == mid.st().has_app(a) && (mid.st().has_app(a) ==> self.st().app(a)
                    == mid.st().app(a)));
            }
        }
        outcomes
    }
}

/// Two positions of a well-formed store holding the same app name are one.
proof fn lemma_app_names_eq(st: DaemonState, x: int, y: int)
    requires
        st.wf(),
        0 <= x < st.apps@.len(),
        0 <= y < st.apps@.len(),
        st.apps@[x].app_name@ == st.apps@[y].app_name@,
    ensures
        x == y,
{
    assert(app_names(st.apps@)[x] == st.apps@[x].app_name@);
    assert(app_names(st.apps@)[y] == st.apps@[y].app_name@);
    if x < y {
        assert(app_names(st.apps@)[x] != app_names(st.apps@)[y]);
    } else if x > y {
        assert(app_names(st.apps@)[y] != app_names(st.apps@)[x]);
    }
}

} // verus!
