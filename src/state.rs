use vstd::prelude::*;
use crate::compose::{
    compose_valid, profile_names, profiles_declared, service_names, unique, ComposeFile, Profile, ServiceConfig,
};
use crate::text::same_text;
use crate::logs::{keep_last, LogBuffer, LogEntry, LOG_BUFFER_CAPACITY};

verus! {

/// Lifecycle status of a service.
#[derive(Debug, Clone, Copy, PartialEq, Eq, Structural)]
pub enum ServiceStatus {
    Starting,
    Running,
    Stopped,
    Unhealthy,
    Exited,
}

/// The lower-case name of a status, as the wire format writes it.
pub open spec fn status_text(s: ServiceStatus) -> Seq<char> {
    match s {
        ServiceStatus::Starting => "starting"@,
        ServiceStatus::Running => "running"@,
        ServiceStatus::Stopped => "stopped"@,
        ServiceStatus::Unhealthy => "unhealthy"@,
        ServiceStatus::Exited => "exited"@,
    }
}

/// Running or Starting: the statuses of a service with a live child.
pub open spec fn is_active(s: ServiceStatus) -> bool {
    s == ServiceStatus::Running || s == ServiceStatus::Starting
}

impl ServiceStatus {
    pub fn as_str(&self) -> (r: &'static str)
        ensures
            r@ == status_text(*self),
    {
        match self {
            ServiceStatus::Starting => "starting",
            ServiceStatus::Running => "running",
            ServiceStatus::Stopped => "stopped",
            ServiceStatus::Unhealthy => "unhealthy",
            ServiceStatus::Exited => "exited",
        }
    }

    pub fn is_active(&self) -> (r: bool)
        ensures
            r == is_active(*self),
    {
        match self {
            ServiceStatus::Running | ServiceStatus::Starting => true,
            _ => false,
        }
    }
}

/// Resource use of a service at the last sample.
#[derive(Debug, Clone, Copy, PartialEq, Eq, Structural)]
pub struct ServiceMetrics {
    /// The sampled CPU percentage, as the bits of an IEEE-754 single; the
    /// library carries it without reading it.
    pub cpu_bits: u32,
    /// Bytes of memory in use.
    pub memory: u64,
    /// Bytes of memory of the whole system when sampled.
    pub memory_total: u64,
}

pub open spec fn zero_metrics() -> ServiceMetrics {
    ServiceMetrics { cpu_bits: 0, memory: 0, memory_total: 0 }
}

impl Default for ServiceMetrics {
    fn default() -> (r: ServiceMetrics)
        ensures
            r == zero_metrics(),
    {
        ServiceMetrics { cpu_bits: 0, memory: 0, memory_total: 0 }
    }
}

/// The daemon's record of one service.
#[derive(Debug, Clone)]
pub struct ServiceState {
    pub config: ServiceConfig,
    pub status: ServiceStatus,
    pub pid: Option<u32>,
    /// Seconds since the Unix epoch at which the current run began.
    pub started_at: Option<u64>,
    pub exit_code: Option<i32>,
    pub logs: LogBuffer,
    pub metrics: ServiceMetrics,
}

/// The daemon's record of one app.
#[derive(Debug, Clone)]
pub struct AppState {
    pub app_name: String,
    /// The manifest the app was loaded from.
    pub compose_path: String,
    pub profiles: Vec<Profile>,
    /// In the manifest's order of declaration.
    pub services: Vec<ServiceState>,
}

/// Every app known to the daemon, and the last system-wide sample.
#[derive(Debug, Clone)]
pub struct DaemonState {
    /// Keyed by app name: no two share one.
    pub apps: Vec<AppState>,
    /// As `ServiceMetrics::cpu_bits`.
    pub system_cpu_bits: u32,
    pub system_memory_used: u64,
    pub system_memory_total: u64,
}

pub open spec fn configs(s: Seq<ServiceState>) -> Seq<ServiceConfig> {
    s.map_values(|x: ServiceState| x.config)
}

pub open spec fn svc_names(s: Seq<ServiceState>) -> Seq<Seq<char>> {
    service_names(configs(s))
}

pub open spec fn app_names(s: Seq<AppState>) -> Seq<Seq<char>> {
    s.map_values(|a: AppState| a.app_name@)
}

impl AppState {
    pub open spec fn wf(&self) -> bool {
        &&& unique(svc_names(self.services@))
        &&& unique(profile_names(self.profiles@))
        &&& profiles_declared(configs(self.services@), self.profiles@)
        &&& forall|j: int| 0 <= j < self.services@.len() ==> (#[trigger] self.services@[j]).logs.wf()
    }

    pub open spec fn has_service(&self, name: Seq<char>) -> bool {
        exists|j: int| 0 <= j < self.services@.len() && #[trigger] self.services@[j].config.name@ == name
    }

    /// Where the service of this name stands.
    pub open spec fn service_index(&self, name: Seq<char>) -> int {
        choose|j: int| 0 <= j < self.services@.len() && #[trigger] self.services@[j].config.name@ == name
    }

    /// Position of the service named `name`.
    pub fn find_service(&self, name: &str) -> (r: Option<usize>)
        requires
            self.wf(),
        ensures
            r is None <==> !self.has_service(name@),
            r matches Some(j) ==> j == self.service_index(name@) && j < self.services@.len(),
    {
        let mut j: usize = 0;
        while j < self.services.len()
            invariant
                self.wf(),
                j <= self.services@.len(),
                forall|k: int| 0 <= k < j ==> self.services@[k].config.name@ != name@,
            decreases self.services@.len() - j,
        {
            if same_text(self.services[j].config.name.as_str(), name) {
                proof {
                    let k = self.service_index(name@);
                    assert(self.has_service(name@));
                    let cs = configs(self.services@);
                    assert(0 <= k < self.services@.len() && self.services@[k].config.name@ == name@);
                    assert(svc_names(self.services@).len() == self.services@.len());
                    assert(cs[k] == self.services@[k].config);
                    assert(cs[j as int] == self.services@[j as int].config);
                    assert(svc_names(self.services@)[k] == cs[k].name@);
                    assert(svc_names(self.services@)[j as int] == cs[j as int].name@);
                    if k < j {
                        assert(svc_names(self.services@)[k] != svc_names(self.services@)[j as int]);
                    } else if k > j {
                        assert(svc_names(self.services@)[j as int] != svc_names(self.services@)[k]);
                    }
                }
                return Some(j);
            }
            j = j + 1;
        }
        None
    }

    /// The names of the services, in order of declaration.
    pub fn service_order(&self) -> (r: Vec<String>)
        ensures
            r@.len() == self.services@.len(),
            forall|j: int| 0 <= j < r@.len() ==> #[trigger] r@[j] == self.services@[j].config.name,
    {
        let mut out: Vec<String> = Vec::new();
        let mut j: usize = 0;
        while j < self.services.len()
            invariant
                j <= self.services@.len(),
                out@.len() == j,
                forall|k: int| 0 <= k < j ==> #[trigger] out@[k] == self.services@[k].config.name,
            decreases self.services@.len() - j,
        {
            out.push(self.services[j].config.name.clone());
            j = j + 1;
        }
        out
    }
}

/// The service that `(i, j)` designates.
pub open spec fn svc_at(s: DaemonState, i: int, j: int) -> ServiceState {
    s.apps@[i].services@[j]
}

/// `n` is `o` but for service `j` of app `i`.
pub open spec fn only_service_changed(o: DaemonState, n: DaemonState, i: int, j: int) -> bool {
    &&& n.apps@.len() == o.apps@.len()
    &&& n.system_cpu_bits == o.system_cpu_bits
    &&& n.system_memory_used == o.system_memory_used
    &&& n.system_memory_total == o.system_memory_total
    &&& forall|a: int| 0 <= a < o.apps@.len() && a != i ==> #[trigger] n.apps@[a] == o.apps@[a]
    &&& n.apps@[i].app_name == o.apps@[i].app_name
    &&& n.apps@[i].compose_path == o.apps@[i].compose_path
    &&& n.apps@[i].profiles == o.apps@[i].profiles
    &&& n.apps@[i].services@.len() == o.apps@[i].services@.len()
    &&& forall|b: int|
        0 <= b < o.apps@[i].services@.len() && b != j ==> #[trigger] n.apps@[i].services@[b]
            == o.apps@[i].services@[b]
}

impl DaemonState {
    pub open spec fn wf(&self) -> bool {
        &&& unique(app_names(self.apps@))
        &&& forall|i: int| 0 <= i < self.apps@.len() ==> (#[trigger] self.apps@[i]).wf()
    }

    pub open spec fn has_app(&self, name: Seq<char>) -> bool {
        exists|i: int| 0 <= i < self.apps@.len() && #[trigger] self.apps@[i].app_name@ == name
    }

    pub open spec fn app_index(&self, name: Seq<char>) -> int {
        choose|i: int| 0 <= i < self.apps@.len() && #[trigger] self.apps@[i].app_name@ == name
    }

    /// The app named `name`; meaningful when `has_app(name)`.
    pub open spec fn app(&self, name: Seq<char>) -> AppState {
        self.apps@[self.app_index(name)]
    }

    /// The app and the service are both known.
    pub open spec fn located(&self, app: Seq<char>, service: Seq<char>) -> bool {
        self.has_app(app) && self.app(app).has_service(service)
    }

    /// The record of a located service.
    pub open spec fn service(&self, app: Seq<char>, service: Seq<char>) -> ServiceState {
        self.app(app).services@[self.app(app).service_index(service)]
    }

    /// `n` is `self` but for the record of `(app, service)`, which is `svc`.
    pub open spec fn with_service(&self, n: DaemonState, app: Seq<char>, service: Seq<char>, svc: ServiceState) -> bool {
        let i = self.app_index(app);
        let j = self.app(app).service_index(service);
        only_service_changed(*self, n, i, j) && svc_at(n, i, j) == svc
    }

    pub fn new() -> (r: DaemonState)
        ensures
            r.wf(),
            r.apps@.len() == 0,
            r.system_cpu_bits == 0,
            r.system_memory_used == 0,
            r.system_memory_total == 0,
    {
        DaemonState {
            apps: Vec::new(),
            system_cpu_bits: 0,
            system_memory_used: 0,
            system_memory_total: 0,
        }
    }

    /// Position of the app named `name`.
    pub fn find_app(&self, name: &str) -> (r: Option<usize>)
        requires
            self.wf(),
        ensures
            r is None <==> !self.has_app(name@),
            r matches Some(i) ==> i == self.app_index(name@) && i < self.apps@.len(),
    {
        let mut i: usize = 0;
        while i < self.apps.len()
            invariant
                self.wf(),
                i <= self.apps@.len(),
                forall|k: int| 0 <= k < i ==> self.apps@[k].app_name@ != name@,
            decreases self.apps@.len() - i,
        {
            if same_text(self.apps[i].app_name.as_str(), name) {
                proof {
                    let k = self.app_index(name@);
                    assert(self.has_app(name@));
                    assert(0 <= k < self.apps@.len() && self.apps@[k].app_name@ == name@);
                    assert(app_names(self.apps@).len() == self.apps@.len());
                    assert(app_names(self.apps@)[k] == self.apps@[k].app_name@);
                    assert(app_names(self.apps@)[i as int] == self.apps@[i as int].app_name@);
                    if k < i {
                        assert(app_names(self.apps@)[k] != app_names(self.apps@)[i as int]);
                    } else if k > i {
                        assert(app_names(self.apps@)[i as int] != app_names(self.apps@)[k]);
                    }
                }
                return Some(i);
            }
            i = i + 1;
        }
        None
    }

    /// Positions of the app and of its service.
    pub fn locate(&self, app: &str, service: &str) -> (r: Option<(usize, usize)>)
        requires
            self.wf(),
        ensures
            r is None <==> !self.located(app@, service@),
            r matches Some((i, j)) ==> i == self.app_index(app@) && j == self.app(
                app@,
            ).service_index(service@) && i < self.apps@.len() && j
                < self.apps@[i as int].services@.len(),
    {
        match self.find_app(app) {
            None => None,
            Some(i) => {
                assert(self.apps@[i as int].wf());
                match self.apps[i].find_service(service) {
                    None => None,
                    Some(j) => Some((i, j)),
                }
            },
        }
    }

    /// The names of the apps, in the order they were first registered.
    pub fn list_apps(&self) -> (r: Vec<String>)
        ensures
            r@.len() == self.apps@.len(),
            forall|i: int| 0 <= i < r@.len() ==> #[trigger] r@[i] == self.apps@[i].app_name,
    {
        let mut out: Vec<String> = Vec::new();
        let mut i: usize = 0;
        while i < self.apps.len()
            invariant
                i <= self.apps@.len(),
                out@.len() == i,
                forall|k: int| 0 <= k < i ==> #[trigger] out@[k] == self.apps@[k].app_name,
            decreases self.apps@.len() - i,
        {
            out.push(self.apps[i].app_name.clone());
            i = i + 1;
        }
        out
    }
}

/// Changing one service's record, but not its configuration, keeps the
/// store well formed and every name where it was.
pub proof fn lemma_service_change(o: DaemonState, n: DaemonState, i: int, j: int)
    requires
        o.wf(),
        0 <= i < o.apps@.len(),
        0 <= j < o.apps@[i].services@.len(),
        only_service_changed(o, n, i, j),
        svc_at(n, i, j).config == svc_at(o, i, j).config,
        svc_at(n, i, j).logs.wf(),
    ensures
        n.wf(),
        forall|a: Seq<char>| #[trigger] n.has_app(a) == o.has_app(a),
        forall|a: Seq<char>| o.has_app(a) ==> #[trigger] n.app_index(a) == o.app_index(a),
        forall|a: Seq<char>, b: Seq<char>| #[trigger] n.located(a, b) == o.located(a, b),
        forall|a: Seq<char>, b: Seq<char>|
            o.located(a, b) ==> #[trigger] n.app(a).service_index(b) == o.app(a).service_index(b),
{
    assert(app_names(n.apps@) =~= app_names(o.apps@)) by {
        assert forall|a: int| 0 <= a < o.apps@.len() implies n.apps@[a].app_name == o.apps@[a].app_name by {
            if a != i {
                assert(n.apps@[a] == o.apps@[a]);
            }
        }
    }
    let os = o.apps@[i].services@;
    let ns = n.apps@[i].services@;
    assert(configs(ns) =~= configs(os)) by {
        assert forall|b: int| 0 <= b < os.len() implies ns[b].config == os[b].config by {
            if b != j {
                assert(ns[b] == os[b]);
            }
        }
    }
    assert forall|a: int| 0 <= a < n.apps@.len() implies (#[trigger] n.apps@[a]).wf() by {
        if a != i {
            assert(n.apps@[a] == o.apps@[a]);
            assert(o.apps@[a].wf());
        } else {
            assert(o.apps@[i].wf());
            assert(svc_names(ns) == svc_names(os));
            assert forall|b: int| 0 <= b < ns.len() implies (#[trigger] ns[b]).logs.wf() by {
                if b != j {
                    assert(ns[b] == os[b]);
                    assert(os[b].logs.wf());
                }
            }
        }
    }
    assert forall|a: Seq<char>| #[trigger] n.has_app(a) == o.has_app(a) by {
        if n.has_app(a) {
            let k = choose|k: int| 0 <= k < n.apps@.len() && #[trigger] n.apps@[k].app_name@ == a;
            assert(app_names(n.apps@)[k] == a);
            assert(o.apps@[k].app_name@ == app_names(o.apps@)[k]);
        }
        if o.has_app(a) {
            let k = choose|k: int| 0 <= k < o.apps@.len() && #[trigger] o.apps@[k].app_name@ == a;
            assert(app_names(o.apps@)[k] == a);
            assert(n.apps@[k].app_name@ == app_names(n.apps@)[k]);
        }
    }
    assert forall|a: Seq<char>| o.has_app(a) implies #[trigger] n.app_index(a) == o.app_index(a) by {
        let x = n.app_index(a);
        let y = o.app_index(a);
        assert(n.has_app(a));
        assert(app_names(n.apps@)[x] == a);
        assert(app_names(o.apps@)[y] == a);
        if x < y {
            assert(app_names(o.apps@)[x] != app_names(o.apps@)[y]);
        } else if x > y {
            assert(app_names(o.apps@)[y] != app_names(o.apps@)[x]);
        }
    }
    assert forall|a: Seq<char>, b: Seq<char>| #[trigger] n.located(a, b) == o.located(a, b) && (
    o.located(a, b) ==> n.app(a).service_index(b) == o.app(a).service_index(b)) by {
        if o.has_app(a) {
            let x = o.app_index(a);
            assert(n.app_index(a) == x);
            let oa = o.apps@[x];
            let na = n.apps@[x];
            assert(svc_names(na.services@) == svc_names(oa.services@)) by {
                if x != i {
                    assert(na == oa);
                }
            }
            assert(na.services@.len() == oa.services@.len());
            if na.has_service(b) {
                let k = choose|k: int| 0 <= k < na.services@.len() && #[trigger] na.services@[k].config.name@ == b;
                assert(svc_names(na.services@)[k] == b);
                assert(oa.services@[k].config.name@ == svc_names(oa.services@)[k]);
            }
            if oa.has_service(b) {
                let k = choose|k: int| 0 <= k < oa.services@.len() && #[trigger] oa.services@[k].config.name@ == b;
                assert(svc_names(oa.services@)[k] == b);
                assert(na.services@[k].config.name@ == svc_names(na.services@)[k]);
                let p = na.service_index(b);
                let q = oa.service_index(b);
                assert(svc_names(na.services@)[p] == b);
                assert(svc_names(oa.services@)[q] == b);
                assert(oa.wf());
                if p < q {
                    assert(svc_names(oa.services@)[p] != svc_names(oa.services@)[q]);
                } else if p > q {
                    assert(svc_names(oa.services@)[q] != svc_names(oa.services@)[p]);
                }
            }
        }
    }
    assert forall|a: Seq<char>, b: Seq<char>| o.located(a, b) implies #[trigger] n.app(a).service_index(b)
        == o.app(a).service_index(b) by {
        assert(n.located(a, b) == o.located(a, b));
    }
}

impl DaemonState {
    /// Sets the status of a service; a status other than Running or
    /// Starting also clears its start time.
    pub fn update_service_status(&mut self, app: &str, service: &str, status: ServiceStatus)
        requires
            old(self).wf(),
        ensures
            final(self).wf(),
            old(self).located(app@, service@) ==> old(self).with_service(
                *final(self),
                app@,
                service@,
                ServiceState {
                    status,
                    started_at: if is_active(status) {
                        old(self).service(app@, service@).started_at
                    } else {
                        None
                    },
                    ..old(self).service(app@, service@)
                },
            ),
            !old(self).located(app@, service@) ==> *final(self) == *old(self),
    {
        if let Some((i, j)) = self.locate(app, service) {
            let ghost o = *self;
            self.apps[i].services[j].status = status;
            if !status.is_active() {
                self.apps[i].services[j].started_at = None;
            }
            proof {
                lemma_service_change(o, *self, i as int, j as int);
            }
        }
    }

    pub fn set_service_pid(&mut self, app: &str, service: &str, pid: Option<u32>)
        requires
            old(self).wf(),
        ensures
            final(self).wf(),
            old(self).located(app@, service@) ==> old(self).with_service(
                *final(self),
                app@,
                service@,
                ServiceState { pid, ..old(self).service(app@, service@) },
            ),
            !old(self).located(app@, service@) ==> *final(self) == *old(self),
    {
        if let Some((i, j)) = self.locate(app, service) {
            let ghost o = *self;
            self.apps[i].services[j].pid = pid;
            proof {
                lemma_service_change(o, *self, i as int, j as int);
            }
        }
    }

    pub fn set_service_start_time(&mut self, app: &str, service: &str, time: Option<u64>)
        requires
            old(self).wf(),
        ensures
            final(self).wf(),
            old(self).located(app@, service@) ==> old(self).with_service(
                *final(self),
                app@,
                service@,
                ServiceState { started_at: time, ..old(self).service(app@, service@) },
            ),
            !old(self).located(app@, service@) ==> *final(self) == *old(self),
    {
        if let Some((i, j)) = self.locate(app, service) {
            let ghost o = *self;
            self.apps[i].services[j].started_at = time;
            proof {
                lemma_service_change(o, *self, i as int, j as int);
            }
        }
    }

    pub fn set_exit_code(&mut self, app: &str, service: &str, code: Option<i32>)
        requires
            old(self).wf(),
        ensures
            final(self).wf(),
            old(self).located(app@, service@) ==> old(self).with_service(
                *final(self),
                app@,
                service@,
                ServiceState { exit_code: code, ..old(self).service(app@, service@) },
            ),
            !old(self).located(app@, service@) ==> *final(self) == *old(self),
    {
        if let Some((i, j)) = self.locate(app, service) {
            let ghost o = *self;
            self.apps[i].services[j].exit_code = code;
            proof {
                lemma_service_change(o, *self, i as int, j as int);
            }
        }
    }

    pub fn set_metrics(&mut self, app: &str, service: &str, metrics: ServiceMetrics)
        requires
            old(self).wf(),
        ensures
            final(self).wf(),
            old(self).located(app@, service@) ==> old(self).with_service(
                *final(self),
                app@,
                service@,
                ServiceState { metrics, ..old(self).service(app@, service@) },
            ),
            !old(self).located(app@, service@) ==> *final(self) == *old(self),
    {
        if let Some((i, j)) = self.locate(app, service) {
            let ghost o = *self;
            self.apps[i].services[j].metrics = metrics;
            proof {
                lemma_service_change(o, *self, i as int, j as int);
            }
        }
    }

    /// Appends a line to a service's ring buffer.
    pub fn push_log(&mut self, app: &str, service: &str, entry: LogEntry)
        requires
            old(self).wf(),
        ensures
            final(self).wf(),
            old(self).located(app@, service@) ==> {
                let s = old(self).service(app@, service@);
                let t = final(self).service(app@, service@);
                &&& old(self).with_service(*final(self), app@, service@, ServiceState { logs: t.logs, ..s })
                &&& t.logs@ == keep_last(s.logs@.push(entry), s.logs.spec_capacity())
                &&& t.logs.spec_capacity() == s.logs.spec_capacity()
            },
            !old(self).located(app@, service@) ==> *final(self) == *old(self),
    {
        if let Some((i, j)) = self.locate(app, service) {
            let ghost o = *self;
            proof {
                assert(o.apps@[i as int].wf());
                assert(o.apps@[i as int].services@[j as int].logs.wf());
            }
            self.apps[i].services[j].logs.push(entry);
            proof {
                lemma_service_change(o, *self, i as int, j as int);
            }
        }
    }

    /// Empties a service's ring buffer.
    pub fn clear_service_logs(&mut self, app: &str, service: &str)
        requires
            old(self).wf(),
        ensures
            final(self).wf(),
            old(self).located(app@, service@) ==> {
                let s = old(self).service(app@, service@);
                let t = final(self).service(app@, service@);
                &&& old(self).with_service(*final(self), app@, service@, ServiceState { logs: t.logs, ..s })
                &&& t.logs@.len() == 0
                &&& t.logs.spec_capacity() == s.logs.spec_capacity()
            },
            !old(self).located(app@, service@) ==> *final(self) == *old(self),
    {
        if let Some((i, j)) = self.locate(app, service) {
            let ghost o = *self;
            proof {
                assert(o.apps@[i as int].wf());
                assert(o.apps@[i as int].services@[j as int].logs.wf());
            }
            self.apps[i].services[j].logs.clear();
            proof {
                lemma_service_change(o, *self, i as int, j as int);
            }
        }
    }

    /// Records the last system-wide sample.
    pub fn set_system_metrics(&mut self, cpu_bits: u32, used: u64, total: u64)
        requires
            old(self).wf(),
        ensures
            final(self).wf(),
            final(self).apps == old(self).apps,
            final(self).system_cpu_bits == cpu_bits,
            final(self).system_memory_used == used,
            final(self).system_memory_total == total,
    {
        self.system_cpu_bits = cpu_bits;
        self.system_memory_used = used;
        self.system_memory_total = total;
    }
}

/// The record of a service just registered from configuration `c`.
pub open spec fn fresh_service(s: ServiceState, c: ServiceConfig) -> bool {
    &&& s.config == c
    &&& s.status == ServiceStatus::Stopped
    &&& s.pid is None
    &&& s.started_at is None
    &&& s.exit_code is None
    &&& s.logs.wf()
    &&& s.logs@.len() == 0
    &&& s.logs.spec_capacity() == LOG_BUFFER_CAPACITY
    &&& s.metrics == zero_metrics()
}

/// The record of an app just registered from manifest `c` at `path`.
pub open spec fn fresh_app(a: AppState, c: ComposeFile, path: Seq<char>) -> bool {
    &&& a.app_name == c.app_name
    &&& a.compose_path@ == path
    &&& a.profiles == c.profiles
    &&& a.services@.len() == c.services@.len()
    &&& forall|j: int| 0 <= j < c.services@.len() ==> fresh_service(#[trigger] a.services@[j], c.services@[j])
}

/// When a store changes only in the app named `name` (replaced in place, or
/// appended), every other app keeps its place and its record.
proof fn lemma_other_apps(o: DaemonState, n: DaemonState, name: Seq<char>)
    requires
        o.wf(),
        n.wf(),
        (o.has_app(name) && n.apps@ == o.apps@.update(o.app_index(name), n.apps@[o.app_index(name)])
            && n.apps@[o.app_index(name)].app_name@ == name) || (!o.has_app(name) && n.apps@
            == o.apps@.push(n.apps@[o.apps@.len() as int]) && n.apps@[o.apps@.len() as int].app_name@
            == name),
    ensures
        forall|a: Seq<char>| a != name ==> #[trigger] n.has_app(a) == o.has_app(a),
        forall|a: Seq<char>| a != name && o.has_app(a) ==> #[trigger] n.app(a) == o.app(a),
{
    let changed = if o.has_app(name) { o.app_index(name) } else { o.apps@.len() as int };
    assert forall|a: Seq<char>| a != name implies #[trigger] n.has_app(a) == o.has_app(a) && (o.has_app(a)
        ==> n.app(a) == o.app(a)) by {
        if o.has_app(a) {
            let k = o.app_index(a);
            assert(0 <= k < o.apps@.len() && o.apps@[k].app_name@ == a);
            assert(k != changed);
            assert(n.apps@[k] == o.apps@[k]);
            assert(n.has_app(a));
            let k2 = n.app_index(a);
            assert(app_names(n.apps@)[k] == a);
            assert(app_names(n.apps@)[k2] == a);
            if k2 < k {
                assert(app_names(n.apps@)[k2] != app_names(n.apps@)[k]);
            } else if k2 > k {
                assert(app_names(n.apps@)[k] != app_names(n.apps@)[k2]);
            }
        }
        if n.has_app(a) {
            let k = n.app_index(a);
            assert(0 <= k < n.apps@.len() && n.apps@[k].app_name@ == a);
            assert(k != changed);
            assert(n.apps@[k] == o.apps@[k]);
            assert(o.apps@[k].app_name@ == a);
        }
    }
    assert forall|a: Seq<char>| a != name && o.has_app(a) implies #[trigger] n.app(a) == o.app(a) by {
        assert(n.has_app(a) == o.has_app(a));
    }
}

impl DaemonState {
    /// Registers the app of a validated manifest, every service Stopped;
    /// an app of the same name is replaced in place.
    pub fn insert_app(&mut self, compose: ComposeFile, compose_path: String)
        requires
            old(self).wf(),
            compose_valid(compose),
        ensures
            final(self).wf(),
            final(self).system_cpu_bits == old(self).system_cpu_bits,
            final(self).system_memory_used == old(self).system_memory_used,
            final(self).system_memory_total == old(self).system_memory_total,
            old(self).has_app(compose.app_name@) ==> final(self).apps@ == old(self).apps@.update(
                old(self).app_index(compose.app_name@),
                final(self).app(compose.app_name@),
            ),
            !old(self).has_app(compose.app_name@) ==> final(self).apps@ == old(self).apps@.push(
                final(self).app(compose.app_name@),
            ),
            final(self).has_app(compose.app_name@),
            fresh_app(final(self).app(compose.app_name@), compose, compose_path@),
            forall|a: Seq<char>|
                a != compose.app_name@ ==> #[trigger] final(self).has_app(a) == old(self).has_app(a),
            forall|a: Seq<char>|
                a != compose.app_name@ && old(self).has_app(a) ==> #[trigger] final(self).app(a)
                    == old(self).app(a),
    {
        let mut services: Vec<ServiceState> = Vec::new();
        let mut j: usize = 0;
        while j < compose.services.len()
            invariant
                j <= compose.services@.len(),
                services@.len() == j,
                forall|k: int| 0 <= k < j ==> fresh_service(#[trigger] services@[k], compose.services@[k]),
            decreases compose.services@.len() - j,
        {
            let state = ServiceState {
                config: compose.services[j].duplicate(),
                status: ServiceStatus::Stopped,
                pid: None,
                started_at: None,
                exit_code: None,
                logs: LogBuffer::new(LOG_BUFFER_CAPACITY),
                metrics: ServiceMetrics::default(),
            };
            services.push(state);
            j = j + 1;
        }
        let name = compose.app_name;
        let app = AppState {
            app_name: name.clone(),
            compose_path,
            profiles: compose.profiles,
            services,
        };
        proof {
            assert(configs(app.services@) =~= compose.services@);
            assert(app.wf());
        }
        let ghost o = *self;
        match self.find_app(name.as_str()) {
            Some(i) => {
                self.apps[i] = app;
                proof {
                    assert(app_names(self.apps@) =~= app_names(o.apps@));
                    assert(self.apps@[i as int].app_name@ == name@);
                    assert(self.has_app(name@));
                    let k = self.app_index(name@);
                    if k != i {
                        assert(app_names(self.apps@)[k] == app_names(self.apps@)[i as int]);
                        if k < i {
                            assert(app_names(o.apps@)[k] != app_names(o.apps@)[i as int]);
                        } else {
                            assert(app_names(o.apps@)[i as int] != app_names(o.apps@)[k]);
                        }
                    }
                    assert forall|a: int| 0 <= a < self.apps@.len() implies (#[trigger] self.apps@[a]).wf() by {
                        if a != i {
                            assert(self.apps@[a] == o.apps@[a]);
                            assert(o.apps@[a].wf());
                        }
                    }
                }
            },
            None => {
                self.apps.push(app);
                proof {
                    let n = o.apps@.len() as int;
                    assert(app_names(self.apps@) =~= app_names(o.apps@).push(name@));
                    assert forall|a: int, b: int| 0 <= a < b < self.apps@.len() implies app_names(self.apps@)[a]
                        != app_names(self.apps@)[b] by {
                        if b == n {
                            assert(app_names(o.apps@)[a] == o.apps@[a].app_name@);
                            assert(!(0 <= a < o.apps@.len() && o.apps@[a].app_name@ == name@));
                        } else {
                            assert(app_names(o.apps@)[a] != app_names(o.apps@)[b]);
                        }
                    }
                    assert(self.apps@[n].app_name@ == name@);
                    assert(self.has_app(name@));
                    let k = self.app_index(name@);
                    if k != n {
                        assert(app_names(self.apps@)[k] == app_names(self.apps@)[n]);
                        assert(app_names(self.apps@)[k] != app_names(self.apps@)[n]);
                    }
                    assert forall|a: int| 0 <= a < self.apps@.len() implies (#[trigger] self.apps@[a]).wf() by {
                        if a != n {
                            assert(self.apps@[a] == o.apps@[a]);
                            assert(o.apps@[a].wf());
                        }
                    }
                }
            },
        }
        proof {
            lemma_other_apps(o, *self, name@);
        }
    }

    /// Forgets the app named `name`, handing back its record.
    pub fn remove_app(&mut self, name: &str) -> (r: Option<AppState>)
        requires
            old(self).wf(),
        ensures
            final(self).wf(),
            final(self).system_cpu_bits == old(self).system_cpu_bits,
            final(self).system_memory_used == old(self).system_memory_used,
            final(self).system_memory_total == old(self).system_memory_total,
            old(self).has_app(name@) ==> r == Some(old(self).app(name@)) && final(self).apps@
                == old(self).apps@.remove(old(self).app_index(name@)),
            !old(self).has_app(name@) ==> r is None && *final(self) == *old(self),
            !final(self).has_app(name@),
    {
        match self.find_app(name) {
            Some(i) => {
                let ghost o = *self;
                let a = self.apps.remove(i);
                proof {
                    assert(app_names(self.apps@) =~= app_names(o.apps@).remove(i as int));
                    assert forall|x: int, y: int| 0 <= x < y < self.apps@.len() implies app_names(self.apps@)[x]
                        != app_names(self.apps@)[y] by {
                        let x2 = if x < i { x } else { x + 1 };
                        let y2 = if y < i { y } else { y + 1 };
                        assert(app_names(o.apps@)[x2] != app_names(o.apps@)[y2]);
                    }
                    assert forall|x: int| 0 <= x < self.apps@.len() implies (#[trigger] self.apps@[x]).wf() by {
                        let x2 = if x < i { x } else { x + 1 };
                        assert(self.apps@[x] == o.apps@[x2]);
                        assert(o.apps@[x2].wf());
                    }
                    if self.has_app(name@) {
                        let k = choose|k: int| 0 <= k < self.apps@.len() && #[trigger] self.apps@[k].app_name@ == name@;
                        let k2 = if k < i { k } else { k + 1 };
                        assert(app_names(o.apps@)[k2] == name@);
                        assert(app_names(o.apps@)[i as int] == name@);
                        if k2 < i {
                            assert(app_names(o.apps@)[k2] != app_names(o.apps@)[i as int]);
                        } else {
                            assert(app_names(o.apps@)[i as int] != app_names(o.apps@)[k2]);
                        }
                    }
                }
                Some(a)
            },
            None => None,
        }
    }
}

impl DaemonState {
    /// Sets the four fields that a service's lifecycle moves together.
    pub fn set_run_state(
        &mut self,
        app: &str,
        service: &str,
        status: ServiceStatus,
        pid: Option<u32>,
        started_at: Option<u64>,
        exit_code: Option<i32>,
    )
        requires
            old(self).wf(),
        ensures
            final(self).wf(),
            old(self).located(app@, service@) ==> old(self).with_service(
                *final(self),
                app@,
                service@,
                ServiceState { status, pid, started_at, exit_code, ..old(self).service(app@, service@) },
            ),
            !old(self).located(app@, service@) ==> *final(self) == *old(self),
    {
        if let Some((i, j)) = self.locate(app, service) {
            let ghost o = *self;
            self.apps[i].services[j].status = status;
            self.apps[i].services[j].pid = pid;
            self.apps[i].services[j].started_at = started_at;
            self.apps[i].services[j].exit_code = exit_code;
            proof {
                lemma_service_change(o, *self, i as int, j as int);
            }
        }
    }
}

/// Seconds since `started_at`, when set and not in the future of `now`.
pub open spec fn uptime_spec(started_at: Option<u64>, now: u64) -> Option<u64> {
    match started_at {
        Some(s) => if s <= now {
            Some((now - s) as u64)
        } else {
            None
        },
        None => None,
    }
}

/// How long a service has been up at `now` (seconds since the epoch).
pub fn uptime_seconds(started_at: Option<u64>, now: u64) -> (r: Option<u64>)
    ensures
        r == uptime_spec(started_at, now),
{
    match started_at {
        Some(s) => if s <= now {
            Some(now - s)
        } else {
            None
        },
        None => None,
    }
}

} // verus!
