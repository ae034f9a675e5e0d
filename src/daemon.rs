use vstd::prelude::*;
use crate::compose::{compose_valid, profile_names, str_views, ComposeFile};
use crate::error::ServinelError;
use crate::logs::{keep_last, LogEntry};
use crate::protocol::{AppSnapshot, LogChunk, ServiceSelector, ServiceSnapshot, StatusSnapshot};
use crate::state::{
    fresh_app, status_text, uptime_seconds, uptime_spec, AppState, DaemonState, ServiceState, ServiceStatus,
};
use crate::supervisor::{holds_handle, Lifecycle, StopOutcome, Supervisor};
use crate::text::{less_than, same_text, str_less, lemma_str_less_total, lemma_str_less_asym, lemma_str_less_trans};

verus! {

/// The daemon: its state store and supervisor, and what each request does
/// to them.
pub struct Daemon<H> {
    pub supervisor: Supervisor<H>,
}

/// Whether the app has a profile of this name.
pub open spec fn has_profile(app: AppState, name: Seq<char>) -> bool {
    exists|k: int| 0 <= k < app.profiles@.len() && #[trigger] app.profiles@[k].name@ == name
}

pub open spec fn profile_index(app: AppState, name: Seq<char>) -> int {
    choose|k: int| 0 <= k < app.profiles@.len() && #[trigger] app.profiles@[k].name@ == name
}

/// The names in declaration order.
pub open spec fn declared_names(app: AppState) -> Seq<String> {
    app.services@.map_values(|s: ServiceState| s.config.name)
}

/// The services a selector asks for, before checking that they exist;
/// `None` for a profile the app does not have.
pub open spec fn requested(app: AppState, sel: ServiceSelector) -> Option<Seq<String>> {
    match sel {
        ServiceSelector::All => Some(declared_names(app)),
        ServiceSelector::Service(n) => Some(seq![n]),
        ServiceSelector::Services(v) => Some(v@),
        ServiceSelector::Profile(p) => if has_profile(app, p@) {
            Some(app.profiles@[profile_index(app, p@)].services@)
        } else {
            None
        },
    }
}

pub open spec fn all_known(app: AppState, names: Seq<String>) -> bool {
    forall|k: int| 0 <= k < names.len() ==> app.has_service(#[trigger] names[k]@)
}

/// `k` is the first position of a name that the app does not have.
pub open spec fn first_unknown(app: AppState, names: Seq<String>, k: int) -> bool {
    &&& 0 <= k < names.len()
    &&& !app.has_service(names[k]@)
    &&& forall|m: int| 0 <= m < k ==> app.has_service(#[trigger] names[m]@)
}

/// What resolving `sel` against `app` gives.
pub open spec fn selection_ok(app: AppState, sel: ServiceSelector, r: Result<Vec<String>, ServinelError>) -> bool {
    match requested(app, sel) {
        None => sel matches ServiceSelector::Profile(p) && r == Err::<Vec<String>, ServinelError>(
            ServinelError::ProfileNotFound(p),
        ),
        Some(names) => {
            &&& all_known(app, names) ==> (r matches Ok(v) && v@ == names)
            &&& !all_known(app, names) ==> exists|k: int|
                first_unknown(app, names, k) && r == Err::<Vec<String>, ServinelError>(
                    ServinelError::ServiceNotFound(names[k]),
                )
        },
    }
}

/// A service's line in a status snapshot.
pub open spec fn service_snapshot_ok(snap: ServiceSnapshot, s: ServiceState, now: u64) -> bool {
    &&& snap.name == s.config.name
    &&& snap.status@ == status_text(s.status)
    &&& snap.pid == s.pid
    &&& snap.uptime_secs == uptime_spec(s.started_at, now)
    &&& snap.exit_code == s.exit_code
    &&& snap.metrics == s.metrics
}

/// An app's part of a status snapshot, listing `names` in order.
pub open spec fn app_snapshot_ok(snap: AppSnapshot, app: AppState, names: Seq<String>, now: u64) -> bool {
    &&& snap.app_name == app.app_name
    &&& snap.services@.len() == names.len()
    &&& forall|k: int|
        0 <= k < names.len() ==> service_snapshot_ok(
            #[trigger] snap.services@[k],
            app.services@[app.service_index(names[k]@)],
            now,
        )
}

/// The entries of a service that a logs request sends as history.
pub open spec fn history_of(s: ServiceState, tail: Option<usize>) -> Seq<LogEntry> {
    match tail {
        Some(n) => keep_last(s.logs@, n as nat),
        None => s.logs@,
    }
}

/// The history of `names`, service after service, each entry with the
/// name of its service.
pub open spec fn history(app: AppState, names: Seq<String>, tail: Option<usize>) -> Seq<(String, LogEntry)>
    decreases names.len(),
{
    if names.len() == 0 {
        Seq::empty()
    } else {
        let last = names.last();
        history(app, names.drop_last(), tail) + history_of(
            app.services@[app.service_index(last@)],
            tail,
        ).map_values(|e: LogEntry| (last, e))
    }
}

/// Profile names sorted: strictly increasing in code-point order.
pub open spec fn strictly_sorted(v: Seq<Seq<char>>) -> bool {
    forall|i: int, j: int| 0 <= i < j < v.len() ==> str_less(v[i], v[j])
}

impl<H> Daemon<H> {
    pub open spec fn st(&self) -> DaemonState {
        self.supervisor.st()
    }

    pub open spec fn wf(&self) -> bool {
        self.supervisor.wf()
    }

    pub fn new() -> (r: Daemon<H>)
        ensures
            r.wf(),
            r.st().apps@.len() == 0,
    {
        Daemon { supervisor: Supervisor::new() }
    }

    /// The app a request is about: the one named, else the only app known.
    pub fn resolve_app(&self, app: Option<String>) -> (r: Result<String, ServinelError>)
        requires
            self.wf(),
        ensures
            app matches Some(a) ==> r == Ok::<String, ServinelError>(a),
            app is None && self.st().apps@.len() == 1 ==> r == Ok::<String, ServinelError>(
                self.st().apps@[0].app_name,
            ),
            app is None && self.st().apps@.len() != 1 ==> (r matches Err(ServinelError::Usage(m))
                && m@ == "Multiple apps running, use --app"@),
    {
        match app {
            Some(a) => Ok(a),
            None => {
                let apps = self.supervisor.state().list_apps();
                if apps.len() == 1 {
                    Ok(apps[0].clone())
                } else {
                    Err(ServinelError::Usage(String::from_str("Multiple apps running, use --app")))
                }
            },
        }
    }

    /// The services of `app` that `selector` designates, each checked to
    /// exist.
    #[verifier::loop_isolation(false)]
    pub fn resolve_services(&self, app: &str, selector: &ServiceSelector) -> (r: Result<
        Vec<String>,
        ServinelError,
    >)
        requires
            self.wf(),
        ensures
            !self.st().has_app(app@) ==> (r matches Err(ServinelError::AppNotFound(a)) && a@ == app@),
            self.st().has_app(app@) ==> selection_ok(self.st().app(app@), *selector, r),
            r matches Ok(v) ==> self.st().has_app(app@) && all_known(self.st().app(app@), v@),
    {
        let st = self.supervisor.state();
        let i = match st.find_app(app) {
            Some(i) => i,
            None => {
                return Err(ServinelError::AppNotFound(String::from_str(app)));
            },
        };
        let a = &st.apps[i];
        proof {
            assert(st.apps@[i as int].wf());
        }
        let names: Vec<String> = match selector {
            ServiceSelector::All => {
                let v = a.service_order();
                proof {
                    assert(v@ =~= declared_names(*a));
                }
                v
            },
            ServiceSelector::Service(n) => {
                let mut v: Vec<String> = Vec::new();
                v.push(n.clone());
                proof {
                    assert(v@ =~= seq![*n]);
                }
                v
            },
            ServiceSelector::Services(list) => copy_names(list),
            ServiceSelector::Profile(p) => match find_profile(a, p.as_str()) {
                Some(k) => copy_names(&a.profiles[k].services),
                None => {
                    return Err(ServinelError::ProfileNotFound(p.clone()));
                },
            },
        };
        let mut k: usize = 0;
        while k < names.len()
            invariant
                a.wf(),
                k <= names@.len(),
                forall|m: int| 0 <= m < k ==> a.has_service(#[trigger] names@[m]@),
            decreases names@.len() - k,
        {
            if a.find_service(names[k].as_str()).is_none() {
                proof {
                    assert(first_unknown(*a, names@, k as int));
                }
                return Err(ServinelError::ServiceNotFound(names[k].clone()));
            }
            k = k + 1;
        }
        Ok(names)
    }
}

/// A copy of a list of names.
fn copy_names(v: &Vec<String>) -> (r: Vec<String>)
    ensures
        r@ == v@,
{
    let mut out: Vec<String> = Vec::new();
    let mut k: usize = 0;
    while k < v.len()
        invariant
            k <= v@.len(),
            out@ == v@.subrange(0, k as int),
        decreases v@.len() - k,
    {
        out.push(v[k].clone());
        k = k + 1;
        assert(out@ =~= v@.subrange(0, k as int));
    }
    assert(v@.subrange(0, v@.len() as int) =~= v@);
    out
}

/// Position of the profile named `name`.
fn find_profile(app: &AppState, name: &str) -> (r: Option<usize>)
    requires
        app.wf(),
    ensures
        r is None <==> !has_profile(*app, name@),
        r matches Some(k) ==> k == profile_index(*app, name@) && k < app.profiles@.len(),
{
    let mut k: usize = 0;
    while k < app.profiles.len()
        invariant
            app.wf(),
            k <= app.profiles@.len(),
            forall|m: int| 0 <= m < k ==> app.profiles@[m].name@ != name@,
        decreases app.profiles@.len() - k,
    {
        if same_text(app.profiles[k].name.as_str(), name) {
            proof {
                assert(has_profile(*app, name@));
                let x = profile_index(*app, name@);
                assert(0 <= x < app.profiles@.len() && app.profiles@[x].name@ == name@);
                assert(profile_names(app.profiles@)[x] == name@);
                assert(profile_names(app.profiles@)[k as int] == name@);
                if x < k {
                    assert(profile_names(app.profiles@)[x] != profile_names(app.profiles@)[k as int]);
                } else if x > k {
                    assert(profile_names(app.profiles@)[k as int] != profile_names(app.profiles@)[x]);
                }
            }
            return Some(k);
        }
        k = k + 1;
    }
    None
}

} // verus!

verus! {

/// The app a request without an app name is about: the only app known.
pub open spec fn resolved(st: DaemonState, app: Option<String>) -> Option<String> {
    match app {
        Some(a) => Some(a),
        None => if st.apps@.len() == 1 {
            Some(st.apps@[0].app_name)
        } else {
            None
        },
    }
}

fn snapshot_service(s: &ServiceState, now: u64) -> (r: ServiceSnapshot)
    ensures
        service_snapshot_ok(r, *s, now),
{
    ServiceSnapshot {
        name: s.config.name.clone(),
        status: String::from_str(s.status.as_str()),
        pid: s.pid,
        uptime_secs: uptime_seconds(s.started_at, now),
        exit_code: s.exit_code,
        metrics: s.metrics,
    }
}

/// The status of the services `names` of `app`, in that order.
pub fn build_snapshot(app: &AppState, names: &Vec<String>, now: u64) -> (r: AppSnapshot)
    requires
        app.wf(),
        all_known(*app, names@),
    ensures
        app_snapshot_ok(r, *app, names@, now),
{
    let mut services: Vec<ServiceSnapshot> = Vec::new();
    let mut k: usize = 0;
    while k < names.len()
        invariant
            app.wf(),
            all_known(*app, names@),
            k <= names@.len(),
            services@.len() == k,
            forall|m: int|
                0 <= m < k ==> service_snapshot_ok(
                    #[trigger] services@[m],
                    app.services@[app.service_index(names@[m]@)],
                    now,
                ),
        decreases names@.len() - k,
    {
        assert(app.has_service(names@[k as int]@));
        let j = match app.find_service(names[k].as_str()) {
            Some(j) => j,
            None => {
                return AppSnapshot { app_name: app.app_name.clone(), services };
            },
        };
        services.push(snapshot_service(&app.services[j], now));
        k = k + 1;
    }
    AppSnapshot { app_name: app.app_name.clone(), services }
}

impl<H> Daemon<H> {
    /// A status snapshot: of every app and service when no app is named
    /// (only with the All selector), else of the selected services of the
    /// named app. `now` is the time in seconds since the epoch.
    pub fn status(&self, app: Option<String>, selector: ServiceSelector, now: u64) -> (r: Result<
        StatusSnapshot,
        ServinelError,
    >)
        requires
            self.wf(),
        ensures
            app is None && !(selector is All) ==> (r matches Err(ServinelError::Usage(m)) && m@
                == "--app is required for profiles or specific services"@),
            app is None && selector is All ==> (r matches Ok(snap) && snap.apps@.len()
                == self.st().apps@.len() && forall|i: int|
                0 <= i < snap.apps@.len() ==> app_snapshot_ok(
                    #[trigger] snap.apps@[i],
                    self.st().apps@[i],
                    declared_names(self.st().apps@[i]),
                    now,
                )),
            app matches Some(a) ==> {
                &&& !self.st().has_app(a@) ==> (r matches Err(ServinelError::AppNotFound(x)) && x@ == a@)
                &&& self.st().has_app(a@) ==> (r is Ok <==> (requested(self.st().app(a@), selector) matches Some(
                    names,
                ) && all_known(self.st().app(a@), names)))
                &&& self.st().has_app(a@) && r is Err ==> selection_ok(
                    self.st().app(a@),
                    selector,
                    Err(r->Err_0),
                )
                &&& r matches Ok(snap) ==> snap.apps@.len() == 1 && app_snapshot_ok(
                    snap.apps@[0],
                    self.st().app(a@),
                    requested(self.st().app(a@), selector)->Some_0,
                    now,
                )
            },
            r matches Ok(snap) ==> snap.system_cpu_bits == self.st().system_cpu_bits
                && snap.system_memory_used == self.st().system_memory_used
                && snap.system_memory_total == self.st().system_memory_total,
    {
        let st = self.supervisor.state();
        match app {
            None => {
                match selector {
                    ServiceSelector::All => {},
                    _ => {
                        return Err(
                            ServinelError::Usage(
                                String::from_str("--app is required for profiles or specific services"),
                            ),
                        );
                    },
                }
                let mut apps: Vec<AppSnapshot> = Vec::new();
                let mut i: usize = 0;
                while i < st.apps.len()
                    invariant
                        st.wf(),
                        i <= st.apps@.len(),
                        apps@.len() == i,
                        forall|m: int|
                            0 <= m < i ==> app_snapshot_ok(
                                #[trigger] apps@[m],
                                st.apps@[m],
                                declared_names(st.apps@[m]),
                                now,
                            ),
                    decreases st.apps@.len() - i,
                {
                    let a = &st.apps[i];
                    assert(st.apps@[i as int].wf());
                    let names = a.service_order();
                    proof {
                        assert(names@ =~= declared_names(*a));
                        assert forall|k: int| 0 <= k < names@.len() implies a.has_service(#[trigger] names@[k]@) by {
                            assert(a.services@[k].config.name@ == names@[k]@);
                        }
                    }
                    apps.push(build_snapshot(a, &names, now));
                    i = i + 1;
                }
                Ok(StatusSnapshot {
                    apps,
                    system_cpu_bits: st.system_cpu_bits,
                    system_memory_used: st.system_memory_used,
                    system_memory_total: st.system_memory_total,
                })
            },
            Some(a) => {
                let names = match self.resolve_services(a.as_str(), &selector) {
                    Ok(v) => v,
                    Err(e) => {
                        return Err(e);
                    },
                };
                let i = match st.find_app(a.as_str()) {
                    Some(i) => i,
                    None => {
                        return Err(ServinelError::AppNotFound(a));
                    },
                };
                assert(st.apps@[i as int].wf());
                let snap = build_snapshot(&st.apps[i], &names, now);
                let mut apps: Vec<AppSnapshot> = Vec::new();
                apps.push(snap);
                Ok(StatusSnapshot {
                    apps,
                    system_cpu_bits: st.system_cpu_bits,
                    system_memory_used: st.system_memory_used,
                    system_memory_total: st.system_memory_total,
                })
            },
        }
    }

    /// The history a logs request sends: the entries of each selected
    /// service, all or the last `tail`, service after service; with the app
    /// and the selected services, whose live lines the caller then follows.
    pub fn logs(&self, app: Option<String>, selector: ServiceSelector, tail: Option<usize>) -> (r: Result<
        (String, Vec<LogChunk>, Vec<String>),
        ServinelError,
    >)
        requires
            self.wf(),
        ensures
            resolved(self.st(), app) is None ==> (r matches Err(ServinelError::Usage(m)) && m@
                == "Multiple apps running, use --app"@),
            resolved(self.st(), app) matches Some(a) ==> {
                &&& !self.st().has_app(a@) ==> (r matches Err(ServinelError::AppNotFound(x)) && x@ == a@)
                &&& self.st().has_app(a@) && r is Err ==> selection_ok(
                    self.st().app(a@),
                    selector,
                    Err(r->Err_0),
                )
                &&& r matches Ok((name, chunks, names)) ==> {
                    let h = history(self.st().app(a@), names@, tail);
                    &&& name == a
                    &&& selection_ok(self.st().app(a@), selector, Ok(names))
                    &&& chunks@.len() == h.len()
                    &&& forall|k: int|
                        0 <= k < h.len() ==> (#[trigger] chunks@[k]).app == a && chunks@[k].service
                            == h[k].0 && chunks@[k].entry == h[k].1
                }
            },
    {
        let a = match self.resolve_app(app) {
            Ok(a) => a,
            Err(e) => {
                return Err(e);
            },
        };
        let names = match self.resolve_services(a.as_str(), &selector) {
            Ok(v) => v,
            Err(e) => {
                return Err(e);
            },
        };
        let st = self.supervisor.state();
        let i = match st.find_app(a.as_str()) {
            Some(i) => i,
            None => {
                return Err(ServinelError::AppNotFound(a));
            },
        };
        let ap = &st.apps[i];
        assert(st.apps@[i as int].wf());
        let mut chunks: Vec<LogChunk> = Vec::new();
        let mut k: usize = 0;
        while k < names.len()
            invariant
                ap.wf(),
                all_known(*ap, names@),
                k <= names@.len(),
                chunks@.len() == history(*ap, names@.subrange(0, k as int), tail).len(),
                forall|m: int|
                    0 <= m < chunks@.len() ==> (#[trigger] chunks@[m]).app == a && chunks@[m].service
                        == history(*ap, names@.subrange(0, k as int), tail)[m].0 && chunks@[m].entry
                        == history(*ap, names@.subrange(0, k as int), tail)[m].1,
            decreases names@.len() - k,
        {
            assert(ap.has_service(names@[k as int]@));
            let j = match ap.find_service(names[k].as_str()) {
                Some(j) => j,
                None => {
                    return Err(ServinelError::ServiceNotFound(names[k].clone()));
                },
            };
            let logs = &ap.services[j].logs;
            assert(ap.services@[j as int].logs.wf());
            let entries = match tail {
                Some(n) => logs.tail(n),
                None => logs.all(),
            };
            let ghost before = history(*ap, names@.subrange(0, k as int), tail);
            let ghost added = history_of(ap.services@[j as int], tail).map_values(|e: LogEntry| (names@[k as int], e));
            proof {
                let pre = names@.subrange(0, k + 1);
                assert(pre.drop_last() =~= names@.subrange(0, k as int));
                assert(pre.last() == names@[k as int]);
                assert(history(*ap, pre, tail) == before + added);
            }
            let mut e: usize = 0;
            let base = chunks.len();
            while e < entries.len()
                invariant
                    k < names@.len(),
                    entries@ == history_of(ap.services@[j as int], tail),
                    added == history_of(ap.services@[j as int], tail).map_values(|x: LogEntry| (names@[k as int], x)),
                    base == before.len(),
                    e <= entries@.len(),
                    chunks@.len() == base + e,
                    forall|m: int|
                        0 <= m < chunks@.len() ==> (#[trigger] chunks@[m]).app == a && chunks@[m].service
                            == (before + added)[m].0 && chunks@[m].entry == (before + added)[m].1,
                decreases entries@.len() - e,
            {
                chunks.push(LogChunk { app: a.clone(), service: names[k].clone(), entry: entries[e].duplicate() });
                e = e + 1;
            }
            k = k + 1;
        }
        proof {
            assert(names@.subrange(0, names@.len() as int) =~= names@);
        }
        Ok((a, chunks, names))
    }
}

} // verus!

verus! {

/// The names of `v`, sorted in code-point order.
pub fn sort_names(v: Vec<String>) -> (r: Vec<String>)
    requires
        crate::compose::unique(str_views(v@)),
    ensures
        r@.len() == v@.len(),
        strictly_sorted(str_views(r@)),
        forall|x: Seq<char>| #[trigger] str_views(r@).contains(x) <==> str_views(v@).contains(x),
{
    let mut rest = v;
    let mut out: Vec<String> = Vec::new();
    while rest.len() > 0
        invariant
            out@.len() + rest@.len() == v@.len(),
            crate::compose::unique(str_views(rest@)),
            strictly_sorted(str_views(out@)),
            forall|i: int, j: int|
                0 <= i < out@.len() && 0 <= j < rest@.len() ==> str_less(
                    #[trigger] out@[i]@,
                    #[trigger] rest@[j]@,
                ),
            forall|x: Seq<char>|
                #[trigger] str_views(v@).contains(x) <==> (str_views(out@).contains(x) || str_views(
                    rest@,
                ).contains(x)),
        decreases rest@.len(),
    {
        // Find the smallest remaining name.
        let mut m: usize = 0;
        let mut j: usize = 1;
        proof {
            lemma_str_less_asym(rest@[0]@, rest@[0]@);
        }
        while j < rest.len()
            invariant
                rest@.len() > 0,
                m < j <= rest@.len(),
                forall|t: int| 0 <= t < j ==> !str_less(#[trigger] rest@[t]@, rest@[m as int]@),
            decreases rest@.len() - j,
        {
            if less_than(rest[j].as_str(), rest[m].as_str()) {
                proof {
                    assert forall|t: int| 0 <= t < j + 1 implies !str_less(#[trigger] rest@[t]@, rest@[j as int]@) by {
                        if t < j {
                            if str_less(rest@[t]@, rest@[j as int]@) {
                                lemma_str_less_trans(rest@[t]@, rest@[j as int]@, rest@[m as int]@);
                            }
                        } else {
                            lemma_str_less_asym(rest@[t]@, rest@[t]@);
                        }
                    }
                }
                m = j;
            }
            j = j + 1;
        }
        let ghost old_rest = rest@;
        let ghost old_out = out@;
        proof {
            // The smallest is strictly below every other remaining name.
            assert forall|t: int| 0 <= t < old_rest.len() && t != m implies str_less(
                old_rest[m as int]@,
                #[trigger] old_rest[t]@,
            ) by {
                assert(str_views(old_rest)[t] == old_rest[t]@);
                assert(str_views(old_rest)[m as int] == old_rest[m as int]@);
                if t < m {
                    assert(str_views(old_rest)[t] != str_views(old_rest)[m as int]);
                } else {
                    assert(str_views(old_rest)[m as int] != str_views(old_rest)[t]);
                }
                lemma_str_less_total(old_rest[m as int]@, old_rest[t]@);
            }
        }
        let x = rest.remove(m);
        out.push(x);
        proof {
            assert(rest@ == old_rest.remove(m as int));
            assert(out@ == old_out.push(x));
            assert(str_views(out@) =~= str_views(old_out).push(x@));
            assert(str_views(rest@) =~= str_views(old_rest).remove(m as int));
            assert forall|a: int, b: int| 0 <= a < b < str_views(rest@).len() implies str_views(rest@)[a]
                != str_views(rest@)[b] by {
                let a2 = if a < m { a } else { a + 1 };
                let b2 = if b < m { b } else { b + 1 };
                assert(str_views(old_rest)[a2] != str_views(old_rest)[b2]);
            }
            assert forall|a: int, b: int| 0 <= a < b < str_views(out@).len() implies str_less(
                str_views(out@)[a],
                str_views(out@)[b],
            ) by {
                if b == old_out.len() {
                    assert(str_less(old_out[a]@, old_rest[m as int]@));
                } else {
                    assert(str_views(old_out)[a] == str_views(out@)[a]);
                }
            }
            assert forall|i: int, j: int| 0 <= i < out@.len() && 0 <= j < rest@.len() implies str_less(
                #[trigger] out@[i]@,
                #[trigger] rest@[j]@,
            ) by {
                let j2 = if j < m { j } else { j + 1 };
                assert(rest@[j] == old_rest[j2]);
                if i == old_out.len() {
                    assert(j2 != m);
                } else {
                    assert(out@[i] == old_out[i]);
                }
            }
            assert forall|y: Seq<char>|
                #[trigger] str_views(v@).contains(y) <==> (str_views(out@).contains(y) || str_views(
                    rest@,
                ).contains(y)) by {
                if str_views(old_rest).contains(y) {
                    let t = choose|t: int| 0 <= t < str_views(old_rest).len() && str_views(old_rest)[t] == y;
                    if t == m {
                        assert(str_views(out@)[old_out.len() as int] == y);
                    } else {
                        let t2 = if t < m { t } else { t - 1 };
                        assert(str_views(rest@)[t2] == y);
                    }
                }
                if str_views(old_out).contains(y) {
                    let t = choose|t: int| 0 <= t < str_views(old_out).len() && str_views(old_out)[t] == y;
                    assert(str_views(out@)[t] == y);
                }
                if str_views(out@).contains(y) {
                    let t = choose|t: int| 0 <= t < str_views(out@).len() && str_views(out@)[t] == y;
                    if t < old_out.len() {
                        assert(str_views(old_out)[t] == y);
                    } else {
                        assert(str_views(old_rest)[m as int] == y);
                    }
                }
                if str_views(rest@).contains(y) {
                    let t = choose|t: int| 0 <= t < str_views(rest@).len() && str_views(rest@)[t] == y;
                    let t2 = if t < m { t } else { t + 1 };
                    assert(str_views(old_rest)[t2] == y);
                }
            }
        }
    }
    proof {
        assert forall|y: Seq<char>| #[trigger] str_views(out@).contains(y) <==> str_views(v@).contains(y) by {
            if str_views(rest@).contains(y) {
                let t = choose|t: int| 0 <= t < str_views(rest@).len() && str_views(rest@)[t] == y;
            }
        }
    }
    out
}

impl<H> Daemon<H> {
    /// The names of an app's profiles, sorted.
    pub fn profiles(&self, app: Option<String>) -> (r: Result<Vec<String>, ServinelError>)
        requires
            self.wf(),
        ensures
            resolved(self.st(), app) is None ==> (r matches Err(ServinelError::Usage(m)) && m@
                == "Multiple apps running, use --app"@),
            resolved(self.st(), app) matches Some(a) ==> {
                &&& !self.st().has_app(a@) ==> (r matches Err(ServinelError::AppNotFound(x)) && x@ == a@)
                &&& self.st().has_app(a@) ==> (r matches Ok(v) && {
                    let names = profile_names(self.st().app(a@).profiles@);
                    &&& v@.len() == names.len()
                    &&& strictly_sorted(str_views(v@))
                    &&& forall|x: Seq<char>| #[trigger] str_views(v@).contains(x) <==> names.contains(x)
                })
            },
    {
        let a = match self.resolve_app(app) {
            Ok(a) => a,
            Err(e) => {
                return Err(e);
            },
        };
        let st = self.supervisor.state();
        let i = match st.find_app(a.as_str()) {
            Some(i) => i,
            None => {
                return Err(ServinelError::AppNotFound(a));
            },
        };
        let ap = &st.apps[i];
        assert(st.apps@[i as int].wf());
        let mut names: Vec<String> = Vec::new();
        let mut k: usize = 0;
        while k < ap.profiles.len()
            invariant
                k <= ap.profiles@.len(),
                str_views(names@) == profile_names(ap.profiles@).subrange(0, k as int),
            decreases ap.profiles@.len() - k,
        {
            let ghost prev = names@;
            names.push(ap.profiles[k].name.clone());
            proof {
                assert(str_views(names@) =~= str_views(prev).push(ap.profiles@[k as int].name@));
                assert(profile_names(ap.profiles@)[k as int] == ap.profiles@[k as int].name@);
                assert(profile_names(ap.profiles@).subrange(0, k + 1) =~= profile_names(ap.profiles@).subrange(
                    0,
                    k as int,
                ).push(ap.profiles@[k as int].name@));
            }
            k = k + 1;
        }
        proof {
            assert(profile_names(ap.profiles@).subrange(0, k as int) =~= profile_names(ap.profiles@));
        }
        Ok(sort_names(names))
    }
}

} // verus!

verus! {

/// A service that was stopped: Stopped, no pid, start time or exit code, no
/// child held.
pub open spec fn is_stopped<H>(sup: Supervisor<H>, app: Seq<char>, service: Seq<char>) -> bool {
    &&& sup.st().located(app, service)
    &&& sup.lifecycle(app, service) == Lifecycle {
        status: ServiceStatus::Stopped,
        pid: None,
        started_at: None,
        held: false,
    }
    &&& sup.st().service(app, service).exit_code is None
}

/// Position `k` of `names` holds a name that no earlier position holds.
pub open spec fn first_time(names: Seq<String>, k: int) -> bool {
    forall|m: int| 0 <= m < k ==> names[m]@ != names[k]@
}

/// What stopping service `n` of app `a` hands back, given the supervisor
/// before the stop request: at a name's first occurrence, its recorded pid
/// as the group to kill and the child held for it, if any; at a repeat,
/// nothing.
pub open spec fn stop_outcome_ok<H>(out: StopOutcome<H>, before: Supervisor<H>, a: Seq<char>, n: Seq<char>, first: bool) -> bool {
    if first {
        &&& out.kill_group == before.st().service(a, n).pid
        &&& out.handle is Some <==> before.has_runtime(a, n)
        &&& out.handle matches Some(h) ==> holds_handle(before.rts(), a, n, h)
    } else {
        out.kill_group is None && out.handle is None
    }
}

impl<H> Daemon<H> {
    /// Stops the selected services of an app, in order. On an error nothing
    /// changes. Gives back the app, the services, and for each service what
    /// the caller must kill and reap.
    pub fn stop(&mut self, app: Option<String>, selector: ServiceSelector) -> (r: Result<
        (String, Vec<String>, Vec<StopOutcome<H>>),
        ServinelError,
    >)
        requires
            old(self).wf(),
        ensures
            final(self).wf(),
            r is Err ==> *final(self) == *old(self),
            resolved(old(self).st(), app) is None ==> (r matches Err(ServinelError::Usage(m)) && m@
                == "Multiple apps running, use --app"@),
            resolved(old(self).st(), app) matches Some(a) ==> {
                &&& !old(self).st().has_app(a@) ==> (r matches Err(ServinelError::AppNotFound(x)) && x@ == a@)
                &&& old(self).st().has_app(a@) && r is Err ==> selection_ok(
                    old(self).st().app(a@),
                    selector,
                    Err(r->Err_0),
                )
                &&& r matches Ok((name, names, outs)) ==> {
                    &&& name == a
                    &&& selection_ok(old(self).st().app(a@), selector, Ok(names))
                    &&& outs@.len() == names@.len()
                    &&& forall|k: int| 0 <= k < names@.len() ==> is_stopped(final(self).supervisor, a@, #[trigger] names@[k]@)
                    &&& forall|k: int|
                        0 <= k < names@.len() ==> stop_outcome_ok(
                            #[trigger] outs@[k],
                            old(self).supervisor,
                            a@,
                            names@[k]@,
                            first_time(names@, k),
                        )
                }
            },
    {
        let a = match self.resolve_app(app) {
            Ok(a) => a,
            Err(e) => {
                return Err(e);
            },
        };
        let names = match self.resolve_services(a.as_str(), &selector) {
            Ok(v) => v,
            Err(e) => {
                return Err(e);
            },
        };
        let ghost o = self.supervisor;
        let mut outs: Vec<StopOutcome<H>> = Vec::new();
        let mut k: usize = 0;
        while k < names.len()
            invariant
                self.wf(),
                o.st().has_app(a@),
                all_known(o.st().app(a@), names@),
                k <= names@.len(),
                outs@.len() == k,
                forall|x: Seq<char>, y: Seq<char>| #[trigger] self.supervisor.st().located(x, y) == o.st().located(x, y),
                forall|m: int| 0 <= m < k ==> is_stopped(self.supervisor, a@, #[trigger] names@[m]@),
                o == old(self).supervisor,
                forall|m: int|
                    0 <= m < k ==> stop_outcome_ok(#[trigger] outs@[m], o, a@, names@[m]@, first_time(names@, m)),
                forall|x: Seq<char>|
                    o.st().located(a@, x) && (forall|m: int| 0 <= m < k ==> names@[m]@ != x) ==> {
                        &&& #[trigger] self.supervisor.st().service(a@, x) == o.st().service(a@, x)
                        &&& self.supervisor.has_runtime(a@, x) == o.has_runtime(a@, x)
                        &&& forall|h: H| #[trigger] holds_handle(self.supervisor.rts(), a@, x, h) ==> holds_handle(o.rts(), a@, x, h)
                    },
            decreases names@.len() - k,
        {
            let ghost before = self.supervisor;
            assert(o.st().app(a@).has_service(names@[k as int]@));
            assert(o.st().located(a@, names@[k as int]@));
            let out = self.supervisor.stop_service(a.as_str(), names[k].as_str());
            let ghost old_outs = outs@;
            outs.push(out);
            proof {
                assert forall|x: Seq<char>, y: Seq<char>| #[trigger] self.supervisor.st().located(x, y) == o.st().located(x, y) by {
                    assert(before.st().located(x, y) == o.st().located(x, y));
                    assert(self.supervisor.st().located(x, y) == before.st().located(x, y));
                }
                assert(before.st().located(a@, names@[k as int]@));
                assert(is_stopped(self.supervisor, a@, names@[k as int]@));
                let n = names@[k as int]@;
                if first_time(names@, k as int) {
                    assert(before.st().service(a@, n) == o.st().service(a@, n));
                    assert(before.has_runtime(a@, n) == o.has_runtime(a@, n));
                    assert(stop_outcome_ok(outs@[k as int], o, a@, n, true));
                } else {
                    let m0 = choose|m: int| 0 <= m < k && names@[m]@ == n;
                    assert(is_stopped(before, a@, names@[m0]@));
                    assert(stop_outcome_ok(outs@[k as int], o, a@, n, false));
                }
                assert forall|m: int| 0 <= m < k + 1 implies stop_outcome_ok(
                    #[trigger] outs@[m],
                    o,
                    a@,
                    names@[m]@,
                    first_time(names@, m),
                ) by {
                    if m < k {
                        assert(outs@[m] == old_outs[m]);
                    }
                }
                assert forall|x: Seq<char>|
                    o.st().located(a@, x) && (forall|m: int| 0 <= m < k + 1 ==> names@[m]@ != x) implies {
                        &&& #[trigger] self.supervisor.st().service(a@, x) == o.st().service(a@, x)
                        &&& self.supervisor.has_runtime(a@, x) == o.has_runtime(a@, x)
                        &&& forall|h: H| #[trigger] holds_handle(self.supervisor.rts(), a@, x, h) ==> holds_handle(o.rts(), a@, x, h)
                    } by {
                    assert(names@[k as int]@ != x);
                    assert(before.st().service(a@, x) == o.st().service(a@, x));
                    assert forall|h: H| #[trigger] holds_handle(self.supervisor.rts(), a@, x, h) implies holds_handle(o.rts(), a@, x, h) by {
                        assert(holds_handle(before.rts(), a@, x, h));
                    }
                }
                assert forall|m: int| 0 <= m < k + 1 implies is_stopped(self.supervisor, a@, #[trigger] names@[m]@) by {
                    if m < k && names@[m]@ != names@[k as int]@ {
                        assert(is_stopped(before, a@, names@[m]@));
                        assert(self.st().service(a@, names@[m]@) == before.st().service(a@, names@[m]@));
                        assert(self.supervisor.has_runtime(a@, names@[m]@) == before.has_runtime(a@, names@[m]@));
                    }
                }
            }
            k = k + 1;
        }
        Ok((a, names, outs))
    }

    /// The first pass of a restart: the selected services are stopped, and
    /// the caller then starts each of them again.
    pub fn restart(&mut self, app: Option<String>, selector: ServiceSelector) -> (r: Result<
        (String, Vec<String>, Vec<StopOutcome<H>>),
        ServinelError,
    >)
        requires
            old(self).wf(),
        ensures
            final(self).wf(),
            r is Err ==> *final(self) == *old(self),
            resolved(old(self).st(), app) is None ==> (r matches Err(ServinelError::Usage(m)) && m@
                == "Multiple apps running, use --app"@),
            resolved(old(self).st(), app) matches Some(a) ==> {
                &&& !old(self).st().has_app(a@) ==> (r matches Err(ServinelError::AppNotFound(x)) && x@ == a@)
                &&& old(self).st().has_app(a@) && r is Err ==> selection_ok(
                    old(self).st().app(a@),
                    selector,
                    Err(r->Err_0),
                )
                &&& r matches Ok((name, names, outs)) ==> {
                    &&& name == a
                    &&& selection_ok(old(self).st().app(a@), selector, Ok(names))
                    &&& outs@.len() == names@.len()
                    &&& forall|k: int| 0 <= k < names@.len() ==> is_stopped(final(self).supervisor, a@, #[trigger] names@[k]@)
                    &&& forall|k: int|
                        0 <= k < names@.len() ==> stop_outcome_ok(
                            #[trigger] outs@[k],
                            old(self).supervisor,
                            a@,
                            names@[k]@,
                            first_time(names@, k),
                        )
                }
            },
    {
        self.stop(app, selector)
    }

    /// Registers the app of a validated manifest loaded from `path`; an app
    /// of that name is stopped and replaced, and what the caller must kill
    /// and reap for it is handed back.
    pub fn register_app(&mut self, compose: ComposeFile, path: String) -> (r: Vec<StopOutcome<H>>)
        requires
            old(self).wf(),
            compose_valid(compose),
        ensures
            final(self).wf(),
            final(self).st().has_app(compose.app_name@),
            fresh_app(final(self).st().app(compose.app_name@), compose, path@),
            forall|s: Seq<char>| !#[trigger] final(self).supervisor.has_runtime(compose.app_name@, s),
            forall|a: Seq<char>|
                a != compose.app_name@ ==> #[trigger] final(self).st().has_app(a) == old(self).st().has_app(a),
            forall|a: Seq<char>|
                a != compose.app_name@ && old(self).st().has_app(a) ==> #[trigger] final(self).st().app(a)
                    == old(self).st().app(a),
            !old(self).st().has_app(compose.app_name@) ==> r@.len() == 0,
    {
        self.supervisor.register_app(compose, path)
    }

    /// Registers a validated manifest loaded from `path` and selects what
    /// `up` starts: the services of `profile`, or all of them. An app of the
    /// same name is stopped and replaced; what the caller must kill and reap
    /// for it is handed back.
    pub fn up(&mut self, compose: ComposeFile, path: String, profile: Option<String>) -> (r: Result<
        (String, Vec<String>, Vec<StopOutcome<H>>),
        ServinelError,
    >)
        requires
            old(self).wf(),
            compose_valid(compose),
        ensures
            final(self).wf(),
            final(self).st().has_app(compose.app_name@),
            fresh_app(final(self).st().app(compose.app_name@), compose, path@),
            forall|a: Seq<char>|
                a != compose.app_name@ ==> #[trigger] final(self).st().has_app(a) == old(self).st().has_app(a),
            forall|a: Seq<char>|
                a != compose.app_name@ && old(self).st().has_app(a) ==> #[trigger] final(self).st().app(a)
                    == old(self).st().app(a),
            ({
                let sel = match profile {
                    Some(p) => ServiceSelector::Profile(p),
                    None => ServiceSelector::All,
                };
                &&& r is Err ==> selection_ok(final(self).st().app(compose.app_name@), sel, Err(r->Err_0))
                &&& r matches Ok((name, names, outs)) ==> name == compose.app_name && selection_ok(
                    final(self).st().app(compose.app_name@),
                    sel,
                    Ok(names),
                )
            }),
    {
        let name = compose.app_name.clone();
        let outs = self.supervisor.register_app(compose, path);
        let selector = match profile {
            Some(p) => ServiceSelector::Profile(p),
            None => ServiceSelector::All,
        };
        match self.resolve_services(name.as_str(), &selector) {
            Ok(names) => Ok((name, names, outs)),
            Err(e) => Err(e),
        }
    }

    /// Selects what `start` starts: from a freshly loaded manifest (which is
    /// registered first, as by `up`), else from the app named or the only
    /// app known.
    pub fn start(
        &mut self,
        loaded: Option<(ComposeFile, String)>,
        app: Option<String>,
        selector: ServiceSelector,
    ) -> (r: Result<(String, Vec<String>, Vec<StopOutcome<H>>), ServinelError>)
        requires
            old(self).wf(),
            loaded matches Some((c, p)) ==> compose_valid(c),
        ensures
            final(self).wf(),
            loaded is None ==> *final(self) == *old(self),
            loaded matches Some((c, p)) ==> final(self).st().has_app(c.app_name@) && fresh_app(
                final(self).st().app(c.app_name@),
                c,
                p@,
            ),
            loaded matches Some((c, p)) ==> (forall|a: Seq<char>|
                a != c.app_name@ ==> #[trigger] final(self).st().has_app(a) == old(self).st().has_app(a)),
            loaded matches Some((c, p)) ==> (forall|a: Seq<char>|
                a != c.app_name@ && old(self).st().has_app(a) ==> #[trigger] final(self).st().app(a)
                    == old(self).st().app(a)),
            loaded is None && resolved(old(self).st(), app) is None ==> (r matches Err(
                ServinelError::Usage(m),
            ) && m@ == "Multiple apps running, use --app"@),
            ({
                let target = match loaded {
                    Some((c, p)) => Some(c.app_name),
                    None => resolved(old(self).st(), app),
                };
                target matches Some(a) ==> {
                    &&& !final(self).st().has_app(a@) ==> (r matches Err(ServinelError::AppNotFound(x)) && x@ == a@)
                    &&& final(self).st().has_app(a@) && r is Err ==> selection_ok(
                        final(self).st().app(a@),
                        selector,
                        Err(r->Err_0),
                    )
                    &&& r matches Ok((name, names, outs)) ==> name == a && selection_ok(
                        final(self).st().app(a@),
                        selector,
                        Ok(names),
                    )
                }
            }),
    {
        let (name, outs) = match loaded {
            Some((c, p)) => {
                let name = c.app_name.clone();
                let outs = self.supervisor.register_app(c, p);
                (name, outs)
            },
            None => match self.resolve_app(app) {
                Ok(a) => (a, Vec::new()),
                Err(e) => {
                    return Err(e);
                },
            },
        };
        match self.resolve_services(name.as_str(), &selector) {
            Ok(names) => Ok((name, names, outs)),
            Err(e) => Err(e),
        }
    }

    /// Stops and forgets the app named, or every app when none is named.
    /// Tells whether no app is left, when the daemon shuts down.
    pub fn down(&mut self, app: Option<String>) -> (r: Result<(Vec<StopOutcome<H>>, bool), ServinelError>)
        requires
            old(self).wf(),
        ensures
            final(self).wf(),
            r matches Ok((outs, shut)) ==> shut == (final(self).st().apps@.len() == 0),
            app is None ==> r is Ok && final(self).st().apps@.len() == 0,
            app matches Some(a) ==> {
                &&& !old(self).st().has_app(a@) ==> (r matches Err(ServinelError::AppNotFound(x)) && x
                    == a) && *final(self) == *old(self)
                &&& old(self).st().has_app(a@) ==> r is Ok && !final(self).st().has_app(a@)
                    && final(self).st().apps@.len() == old(self).st().apps@.len() - 1
                &&& forall|b: Seq<char>|
                    b != a@ ==> #[trigger] final(self).st().has_app(b) == old(self).st().has_app(b)
                &&& forall|b: Seq<char>|
                    b != a@ && old(self).st().has_app(b) ==> #[trigger] final(self).st().app(b) == old(self).st().app(b)
            },
    {
        let mut outs: Vec<StopOutcome<H>> = Vec::new();
        match app {
            Some(a) => {
                if self.supervisor.state().find_app(a.as_str()).is_none() {
                    return Err(ServinelError::AppNotFound(a));
                }
                let mut o = self.supervisor.remove_app(a.as_str());
                outs.append(&mut o);
            },
            None => {
                while self.supervisor.state().apps.len() > 0
                    invariant
                        self.wf(),
                    decreases self.st().apps@.len(),
                {
                    let first = self.supervisor.state().apps[0].app_name.clone();
                    assert(self.st().has_app(first@)) by {
                        assert(self.st().apps@[0].app_name@ == first@);
                    }
                    let mut o = self.supervisor.remove_app(first.as_str());
                    outs.append(&mut o);
                }
            },
        }
        let shut = self.supervisor.state().apps.len() == 0;
        Ok((outs, shut))
    }
}

} // verus!
