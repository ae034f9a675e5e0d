use vstd::prelude::*;
use crate::error::ServinelError;
use crate::paths::{is_absolute, is_absolute_path, join_path, parent_of, path_join, path_parent};
use crate::text::{blank, concat, is_blank};

verus! {

/// One service of a manifest.
#[derive(Debug, Clone)]
pub struct ServiceConfig {
    pub name: String,
    /// Run by a POSIX shell.
    pub command: String,
    pub working_directory: Option<String>,
    /// Reserved; nothing acts on it.
    pub restart: Option<String>,
}

/// A named subset of an app's services.
#[derive(Debug, Clone)]
pub struct Profile {
    pub name: String,
    pub services: Vec<String>,
}

/// A manifest: an app and its services and profiles.
#[derive(Debug, Clone)]
pub struct ComposeFile {
    pub app_name: String,
    pub services: Vec<ServiceConfig>,
    pub profiles: Vec<Profile>,
}

impl ServiceConfig {
    /// A copy of this configuration, equal to it.
    pub fn duplicate(&self) -> (r: ServiceConfig)
        ensures
            r == *self,
    {
        ServiceConfig {
            name: self.name.clone(),
            command: self.command.clone(),
            working_directory: match &self.working_directory {
                Some(d) => Some(d.clone()),
                None => None,
            },
            restart: match &self.restart {
                Some(x) => Some(x.clone()),
                None => None,
            },
        }
    }
}

pub open spec fn str_views(v: Seq<String>) -> Seq<Seq<char>> {
    v.map_values(|x: String| x@)
}

pub open spec fn service_names(s: Seq<ServiceConfig>) -> Seq<Seq<char>> {
    s.map_values(|c: ServiceConfig| c.name@)
}

pub open spec fn profile_names(p: Seq<Profile>) -> Seq<Seq<char>> {
    p.map_values(|x: Profile| x.name@)
}

/// No name occurs twice.
pub open spec fn unique(s: Seq<Seq<char>>) -> bool {
    forall|i: int, j: int| 0 <= i < j < s.len() ==> s[i] != s[j]
}

/// Every service that a profile lists is declared.
pub open spec fn profiles_declared(services: Seq<ServiceConfig>, profiles: Seq<Profile>) -> bool {
    forall|p: int, k: int|
        0 <= p < profiles.len() && 0 <= k < profiles[p].services@.len() ==> service_names(
            services,
        ).contains(#[trigger] profiles[p].services@[k]@)
}

/// What the validator accepts.
pub open spec fn compose_valid(c: ComposeFile) -> bool {
    &&& !blank(c.app_name@)
    &&& forall|i: int| 0 <= i < c.services@.len() ==> !blank(#[trigger] c.services@[i].name@)
    &&& unique(service_names(c.services@))
    &&& unique(profile_names(c.profiles@))
    &&& profiles_declared(c.services@, c.profiles@)
}

/// A working directory after resolution against `base`.
pub open spec fn resolved_dir(wd: Option<String>, base: Seq<char>) -> Option<Seq<char>> {
    match wd {
        Some(d) => Some(
            if is_absolute(d@) {
                d@
            } else {
                path_join(base, d@)
            },
        ),
        None => None,
    }
}

pub open spec fn opt_view(o: Option<String>) -> Option<Seq<char>> {
    match o {
        Some(s) => Some(s@),
        None => None,
    }
}

/// `c` with every relative working directory resolved against `base`.
pub open spec fn normalized(old_c: ComposeFile, new_c: ComposeFile, base: Seq<char>) -> bool {
    &&& new_c.app_name == old_c.app_name
    &&& new_c.profiles == old_c.profiles
    &&& new_c.services@.len() == old_c.services@.len()
    &&& forall|i: int|
        0 <= i < old_c.services@.len() ==> {
            let o = #[trigger] old_c.services@[i];
            let n = new_c.services@[i];
            &&& n.name == o.name
            &&& n.command == o.command
            &&& n.restart == o.restart
            &&& opt_view(n.working_directory) == resolved_dir(o.working_directory, base)
        }
}

/// Whether a service of this name is declared.
pub fn has_service(services: &Vec<ServiceConfig>, name: &String) -> (r: bool)
    ensures
        r == service_names(services@).contains(name@),
{
    let mut i: usize = 0;
    while i < services.len()
        invariant
            i <= services@.len(),
            forall|k: int| 0 <= k < i ==> services@[k].name@ != name@,
        decreases services@.len() - i,
    {
        if services[i].name == *name {
            assert(service_names(services@)[i as int] == name@);
            return true;
        }
        i = i + 1;
    }
    proof {
        if service_names(services@).contains(name@) {
            let k = choose|k: int|
                0 <= k < service_names(services@).len() && service_names(services@)[k] == name@;
            assert(services@[k].name@ == name@);
        }
    }
    false
}

fn invalid(msg: &str) -> (r: ServinelError)
    ensures
        r matches ServinelError::InvalidCompose(m) && m@ == msg@,
{
    ServinelError::InvalidCompose(String::from_str(msg))
}

/// Checks a manifest: a non-blank app name, non-blank and distinct service
/// names, distinct profile names, and profiles that list declared services
/// only.
#[verifier::loop_isolation(false)]
pub fn validate_compose(compose: &ComposeFile) -> (r: Result<(), ServinelError>)
    ensures
        r is Ok <==> compose_valid(*compose),
        r matches Err(e) ==> e is InvalidCompose,
        blank(compose.app_name@) ==> (r matches Err(ServinelError::InvalidCompose(m)) && m@
            == "app_name is required"@),
{
    if is_blank(compose.app_name.as_str()) {
        return Err(invalid("app_name is required"));
    }
    let services = &compose.services;
    let n = services.len();
    let mut i: usize = 0;
    while i < n
        invariant
            n == services@.len(),
            i <= n,
            forall|k: int| 0 <= k < i ==> !blank(#[trigger] services@[k].name@),
            forall|a: int, b: int|
                0 <= a < b < i ==> service_names(services@)[a] != service_names(services@)[b],
        decreases n - i,
    {
        if is_blank(services[i].name.as_str()) {
            return Err(invalid("service name cannot be empty"));
        }
        let mut j: usize = 0;
        while j < i
            invariant
                n == services@.len(),
                j <= i < n,
                forall|k: int| 0 <= k < j ==> services@[k].name@ != services@[i as int].name@,
            decreases i - j,
        {
            if services[j].name == services[i].name {
                assert(service_names(services@)[j as int] == service_names(services@)[i as int]);
                return Err(
                    ServinelError::InvalidCompose(
                        concat("duplicate service name: ", services[i].name.as_str()),
                    ),
                );
            }
            j = j + 1;
        }
        i = i + 1;
    }
    assert(unique(service_names(services@)));
    let profiles = &compose.profiles;
    let np = profiles.len();
    let mut p: usize = 0;
    while p < np
        invariant
            np == profiles@.len(),
            p <= np,
            forall|a: int, b: int|
                0 <= a < b < p ==> profile_names(profiles@)[a] != profile_names(profiles@)[b],
            forall|x: int, k: int|
                0 <= x < p && 0 <= k < profiles@[x].services@.len() ==> service_names(
                    services@,
                ).contains(#[trigger] profiles@[x].services@[k]@),
        decreases np - p,
    {
        let mut q: usize = 0;
        while q < p
            invariant
                np == profiles@.len(),
                q <= p < np,
                forall|k: int| 0 <= k < q ==> profiles@[k].name@ != profiles@[p as int].name@,
            decreases p - q,
        {
            if profiles[q].name == profiles[p].name {
                assert(profile_names(profiles@)[q as int] == profile_names(profiles@)[p as int]);
                return Err(
                    ServinelError::InvalidCompose(
                        concat("duplicate profile name: ", profiles[p].name.as_str()),
                    ),
                );
            }
            q = q + 1;
        }
        let listed = &profiles[p].services;
        let mut k: usize = 0;
        while k < listed.len()
            invariant
                np == profiles@.len(),
                p < np,
                *listed == profiles@[p as int].services,
                k <= listed@.len(),
                forall|m: int|
                    0 <= m < k ==> service_names(services@).contains(#[trigger] listed@[m]@),
            decreases listed@.len() - k,
        {
            if !has_service(services, &listed[k]) {
                let mut msg = String::from_str("profile '");
                msg.append(profiles[p].name.as_str());
                msg.append("' references unknown service '");
                msg.append(listed[k].as_str());
                msg.append("'");
                proof {
                    assert(!profiles_declared(services@, profiles@)) by {
                        assert(!service_names(services@).contains(
                            profiles@[p as int].services@[k as int]@,
                        ));
                    }
                }
                return Err(ServinelError::InvalidCompose(msg));
            }
            k = k + 1;
        }
        p = p + 1;
    }
    Ok(())
}

/// Resolves every relative working directory against the directory that
/// holds the manifest at `path`.
pub fn normalize_compose(compose: &mut ComposeFile, path: &str) -> (r: Result<(), ServinelError>)
    ensures
        parent_of(path@) is None ==> (r matches Err(ServinelError::InvalidCompose(m)) && m@
            == "Invalid compose path"@ && *final(compose) == *old(compose)),
        parent_of(path@) matches Some(base) ==> (r is Ok && normalized(
            *old(compose),
            *final(compose),
            base,
        )),
{
    let base = match path_parent(path) {
        Some(b) => b,
        None => {
            return Err(invalid("Invalid compose path"));
        },
    };
    let n = compose.services.len();
    let mut i: usize = 0;
    while i < n
        invariant
            parent_of(path@) == Some(base@),
            n == old(compose).services@.len(),
            n == compose.services@.len(),
            i <= n,
            compose.app_name == old(compose).app_name,
            compose.profiles == old(compose).profiles,
            forall|k: int|
                i <= k < n ==> #[trigger] compose.services@[k] == old(compose).services@[k],
            forall|k: int|
                0 <= k < i ==> {
                    let o = #[trigger] old(compose).services@[k];
                    let c = compose.services@[k];
                    &&& c.name == o.name
                    &&& c.command == o.command
                    &&& c.restart == o.restart
                    &&& opt_view(c.working_directory) == resolved_dir(
                        o.working_directory,
                        base@,
                    )
                },
        decreases n - i,
    {
        let resolved = match &compose.services[i].working_directory {
            Some(dir) => {
                if is_absolute_path(dir.as_str()) {
                    None
                } else {
                    Some(join_path(base.as_str(), dir.as_str()))
                }
            },
            None => None,
        };
        if resolved.is_some() {
            compose.services[i].working_directory = resolved;
        }
        i = i + 1;
    }
    Ok(())
}

/// A parsed manifest read from `path`, made ready for the daemon: working
/// directories resolved, then validated.
pub fn prepare_compose(compose: ComposeFile, path: &str) -> (r: Result<
    ComposeFile,
    ServinelError,
>)
    ensures
        parent_of(path@) is None ==> r is Err,
        parent_of(path@) matches Some(base) ==> (r is Ok <==> compose_valid(compose)),
        r matches Ok(c) ==> compose_valid(c) && (parent_of(path@) matches Some(base)
            && normalized(compose, c, base)),
        r matches Err(e) ==> e is InvalidCompose,
{
    let mut c = compose;
    match normalize_compose(&mut c, path) {
        Ok(()) => {},
        Err(e) => {
            return Err(e);
        },
    }
    proof {
        let base = parent_of(path@)->Some_0;
        assert(service_names(c.services@) =~= service_names(compose.services@));
        assert forall|i: int| 0 <= i < c.services@.len() implies !blank(
            #[trigger] c.services@[i].name@,
        ) == !blank(compose.services@[i].name@) by {
            assert(c.services@[i].name == compose.services@[i].name);
        }
    }
    match validate_compose(&c) {
        Ok(()) => Ok(c),
        Err(e) => Err(e),
    }
}

} // verus!

verus! {

/// A manifest the validator accepts lists in its profiles only declared
/// services, and declares no service name twice.
pub proof fn lemma_accepted_manifest(c: ComposeFile)
    requires
        compose_valid(c),
    ensures
        forall|p: int, k: int|
            0 <= p < c.profiles@.len() && 0 <= k < c.profiles@[p].services@.len() ==> service_names(
                c.services@,
            ).contains(#[trigger] c.profiles@[p].services@[k]@),
        forall|i: int, j: int|
            0 <= i < j < c.services@.len() ==> c.services@[i].name@ != c.services@[j].name@,
{
    assert forall|i: int, j: int| 0 <= i < j < c.services@.len() implies c.services@[i].name@
        != c.services@[j].name@ by {
        assert(service_names(c.services@)[i] != service_names(c.services@)[j]);
    }
}

} // verus!
