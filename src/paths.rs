use vstd::prelude::*;
use crate::error::ServinelError;
use crate::text::{concat, concat3, starts_with};

verus! {

/// Name of the manifest looked for in the working directory.
pub const DEFAULT_COMPOSE_FILE: &'static str = "servinel-compose.yaml";

/// Name of the daemon's directory under the home directory.
pub const DATA_DIR_NAME: &'static str = ".servinel";

/// Name of the daemon's socket in its data directory.
pub const SOCKET_FILE_NAME: &'static str = "servinel.sock";

/// Name of the persisted state in the data directory.
pub const STATE_FILE_NAME: &'static str = "state.json";

/// A POSIX path is absolute when it starts at the root.
pub open spec fn is_absolute(p: Seq<char>) -> bool {
    p.len() > 0 && p[0] == '/'
}

/// `rel` resolved against `base`, as `Path::join` does on Unix: an absolute
/// `rel` replaces `base`; otherwise one separator is put between them unless
/// `base` is empty or already ends in one.
pub open spec fn path_join(base: Seq<char>, rel: Seq<char>) -> Seq<char> {
    if is_absolute(rel) {
        rel
    } else if base.len() == 0 || base.last() == '/' {
        base + rel
    } else {
        base + seq!['/'] + rel
    }
}

/// What `Path::parent` gives for a path, or `None` for a root or empty path.
pub uninterp spec fn parent_of(p: Seq<char>) -> Option<Seq<char>>;

/// Relies on std::path::Path::parent: the path without its last component.
#[verifier::external_body]
pub(crate) fn path_parent(p: &str) -> (r: Option<String>)
    ensures
        r matches Some(d) ==> parent_of(p@) == Some(d@),
        r is None ==> parent_of(p@) is None,
{
    std::path::Path::new(p).parent().map(|d| d.to_string_lossy().into_owned())
}

pub fn is_absolute_path(p: &str) -> (r: bool)
    ensures
        r == is_absolute(p@),
{
    proof {
        reveal_strlit("/");
    }
    let r = starts_with(p, "/");
    proof {
        if p@.len() > 0 {
            assert(p@.subrange(0, 1)[0] == p@[0]);
            if p@[0] == '/' {
                assert(p@.subrange(0, 1) =~= "/"@);
            }
        }
    }
    r
}

/// `rel` resolved against `base`.
pub fn join_path(base: &str, rel: &str) -> (r: String)
    ensures
        r@ == path_join(base@, rel@),
{
    if is_absolute_path(rel) {
        return String::from_str(rel);
    }
    let n = base.unicode_len();
    proof {
        reveal_strlit("/");
    }
    if n == 0 || base.get_char(n - 1) == '/' {
        concat(base, rel)
    } else {
        concat3(base, "/", rel)
    }
}

/// An absolute form of `path`: as it is when absolute, else resolved
/// against the working directory `cwd`.
pub fn normalize_path(path: &str, cwd: &str) -> (r: String)
    ensures
        r@ == (if is_absolute(path@) {
            path@
        } else {
            path_join(cwd@, path@)
        }),
{
    if is_absolute_path(path) {
        String::from_str(path)
    } else {
        join_path(cwd, path)
    }
}

/// Where the manifest is looked for when none is named.
pub fn compose_candidate(cwd: &str) -> (r: String)
    ensures
        r@ == path_join(cwd@, DEFAULT_COMPOSE_FILE@),
{
    join_path(cwd, DEFAULT_COMPOSE_FILE)
}

/// The manifest to use: the one named, made absolute; else the default file
/// in `cwd` when `default_exists` says it is there.
pub fn require_compose_file(path: Option<String>, cwd: &str, default_exists: bool) -> (r: Result<
    String,
    ServinelError,
>)
    ensures
        path matches Some(p) ==> r matches Ok(s) && s@ == (if is_absolute(p@) {
            p@
        } else {
            path_join(cwd@, p@)
        }),
        path is None && default_exists ==> (r matches Ok(s) && s@ == path_join(
            cwd@,
            DEFAULT_COMPOSE_FILE@,
        )),
        path is None && !default_exists ==> (r matches Err(ServinelError::ComposeNotFound(f))
            && f@ == DEFAULT_COMPOSE_FILE@),
{
    match path {
        Some(p) => Ok(normalize_path(p.as_str(), cwd)),
        None => {
            if default_exists {
                Ok(compose_candidate(cwd))
            } else {
                Err(ServinelError::ComposeNotFound(String::from_str(DEFAULT_COMPOSE_FILE)))
            }
        },
    }
}

/// The daemon's data directory, `$HOME/.servinel`; `home` is the value of
/// `HOME`, if set.
pub fn app_data_dir(home: Option<&str>) -> (r: Result<String, ServinelError>)
    ensures
        home matches Some(h) ==> r matches Ok(d) && d@ == path_join(h@, DATA_DIR_NAME@),
        home is None ==> (r matches Err(ServinelError::Io(m)) && m@ == "HOME not set"@),
{
    match home {
        Some(h) => Ok(join_path(h, DATA_DIR_NAME)),
        None => Err(ServinelError::Io(String::from_str("HOME not set"))),
    }
}

/// The daemon's socket, in its data directory.
pub fn socket_path(home: Option<&str>) -> (r: Result<String, ServinelError>)
    ensures
        home matches Some(h) ==> r matches Ok(s) && s@ == path_join(
            path_join(h@, DATA_DIR_NAME@),
            SOCKET_FILE_NAME@,
        ),
        home is None ==> (r matches Err(ServinelError::Io(m)) && m@ == "HOME not set"@),
{
    match app_data_dir(home) {
        Ok(d) => Ok(join_path(d.as_str(), SOCKET_FILE_NAME)),
        Err(e) => Err(e),
    }
}

/// The persisted state file, in the data directory.
pub fn state_path(home: Option<&str>) -> (r: Result<String, ServinelError>)
    ensures
        home matches Some(h) ==> r matches Ok(s) && s@ == path_join(
            path_join(h@, DATA_DIR_NAME@),
            STATE_FILE_NAME@,
        ),
        home is None ==> (r matches Err(ServinelError::Io(m)) && m@ == "HOME not set"@),
{
    match app_data_dir(home) {
        Ok(d) => Ok(join_path(d.as_str(), STATE_FILE_NAME)),
        Err(e) => Err(e),
    }
}

} // verus!
