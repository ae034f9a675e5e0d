use servinel::error::ServinelError;
use servinel::paths::{app_data_dir, join_path, normalize_path, require_compose_file, socket_path, state_path};
use servinel::text::{is_blank, less_than, same_text, starts_with, trim, trim_end};

#[test]
fn blank_and_trim() {
    assert!(is_blank(""));
    assert!(is_blank(" \t\n\u{3000}"));
    assert!(!is_blank(" a "));
    assert_eq!(trim("  exec x \n"), "exec x");
    assert_eq!(trim_end("ab  \t"), "ab");
    assert!(starts_with("exec sleep", "exec "));
    assert!(!starts_with("exe", "exec "));
    assert!(same_text("abc", "abc"));
    assert!(!same_text("abc", "abd"));
}

#[test]
fn code_point_order() {
    assert!(less_than("alpha", "beta"));
    assert!(less_than("a", "ab"));
    assert!(!less_than("ab", "ab"));
    assert!(!less_than("b", "a"));
    assert!(less_than("Z", "a"));
}

#[test]
fn path_join_rules() {
    assert_eq!(join_path("/srv", "app"), "/srv/app");
    assert_eq!(join_path("/srv/", "app"), "/srv/app");
    assert_eq!(join_path("/srv", "/etc"), "/etc");
    assert_eq!(join_path("", "x"), "x");
    assert_eq!(normalize_path("a/b", "/home/u"), "/home/u/a/b");
    assert_eq!(normalize_path("/a/b", "/home/u"), "/a/b");
}

#[test]
fn data_paths() {
    assert_eq!(app_data_dir(Some("/home/u")).unwrap(), "/home/u/.servinel");
    assert_eq!(socket_path(Some("/home/u")).unwrap(), "/home/u/.servinel/servinel.sock");
    assert_eq!(state_path(Some("/home/u/")).unwrap(), "/home/u/.servinel/state.json");
    match socket_path(None) {
        Err(e) => assert_eq!(e.message(), "I/O error: HOME not set"),
        Ok(p) => panic!("unexpected {p}"),
    }
}

#[test]
fn compose_file_choice() {
    assert_eq!(require_compose_file(Some("x.yaml".to_string()), "/w", false).unwrap(), "/w/x.yaml");
    assert_eq!(require_compose_file(None, "/w", true).unwrap(), "/w/servinel-compose.yaml");
    match require_compose_file(None, "/w", false) {
        Err(ServinelError::ComposeNotFound(p)) => assert_eq!(p, "servinel-compose.yaml"),
        other => panic!("unexpected {other:?}"),
    }
}

#[test]
fn error_messages() {
    assert_eq!(ServinelError::ServiceNotFound("ghost".to_string()).message(), "Service not found: ghost");
    assert_eq!(ServinelError::DaemonNotRunning.message(), "Daemon is not running");
    assert_eq!(ServinelError::Usage("x".to_string()).message(), "CLI usage error: x");
    assert_eq!(ServinelError::ProfileNotFound("p".to_string()).message(), "Profile not found: p");
}

#[test]
fn whitespace_matches_std() {
    for code in 0u32..=0x10FFFF {
        if let Some(c) = char::from_u32(code) {
            assert_eq!(servinel::text::char_is_whitespace(c), c.is_whitespace(), "{code:#x}");
        }
    }
}
