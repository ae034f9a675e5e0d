use servinel::compose::{normalize_compose, prepare_compose, validate_compose, ComposeFile, Profile, ServiceConfig};
use servinel::error::ServinelError;

fn svc(name: &str, command: &str, wd: Option<&str>) -> ServiceConfig {
    ServiceConfig {
        name: name.to_string(),
        command: command.to_string(),
        working_directory: wd.map(|d| d.to_string()),
        restart: None,
    }
}

fn web() -> ComposeFile {
    ComposeFile {
        app_name: "web".to_string(),
        services: vec![svc("api", "sleep 5", None), svc("worker", "sleep 5", Some("jobs"))],
        profiles: vec![Profile { name: "backend".to_string(), services: vec!["api".to_string(), "worker".to_string()] }],
    }
}

fn invalid_message(r: Result<(), ServinelError>) -> String {
    match r {
        Err(ServinelError::InvalidCompose(m)) => m,
        other => panic!("expected an invalid manifest, got {other:?}"),
    }
}

#[test]
fn valid_manifest_passes() {
    assert!(validate_compose(&web()).is_ok());
}

#[test]
fn blank_app_name_is_rejected() {
    let mut c = web();
    c.app_name = " \t".to_string();
    assert_eq!(invalid_message(validate_compose(&c)), "app_name is required");
}

#[test]
fn blank_service_name_is_rejected() {
    let mut c = web();
    c.services[1].name = "  ".to_string();
    c.profiles.clear();
    assert_eq!(invalid_message(validate_compose(&c)), "service name cannot be empty");
}

#[test]
fn duplicate_service_is_rejected() {
    let mut c = web();
    c.services.push(svc("api", "true", None));
    assert_eq!(invalid_message(validate_compose(&c)), "duplicate service name: api");
}

#[test]
fn unknown_profile_member_is_rejected() {
    let mut c = web();
    c.profiles[0].services.push("ghost".to_string());
    assert_eq!(
        invalid_message(validate_compose(&c)),
        "profile 'backend' references unknown service 'ghost'"
    );
}

#[test]
fn duplicate_profile_is_rejected() {
    let mut c = web();
    c.profiles.push(Profile { name: "backend".to_string(), services: vec![] });
    assert_eq!(invalid_message(validate_compose(&c)), "duplicate profile name: backend");
}

#[test]
fn relative_working_directory_resolves_against_manifest_dir() {
    let mut c = web();
    c.services[0].working_directory = Some("/opt/abs".to_string());
    normalize_compose(&mut c, "/srv/app/servinel-compose.yaml").unwrap();
    assert_eq!(c.services[0].working_directory.as_deref(), Some("/opt/abs"));
    assert_eq!(c.services[1].working_directory.as_deref(), Some("/srv/app/jobs"));
}

#[test]
fn manifest_path_without_parent_is_rejected() {
    let mut c = web();
    match normalize_compose(&mut c, "/") {
        Err(ServinelError::InvalidCompose(m)) => assert_eq!(m, "Invalid compose path"),
        other => panic!("unexpected {other:?}"),
    }
}

#[test]
fn prepare_normalizes_then_validates() {
    let c = prepare_compose(web(), "/srv/app/servinel-compose.yaml").unwrap();
    assert_eq!(c.services[1].working_directory.as_deref(), Some("/srv/app/jobs"));
    let mut bad = web();
    bad.app_name = String::new();
    assert!(prepare_compose(bad, "/srv/app/x.yaml").is_err());
}
