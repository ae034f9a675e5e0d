use servinel::compose::{ComposeFile, Profile, ServiceConfig};
use servinel::daemon::Daemon;
use servinel::error::ServinelError;
use servinel::logs::{LogEntry, LogStream};
use servinel::protocol::ServiceSelector;
use servinel::state::{ServiceMetrics, ServiceStatus};
use servinel::supervisor::{shell_command, RefreshUpdate};

fn svc(name: &str, command: &str) -> ServiceConfig {
    ServiceConfig { name: name.to_string(), command: command.to_string(), working_directory: None, restart: None }
}

fn manifest(app: &str) -> ComposeFile {
    ComposeFile {
        app_name: app.to_string(),
        services: vec![svc("api", "sleep 5"), svc("worker", "exec sleep 9"), svc("cron", "true")],
        profiles: vec![
            Profile { name: "backend".to_string(), services: vec!["api".to_string(), "worker".to_string()] },
            Profile { name: "all".to_string(), services: vec!["cron".to_string()] },
        ],
    }
}

fn up_web(d: &mut Daemon<u32>) -> Vec<String> {
    let (name, names, outs) = d.up(manifest("web"), "/srv/app/servinel-compose.yaml".to_string(), None).unwrap();
    assert_eq!(name, "web");
    assert!(outs.is_empty());
    names
}

fn start(d: &mut Daemon<u32>, service: &str, pid: u32, now: u64) {
    let plan = d.supervisor.plan_start("web", service, "/cwd").unwrap();
    if plan.launch.is_some() {
        d.supervisor.commit_start("web", service, pid, pid, now).unwrap();
    }
}

fn err_message<T: std::fmt::Debug>(r: Result<T, ServinelError>) -> String {
    match r {
        Err(e) => e.message(),
        Ok(v) => panic!("expected an error, got {v:?}"),
    }
}

#[test]
fn up_then_status_shows_running_service() {
    let mut d: Daemon<u32> = Daemon::new();
    let names = up_web(&mut d);
    assert_eq!(names, vec!["api", "worker", "cron"]);
    let plan = d.supervisor.plan_start("web", "api", "/cwd").unwrap();
    assert_eq!(plan.kill_group, None);
    let launch = plan.launch.unwrap();
    assert_eq!(launch.workdir, "/srv/app");
    assert_eq!(launch.shell_command, "cd /srv/app && exec sleep 5");
    assert!(d.supervisor.commit_start("web", "api", 7, 4242, 100).is_ok());
    let snap = d.status(Some("web".to_string()), ServiceSelector::All, 105).unwrap();
    assert_eq!(snap.apps.len(), 1);
    assert_eq!(snap.apps[0].app_name, "web");
    let api = &snap.apps[0].services[0];
    assert_eq!(api.name, "api");
    assert_eq!(api.status, "running");
    assert_eq!(api.pid, Some(4242));
    assert_eq!(api.uptime_secs, Some(5));
    assert_eq!(snap.apps[0].services[1].status, "stopped");
    assert_eq!(snap.apps[0].services[1].uptime_secs, None);
}

#[test]
fn exec_commands_are_not_wrapped_twice() {
    assert_eq!(shell_command("  exec sleep 9", "/w"), "cd /w &&   exec sleep 9");
    assert_eq!(shell_command("exec", "/w"), "cd /w && exec exec");
    assert_eq!(shell_command("sh -c 'sleep 30 & wait'", "/w"), "cd /w && exec sh -c 'sleep 30 & wait'");
}

#[test]
fn starting_twice_keeps_one_child() {
    let mut d: Daemon<u32> = Daemon::new();
    up_web(&mut d);
    start(&mut d, "api", 4242, 100);
    let again = d.supervisor.plan_start("web", "api", "/cwd").unwrap();
    assert!(again.launch.is_none());
    assert_eq!(again.kill_group, None);
    assert_eq!(d.supervisor.commit_start("web", "api", 8, 5000, 101), Err(8));
    assert_eq!(d.supervisor.runtime_count(), 1);
    let snap = d.status(Some("web".to_string()), ServiceSelector::Service("api".to_string()), 101).unwrap();
    assert_eq!(snap.apps[0].services[0].status, "running");
    assert_eq!(snap.apps[0].services[0].pid, Some(4242));
}

#[test]
fn stop_without_pid_kills_nothing() {
    let mut d: Daemon<u32> = Daemon::new();
    up_web(&mut d);
    let out = d.supervisor.stop_service("web", "cron");
    assert_eq!(out.kill_group, None);
    assert!(out.handle.is_none());
    let snap = d.status(Some("web".to_string()), ServiceSelector::Service("cron".to_string()), 1).unwrap();
    assert_eq!(snap.apps[0].services[0].status, "stopped");
}

#[test]
fn stop_running_service_hands_back_kill_and_handle() {
    let mut d: Daemon<u32> = Daemon::new();
    up_web(&mut d);
    start(&mut d, "api", 4242, 100);
    let (app, names, outs) = d.stop(Some("web".to_string()), ServiceSelector::Service("api".to_string())).unwrap();
    assert_eq!(app, "web");
    assert_eq!(names, vec!["api"]);
    assert_eq!(outs.len(), 1);
    assert_eq!(outs[0].kill_group, Some(4242));
    assert_eq!(outs[0].handle, Some(4242));
    assert_eq!(d.supervisor.runtime_count(), 0);
    let snap = d.status(Some("web".to_string()), ServiceSelector::Service("api".to_string()), 200).unwrap();
    assert_eq!(snap.apps[0].services[0].status, "stopped");
    assert_eq!(snap.apps[0].services[0].pid, None);
    assert_eq!(snap.apps[0].services[0].uptime_secs, None);
}

#[test]
fn status_without_app_needs_all() {
    let mut d: Daemon<u32> = Daemon::new();
    up_web(&mut d);
    let m = err_message(d.status(None, ServiceSelector::Service("api".to_string()), 0));
    assert_eq!(m, "CLI usage error: --app is required for profiles or specific services");
    let snap = d.status(None, ServiceSelector::All, 0).unwrap();
    assert_eq!(snap.apps.len(), 1);
    assert_eq!(snap.apps[0].services.len(), 3);
}

#[test]
fn status_of_empty_daemon() {
    let d: Daemon<u32> = Daemon::new();
    let snap = d.status(None, ServiceSelector::All, 0).unwrap();
    assert!(snap.apps.is_empty());
    assert_eq!(err_message(d.status(Some("web".to_string()), ServiceSelector::All, 0)), "App not found: web");
}

#[test]
fn resolve_app_needs_exactly_one() {
    let mut d: Daemon<u32> = Daemon::new();
    assert_eq!(err_message(d.resolve_app(None)), "CLI usage error: Multiple apps running, use --app");
    up_web(&mut d);
    assert_eq!(d.resolve_app(None).unwrap(), "web");
    d.up(manifest("shop"), "/srv/shop/m.yaml".to_string(), None).unwrap();
    assert_eq!(err_message(d.resolve_app(None)), "CLI usage error: Multiple apps running, use --app");
    assert_eq!(d.resolve_app(Some("other".to_string())).unwrap(), "other");
}

#[test]
fn profiles_resolve_and_list_sorted() {
    let mut d: Daemon<u32> = Daemon::new();
    up_web(&mut d);
    let (_, names, _) = d.start(None, Some("web".to_string()), ServiceSelector::Profile("backend".to_string())).unwrap();
    assert_eq!(names, vec!["api", "worker"]);
    assert_eq!(d.profiles(Some("web".to_string())).unwrap(), vec!["all", "backend"]);
    assert_eq!(
        err_message(d.resolve_services("web", &ServiceSelector::Profile("nope".to_string()))),
        "Profile not found: nope"
    );
    let (_, only, _) = d.up(manifest("web"), "/srv/app/m.yaml".to_string(), Some("all".to_string())).unwrap();
    assert_eq!(only, vec!["cron"]);
}

#[test]
fn unknown_service_is_an_error_and_changes_nothing() {
    let mut d: Daemon<u32> = Daemon::new();
    up_web(&mut d);
    start(&mut d, "api", 4242, 100);
    let m = err_message(d.stop(Some("web".to_string()), ServiceSelector::Service("ghost".to_string())));
    assert!(m.contains("Service not found"));
    assert_eq!(m, "Service not found: ghost");
    assert_eq!(
        err_message(d.stop(
            Some("web".to_string()),
            ServiceSelector::Services(vec!["api".to_string(), "ghost".to_string(), "x".to_string()])
        )),
        "Service not found: ghost"
    );
    let snap = d.status(Some("web".to_string()), ServiceSelector::Service("api".to_string()), 100).unwrap();
    assert_eq!(snap.apps[0].services[0].status, "running");
    assert_eq!(d.supervisor.runtime_count(), 1);
}

#[test]
fn logs_history_tail() {
    let mut d: Daemon<u32> = Daemon::new();
    up_web(&mut d);
    for i in 1..=3u64 {
        let e = LogEntry { timestamp: i, stream: LogStream::Stdout, line: format!("line{i}") };
        d.supervisor.push_log("web", "api", e);
    }
    let (app, chunks, names) =
        d.logs(Some("web".to_string()), ServiceSelector::Service("api".to_string()), Some(2)).unwrap();
    assert_eq!(app, "web");
    assert_eq!(names, vec!["api"]);
    assert_eq!(chunks.len(), 2);
    assert_eq!(chunks[0].entry.line, "line2");
    assert_eq!(chunks[1].entry.line, "line3");
    assert_eq!(chunks[0].app, "web");
    assert_eq!(chunks[0].service, "api");
    let (_, all, _) = d.logs(None, ServiceSelector::All, None).unwrap();
    assert_eq!(all.iter().map(|c| c.entry.line.clone()).collect::<Vec<_>>(), vec!["line1", "line2", "line3"]);
}

#[test]
fn refresh_records_exit_and_metrics() {
    let mut d: Daemon<u32> = Daemon::new();
    up_web(&mut d);
    start(&mut d, "api", 10, 100);
    start(&mut d, "worker", 11, 100);
    let m = ServiceMetrics { cpu_bits: 1.5f32.to_bits(), memory: 2048, memory_total: 8192 };
    let updates = vec![
        RefreshUpdate::Exited { app: "web".to_string(), service: "api".to_string(), exit_code: Some(3) },
        RefreshUpdate::Metrics { app: "web".to_string(), service: "worker".to_string(), metrics: m },
    ];
    assert!(d.supervisor.refresh(7, 100, 200, updates));
    assert!(!d.supervisor.refresh(7, 100, 200, Vec::new()));
    let snap = d.status(Some("web".to_string()), ServiceSelector::All, 150).unwrap();
    assert_eq!(snap.system_memory_used, 100);
    assert_eq!(snap.system_memory_total, 200);
    let api = &snap.apps[0].services[0];
    assert_eq!(api.status, "exited");
    assert_eq!(api.exit_code, Some(3));
    assert_eq!(api.pid, None);
    let worker = &snap.apps[0].services[1];
    assert_eq!(worker.metrics.memory, 2048);
    assert_eq!(f32::from_bits(worker.metrics.cpu_bits), 1.5);
    assert_eq!(d.supervisor.runtime_count(), 1);
    // An exited service starts again.
    start(&mut d, "api", 12, 160);
    let snap = d.status(Some("web".to_string()), ServiceSelector::Service("api".to_string()), 160).unwrap();
    assert_eq!(snap.apps[0].services[0].status, "running");
    assert_eq!(snap.apps[0].services[0].exit_code, None);
}

#[test]
fn registering_again_stops_the_old_app() {
    let mut d: Daemon<u32> = Daemon::new();
    up_web(&mut d);
    start(&mut d, "api", 4242, 100);
    let (_, _, outs) = d.up(manifest("web"), "/srv/app/m.yaml".to_string(), None).unwrap();
    assert_eq!(outs.len(), 3);
    assert_eq!(outs[0].kill_group, Some(4242));
    assert_eq!(d.supervisor.runtime_count(), 0);
}

#[test]
fn down_removes_apps() {
    let mut d: Daemon<u32> = Daemon::new();
    up_web(&mut d);
    d.up(manifest("shop"), "/srv/shop/m.yaml".to_string(), None).unwrap();
    assert_eq!(err_message(d.down(Some("ghost".to_string()))), "App not found: ghost");
    let (_, shut) = d.down(Some("web".to_string())).unwrap();
    assert!(!shut);
    let (_, shut) = d.down(None).unwrap();
    assert!(shut);
    assert!(d.status(None, ServiceSelector::All, 0).unwrap().apps.is_empty());
}

#[test]
fn start_stop_sequences_keep_status_pid_and_start_time_together() {
    let mut d: Daemon<u32> = Daemon::new();
    up_web(&mut d);
    let check = |d: &Daemon<u32>, running: bool| {
        let snap = d.status(Some("web".to_string()), ServiceSelector::Service("api".to_string()), 1000).unwrap();
        let api = &snap.apps[0].services[0];
        assert_eq!(api.status == "running", running);
        assert_eq!(api.pid.is_some(), running);
        assert_eq!(api.uptime_secs.is_some(), running);
        assert_eq!(d.supervisor.log_sender("web", "api").is_some(), running);
    };
    check(&d, false);
    start(&mut d, "api", 1, 10);
    check(&d, true);
    d.supervisor.stop_service("web", "api");
    check(&d, false);
    d.supervisor.stop_service("web", "api");
    check(&d, false);
    start(&mut d, "api", 2, 20);
    start(&mut d, "api", 3, 30);
    check(&d, true);
    assert_eq!(d.supervisor.record_exit("web", "api", None), Some(2));
    check(&d, false);
    assert_eq!(d.supervisor.record_exit("web", "api", Some(1)), None);
    start(&mut d, "api", 4, 40);
    check(&d, true);
}

#[test]
fn restoring_a_previous_run_keeps_the_pid_to_kill() {
    let mut d: Daemon<u32> = Daemon::new();
    let outs = d.register_app(manifest("web"), "/srv/app/m.yaml".to_string());
    assert!(outs.is_empty());
    assert!(d.supervisor.restore_service("web", "api", Some(777), Some(2)));
    assert!(!d.supervisor.restore_service("web", "ghost", Some(1), None));
    let snap = d.status(Some("web".to_string()), ServiceSelector::Service("api".to_string()), 0).unwrap();
    assert_eq!(snap.apps[0].services[0].status, "stopped");
    assert_eq!(snap.apps[0].services[0].pid, Some(777));
    assert_eq!(snap.apps[0].services[0].exit_code, Some(2));
    let plan = d.supervisor.plan_start("web", "api", "/cwd").unwrap();
    assert_eq!(plan.kill_group, Some(777));
    assert!(plan.launch.is_some());
    start(&mut d, "api", 5, 50);
    assert!(!d.supervisor.restore_service("web", "api", Some(9), None));
}

#[test]
fn repeated_names_are_stopped_once() {
    let mut d: Daemon<u32> = Daemon::new();
    up_web(&mut d);
    start(&mut d, "api", 4242, 100);
    let (_, names, outs) = d
        .stop(Some("web".to_string()), ServiceSelector::Services(vec!["api".to_string(), "api".to_string()]))
        .unwrap();
    assert_eq!(names.len(), 2);
    assert_eq!(outs[0].kill_group, Some(4242));
    assert_eq!(outs[0].handle, Some(4242));
    assert_eq!(outs[1].kill_group, None);
    assert!(outs[1].handle.is_none());
}

#[test]
fn refresh_keeps_logs_of_an_exited_service() {
    let mut d: Daemon<u32> = Daemon::new();
    up_web(&mut d);
    start(&mut d, "api", 10, 100);
    d.supervisor.push_log("web", "api", LogEntry { timestamp: 1, stream: LogStream::Stderr, line: "bye".to_string() });
    let updates = vec![
        RefreshUpdate::Exited { app: "web".to_string(), service: "api".to_string(), exit_code: None },
        RefreshUpdate::Exited { app: "web".to_string(), service: "api".to_string(), exit_code: Some(9) },
    ];
    assert!(d.supervisor.refresh(0, 0, 0, updates));
    let snap = d.status(Some("web".to_string()), ServiceSelector::Service("api".to_string()), 100).unwrap();
    assert_eq!(snap.apps[0].services[0].status, "exited");
    assert_eq!(snap.apps[0].services[0].exit_code, None);
    let (_, chunks, _) = d.logs(Some("web".to_string()), ServiceSelector::Service("api".to_string()), None).unwrap();
    assert_eq!(chunks.len(), 1);
    assert_eq!(chunks[0].entry.line, "bye");
}
