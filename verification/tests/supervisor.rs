use panel::models::{EnvVar, Service, ServiceStatus, ServiceType, Timestamp};
use panel::process_manager::{
    ChildProbe, MonitorAction, ProcessManager, ReclaimAction, RecoverAction, RespawnOutcome,
    RestartError, SpawnOutcome, StartError, BACKOFF_MILLIS, MONITOR_MILLIS, PORT_GRACE_MILLIS,
    PORT_RELEASE_MILLIS, RECOVERED_MONITOR_MILLIS, RESTART_PAUSE_MILLIS, SETTLE_MILLIS,
};
use panel::state_persistence::ServiceState;

const T0: Timestamp = Timestamp { secs: 1_700_000_000, nanos: 0 };
const T1: Timestamp = Timestamp { secs: 1_700_000_100, nanos: 500 };

fn service(id: &str, command: &str) -> Service {
    Service {
        id: id.to_string(),
        name: id.to_uppercase(),
        service_type: ServiceType::Go,
        status: ServiceStatus::Stopped,
        command: command.to_string(),
        working_dir: "/srv/app".to_string(),
        port: Some(8085),
        auto_restart: true,
        restart_count: 0,
        created_at: T0,
        updated_at: T0,
        environment: vec![EnvVar { key: "MODE".to_string(), value: "dev".to_string() }],
    }
}

fn manager(auto_restart: bool, max: u32) -> ProcessManager {
    ProcessManager::new(auto_restart, max, "/var/logs".to_string(), "/var/state.json".to_string())
}

fn started(m: &mut ProcessManager, id: &str, pid: u32) {
    let r = m.start_service(
        service(id, "air -c x"),
        true,
        "/usr/bin",
        SpawnOutcome::Running { pid },
        T0,
    );
    assert!(r.is_ok());
}

fn persisted(m: &ProcessManager) -> Vec<(String, u32)> {
    m.persisted_states().iter().map(|s| (s.service_id.clone(), s.pid)).collect()
}

fn saved(id: &str, pid: u32) -> ServiceState {
    ServiceState {
        service_id: id.to_string(),
        pid,
        started_at: T0,
        command: "air".to_string(),
        working_dir: "/srv/app".to_string(),
        environment: Vec::new(),
    }
}

#[test]
fn new_manager_manages_nothing() {
    let mut m = manager(true, 5);
    assert_eq!(m.list_services().len(), 0);
    assert_eq!(m.get_service_status("api", T0), None);
    assert_eq!(persisted(&m), Vec::<(String, u32)>::new());
    assert_eq!(m.state_file_path(), "/var/state.json");
    assert_eq!(m.logs_dir_path(), "/var/logs");
    assert_eq!(m.restart_policy(), (true, 5));
}

#[test]
fn empty_command_is_invalid() {
    let m = manager(true, 5);
    for command in ["", "   ", "\t\n"] {
        let r = m.plan_start(&service("api", command), true, "/usr/bin");
        assert!(matches!(r, Err(StartError::InvalidCommand)));
    }
}

#[test]
fn empty_command_is_reported_before_a_missing_directory() {
    let m = manager(true, 5);
    let r = m.plan_start(&service("api", ""), false, "/usr/bin");
    assert!(matches!(r, Err(StartError::InvalidCommand)));
}

#[test]
fn missing_working_directory_is_refused() {
    let m = manager(true, 5);
    let r = m.plan_start(&service("api", "air"), false, "/usr/bin");
    match r {
        Err(StartError::WorkingDirNotFound { working_dir }) => assert_eq!(working_dir, "/srv/app"),
        _ => panic!("expected a missing working directory"),
    }
}

#[test]
fn plan_splits_the_command_at_whitespace() {
    let m = manager(true, 5);
    let plan = m.plan_start(&service("api", "  npm   run\tdev "), true, "/usr/bin:/bin").unwrap();
    assert_eq!(plan.executable, "npm");
    assert_eq!(plan.args, vec!["run".to_string(), "dev".to_string()]);
    assert_eq!(plan.working_dir, "/srv/app");
    assert_eq!(plan.log_path, "/var/logs/api.log");
}

#[test]
fn plan_sets_path_and_then_the_service_variables() {
    let m = manager(true, 5);
    let plan = m.plan_start(&service("api", "air"), true, "/usr/bin:/bin").unwrap();
    let env: Vec<(String, String)> =
        plan.environment.iter().map(|e| (e.key.clone(), e.value.clone())).collect();
    assert_eq!(
        env,
        vec![
            ("PATH".to_string(), "/usr/bin:/bin".to_string()),
            ("MODE".to_string(), "dev".to_string()),
        ]
    );
    assert_eq!(plan.args.len(), 0);
    assert_eq!(plan.free_port, Some(8085));
}

#[test]
fn a_path_of_the_service_wins_over_the_inherited_one() {
    let m = manager(true, 5);
    let mut s = service("api", "air");
    s.environment.push(EnvVar { key: "PATH".to_string(), value: "/opt/bin".to_string() });
    s.port = None;
    let plan = m.plan_start(&s, true, "/usr/bin").unwrap();
    let mut child: std::collections::HashMap<String, String> = std::collections::HashMap::new();
    child.insert("HOME".to_string(), "/root".to_string());
    for var in &plan.environment {
        child.insert(var.key.clone(), var.value.clone());
    }
    assert_eq!(child.get("PATH"), Some(&"/opt/bin".to_string()));
    assert_eq!(child.get("MODE"), Some(&"dev".to_string()));
    assert_eq!(child.get("HOME"), Some(&"/root".to_string()));
    assert_eq!(plan.free_port, None);
}

#[test]
fn environment_keys_are_checked() {
    let mut s = service("api", "air");
    assert!(s.is_well_formed());
    s.environment.push(EnvVar { key: "OTHER".to_string(), value: "1".to_string() });
    assert!(s.is_well_formed());
    s.environment.push(EnvVar { key: "MODE".to_string(), value: "prod".to_string() });
    assert!(!s.is_well_formed());
    s.environment.clear();
    assert!(s.is_well_formed());
}

#[test]
fn command_parts_takes_the_first_token_as_executable() {
    let parts = ProcessManager::command_parts(vec!["php".to_string(), "artisan".to_string()]);
    assert_eq!(parts, Some(("php".to_string(), vec!["artisan".to_string()])));
    assert_eq!(ProcessManager::command_parts(Vec::new()), None);
    assert_eq!(
        ProcessManager::command_parts(vec!["air".to_string()]),
        Some(("air".to_string(), Vec::new()))
    );
}

#[test]
fn started_service_is_running_and_persisted() {
    let mut m = manager(true, 5);
    started(&mut m, "api", 4242);
    assert_eq!(m.get_service_status("api", T1), Some(ServiceStatus::Running));
    assert_eq!(persisted(&m), vec![("api".to_string(), 4242)]);
    let states = m.persisted_states();
    assert_eq!(states[0].started_at, T0);
    assert_eq!(states[0].command, "air -c x");
    assert_eq!(states[0].working_dir, "/srv/app");
    assert_eq!(states[0].environment.len(), 1);
    let listed = m.list_services();
    assert_eq!(listed.len(), 1);
    assert_eq!(listed[0].id, "api");
    assert_eq!(listed[0].status, ServiceStatus::Running);
    assert_eq!(listed[0].updated_at, T0);
    assert_eq!(listed[0].created_at, T0);
}

#[test]
fn failed_spawn_registers_nothing() {
    let mut m = manager(true, 5);
    let r = m.start_service(service("api", "air -v"), true, "/usr/bin", SpawnOutcome::Failed, T0);
    match r {
        Err(StartError::SpawnFailed { command, working_dir }) => {
            assert_eq!(command, "air -v");
            assert_eq!(working_dir, "/srv/app");
        }
        _ => panic!("expected a failed spawn"),
    }
    assert_eq!(m.get_service_status("api", T0), None);
    assert_eq!(persisted(&m).len(), 0);
}

#[test]
fn immediate_exit_carries_the_log_output() {
    let mut m = manager(true, 5);
    let r = m.start_service(
        service("api", "air"),
        true,
        "/usr/bin",
        SpawnOutcome::Exited { output: "bind: address in use".to_string() },
        T0,
    );
    match r {
        Err(StartError::ProcessExitedImmediately { output }) => {
            assert_eq!(output, "bind: address in use")
        }
        _ => panic!("expected an immediate exit"),
    }
    assert_eq!(m.get_service_status("api", T0), None);
    assert_eq!(persisted(&m).len(), 0);
}

#[test]
fn starting_again_replaces_the_entry_and_the_record() {
    let mut m = manager(true, 5);
    started(&mut m, "api", 1);
    started(&mut m, "web", 2);
    started(&mut m, "api", 3);
    assert_eq!(m.list_services().len(), 2);
    assert_eq!(persisted(&m), vec![("web".to_string(), 2), ("api".to_string(), 3)]);
    assert_eq!(m.get_process_info("api", T1).unwrap().pid, Some(3));
}

#[test]
fn stop_removes_entry_and_record() {
    let mut m = manager(true, 5);
    started(&mut m, "api", 1);
    started(&mut m, "web", 2);
    let action = m.stop_service("api");
    assert!(action.terminate);
    assert_eq!(m.get_service_status("api", T1), None);
    assert_eq!(m.get_service_status("web", T1), Some(ServiceStatus::Running));
    assert_eq!(persisted(&m), vec![("web".to_string(), 2)]);
}

#[test]
fn stop_of_a_never_started_service_does_nothing() {
    let mut m = manager(true, 5);
    started(&mut m, "web", 2);
    let action = m.stop_service("api");
    assert!(!action.terminate);
    assert_eq!(m.list_services().len(), 1);
    assert_eq!(persisted(&m), vec![("web".to_string(), 2)]);
}

#[test]
fn stop_twice_is_the_same_as_once() {
    let mut m = manager(true, 5);
    started(&mut m, "api", 1);
    assert!(m.stop_service("api").terminate);
    assert!(!m.stop_service("api").terminate);
    assert_eq!(m.list_services().len(), 0);
    assert_eq!(persisted(&m).len(), 0);
}

#[test]
fn restart_hands_out_the_last_descriptor() {
    let mut m = manager(true, 5);
    started(&mut m, "api", 1);
    let plan = m.restart_service("api").unwrap();
    assert!(plan.terminate);
    assert_eq!(plan.service.id, "api");
    assert_eq!(plan.service.command, "air -c x");
    assert_eq!(plan.service.status, ServiceStatus::Running);
    assert_eq!(m.get_service_status("api", T1), None);
    assert_eq!(persisted(&m).len(), 0);
}

#[test]
fn restart_of_a_never_started_service_fails() {
    let mut m = manager(true, 5);
    started(&mut m, "web", 2);
    assert_eq!(m.restart_service("api").err(), Some(RestartError::NeverStarted));
    assert_eq!(m.list_services().len(), 1);
}

#[test]
fn monitor_leaves_a_running_process_alone() {
    let mut m = manager(true, 5);
    started(&mut m, "api", 1);
    assert_eq!(m.monitor_tick("api", ChildProbe::Running, T1), MonitorAction::Continue);
    assert_eq!(m.get_service_status("api", T1), Some(ServiceStatus::Running));
}

#[test]
fn monitor_ends_for_a_stopped_service() {
    let mut m = manager(true, 5);
    assert_eq!(m.monitor_tick("api", ChildProbe::Running, T1), MonitorAction::Stop);
    assert_eq!(m.monitor_tick("api", ChildProbe::Exited, T1), MonitorAction::Stop);
    assert_eq!(m.list_services().len(), 0);
}

#[test]
fn monitor_ends_when_the_look_fails() {
    let mut m = manager(true, 5);
    started(&mut m, "api", 1);
    assert_eq!(m.monitor_tick("api", ChildProbe::Failed, T1), MonitorAction::Stop);
    assert_eq!(m.get_service_status("api", T1), Some(ServiceStatus::Running));
}

#[test]
fn crash_with_restarts_left_asks_for_a_respawn() {
    let mut m = manager(true, 2);
    started(&mut m, "api", 10);
    assert_eq!(m.monitor_tick("api", ChildProbe::Exited, T1), MonitorAction::Respawn);
    let s = &m.list_services()[0];
    assert_eq!(s.status, ServiceStatus::Error);
    assert_eq!(s.restart_count, 1);
    assert_eq!(s.updated_at, T1);
    assert_eq!(
        m.respawned("api", RespawnOutcome::Spawned { pid: 11 }, T1),
        MonitorAction::Continue
    );
    assert_eq!(m.list_services()[0].status, ServiceStatus::Running);
    assert_eq!(m.get_process_info("api", T1).unwrap().pid, Some(11));
    assert_eq!(persisted(&m), vec![("api".to_string(), 10)]);
}

#[test]
fn restarts_stop_at_the_limit() {
    let n = 3;
    let mut m = manager(true, n);
    started(&mut m, "api", 100);
    for attempt in 1..=n {
        assert_eq!(m.monitor_tick("api", ChildProbe::Exited, T1), MonitorAction::Respawn);
        assert_eq!(m.list_services()[0].restart_count, attempt);
        assert_eq!(
            m.respawned("api", RespawnOutcome::Spawned { pid: 100 + attempt }, T1),
            MonitorAction::Continue
        );
    }
    assert_eq!(m.monitor_tick("api", ChildProbe::Exited, T1), MonitorAction::Stop);
    let s = &m.list_services()[0];
    assert_eq!(s.status, ServiceStatus::Error);
    assert_eq!(s.restart_count, n);
    assert!(!m.stop_service("api").terminate);
}

#[test]
fn a_monitor_without_a_handle_ends() {
    let mut m = manager(true, 0);
    started(&mut m, "api", 100);
    assert_eq!(m.monitor_tick("api", ChildProbe::Exited, T1), MonitorAction::Stop);
    assert_eq!(m.monitor_tick("api", ChildProbe::Exited, T1), MonitorAction::Stop);
    assert_eq!(m.monitor_tick("api", ChildProbe::Running, T1), MonitorAction::Stop);
    assert_eq!(m.list_services()[0].restart_count, 0);
}

#[test]
fn without_auto_restart_a_crash_ends_the_monitor() {
    let mut m = manager(false, 5);
    started(&mut m, "api", 100);
    assert_eq!(m.monitor_tick("api", ChildProbe::Exited, T1), MonitorAction::Stop);
    let s = &m.list_services()[0];
    assert_eq!(s.status, ServiceStatus::Error);
    assert_eq!(s.restart_count, 0);
}

#[test]
fn failed_respawn_ends_the_monitor() {
    let mut m = manager(true, 5);
    started(&mut m, "api", 100);
    assert_eq!(m.monitor_tick("api", ChildProbe::Exited, T1), MonitorAction::Respawn);
    assert_eq!(m.respawned("api", RespawnOutcome::Failed, T1), MonitorAction::Stop);
    assert_eq!(m.list_services()[0].status, ServiceStatus::Error);
}

#[test]
fn respawn_of_a_stopped_service_registers_nothing() {
    let mut m = manager(true, 5);
    assert_eq!(
        m.respawned("api", RespawnOutcome::Spawned { pid: 5 }, T1),
        MonitorAction::Continue
    );
    assert_eq!(m.list_services().len(), 0);
}

#[test]
fn respawn_plan_uses_the_service_variables_only() {
    let mut m = manager(true, 5);
    started(&mut m, "api", 100);
    let plan = m.respawn_plan("api").unwrap();
    assert_eq!(plan.executable, "air");
    assert_eq!(plan.args, vec!["-c".to_string(), "x".to_string()]);
    assert_eq!(plan.working_dir, "/srv/app");
    assert_eq!(plan.log_path, "/var/logs/api.log");
    assert_eq!(plan.environment.len(), 1);
    assert_eq!(plan.environment[0].key, "MODE");
    assert_eq!(plan.free_port, None);
    assert!(m.respawn_plan("web").is_none());
}

#[test]
fn respawn_plan_needs_an_executable() {
    let mut m = manager(true, 5);
    m.recover_one(&saved("api", 1), &vec![service("api", "  ")], true, T0);
    assert!(m.respawn_plan("api").is_none());
}

#[test]
fn blank_command_is_refused_whatever_came_of_a_spawn() {
    let mut m = manager(true, 3);
    for outcome in [
        SpawnOutcome::Running { pid: 1 },
        SpawnOutcome::Failed,
        SpawnOutcome::Exited { output: "x".to_string() },
    ] {
        let r = m.start_service(service("a", "   "), true, "/usr/bin", outcome, T0);
        assert!(matches!(r, Err(StartError::InvalidCommand)));
        assert_eq!(m.get_service_status("a", T0), None);
        assert_eq!(persisted(&m).len(), 0);
    }
    let r = m.start_service(service("a", ""), false, "/usr/bin", SpawnOutcome::Running { pid: 1 }, T0);
    assert!(matches!(r, Err(StartError::InvalidCommand)));
    assert_eq!(m.list_services().len(), 0);
}

#[test]
fn missing_directory_is_refused_whatever_came_of_a_spawn() {
    let mut m = manager(true, 3);
    started(&mut m, "web", 9);
    let r = m.start_service(
        service("a", "air"),
        false,
        "/usr/bin",
        SpawnOutcome::Running { pid: 1 },
        T0,
    );
    match r {
        Err(StartError::WorkingDirNotFound { working_dir }) => assert_eq!(working_dir, "/srv/app"),
        _ => panic!("expected a missing working directory"),
    }
    assert_eq!(m.get_service_status("a", T0), None);
    assert_eq!(persisted(&m), vec![("web".to_string(), 9)]);
    assert_eq!(m.list_services().len(), 1);
}

#[test]
fn start_returns_the_plan_the_process_runs_under() {
    let mut m = manager(true, 3);
    let plan = m
        .start_service(
            service("api", "npm run dev"),
            true,
            "/usr/bin:/bin",
            SpawnOutcome::Running { pid: 77 },
            T0,
        )
        .unwrap();
    assert_eq!(plan.executable, "npm");
    assert_eq!(plan.args, vec!["run".to_string(), "dev".to_string()]);
    assert_eq!(plan.working_dir, "/srv/app");
    assert_eq!(plan.log_path, "/var/logs/api.log");
    assert_eq!(plan.free_port, Some(8085));
    let env: Vec<(String, String)> =
        plan.environment.iter().map(|e| (e.key.clone(), e.value.clone())).collect();
    assert_eq!(
        env,
        vec![
            ("PATH".to_string(), "/usr/bin:/bin".to_string()),
            ("MODE".to_string(), "dev".to_string()),
        ]
    );
    assert_eq!(m.get_service_status("api", T0), Some(ServiceStatus::Running));
    assert_eq!(persisted(&m), vec![("api".to_string(), 77)]);
}

#[test]
fn recovery_of_a_live_known_process() {
    let mut m = manager(true, 5);
    let known = vec![service("web", "npm start"), service("api", "air")];
    let action = m.recover_one(&saved("api", 777), &known, true, T1);
    assert_eq!(action, RecoverAction::Monitor { pid: 777 });
    let info = m.process_info("api", Some(10), T1).unwrap();
    assert_eq!(info.pid, Some(777));
    assert_eq!(info.status, ServiceStatus::Running);
    assert_eq!(persisted(&m), vec![("api".to_string(), 777)]);
    assert_eq!(m.persisted_states()[0].started_at, T0);
    assert!(!m.stop_service("api").terminate);
}

#[test]
fn recovery_of_a_dead_process_drops_the_record() {
    let mut m = manager(true, 5);
    m.recover_one(&saved("web", 1), &vec![service("web", "x")], true, T0);
    let action = m.recover_one(&saved("api", 777), &vec![service("api", "air")], false, T1);
    assert_eq!(action, RecoverAction::Dropped);
    assert_eq!(m.get_service_status("api", T1), None);
    assert_eq!(persisted(&m), vec![("web".to_string(), 1)]);
    assert_eq!(m.list_services().len(), 1);
}

#[test]
fn recovery_of_an_unknown_service_drops_the_record() {
    let mut m = manager(true, 5);
    let action = m.recover_one(&saved("ghost", 777), &vec![service("api", "air")], true, T1);
    assert_eq!(action, RecoverAction::Dropped);
    assert_eq!(m.list_services().len(), 0);
    assert_eq!(persisted(&m).len(), 0);
}

#[test]
fn recovery_takes_the_last_descriptor_of_an_id() {
    let mut m = manager(true, 5);
    let known = vec![service("api", "first"), service("api", "second")];
    m.recover_one(&saved("api", 7), &known, true, T1);
    assert_eq!(m.list_services()[0].command, "second");
}

#[test]
fn recover_processes_reads_the_process_table() {
    let mut m = manager(true, 5);
    let known = vec![service("api", "air"), service("web", "npm start")];
    let watch =
        m.recover_processes(vec![saved("api", 4_000_000_000), saved("ghost", 1)], &known, T1);
    assert_eq!(watch.len(), 0);
    assert_eq!(m.list_services().len(), 0);
    assert_eq!(persisted(&m).len(), 0);
}

#[test]
fn recovered_process_found_dead_becomes_stopped() {
    let mut m = manager(true, 5);
    m.recover_one(&saved("api", 777), &vec![service("api", "air")], true, T0);
    assert_eq!(m.resolve_status("api", true, T1), Some(ServiceStatus::Running));
    assert_eq!(persisted(&m).len(), 1);
    assert_eq!(m.resolve_status("api", false, T1), Some(ServiceStatus::Stopped));
    assert_eq!(persisted(&m).len(), 0);
    let s = &m.list_services()[0];
    assert_eq!(s.status, ServiceStatus::Stopped);
    assert_eq!(s.updated_at, T1);
}

#[test]
fn status_of_a_process_with_a_handle_ignores_the_table() {
    let mut m = manager(true, 5);
    started(&mut m, "api", 4_000_000_000);
    assert_eq!(m.resolve_status("api", false, T1), Some(ServiceStatus::Running));
    assert_eq!(m.get_service_status("api", T1), Some(ServiceStatus::Running));
    assert_eq!(persisted(&m).len(), 1);
}

#[test]
fn status_of_a_recovered_process_that_is_gone() {
    let mut m = manager(true, 5);
    m.recover_one(&saved("api", 4_000_000_000), &vec![service("api", "air")], true, T0);
    assert_eq!(m.get_service_status("api", T1), Some(ServiceStatus::Stopped));
    assert_eq!(persisted(&m).len(), 0);
}

#[test]
fn recovered_monitor_ticks() {
    let mut m = manager(true, 5);
    assert_eq!(m.recovered_tick("api", true, T1), MonitorAction::Stop);
    m.recover_one(&saved("api", 777), &vec![service("api", "air")], true, T0);
    assert_eq!(m.recovered_tick("api", true, T1), MonitorAction::Continue);
    assert_eq!(persisted(&m).len(), 1);
    assert_eq!(m.recovered_tick("api", false, T1), MonitorAction::Stop);
    assert_eq!(m.list_services()[0].status, ServiceStatus::Stopped);
    assert_eq!(persisted(&m).len(), 0);
}

#[test]
fn recovered_monitor_reads_the_process_table() {
    let mut m = manager(true, 5);
    m.recover_one(&saved("api", 4_000_000_000), &vec![service("api", "air")], true, T0);
    assert_eq!(m.monitor_recovered_process("api", 4_000_000_000, T1), MonitorAction::Stop);
    assert_eq!(m.list_services()[0].status, ServiceStatus::Stopped);
    assert_eq!(m.monitor_recovered_process("none", 4_000_000_000, T1), MonitorAction::Stop);
}

#[test]
fn process_info_reports_uptime_in_whole_seconds() {
    let mut m = manager(true, 5);
    started(&mut m, "api", 5);
    let info = m.process_info("api", Some(2048), T1).unwrap();
    assert_eq!(info.pid, Some(5));
    assert_eq!(info.uptime, 100);
    assert_eq!(info.memory_usage, 2048);
    assert_eq!(info.status, ServiceStatus::Running);
    let just_before = Timestamp { secs: 1_700_000_001, nanos: 0 };
    let mut n = manager(true, 5);
    let r =
        n.start_service(service("api", "air"), true, "/usr/bin", SpawnOutcome::Running { pid: 5 }, T1);
    assert!(r.is_ok());
    assert_eq!(n.process_info("api", None, just_before).unwrap().uptime, 0);
    let later = Timestamp { secs: 1_700_000_102, nanos: 499 };
    assert_eq!(n.process_info("api", None, later).unwrap().uptime, 1);
    assert_eq!(n.process_info("api", None, later).unwrap().memory_usage, 0);
    assert!(n.process_info("web", Some(1), later).is_none());
}

#[test]
fn process_info_of_a_vanished_process_has_no_memory() {
    let mut m = manager(true, 5);
    started(&mut m, "api", 4_000_000_000);
    let info = m.get_process_info("api", T1).unwrap();
    assert_eq!(info.memory_usage, 0);
    assert_eq!(info.uptime, 100);
    assert!(m.get_process_info("web", T1).is_none());
}

#[test]
fn port_owner_is_the_first_listed_process() {
    assert_eq!(ProcessManager::check_port_in_use(true, "1234\n5678\n"), Some(1234));
    assert_eq!(ProcessManager::check_port_in_use(true, "  42  \n"), Some(42));
    assert_eq!(ProcessManager::check_port_in_use(true, "\n\n  77\n"), Some(77));
    assert_eq!(ProcessManager::check_port_in_use(true, ""), None);
    assert_eq!(ProcessManager::check_port_in_use(true, "   \n"), None);
    assert_eq!(ProcessManager::check_port_in_use(true, "abc\n12"), None);
    assert_eq!(ProcessManager::check_port_in_use(true, "-5"), None);
    assert_eq!(ProcessManager::check_port_in_use(false, "1234"), None);
}

#[test]
fn port_reclaim_asks_first_and_forces_later() {
    assert_eq!(ProcessManager::kill_process_by_port(None), ReclaimAction::Nothing);
    assert_eq!(
        ProcessManager::kill_process_by_port(Some(9)),
        ReclaimAction::Terminate { pid: 9 }
    );
    assert_eq!(ProcessManager::escalate_port_kill(9, None), ReclaimAction::Nothing);
    assert_eq!(ProcessManager::escalate_port_kill(9, Some(9)), ReclaimAction::Kill { pid: 9 });
    assert_eq!(ProcessManager::escalate_port_kill(9, Some(10)), ReclaimAction::Kill { pid: 9 });
}

#[test]
fn recover_processes_takes_over_a_live_process() {
    let mut m = manager(true, 5);
    let known = vec![service("api", "air"), service("web", "npm start")];
    let watch = m.recover_processes(
        vec![saved("web", 4_000_000_000), saved("api", 1), saved("ghost", 1)],
        &known,
        T1,
    );
    assert_eq!(watch.len(), 1);
    assert_eq!(watch[0].service_id, "api");
    assert_eq!(watch[0].pid, 1);
    assert_eq!(persisted(&m), vec![("api".to_string(), 1)]);
    let listed = m.list_services();
    assert_eq!(listed.len(), 1);
    assert_eq!(listed[0].id, "api");
    assert_eq!(listed[0].status, ServiceStatus::Running);
    assert_eq!(m.get_service_status("api", T1), Some(ServiceStatus::Running));
    assert_eq!(m.monitor_recovered_process("api", 1, T1), MonitorAction::Continue);
    assert!(!m.stop_service("api").terminate);
}

#[test]
fn recover_processes_keeps_what_is_managed() {
    let mut m = manager(true, 5);
    started(&mut m, "db", 50);
    let watch = m.recover_processes(vec![saved("api", 4_000_000_000)], &Vec::new(), T1);
    assert_eq!(watch.len(), 0);
    assert_eq!(m.get_service_status("db", T1), Some(ServiceStatus::Running));
    assert_eq!(persisted(&m).len(), 0);
}

#[test]
fn fixed_delays() {
    assert_eq!(SETTLE_MILLIS, 500);
    assert_eq!(MONITOR_MILLIS, 1000);
    assert_eq!(BACKOFF_MILLIS, 2000);
    assert_eq!(RECOVERED_MONITOR_MILLIS, 5000);
    assert_eq!(RESTART_PAUSE_MILLIS, 1000);
    assert_eq!(PORT_GRACE_MILLIS, 2000);
    assert_eq!(PORT_RELEASE_MILLIS, 500);
}

#[test]
fn recover_with_follows_the_liveness_told() {
    let mut m = manager(true, 5);
    started(&mut m, "db", 50);
    let known = vec![service("api", "air"), service("web", "npm start"), service("db", "pg")];
    let watch = m.recover_with(
        vec![saved("api", 10), saved("web", 20), saved("ghost", 30), saved("db", 60)],
        &known,
        &vec![true, false, true],
        T1,
    );
    let watched: Vec<(String, u32)> =
        watch.iter().map(|r| (r.service_id.clone(), r.pid)).collect();
    assert_eq!(watched, vec![("api".to_string(), 10)]);
    assert_eq!(persisted(&m), vec![("api".to_string(), 10)]);
    assert_eq!(m.resolve_status("api", true, T1), Some(ServiceStatus::Running));
    assert_eq!(m.resolve_status("web", true, T1), None);
    assert_eq!(m.resolve_status("db", true, T1), Some(ServiceStatus::Running));
    assert_eq!(m.process_info("db", None, T1).unwrap().pid, Some(50));
    assert_eq!(m.list_services().len(), 2);
}

#[test]
fn recover_with_handles_a_service_recorded_twice() {
    let mut m = manager(true, 5);
    let known = vec![service("api", "air")];
    let watch = m.recover_with(
        vec![saved("api", 10), saved("api", 11)],
        &known,
        &vec![true, true],
        T1,
    );
    assert_eq!(watch.len(), 2);
    assert_eq!(persisted(&m), vec![("api".to_string(), 11)]);
    assert_eq!(m.process_info("api", None, T1).unwrap().pid, Some(11));
    let mut n = manager(true, 5);
    let watch = n.recover_with(
        vec![saved("api", 10), saved("api", 11)],
        &known,
        &vec![true, false],
        T1,
    );
    assert_eq!(watch.len(), 1);
    assert_eq!(persisted(&n).len(), 0);
    assert_eq!(n.process_info("api", None, T1).unwrap().pid, Some(10));
}

#[test]
fn unreadable_state_file_is_no_prior_state() {
    assert_eq!(ProcessManager::prior_state(None).len(), 0);
    let read = ProcessManager::prior_state(Some(vec![saved("api", 3), saved("web", 4)]));
    let ids: Vec<(String, u32)> = read.iter().map(|s| (s.service_id.clone(), s.pid)).collect();
    assert_eq!(ids, vec![("api".to_string(), 3), ("web".to_string(), 4)]);
    let mut m = manager(true, 5);
    let watch = m.recover_processes(ProcessManager::prior_state(None), &Vec::new(), T0);
    assert_eq!(watch.len(), 0);
    assert_eq!(persisted(&m).len(), 0);
}
