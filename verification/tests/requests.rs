use panel::docker_manager::{DockerManager, DEFAULT_TAIL, SHORT_ID_LENGTH};
use panel::metrics::MetricsCollector;
use panel::models::{Service, ServiceStatus, ServiceType, Timestamp};
use panel::server::{
    default_metrics, find_service, get_service_logs, parse_time_bound, requested_count,
    set_service_status, LogParams, LogRequest, DEFAULT_LIMIT, DEFAULT_LINES, STREAM_IDLE_MILLIS,
};

const T0: Timestamp = Timestamp { secs: 1_700_000_000, nanos: 0 };
const T1: Timestamp = Timestamp { secs: 1_700_000_100, nanos: 0 };

fn service(id: &str) -> Service {
    Service {
        id: id.to_string(),
        name: id.to_string(),
        service_type: ServiceType::NodeJs,
        status: ServiceStatus::Stopped,
        command: "npm run dev".to_string(),
        working_dir: ".".to_string(),
        port: None,
        auto_restart: true,
        restart_count: 0,
        created_at: T0,
        updated_at: T0,
        environment: Vec::new(),
    }
}

fn no_params() -> LogParams {
    LogParams {
        level: None,
        from: None,
        to: None,
        search: None,
        operator: None,
        limit: None,
        lines: None,
    }
}

fn text(s: &str) -> Option<String> {
    Some(s.to_string())
}

#[test]
fn request_without_filter_asks_for_the_last_lines() {
    assert_eq!(DEFAULT_LINES, 100);
    match get_service_logs(&no_params()) {
        LogRequest::Simple { lines } => assert_eq!(lines, 100),
        _ => panic!("expected a simple request"),
    }
    let p = LogParams { lines: text("25"), limit: text("7"), operator: text("or"), ..no_params() };
    match get_service_logs(&p) {
        LogRequest::Simple { lines } => assert_eq!(lines, 25),
        _ => panic!("expected a simple request"),
    }
    let p = LogParams { lines: text("many"), ..no_params() };
    match get_service_logs(&p) {
        LogRequest::Simple { lines } => assert_eq!(lines, 100),
        _ => panic!("expected a simple request"),
    }
}

#[test]
fn request_with_a_filter_is_a_filtered_query() {
    assert_eq!(DEFAULT_LIMIT, 1000);
    let p = LogParams { level: text("error"), ..no_params() };
    match get_service_logs(&p) {
        LogRequest::Filtered { level, from, to, search, use_or, limit } => {
            assert_eq!(level, text("error"));
            assert_eq!(from, None);
            assert_eq!(to, None);
            assert_eq!(search, None);
            assert!(!use_or);
            assert_eq!(limit, 1000);
        }
        _ => panic!("expected a filtered request"),
    }
}

#[test]
fn filtered_request_reads_every_parameter() {
    let p = LogParams {
        level: None,
        from: text("2024-01-01T00:00:00Z"),
        to: text("2024-01-01 00:01:00Z"),
        search: text("disk"),
        operator: text("or"),
        limit: text("50"),
        lines: text("3"),
    };
    match get_service_logs(&p) {
        LogRequest::Filtered { level, from, to, search, use_or, limit } => {
            assert_eq!(level, None);
            assert_eq!(from, Some(Timestamp { secs: 1_704_067_200, nanos: 0 }));
            assert_eq!(to, Some(Timestamp { secs: 1_704_067_260, nanos: 0 }));
            assert_eq!(search, text("disk"));
            assert!(use_or);
            assert_eq!(limit, 50);
        }
        _ => panic!("expected a filtered request"),
    }
}

#[test]
fn unreadable_bound_and_other_operator() {
    let p = LogParams { from: text("soon"), operator: text("OR"), limit: text("-1"), ..no_params() };
    match get_service_logs(&p) {
        LogRequest::Filtered { from, use_or, limit, .. } => {
            assert_eq!(from, None);
            assert!(!use_or);
            assert_eq!(limit, 1000);
        }
        _ => panic!("expected a filtered request"),
    }
}

#[test]
fn time_bound_is_read_strictly_then_relaxed() {
    let t = Some(Timestamp { secs: 1_704_067_200, nanos: 0 });
    assert_eq!(parse_time_bound("2024-01-01T00:00:00+00:00"), t);
    assert_eq!(parse_time_bound("2024-01-01 01:00:00+01:00"), t);
    assert_eq!(parse_time_bound("2024-01-01 00:00:00"), None);
    assert_eq!(parse_time_bound(""), None);
}

#[test]
fn requested_count_falls_back_to_the_default() {
    assert_eq!(requested_count(&text("12"), 5), 12);
    assert_eq!(requested_count(&text("0"), 5), 0);
    assert_eq!(requested_count(&text("1.5"), 5), 5);
    assert_eq!(requested_count(&text(""), 5), 5);
    assert_eq!(requested_count(&None, 5), 5);
    assert_eq!(requested_count(&text("99999999999999999999999"), 5), 5);
    assert_eq!(requested_count(&text("+7"), 5), 7);
}

#[test]
fn find_service_gives_the_first_match() {
    let list = vec![service("a"), service("b"), service("a")];
    assert_eq!(find_service(&list, "a"), Some(0));
    assert_eq!(find_service(&list, "b"), Some(1));
    assert_eq!(find_service(&list, "c"), None);
    assert_eq!(find_service(&Vec::new(), "a"), None);
}

#[test]
fn set_status_changes_only_the_first_match() {
    let mut list = vec![service("a"), service("b"), service("b")];
    assert!(set_service_status(&mut list, "b", ServiceStatus::Running, T1));
    assert_eq!(list[0].status, ServiceStatus::Stopped);
    assert_eq!(list[1].status, ServiceStatus::Running);
    assert_eq!(list[1].updated_at, T1);
    assert_eq!(list[1].created_at, T0);
    assert_eq!(list[1].command, "npm run dev");
    assert_eq!(list[2].status, ServiceStatus::Stopped);
    assert_eq!(list[2].updated_at, T0);
    assert!(!set_service_status(&mut list, "zzz", ServiceStatus::Error, T1));
    assert_eq!(list.len(), 3);
}

#[test]
fn default_metrics_are_those_of_a_stopped_service() {
    let m = default_metrics();
    assert_eq!(m.pid, None);
    assert_eq!(m.memory_usage, 0);
    assert_eq!(m.uptime, 0);
    assert_eq!(m.status, ServiceStatus::Stopped);
}

#[test]
fn container_id_is_cut_to_twelve_characters() {
    assert_eq!(SHORT_ID_LENGTH, 12);
    assert_eq!(DockerManager::short_id("0123456789abcdef0123"), "0123456789ab");
    assert_eq!(DockerManager::short_id("0123456789ab"), "0123456789ab");
    assert_eq!(DockerManager::short_id("abc"), "abc");
    assert_eq!(DockerManager::short_id(""), "");
    assert_eq!(DockerManager::short_id("ééééééééééééé"), "éééééééééééé");
}

#[test]
fn container_name_loses_its_leading_slashes() {
    let names = vec!["/db".to_string(), "/other".to_string()];
    assert_eq!(DockerManager::display_name(&names), "db");
    assert_eq!(DockerManager::display_name(&vec!["//a/b".to_string()]), "a/b");
    assert_eq!(DockerManager::display_name(&vec!["plain".to_string()]), "plain");
    assert_eq!(DockerManager::display_name(&vec!["///".to_string()]), "");
    assert_eq!(DockerManager::display_name(&Vec::new()), "");
}

#[test]
fn port_labels() {
    assert_eq!(DockerManager::port_label(Some(8080), 80), "8080:80");
    assert_eq!(DockerManager::port_label(None, 5432), "5432");
    assert_eq!(DockerManager::port_label(Some(0), 65535), "0:65535");
}

#[test]
fn tail_argument_defaults_to_a_hundred() {
    assert_eq!(DEFAULT_TAIL, 100);
    assert_eq!(DockerManager::tail_argument(None), "100");
    assert_eq!(DockerManager::tail_argument(Some(5)), "5");
    assert_eq!(DockerManager::tail_argument(Some(0)), "0");
}

#[test]
fn cpu_deltas_never_go_below_zero() {
    assert_eq!(DockerManager::cpu_deltas(500, 200, Some(9000), Some(5000)), (300, 4000));
    assert_eq!(DockerManager::cpu_deltas(200, 500, Some(5000), Some(9000)), (0, 0));
    assert_eq!(DockerManager::cpu_deltas(7, 7, None, Some(3)), (0, 0));
    assert_eq!(DockerManager::cpu_deltas(7, 0, Some(3), None), (7, 3));
}

#[test]
fn collector_tells_uptime_of_watched_processes() {
    let mut c = MetricsCollector::new();
    assert_eq!(c.uptime(5, T1), 0);
    c.register_process(5, T0);
    c.register_process(6, T1);
    assert_eq!(c.uptime(5, T1), 100);
    assert_eq!(c.uptime(6, T1), 0);
    assert_eq!(c.uptime(6, T0), 0);
    c.register_process(5, T1);
    assert_eq!(c.uptime(5, T1), 0);
    c.unregister_process(5);
    assert_eq!(c.uptime(5, Timestamp { secs: T1.secs + 9, nanos: 0 }), 0);
    assert_eq!(c.uptime(6, Timestamp { secs: T1.secs + 9, nanos: 0 }), 9);
    c.unregister_process(77);
}

#[test]
fn idle_stream_sleeps_a_tenth_of_a_second() {
    assert_eq!(STREAM_IDLE_MILLIS, 100);
}
