use panel::log_manager::{LogError, LogManager, ServiceLines};
use panel::models::{LogLevel, Timestamp};

const NOW: Timestamp = Timestamp { secs: 1_800_000_000, nanos: 0 };

fn at(secs: i64) -> Timestamp {
    Timestamp { secs, nanos: 0 }
}

fn lines(items: &[&str]) -> Vec<String> {
    items.iter().map(|s| s.to_string()).collect()
}

fn sample() -> Vec<String> {
    lines(&[
        "2024-01-01 00:00:01 INFO boot",
        "2024-01-01 00:00:02 ERROR disk full",
        "2024-01-01 00:00:03 WARN slow",
        "2024-01-01 00:00:04 ERROR Net Down",
        "2024-01-01 00:00:05 DEBUG tick",
    ])
}

fn messages(resp: &panel::models::FilteredLogsResponse) -> Vec<String> {
    resp.logs.iter().map(|e| e.message.clone()).collect()
}

#[test]
fn level_error_returns_exactly_the_errors_oldest_first() {
    let all = lines(&["INFO one", "ERROR two", "WARN three", "ERROR four"]);
    let resp = LogManager::filter_lines("svc", &all, Some("error"), None, None, None, false, 1000, NOW);
    assert_eq!(messages(&resp), lines(&["ERROR two", "ERROR four"]));
    assert!(resp.logs.iter().all(|e| e.level == LogLevel::Error));
    assert_eq!(resp.total, 4);
    assert_eq!(resp.filtered, 2);
}

#[test]
fn level_all_returns_everything() {
    let all = lines(&["INFO one", "ERROR two", "WARN three"]);
    let resp = LogManager::filter_lines("svc", &all, Some("all"), None, None, None, false, 1000, NOW);
    assert_eq!(messages(&resp), all);
    let resp = LogManager::filter_lines("svc", &all, Some("ALL"), None, None, None, true, 1000, NOW);
    assert_eq!(messages(&resp), all);
}

#[test]
fn level_filter_ignores_case() {
    let resp =
        LogManager::filter_lines("svc", &sample(), Some("WARN"), None, None, None, false, 1000, NOW);
    assert_eq!(messages(&resp), lines(&["2024-01-01 00:00:03 WARN slow"]));
}

#[test]
fn unknown_level_matches_nothing() {
    let resp =
        LogManager::filter_lines("svc", &sample(), Some("fatal"), None, None, None, false, 1000, NOW);
    assert_eq!(resp.logs.len(), 0);
    assert_eq!(resp.filtered, 0);
    assert_eq!(resp.total, 5);
}

#[test]
fn no_filters_returns_all_lines_as_entries() {
    let resp = LogManager::filter_lines("svc", &sample(), None, None, None, None, false, 1000, NOW);
    assert_eq!(messages(&resp), sample());
    assert!(resp.logs.iter().all(|e| e.service_id == "svc"));
}

#[test]
fn time_bounds_are_inclusive() {
    let from = at(1_704_067_202);
    let to = at(1_704_067_204);
    let resp = LogManager::filter_lines(
        "svc", &sample(), None, Some(from), Some(to), None, false, 1000, NOW,
    );
    assert_eq!(
        messages(&resp),
        lines(&[
            "2024-01-01 00:00:02 ERROR disk full",
            "2024-01-01 00:00:03 WARN slow",
            "2024-01-01 00:00:04 ERROR Net Down",
        ])
    );
}

#[test]
fn search_ignores_case() {
    let resp = LogManager::filter_lines(
        "svc", &sample(), None, None, None, Some("net down"), false, 1000, NOW,
    );
    assert_eq!(messages(&resp), lines(&["2024-01-01 00:00:04 ERROR Net Down"]));
    let resp = LogManager::filter_lines(
        "svc", &sample(), None, None, None, Some("DISK"), false, 1000, NOW,
    );
    assert_eq!(messages(&resp), lines(&["2024-01-01 00:00:02 ERROR disk full"]));
}

#[test]
fn empty_search_asks_nothing() {
    let resp =
        LogManager::filter_lines("svc", &sample(), None, None, None, Some(""), false, 1000, NOW);
    assert_eq!(resp.logs.len(), 5);
}

#[test]
fn and_needs_every_predicate() {
    let resp = LogManager::filter_lines(
        "svc", &sample(), Some("error"), None, None, Some("disk"), false, 1000, NOW,
    );
    assert_eq!(messages(&resp), lines(&["2024-01-01 00:00:02 ERROR disk full"]));
}

#[test]
fn or_needs_one_predicate() {
    let resp = LogManager::filter_lines(
        "svc", &sample(), Some("warn"), None, None, Some("disk"), true, 1000, NOW,
    );
    assert_eq!(
        messages(&resp),
        lines(&["2024-01-01 00:00:02 ERROR disk full", "2024-01-01 00:00:03 WARN slow"])
    );
}

#[test]
fn limit_keeps_the_first_matches() {
    let resp = LogManager::filter_lines("svc", &sample(), None, None, None, None, false, 2, NOW);
    assert_eq!(
        messages(&resp),
        lines(&["2024-01-01 00:00:01 INFO boot", "2024-01-01 00:00:02 ERROR disk full"])
    );
    assert_eq!(resp.filtered, 2);
    assert_eq!(resp.total, 5);
    let resp = LogManager::filter_lines("svc", &sample(), None, None, None, None, false, 0, NOW);
    assert_eq!(resp.logs.len(), 0);
}

#[test]
fn filtered_logs_need_a_registered_service() {
    let mut m = LogManager::new("logs".to_string());
    let r = m.get_filtered_logs("svc", &sample(), None, None, None, None, false, 10, NOW);
    assert_eq!(r.err(), Some(LogError::ServiceNotFound));
    m.register_service("svc".to_string());
    let r = m.get_filtered_logs("svc", &sample(), Some("debug"), None, None, None, false, 10, NOW);
    assert_eq!(messages(&r.unwrap()), lines(&["2024-01-01 00:00:05 DEBUG tick"]));
}

#[test]
fn tail_lines_returns_the_last_n() {
    let all = lines(&["a", "b", "c", "d"]);
    assert_eq!(LogManager::tail_lines(&all, Some(2)), lines(&["c", "d"]));
    assert_eq!(LogManager::tail_lines(&all, Some(0)), Vec::<String>::new());
    assert_eq!(LogManager::tail_lines(&all, Some(4)), all);
    assert_eq!(LogManager::tail_lines(&all, Some(9)), all);
    assert_eq!(LogManager::tail_lines(&all, None), all);
}

#[test]
fn get_logs_needs_a_registered_service() {
    let mut m = LogManager::new("logs".to_string());
    let all = lines(&["a", "b", "c"]);
    assert_eq!(m.get_logs("svc", &all, Some(1)), Err(LogError::ServiceNotFound));
    m.register_service("svc".to_string());
    assert_eq!(m.get_logs("svc", &all, Some(1)), Ok(lines(&["c"])));
    assert_eq!(m.get_logs("svc", &all, None), Ok(all));
}

#[test]
fn combined_logs_are_ordered_by_time_across_services() {
    let m = LogManager::new("logs".to_string());
    let sources = vec![
        ServiceLines {
            service_id: "a".to_string(),
            lines: lines(&["2024-01-01 00:00:03 a3", "2024-01-01 00:00:01 a1"]),
        },
        ServiceLines {
            service_id: "b".to_string(),
            lines: lines(&["2024-01-01 00:00:02 b2", "2024-01-01 00:00:04 b4"]),
        },
    ];
    let resp = m.get_combined_logs(&sources, None, None, None, NOW);
    assert_eq!(
        messages(&resp),
        lines(&[
            "2024-01-01 00:00:01 a1",
            "2024-01-01 00:00:02 b2",
            "2024-01-01 00:00:03 a3",
            "2024-01-01 00:00:04 b4",
        ])
    );
    assert_eq!(resp.total, 4);
    assert_eq!(resp.filtered, 4);
    let ids: Vec<String> = resp.logs.iter().map(|e| e.service_id.clone()).collect();
    assert_eq!(ids, lines(&["a", "b", "a", "b"]));
}

#[test]
fn combined_logs_keep_the_order_of_equal_instants() {
    let m = LogManager::new("logs".to_string());
    let sources = vec![
        ServiceLines { service_id: "a".to_string(), lines: lines(&["x", "y"]) },
        ServiceLines { service_id: "b".to_string(), lines: lines(&["z"]) },
    ];
    let resp = m.get_combined_logs(&sources, None, None, None, NOW);
    assert_eq!(messages(&resp), lines(&["x", "y", "z"]));
    assert!(resp.logs.iter().all(|e| e.timestamp == NOW));
}

#[test]
fn combined_logs_tail_sources_then_filter_then_tail() {
    let m = LogManager::new("logs".to_string());
    let sources = vec![
        ServiceLines {
            service_id: "a".to_string(),
            lines: lines(&[
                "2024-01-01 00:00:01 ERROR old",
                "2024-01-01 00:00:05 ERROR a5",
                "2024-01-01 00:00:06 INFO a6",
            ]),
        },
        ServiceLines {
            service_id: "b".to_string(),
            lines: lines(&["2024-01-01 00:00:02 ERROR b2", "2024-01-01 00:00:07 error b7"]),
        },
    ];
    let resp = m.get_combined_logs(&sources, Some("Error"), None, Some(2), NOW);
    assert_eq!(resp.total, 4);
    assert_eq!(
        messages(&resp),
        lines(&["2024-01-01 00:00:05 ERROR a5", "2024-01-01 00:00:07 error b7"])
    );
    assert_eq!(resp.filtered, 2);
}

#[test]
fn combined_logs_search() {
    let m = LogManager::new("logs".to_string());
    let sources = vec![ServiceLines {
        service_id: "a".to_string(),
        lines: lines(&["alpha", "Beta", "gamma beta"]),
    }];
    let resp = m.get_combined_logs(&sources, None, Some("BETA"), None, NOW);
    assert_eq!(messages(&resp), lines(&["Beta", "gamma beta"]));
    assert_eq!(resp.total, 3);
}
